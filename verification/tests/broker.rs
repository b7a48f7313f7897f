//! Submitting jobs to a broker and polling for them.

use bits::actions::registry::ActionCatalog;
use bits::actions::{ActionError, TargetResult};
use bits::bits::{
    final_result, identity_of, lease_lookup, poll_answered, slot_from_job_id, Bits, LeaseLookup,
    PollOutcome, PollStep, Started, SubmissionAdmission, SubmitOutcome,
};
use bits::config::routes::RouteFactory;
use bits::db::memory::MemoryStore;
use bits::db::{new_lease, BrokerLeaseStore, ClaimResult, DbError, PersistentJobRecord};
use bits::job::Job;
use bits::json::parse_yaml;
use bits::request_id::{decode, encode, encode_with_fixed_random, CUSTOM_EPOCH_SECS};
use bits::result::JobResult;
use bits::routing::switch::Switch;
use bits::time::{Span, Timestamp};

fn now() -> Timestamp {
    let now = chrono::Utc::now();
    Timestamp {
        secs: now.timestamp(),
        nanos: now.timestamp_subsec_nanos(),
    }
}

fn at(secs: i64) -> Timestamp {
    Timestamp { secs, nanos: 0 }
}

fn job(id: &str, request: &str) -> Job {
    Job::new_with_id(id.into(), parse_yaml(request).unwrap(), 0)
}

fn bits_for_request_id_tests(broker_id: &str, durable: bool) -> Bits {
    Bits::from_router_for_tests(
        Switch::new(vec![]),
        RouteFactory::new(ActionCatalog::builtin()),
        broker_id.to_string(),
        "http://127.0.0.1:1/job".to_string(),
        Span {
            secs: 0,
            nanos: 10_000_000,
        },
        None,
        durable,
        Span::from_secs(60),
    )
}

fn running(config: &str) -> Bits {
    match Bits::from_config(config, ActionCatalog::builtin()) {
        Ok(Started::Running(bits)) => bits,
        Ok(Started::AwaitStore(_)) => panic!("expected no store"),
        Err(e) => panic!("should build: {}", e.to_text()),
    }
}

fn with_target(site: &str) -> Bits {
    running(&format!(
        r#"
bits:
  site: {site}
  env: dev
targets:
  my_target:
    type: http
    url: http://127.0.0.1:1
"#
    ))
}

fn accepted(outcome: SubmitOutcome) -> String {
    assert!(matches!(outcome, SubmitOutcome::Accepted(_)));
    outcome
        .expect_accepted("submit should not be rejected")
        .id
}

#[test]
fn request_id_runtime_poll_rejects_legacy_tilde_id_as_not_found() {
    let mut memory_store = MemoryStore::new();
    memory_store
        .upsert_broker_lease(
            "legacy-owner",
            "http://127.0.0.1:1/job",
            Span::from_secs(60),
        )
        .expect("lease should upsert");
    let bits = bits_for_request_id_tests("bol-dev-1", true);

    let outcome = bits.poll_elsewhere("legacy-owner~550e8400-e29b-41d4-a716-446655440000");

    assert!(matches!(outcome, PollStep::Done(PollOutcome::NotFound)));
}

#[test]
fn request_id_runtime_submit_with_legacy_tilde_id_generates_new_format_id() {
    let mut bits = bits_for_request_id_tests("bol-dev-42", false);
    let valid_id = encode("bol", "dev", 42, now()).unwrap();

    let preserved = accepted(bits.submit(job(&valid_id, r#"{"case": "valid"}"#)));
    let replaced = accepted(bits.submit(job(
        "bol-dev-42~550e8400-e29b-41d4-a716-446655440000",
        r#"{"case": "legacy"}"#,
    )));

    assert_eq!(preserved, valid_id);
    assert_ne!(replaced, "bol-dev-42~550e8400-e29b-41d4-a716-446655440000");
    assert!(!replaced.contains('~'));
    assert!(decode(&replaced).is_ok());
}

#[test]
fn request_id_runtime_route_handle_submit_with_legacy_tilde_id_generates_new_format_id() {
    let mut bits = with_target("bol");
    let route_val = parse_yaml(r#"[{"my_route": ["target::my_target"]}]"#).unwrap();
    let handle = bits.add_route("my_route", &route_val).expect("add_route");
    let valid_id = encode(handle.site(), handle.env(), handle.broker_slot(), now()).unwrap();
    let legacy_id = format!(
        "{}-{}-{}~550e8400-e29b-41d4-a716-446655440000",
        handle.site(),
        handle.env(),
        handle.broker_slot()
    );

    let preserved = accepted(handle.submit(&mut bits, job(&valid_id, r#"{"case": "valid"}"#)));
    let replaced = accepted(handle.submit(&mut bits, job(&legacy_id, r#"{"case": "legacy"}"#)));

    assert_eq!(preserved, valid_id);
    assert_ne!(replaced, legacy_id);
    assert!(!replaced.contains('~'));
    assert!(decode(&replaced).is_ok());
}

#[test]
fn submit_via_route_handle_pollable_via_bits() {
    let mut bits = with_target("tst");
    let route_val = parse_yaml(r#"[{"my_route": ["target::my_target"]}]"#).unwrap();
    let handle = bits.add_route("my_route", &route_val).expect("add_route");

    let id = accepted(handle.submit(&mut bits, Job::new(parse_yaml("{}").unwrap(), 0)));

    assert!(bits.connect(&id));
    let (outcome, _) = bits.after_wait(&id, false);
    assert!(matches!(
        outcome,
        PollOutcome::Ready(_) | PollOutcome::Pending { .. }
    ));
}

#[test]
fn route_handles_share_jobs_map_pollable_via_bits() {
    let mut bits = with_target("tst");
    let route_val_a = parse_yaml(r#"[{"route_a": ["target::my_target"]}]"#).unwrap();
    let route_val_b = parse_yaml(r#"[{"route_b": ["target::my_target"]}]"#).unwrap();
    let handle_a = bits
        .add_route("route_a", &route_val_a)
        .expect("add_route_a");
    let handle_b = bits
        .add_route("route_b", &route_val_b)
        .expect("add_route_b");

    let job_a = accepted(handle_a.submit(&mut bits, Job::new(parse_yaml("{n: 1}").unwrap(), 0)));
    let job_b = accepted(handle_b.submit(&mut bits, Job::new(parse_yaml("{n: 2}").unwrap(), 0)));

    for id in [&job_a, &job_b] {
        assert!(bits.connect(id));
        let (outcome, _) = bits.after_wait(id, false);
        assert!(matches!(
            outcome,
            PollOutcome::Ready(_) | PollOutcome::Pending { .. }
        ));
    }
    assert_eq!(bits.added_route_names(), vec!["route_a", "route_b"]);
    assert_eq!(bits.route_names(), vec!["route_a", "route_b"]);
    assert_eq!((handle_a.place(), handle_b.place()), (0, 1));
    assert_eq!(handle_b.name(), "route_b");
}

#[test]
fn routes_that_are_wrong_are_not_added() {
    let mut bits = with_target("tst");
    assert!(bits
        .add_route("r", &parse_yaml("[{r: [check::nobody]}]").unwrap())
        .is_err());
    assert!(bits.add_route("r", &parse_yaml("[{r: []}]").unwrap()).is_err());
    assert!(bits.route_names().is_empty());
}

#[test]
fn full_brokers_take_no_more_jobs() {
    let mut bits = running("bits:\n  site: a\n  env: b\n  max_jobs: 1\n");
    let first = accepted(bits.submit(Job::new(parse_yaml("{}").unwrap(), 0)));
    assert!(matches!(
        bits.submit(Job::new(parse_yaml("{}").unwrap(), 0)),
        SubmitOutcome::Overloaded
    ));
    // A job that was taken over from another broker is not refused.
    accepted(bits.submit_with_state(Job::new(parse_yaml("{}").unwrap(), 0), true));
    bits.remove_job(&first);
    assert_eq!(bits.jobs.len(), 1);
    let issued = accepted(bits.submit_at(
        Job::new(parse_yaml("{}").unwrap(), 0),
        SubmissionAdmission::BypassLimitAlreadyPersisted,
        at(CUSTOM_EPOCH_SECS + 60),
    ));
    assert_eq!(slot_from_job_id(&issued).unwrap(), "a-b-0");
}

#[test]
fn results_are_delivered_once() {
    let mut bits = with_target("tst");
    let id = accepted(bits.submit(Job::new(parse_yaml("{}").unwrap(), 0)));
    assert!(bits.take_result(&id).is_none());
    bits.complete(&id, JobResult::Cancelled);
    match bits.take_result(&id) {
        Some(delivery) => {
            assert!(matches!(delivery.result, JobResult::Cancelled));
            assert!(!delivery.cleanup);
        }
        None => panic!("expected a result"),
    }
    assert!(bits.take_result(&id).is_none());
    assert!(!bits.connect(&id));
    assert!(matches!(
        bits.poll_elsewhere(&id),
        PollStep::Done(PollOutcome::NotFound)
    ));
}

#[test]
fn clients_have_a_while_to_come_back() {
    let mut bits = with_target("tst");
    let id = accepted(bits.submit(Job::new(parse_yaml("{}").unwrap(), 0)));
    assert!(bits.connect(&id));
    assert!(bits.jobs.get(&id).unwrap().client_present(1_000));
    bits.disconnect(&id, 1_000);
    let deadline = 1_000 + 5_000_000_000;
    assert!(bits.jobs.get(&id).unwrap().client_present(deadline - 1));
    assert!(!bits.jobs.get(&id).unwrap().client_present(deadline));
    bits.cancel(&id);
    assert!(bits.jobs.get(&id).unwrap().is_cancelled());
    bits.cancel("nobody");
    let (outcome, cleanup) = bits.after_wait(&id, true);
    assert!(matches!(outcome, PollOutcome::Pending { .. }));
    assert!(!cleanup);
}

#[test]
fn sweeping_takes_what_nobody_waits_for() {
    let mut bits = with_target("tst");
    let awaited = accepted(bits.submit(Job::new(parse_yaml("{}").unwrap(), 0)));
    let unfinished = accepted(bits.submit(Job::new(parse_yaml("{}").unwrap(), 0)));
    let stored = accepted(bits.submit(Job::new(parse_yaml("{}").unwrap(), 0)));
    assert!(bits.connect(&awaited));
    for id in [&unfinished, &stored] {
        assert!(bits.connect(id));
        bits.disconnect(id, 1_000);
    }
    assert!(bits.mark_persisted(&stored));
    assert!(!bits.mark_persisted("nobody"));
    bits.complete(&awaited, JobResult::Cancelled);
    bits.complete(&stored, JobResult::Cancelled);
    assert!(bits.sweep(2_000).is_empty());
    let swept = bits.sweep(60_000_000_000);
    assert_eq!(swept.len(), 1);
    assert_eq!(swept[0].id, stored);
    assert!(swept[0].cleanup);
    assert!(bits.jobs.get(&awaited).is_some());
    assert!(bits.jobs.get(&unfinished).is_some());
    assert!(bits.jobs.get(&stored).is_none());
}

fn issued_by(site: &str, slot: u16) -> String {
    encode_with_fixed_random(site, "dev", slot, at(CUSTOM_EPOCH_SECS), [1, 2, 3, 4, 5]).unwrap()
}

#[test]
fn polls_elsewhere_follow_the_owner() {
    let bits = bits_for_request_id_tests("bol-dev-1", true);
    let foreign = issued_by("bol", 2);
    match bits.poll_elsewhere(&foreign) {
        PollStep::LookupOwner { broker_id } => assert_eq!(broker_id, "bol-dev-2"),
        _ => panic!("expected to look the owner up"),
    }
    match bits.poll_elsewhere(&issued_by("bol", 1)) {
        PollStep::Claim { expected } => assert_eq!(expected, "bol-dev-1"),
        _ => panic!("expected a claim"),
    }
    let lease = new_lease("bol-dev-2", "http://x", Span::from_secs(10), at(100));
    let lookup = lease_lookup(Some(Ok(Some(lease.copy()))), at(105));
    assert!(matches!(lookup, LeaseLookup::Active(_)));
    assert!(matches!(
        bits.poll_after_owner(&foreign, lookup),
        PollStep::Proxy(_)
    ));
    let expired = lease_lookup(Some(Ok(Some(lease))), at(110));
    assert!(matches!(expired, LeaseLookup::MissingOrExpired));
    assert!(matches!(
        bits.poll_after_owner(&foreign, expired),
        PollStep::Claim { .. }
    ));
    let unknown = lease_lookup(Some(Err(DbError::Backend("down".into()))), at(1));
    assert!(matches!(
        bits.poll_after_owner(&foreign, unknown),
        PollStep::Done(PollOutcome::Pending { .. })
    ));
    assert!(matches!(
        bits.poll_after_heir(&foreign, lease_lookup(None, at(1))),
        PollStep::Done(PollOutcome::Pending { .. })
    ));
}

#[test]
fn claims_recover_jobs_or_give_them_up() {
    let bits = bits_for_request_id_tests("bol-dev-1", true);
    let foreign = issued_by("bol", 2);
    let ours = issued_by("bol", 1);
    let record = PersistentJobRecord {
        job_id: foreign.clone(),
        broker_id: "bol-dev-1".into(),
        original_request: parse_yaml("{}").unwrap(),
        user: parse_yaml("{}").unwrap(),
        metadata: parse_yaml("{}").unwrap(),
        created_at: at(0),
    };
    assert!(matches!(
        bits.poll_after_claim(&foreign, Ok(ClaimResult::Claimed(record))),
        PollStep::Recover(_)
    ));
    assert!(matches!(
        bits.poll_after_claim(&foreign, Ok(ClaimResult::NotFound)),
        PollStep::Done(PollOutcome::JobLost)
    ));
    assert!(matches!(
        bits.poll_after_claim(&ours, Ok(ClaimResult::NotFound)),
        PollStep::Done(PollOutcome::NotFound)
    ));
    assert!(matches!(
        bits.poll_after_claim(
            &foreign,
            Ok(ClaimResult::Active {
                owner_broker_id: "bol-dev-3".into()
            })
        ),
        PollStep::LookupHeir { .. }
    ));
    assert!(matches!(
        bits.poll_after_claim(&foreign, Err(DbError::Conflict("x".into()))),
        PollStep::Done(PollOutcome::Pending { .. })
    ));
    assert!(matches!(
        poll_answered(&foreign, None),
        PollOutcome::Pending { .. }
    ));
    assert!(matches!(
        poll_answered(&foreign, Some(PollOutcome::JobLost)),
        PollOutcome::JobLost
    ));
}

#[test]
fn broker_names_read_back() {
    assert_eq!(
        identity_of("bol-dev-42"),
        Some(("bol".to_string(), "dev".to_string(), 42))
    );
    assert_eq!(identity_of("bol-dev-65536"), None);
    assert_eq!(identity_of("bol"), None);
    let odd = bits_for_request_id_tests("legacy", false);
    assert_eq!((odd.site(), odd.env(), odd.broker_slot()), ("tst", "tst", 0));
    assert_eq!(odd.broker_id(), "legacy");
}

#[test]
fn outcomes_of_routing_become_results() {
    let words = |outcome| final_result(outcome).to_text();
    assert_eq!(
        words(Ok(TargetResult::Complete(JobResult::Error {
            message: "m".into()
        }))),
        "Error(m)"
    );
    assert_eq!(
        words(Ok(TargetResult::Reject {
            reason: "r".into(),
            silent: true
        })),
        "Error(r)"
    );
    assert_eq!(words(Err(ActionError::Cancelled)), "Cancelled");
    assert_eq!(words(Err(ActionError::ClientGone)), "ClientGone");
    assert_eq!(
        words(Err(ActionError::QueueFull("q".into()))),
        "Overloaded(Queue full: q)"
    );
    assert_eq!(
        words(Err(ActionError::UserLimitExceeded("u".into()))),
        "RateLimited(User limit exceeded: u)"
    );
    assert_eq!(
        words(Err(ActionError::Timeout("t".into()))),
        "Failed(Timeout: t)"
    );
}

#[test]
fn accepted_jobs_are_counted_until_they_leave() {
    let mut bits = running("bits:\n  site: a\n  env: b\n  max_jobs: 3\n");
    for n in 1..4 {
        accepted(bits.submit(Job::new(parse_yaml("{}").unwrap(), 0)));
        assert_eq!(bits.jobs.len(), n);
    }
    for _ in 0..2 {
        assert!(matches!(
            bits.submit(Job::new(parse_yaml("{}").unwrap(), 0)),
            SubmitOutcome::Overloaded
        ));
        assert_eq!(bits.jobs.len(), 3);
    }
}

#[test]
fn records_are_due_for_unfinished_jobs_without_one() {
    let mut bits = with_target("tst");
    let id = accepted(bits.submit(Job::new(parse_yaml("{a: 1}").unwrap(), 0)));
    let record = bits.record_due(&id).expect("a record is due");
    assert_eq!(record.job_id, id);
    assert_eq!(record.broker_id, bits.broker_id());
    assert_eq!(record.original_request.to_text(), r#"{"a":1}"#);
    assert!(bits.mark_persisted(&id));
    assert!(bits.record_due(&id).is_none());
    let other = accepted(bits.submit(Job::new(parse_yaml("{}").unwrap(), 0)));
    bits.complete(&other, JobResult::Cancelled);
    assert!(bits.record_due(&other).is_none());
    assert!(bits.record_due("nobody").is_none());
}

#[test]
fn new_identifiers_carry_the_second_of_their_submission() {
    let mut bits = running("bits:\n  site: a\n  env: b\n");
    for secs in [0, 1, 86_400] {
        let id = accepted(bits.submit_at(
            Job::new(parse_yaml("{}").unwrap(), 0),
            SubmissionAdmission::EnforceLimit,
            at(CUSTOM_EPOCH_SECS + secs),
        ));
        assert_eq!(decode(&id).unwrap().timestamp, at(CUSTOM_EPOCH_SECS + secs));
    }
    // Before the epoch there is no new identifier.
    let job = Job::new_with_id("mine".into(), parse_yaml("{}").unwrap(), 0);
    let early = at(CUSTOM_EPOCH_SECS - 1);
    let kept = accepted(bits.submit_at(job, SubmissionAdmission::EnforceLimit, early));
    assert_eq!(kept, "mine");
}
