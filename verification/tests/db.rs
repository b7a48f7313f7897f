//! Durable records: the store in memory, keys, and the decisions of the other stores.

use std::collections::HashSet;

use base64::Engine;
use bits::db::memory::{memory_job_key, MemoryStore};
use bits::db::nats::{
    broker_lease_key, hex_token, live_owners, nats_job_key, nats_lease, next_reclaim,
    reserve_after_create, reserve_after_race, reserve_after_read, slot_after_write, slots_listed,
    user_slot_key, user_slot_pattern, BucketOpening, BucketStep, ClaimStep, NatsClaim, NatsStore,
    Read, ReclaimStep, ReserveStep, Scanned, SlotStep, SlotWrite, Write,
};
use bits::db::tikv::{
    broker_key, is_write_conflict, slot_after_commit, slot_value, tikv_job_key, CommitProblem,
    TiKvClaim, TiKvStore, TxnRead, TxnWrite,
};
use bits::db::{
    durable_job_present, new_lease, presence_of, slots_unsupported, user_limits_unsupported,
    BrokerLeaseRecord, BrokerLeaseStore, BrokerSlotStore, ClaimResult, DbError, JobStore,
    PersistentJobRecord, UserLimitEntry, UserLimitStore,
};
use bits::json::parse_yaml;
use bits::request_id::{decode, encode_with_fixed_random, CUSTOM_EPOCH_SECS};
use bits::time::{Span, Timestamp, LAST_SECOND};

fn at(secs: i64) -> Timestamp {
    Timestamp { secs, nanos: 0 }
}

fn sample_job(job_id: &str, broker_id: &str) -> PersistentJobRecord {
    PersistentJobRecord {
        job_id: job_id.to_string(),
        broker_id: broker_id.to_string(),
        original_request: parse_yaml(r#"{"foo": "bar"}"#).unwrap(),
        user: parse_yaml(r#"{"name": "alice"}"#).unwrap(),
        metadata: parse_yaml(r#"{"cost": 1}"#).unwrap(),
        created_at: at(1_767_225_600),
    }
}

fn deterministic_job_id(site: &str, env: &str, broker_slot: u16) -> String {
    encode_with_fixed_random(
        site,
        env,
        broker_slot,
        at(CUSTOM_EPOCH_SECS),
        [0x01, 0x23, 0x45, 0x67, 0x89],
    )
    .unwrap()
}

fn decoded_path(prefix: &str, separator: &str, job_id: &str) -> String {
    let decoded = decode(job_id).unwrap();
    format!(
        "{prefix}{}{separator}{}{separator}{}{separator}{}",
        decoded.site, decoded.env, decoded.broker_slot, job_id
    )
}

fn whole_id_base64url(job_id: &str) -> String {
    base64::engine::general_purpose::URL_SAFE_NO_PAD.encode(job_id.as_bytes())
}

// The store in memory.

#[test]
fn job_key_uses_decoded_site_env_slot() {
    let mut store = MemoryStore::new();
    let job_id = deterministic_job_id("bol", "dev", 42);
    let expected_key = decoded_path("", "/", &job_id);

    store.upsert_job(sample_job(&job_id, "broker-1")).unwrap();

    assert!(
        store.jobs.contains_key(&expected_key),
        "memory jobs should be keyed by decoded (site, env, slot, public_id) {expected_key:?}"
    );
    assert!(
        !store.jobs.contains_key(&job_id),
        "memory jobs must not be keyed by the whole public ID"
    );
    assert_eq!(memory_job_key(&job_id).unwrap(), expected_key);
    assert!(durable_job_present(&mut store, &job_id).unwrap());
}

#[test]
fn job_key_rejects_invalid_public_id() {
    let mut store = MemoryStore::new();

    let result = store.upsert_job(sample_job("not-a-new-format-id", "broker-1"));

    assert!(
        result.is_err(),
        "malformed public job IDs should be rejected at the persistence boundary"
    );
    assert!(
        store.jobs.entries.is_empty(),
        "invalid job IDs must not be silently stored"
    );
    assert!(memory_job_key("not-a-new-format-id").is_err());
    assert!(store.delete_job("not-a-new-format-id").is_err());
}

#[test]
fn job_key_delete_uses_decoded_site_env_slot() {
    let mut store = MemoryStore::new();
    let job_id = deterministic_job_id("bol", "dev", 42);
    let expected_key = decoded_path("", "/", &job_id);
    store
        .jobs
        .insert(expected_key, sample_job(&job_id, "broker-1"));

    store.delete_job(&job_id).unwrap();

    assert!(
        store.jobs.entries.is_empty(),
        "delete_job should remove records using the decoded (site, env, slot, public_id) key \
         derived from the public job_id"
    );
    assert!(!durable_job_present(&mut store, &job_id).unwrap());
}

#[test]
fn presence_is_what_a_claim_tells() {
    let job_id = deterministic_job_id("bol", "dev", 42);
    assert!(!presence_of(Ok(ClaimResult::NotFound)).unwrap());
    assert!(presence_of(Ok(ClaimResult::Claimed(sample_job(&job_id, "b")))).unwrap());
    let owner_broker_id = "b".to_string();
    assert!(presence_of(Ok(ClaimResult::Active { owner_broker_id })).unwrap());
    assert!(matches!(
        presence_of(Err(DbError::Conflict("c".into()))),
        Err(DbError::Conflict(_))
    ));

    let mut store = MemoryStore::new();
    assert!(!durable_job_present(&mut store, &job_id).unwrap());
    assert!(durable_job_present(&mut store, "not-a-new-format-id").is_err());
    store.upsert_job(sample_job(&job_id, "broker-1")).unwrap();
    assert!(durable_job_present(&mut store, &job_id).unwrap());
    match store.claim_if_owner(&job_id, "nobody", "broker-2").unwrap() {
        ClaimResult::Active { owner_broker_id } => assert_eq!(owner_broker_id, "broker-1"),
        _ => panic!("the owner should be unchanged"),
    }
}

#[test]
fn upsert_claim_delete_job() {
    let mut store = MemoryStore::new();
    let job_id = deterministic_job_id("bol", "dev", 1);
    store.upsert_job(sample_job(&job_id, "broker-1")).unwrap();

    match store
        .claim_if_owner(&job_id, "broker-1", "broker-2")
        .unwrap()
    {
        ClaimResult::Claimed(record) => assert_eq!(record.broker_id, "broker-2"),
        _ => panic!("expected claimed"),
    }

    store.delete_job(&job_id).unwrap();
    assert!(matches!(
        store
            .claim_if_owner(&job_id, "broker-2", "broker-3")
            .unwrap(),
        ClaimResult::NotFound
    ));
}

#[test]
fn claim_requires_expected_owner() {
    let mut store = MemoryStore::new();
    let job_id = deterministic_job_id("bol", "dev", 2);
    store.upsert_job(sample_job(&job_id, "broker-1")).unwrap();

    assert!(matches!(
        store
            .claim_if_owner(&job_id, "broker-9", "broker-2")
            .unwrap(),
        ClaimResult::Active { .. }
    ));

    assert!(matches!(
        store
            .claim_if_owner(&job_id, "broker-1", "broker-2")
            .unwrap(),
        ClaimResult::Claimed(_)
    ));
}

#[test]
fn claim_idempotent_for_same_claimant() {
    let mut store = MemoryStore::new();
    let job_id = deterministic_job_id("bol", "dev", 4);
    store.upsert_job(sample_job(&job_id, "broker-1")).unwrap();

    store
        .claim_if_owner(&job_id, "broker-1", "broker-9")
        .unwrap();

    let result = store
        .claim_if_owner(&job_id, "broker-1", "broker-9")
        .unwrap();

    match result {
        ClaimResult::Claimed(record) => assert_eq!(record.broker_id, "broker-9"),
        _ => panic!("expected claimed"),
    }
}

#[test]
fn broker_lease_lifecycle() {
    let mut store = MemoryStore::new();
    store
        .upsert_broker_lease(
            "broker-2",
            "http://broker-2.bits-headless.default.svc.cluster.local:3000",
            Span::from_secs(300),
        )
        .unwrap();

    let lease = store.get_broker_lease("broker-2").unwrap().unwrap();
    assert_eq!(lease.broker_id, "broker-2");

    store.delete_broker_lease("broker-2").unwrap();
    assert!(store.get_broker_lease("broker-2").unwrap().is_none());
}

#[test]
fn slot_first_allocation_is_zero() {
    let mut store = MemoryStore::new();
    assert_eq!(store.allocate_broker_slot("ams", "prd").unwrap(), 0);
}

#[test]
fn slot_counter_is_independent_per_site_env() {
    let mut store = MemoryStore::new();

    assert_eq!(store.allocate_broker_slot("ams", "prd").unwrap(), 0);
    assert_eq!(store.allocate_broker_slot("ams", "dev").unwrap(), 0);
    assert_eq!(store.allocate_broker_slot("lon", "prd").unwrap(), 0);
    assert_eq!(store.allocate_broker_slot("ams", "prd").unwrap(), 1);
    assert_eq!(store.allocate_broker_slot("ams", "dev").unwrap(), 1);
}

#[test]
fn slot_allocation_is_safe_under_concurrent_callers() {
    let mut store = MemoryStore::new();
    let caller_count = 128_u16;
    let mut slots = Vec::new();
    for _ in 0..caller_count {
        slots.push(store.allocate_broker_slot("ams", "prd").unwrap());
    }
    slots.sort_unstable();

    let unique_slots: HashSet<u16> = slots.iter().copied().collect();
    assert_eq!(unique_slots.len(), usize::from(caller_count));
    assert_eq!(slots, (0..caller_count).collect::<Vec<_>>());
}

#[test]
fn slot_counter_persists_within_store_instance() {
    let mut store = MemoryStore::new();
    assert_eq!(store.allocate_broker_slot("ams", "prd").unwrap(), 0);

    let shared_store = &mut store;
    assert_eq!(shared_store.allocate_broker_slot("ams", "prd").unwrap(), 1);
    assert_eq!(store.allocate_broker_slot("ams", "prd").unwrap(), 2);
}

#[test]
fn slot_exhaustion_returns_actionable_error_at_u16_max() {
    let mut store = MemoryStore::new();

    for expected_slot in 0..=u16::MAX {
        let slot = store.allocate_broker_slot("ams", "prd").unwrap();
        assert_eq!(slot, expected_slot);
    }

    let error = store.allocate_broker_slot("ams", "prd").unwrap_err();

    match &error {
        DbError::SlotExhausted { site, env, ceiling } => {
            assert_eq!(site, "ams");
            assert_eq!(env, "prd");
            assert_eq!(*ceiling, u16::MAX);
        }
        _ => panic!("expected SlotExhausted"),
    }

    let message = error.to_text();
    assert!(message.contains(&u16::MAX.to_string()));
    assert!(message.contains("ceiling"));
    assert!(message.contains("version byte"));
    assert!(message.contains("bump"));
    assert_eq!(error.code(), "PERSISTENCE_SLOT_EXHAUSTED");
    assert!(!error.is_retryable());
}

#[test]
fn calls_leave_the_other_parts_of_a_store_alone() {
    let mut store = MemoryStore::new();
    let job_id = deterministic_job_id("bol", "dev", 1);
    let other_id = deterministic_job_id("bol", "dev", 2);
    store.upsert_job(sample_job(&job_id, "b1")).unwrap();
    store.renew_lease_at("b1", "http://b1", Span::from_secs(10), at(100));
    store.reserve_user_slot_memory("s", "u", "j", "b1", at(100));
    store.allocate_broker_slot("bol", "dev").unwrap();

    store.upsert_job(sample_job(&other_id, "b1")).unwrap();
    store.delete_job(&other_id).unwrap();
    assert!(matches!(
        store.claim_if_owner(&job_id, "b3", "b2").unwrap(),
        ClaimResult::Active { .. }
    ));
    assert!(matches!(
        store.claim_if_owner(&other_id, "b1", "b2").unwrap(),
        ClaimResult::NotFound
    ));
    assert!(matches!(
        store.claim_if_owner(&job_id, "b1", "b2").unwrap(),
        ClaimResult::Claimed(_)
    ));
    store.renew_lease_at("b2", "http://b2", Span::from_secs(10), at(100));
    store.delete_broker_lease("b2").unwrap();
    store.reserve_user_slot_memory("s", "u", "k", "b1", at(100));
    store.release_user_slot_memory("s", "u", "k");
    assert_eq!(store.reclaim_user_slots_memory(at(101)), 0);

    assert_eq!(store.jobs.entries.len(), 1);
    assert!(store.get_broker_lease("b1").unwrap().is_some());
    assert_eq!(store.list_user_slots("s", "u").unwrap().len(), 1);
    assert_eq!(store.allocate_broker_slot("bol", "dev").unwrap(), 1);
}

#[test]
fn one_of_two_claimants_wins() {
    let mut store = MemoryStore::new();
    let job_id = deterministic_job_id("bol", "dev", 4);
    store.upsert_job(sample_job(&job_id, "a")).unwrap();
    let first = store.claim_if_owner(&job_id, "a", "b").unwrap();
    let second = store.claim_if_owner(&job_id, "a", "c").unwrap();
    match first {
        ClaimResult::Claimed(record) => {
            assert_eq!(record.original_request.to_text(), r#"{"foo":"bar"}"#);
            assert_eq!(record.created_at, at(1_767_225_600));
        }
        _ => panic!("expected claimed"),
    }
    match second {
        ClaimResult::Active { owner_broker_id } => assert_eq!(owner_broker_id, "b"),
        _ => panic!("expected active"),
    }
}

#[test]
fn leases_end_after_their_time() {
    let lease = new_lease("b", "http://b", Span::from_secs(30), at(100));
    assert_eq!(lease.lease_until, at(130));
    let endless = new_lease("b", "http://b", Span::from_secs(u64::MAX), at(100));
    assert_eq!(endless.lease_until, at(160));
    let last = new_lease("b", "http://b", Span::from_secs(30), at(LAST_SECOND));
    assert_eq!(
        last.lease_until,
        Timestamp {
            secs: LAST_SECOND,
            nanos: 999_999_999
        }
    );
}

#[test]
fn user_slots_are_counted_once_and_given_back() {
    let mut store = MemoryStore::new();
    assert!(store.numbers_left());
    assert_eq!(store.reserve_user_slot("s", "ada", "j1", "b1").unwrap(), 1);
    assert_eq!(store.reserve_user_slot("s", "ada", "j2", "b1").unwrap(), 2);
    assert_eq!(store.reserve_user_slot("s", "ada", "j1", "b1").unwrap(), 1);
    assert_eq!(store.reserve_user_slot("s", "bob", "j1", "b1").unwrap(), 3);
    assert_eq!(store.list_user_slots("s", "ada").unwrap().len(), 2);
    store.release_user_slot("s", "ada", "j1").unwrap();
    let left = store.list_user_slots("s", "ada").unwrap();
    assert_eq!(left.len(), 1);
    assert_eq!(left[0].job_id, "j2");
    store.release_user_slot("s", "ada", "j1").unwrap();
    assert_eq!(store.list_user_slots("s", "bob").unwrap().len(), 1);
    assert_eq!(store.reserve_user_slot("s", "ada", "j1", "b1").unwrap(), 4);
}

#[test]
fn reservation_numbers_are_never_used_again() {
    let mut store = MemoryStore::new();
    let mut last = 0;
    for round in 0..4 {
        let seq = store.reserve_user_slot("s", "ada", "j", "b").unwrap();
        assert!(seq > last, "round {round}");
        last = seq;
        store.release_user_slot("s", "ada", "j").unwrap();
        store.renew_lease_at("b", "http://b", Span::from_secs(1), at(1));
        assert_eq!(store.reclaim_user_slots_memory(at(100)), 0);
    }
}

#[test]
fn user_slots_of_the_dead_are_reclaimed() {
    let mut store = MemoryStore::new();
    store.renew_lease_at("alive", "http://a", Span::from_secs(10), at(100));
    store.renew_lease_at("dead", "http://d", Span::from_secs(5), at(100));
    store.reserve_user_slot_memory("s", "u", "j1", "alive", at(100));
    store.reserve_user_slot_memory("s", "u", "j2", "dead", at(100));
    store.reserve_user_slot_memory("s", "u", "j3", "unknown", at(100));
    assert_eq!(store.reclaim_user_slots_memory(at(107)), 2);
    let left = store.list_user_slots_memory("s", "u");
    assert_eq!(left.len(), 1);
    assert_eq!(left[0].owner_broker_id, "alive");
    assert_eq!(store.reclaim_user_slots_memory(at(107)), 0);
}

#[test]
fn stores_say_what_they_do_not_do() {
    assert_eq!(
        slots_unsupported("bol", "dev").to_text(),
        "backend error: broker slot allocation is not implemented for this persistence backend \
         (site 'bol', env 'dev')"
    );
    assert_eq!(
        user_limits_unsupported().to_text(),
        "backend error: user-limit store not implemented for this persistence backend"
    );
    assert_eq!(DbError::Conflict("x".into()).to_text(), "conflict: x");
}

// Keys and decisions of the store in NATS.

#[test]
fn nats_job_key_uses_structured_subject() {
    let job_id = deterministic_job_id("bol", "dev", 42);
    let expected_subject = decoded_path("jobs.", ".", &job_id);
    let current_subject = nats_job_key(&job_id).unwrap();

    assert_eq!(current_subject, expected_subject);
    assert_ne!(current_subject, whole_id_base64url(&job_id));
}

#[test]
fn nats_job_key_rejects_invalid_public_id() {
    let malformed_id = "not-a-new-format-id";
    assert!(
        decode(malformed_id).is_err(),
        "test fixture must be malformed"
    );

    let current_subject = nats_job_key(malformed_id);

    assert!(current_subject.is_err());
    assert_ne!(
        current_subject.unwrap_or_default(),
        whole_id_base64url(malformed_id)
    );
}

#[test]
fn nats_job_key_delete_uses_structured_subject() {
    let job_id = deterministic_job_id("bol", "dev", 42);
    let expected_subject = decoded_path("jobs.", ".", &job_id);
    let delete_subject = nats_job_key(&job_id).unwrap();

    assert_eq!(delete_subject, expected_subject);
    assert_ne!(delete_subject, whole_id_base64url(&job_id));
}

#[test]
fn invalid_ids_are_quoted() {
    assert_eq!(
        nats_job_key("tilde~\"1\"").unwrap_err().to_text(),
        "backend error: invalid public job ID \"tilde~\\\"1\\\"\": request ID must be exactly 26 characters, got 9"
    );
}

#[test]
fn tokens_are_hexadecimal_and_keys_nest() {
    assert_eq!(hex_token("a.b>"), "612e623e");
    assert_eq!(hex_token("é"), "c3a9");
    assert_eq!(hex_token(""), "");
    assert_eq!(user_slot_key("s", "u", "j"), "ul.73.75.6a");
    assert_eq!(user_slot_pattern("s", "u"), "ul.73.75.>");
    assert_eq!(broker_lease_key("bol-dev-0"), "brokers.bol-dev-0");
    assert_eq!(
        bits::db::nats::broker_slot_counter_key("bol", "dev"),
        "counters.broker_slot.bol.dev"
    );
    assert_ne!(user_slot_key("a.b", "c", "d"), user_slot_key("a", "b.c", "d"));
}

#[test]
fn nats_claims_follow_the_record() {
    let job_id = deterministic_job_id("bol", "dev", 1);
    let mut claim = NatsClaim::new(&job_id, "old", "new").unwrap();
    assert!(NatsClaim::new("x", "old", "new").is_err());
    let found = |owner: &str| Read::Found {
        value: sample_job(&job_id, owner),
        revision: 7,
    };
    assert!(matches!(
        claim.after_read(Read::Missing),
        ClaimStep::Done(Ok(ClaimResult::NotFound))
    ));
    assert!(matches!(
        claim.after_read(found("other")),
        ClaimStep::Done(Ok(ClaimResult::Active { .. }))
    ));
    assert!(matches!(
        claim.after_read(found("new")),
        ClaimStep::Done(Ok(ClaimResult::Claimed(_)))
    ));
    for attempt in 0..3u8 {
        assert_eq!(claim.attempts, attempt);
        let record = match claim.after_read(found("old")) {
            ClaimStep::Update { record, revision } => {
                assert_eq!(revision, 7);
                assert_eq!(record.broker_id, "new");
                record
            }
            _ => panic!("expected an update"),
        };
        assert!(matches!(
            claim.after_update(record, Write::Outrun),
            ClaimStep::Read
        ));
    }
    // After the last attempt the record is only reported.
    match claim.after_read(found("old")) {
        ClaimStep::Done(Ok(ClaimResult::Active { owner_broker_id })) => {
            assert_eq!(owner_broker_id, "old")
        }
        _ => panic!("expected active"),
    }
    match claim.after_read(Read::Failed("gone".into())) {
        ClaimStep::Done(Err(e)) => {
            assert_eq!(e.to_text(), "backend error: re-read after CAS retries: gone")
        }
        _ => panic!("expected an error"),
    }
}

#[test]
fn nats_slots_are_counted_up() {
    let step = |read| bits::db::nats::slot_after_read("bol", "dev", read);
    assert!(matches!(
        step(Read::Missing),
        SlotStep::Write(SlotWrite::Create)
    ));
    assert!(matches!(
        step(Read::Removed { revision: 3 }),
        SlotStep::Write(SlotWrite::Recreate { revision: 3 })
    ));
    let write = match step(Read::Found {
        value: 5,
        revision: 9,
    }) {
        SlotStep::Write(write) => write,
        _ => panic!("expected a write"),
    };
    assert_eq!(write.value(), 6);
    assert!(matches!(
        slot_after_write(write, Write::Stored { revision: 10 }),
        SlotStep::Done(Ok(5))
    ));
    assert!(matches!(
        slot_after_write(SlotWrite::Create, Write::Outrun),
        SlotStep::Read
    ));
    assert!(matches!(
        step(Read::Found {
            value: 65536,
            revision: 1
        }),
        SlotStep::Done(Err(DbError::SlotExhausted { .. }))
    ));
    assert!(matches!(
        step(Read::Found {
            value: 65535,
            revision: 1
        }),
        SlotStep::Write(SlotWrite::Advance { used: 65535, .. })
    ));
}

#[test]
fn nats_buckets_are_created_updated_or_found() {
    let step = BucketOpening::Create.after("b", Some("exists".into()));
    let step = match step {
        BucketStep::Try(next) => next.after("b", Some("denied".into())),
        _ => panic!("expected another try"),
    };
    match step {
        BucketStep::Try(next) => match next.after("b", Some("missing".into())) {
            BucketStep::Failed(words) => assert_eq!(
                words,
                "bucket 'b': create failed (exists), update failed (denied), \
                 get also failed: missing"
            ),
            _ => panic!("expected a failure"),
        },
        _ => panic!("expected another try"),
    }
    assert!(matches!(
        BucketOpening::Create.after("b", None),
        BucketStep::Open
    ));
}

fn nats_store() -> NatsStore {
    NatsStore::new(
        "nats://x".into(),
        "jobs".into(),
        "leases".into(),
        Span::from_secs(30),
        3,
        Span {
            secs: 5,
            nanos: 250_000_000,
        },
    )
}

#[test]
fn nats_buckets_have_their_settings() {
    let store = nats_store();
    assert_eq!(store.jobs_plan().bucket, "jobs");
    assert!(!store.jobs_plan().in_memory);
    assert_eq!(store.leases_plan().max_age, Some(Span::from_secs(60)));
    let limits = store.user_limits_plan();
    assert_eq!(limits.bucket, "leases-userlimits");
    assert!(limits.in_memory);
    assert_eq!(limits.limit_markers, Some(store.user_limit_delete_marker_ttl()));
    assert_eq!(
        store.timed_out().to_text(),
        "backend error: NATS init timed out after 5.2s"
    );
    let tuned = nats_store()
        .with_subscription_capacity(9)
        .with_user_limit_tombstone_ttl(Span::from_secs(1))
        .with_user_limit_delete_marker_ttl(Span::from_secs(2));
    assert_eq!(tuned.subscription_capacity, Some(9));
    assert_eq!(tuned.user_limit_tombstone_ttl(), Span::from_secs(1));
    assert_eq!(tuned.user_limits_plan().limit_markers, Some(Span::from_secs(2)));
}

fn entry(job_id: &str, owner: &str) -> UserLimitEntry {
    UserLimitEntry {
        scope: "s".into(),
        user: "u".into(),
        job_id: job_id.into(),
        owner_broker_id: owner.into(),
        seq: 0,
        created_at: at(0),
    }
}

fn scanned<T>(key: &str, revision: u64, value: Option<Result<T, String>>) -> Scanned<T> {
    Scanned {
        key: key.into(),
        revision,
        value,
    }
}

#[test]
fn nats_reservations_take_their_revision_as_number() {
    match reserve_after_read("s", "u", "j", "b", at(9), Read::Missing) {
        ReserveStep::Create(entry) => {
            assert_eq!(entry.seq, 0);
            assert_eq!(entry.owner_broker_id, "b");
            assert_eq!(entry.created_at, at(9));
        }
        _ => panic!("expected a creation"),
    }
    assert!(matches!(
        reserve_after_read(
            "s",
            "u",
            "j",
            "b",
            at(9),
            Read::Found {
                value: (),
                revision: 4
            }
        ),
        ReserveStep::Done(Ok(4))
    ));
    assert!(matches!(
        reserve_after_create(Write::Stored { revision: 8 }),
        ReserveStep::Done(Ok(8))
    ));
    assert!(matches!(
        reserve_after_create(Write::Outrun),
        ReserveStep::ReadWinner
    ));
    assert_eq!(reserve_after_race(Read::Removed { revision: 6 }).unwrap(), 6);
    assert_eq!(reserve_after_race(Read::Missing).unwrap(), 0);
    assert!(reserve_after_race(Read::Failed("x".into())).is_err());
}

#[test]
fn nats_snapshots_are_listed_and_reclaimed() {
    let snapshot = || {
        vec![
            scanned("ul.1", 3, Some(Ok(entry("j1", "alive")))),
            scanned("ul.2", 4, None),
            scanned("ul.3", 5, Some(Ok(entry("j3", "dead")))),
        ]
    };
    let listed = slots_listed(snapshot()).unwrap();
    assert_eq!(listed.len(), 2);
    assert_eq!((listed[0].seq, listed[1].seq), (3, 5));
    let leases = vec![
        scanned(
            "brokers.alive",
            1,
            Some(Ok(new_lease("alive", "http://a", Span::from_secs(10), at(100)))),
        ),
        scanned(
            "brokers.dead",
            2,
            Some(Ok(new_lease("dead", "http://d", Span::from_secs(5), at(100)))),
        ),
    ];
    let live = live_owners(leases, at(107)).unwrap();
    assert_eq!(live, vec!["alive"]);
    assert!(matches!(
        next_reclaim(&snapshot(), 0, &live),
        ReclaimStep::Purge { index: 2 }
    ));
    assert!(matches!(
        next_reclaim(&snapshot(), 3, &live),
        ReclaimStep::Done
    ));
    let broken: Vec<Scanned<UserLimitEntry>> = vec![scanned("ul.1", 1, Some(Err("bad".into())))];
    assert!(matches!(
        next_reclaim(&broken, 0, &live),
        ReclaimStep::Failed(_)
    ));
    assert_eq!(
        slots_listed(broken).unwrap_err().to_text(),
        "backend error: deserialize failed: bad"
    );
    let unreadable: Vec<Scanned<BrokerLeaseRecord>> =
        vec![scanned("brokers.x", 1, Some(Err("bad".into())))];
    assert!(live_owners(unreadable, at(0)).is_err());
}

#[test]
fn nats_leases_fit_into_milliseconds() {
    assert_eq!(
        nats_lease("b", "http://b", Span::from_secs(30), at(1))
            .unwrap()
            .lease_until,
        at(31)
    );
    assert!(nats_lease("b", "http://b", Span::from_secs(u64::MAX), at(1)).is_err());
}

// Keys and decisions of the store in TiKV.

#[test]
fn tikv_job_key_uses_decoded_path() {
    let job_id = deterministic_job_id("bol", "dev", 42);
    let expected_path = decoded_path("jobs/", "/", &job_id);
    let current_path = tikv_job_key(&job_id).unwrap();
    let legacy_fallback_path = format!("jobs/{job_id}");

    assert_eq!(current_path, expected_path);
    assert_ne!(current_path, legacy_fallback_path);
}

#[test]
fn tikv_job_key_rejects_invalid_public_id() {
    let malformed_id = "broker-legacy~1";
    assert!(
        decode(malformed_id).is_err(),
        "test fixture must be malformed"
    );

    assert!(
        tikv_job_key(malformed_id).is_err(),
        "malformed public job IDs should be rejected at the TiKV persistence boundary"
    );
}

#[test]
fn tikv_job_key_delete_uses_decoded_path() {
    let job_id = deterministic_job_id("bol", "dev", 42);
    let expected_path = decoded_path("jobs/", "/", &job_id);
    let delete_path = tikv_job_key(&job_id).unwrap();
    let legacy_fallback_path = format!("jobs/{job_id}");

    assert_eq!(delete_path, expected_path);
    assert_ne!(delete_path, legacy_fallback_path);
}

fn conflict() -> TxnWrite {
    TxnWrite::CommitFailed(
        CommitProblem::Several(vec![
            CommitProblem::Other,
            CommitProblem::Key { conflict: true },
        ]),
        "conflict".into(),
    )
}

#[test]
fn tikv_claims_are_tried_twice() {
    let job_id = deterministic_job_id("bol", "dev", 1);
    let mut claim = TiKvClaim::new(&job_id, "old", "new").unwrap();
    let record = |claim: &TiKvClaim| match claim.after_read(TxnRead::Found(sample_job(&job_id, "old")))
    {
        bits::db::tikv::ClaimStep::Commit(record) => record,
        _ => panic!("expected a commit"),
    };
    let first = record(&claim);
    assert_eq!(first.broker_id, "new");
    assert!(matches!(
        claim.after_commit(first, conflict()),
        bits::db::tikv::ClaimStep::Begin
    ));
    let second = record(&claim);
    match claim.after_commit(second, conflict()) {
        bits::db::tikv::ClaimStep::Done(Err(e)) => {
            assert_eq!(
                e.to_text(),
                format!("conflict: claim conflict for job '{job_id}'")
            )
        }
        _ => panic!("expected a conflict"),
    }
    let mut other = TiKvClaim::new(&job_id, "old", "new").unwrap();
    let third = record(&other);
    match other.after_commit(
        third,
        TxnWrite::CommitFailed(CommitProblem::Other, "down".into()),
    ) {
        bits::db::tikv::ClaimStep::Done(Err(e)) => {
            assert_eq!(e.to_text(), "backend error: commit failed: down")
        }
        _ => panic!("expected an error"),
    }
}

#[test]
fn tikv_slots_are_counted_up() {
    let step = |read| bits::db::tikv::slot_after_read("bol", "dev", read);
    assert!(matches!(
        step(TxnRead::Missing),
        bits::db::tikv::SlotStep::Commit { used: 0 }
    ));
    assert!(matches!(
        step(TxnRead::Found(7)),
        bits::db::tikv::SlotStep::Commit { used: 7 }
    ));
    assert!(matches!(
        step(TxnRead::Found(65536)),
        bits::db::tikv::SlotStep::Done(Err(DbError::SlotExhausted { .. }))
    ));
    assert_eq!(slot_value(u16::MAX), 65536);
    assert!(matches!(
        slot_after_commit(7, TxnWrite::Committed),
        bits::db::tikv::SlotStep::Done(Ok(7))
    ));
    assert!(matches!(
        slot_after_commit(7, conflict()),
        bits::db::tikv::SlotStep::Begin
    ));
    assert!(!is_write_conflict(&CommitProblem::Several(vec![
        CommitProblem::Key { conflict: false }
    ])));
}

#[test]
fn tikv_keys_and_timeouts() {
    assert_eq!(broker_key("bol-dev-0"), "brokers/bol-dev-0");
    assert_eq!(
        bits::db::tikv::broker_slot_counter_key("bol", "dev"),
        "counters/broker_slot/bol/dev"
    );
    let store = TiKvStore::new(vec!["pd:2379".into()], Span::from_secs(10));
    assert_eq!(
        store.timed_out().to_text(),
        "backend error: TiKV connection timed out after 10.0s"
    );
}
