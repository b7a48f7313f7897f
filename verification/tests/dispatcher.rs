//! Queues, dispatchers, per-user limits and remote pools.

use bits::actions::{ActionError, TargetResult};
use bits::db::{DbError, UserLimitEntry};
use bits::dispatcher::dispatch::{
    stranded_error, DispatchGuard, DispatchStep, Dispatcher, WorkStep,
};
use bits::dispatcher::executor::{
    AsyncPoolExecutor, ExternalPoolDispatcher, RemotePoolExecutor, SemaphoreExecutor,
    ThreadPoolExecutor, Turn,
};
use bits::dispatcher::plan::{
    DispatcherPlan, ExecutorKind, ExecutorPlan, RemotePoolConfig, DEFAULT_POOL_SIZE,
    DEFAULT_QUEUE_CAPACITY,
};
use bits::dispatcher::queue::age_priority::{integer_sqrt, AgePriorityQueue};
use bits::dispatcher::queue::cost_weighted::CostWeightedQueue;
use bits::dispatcher::queue::fifo::FifoQueue;
use bits::dispatcher::queue::{read_cost, Dequeued, Queue, QueueKind};
use bits::dispatcher::remote_pool::{
    posted_body, worker_result, RemotePool, WorkOffer, WorkerOutcome,
};
use bits::dispatcher::scheduled::{scheduler_closed, ScheduleStep, ScheduledDispatcher};
use bits::dispatcher::user_limit::{
    AdmitStep, UserLimitConfig, UserLimiter, LAZY_RECONCILE_NANOS,
};
use bits::job::Job;
use bits::json::{parse_yaml, Number};
use bits::result::{ByteStream, JobResult};
use bits::time::{Span, Timestamp};

const MILLI: u64 = 1_000_000;

fn job(request: &str) -> Job {
    Job::new(parse_yaml(request).unwrap(), 0)
}

fn job_with_cost(cost: u64) -> Job {
    let mut job = job("{}");
    job.metadata = parse_yaml(&format!("{{cost: {cost}}}")).unwrap();
    job
}

fn named(id: &str) -> Job {
    Job::new_with_id(id.into(), parse_yaml("{}").unwrap(), 0)
}

fn next<Q: Queue>(queue: &mut Q) -> Option<Job> {
    match queue.dequeue() {
        Dequeued::Next(job) => Some(job),
        Dequeued::Empty => panic!("nothing is waiting"),
        Dequeued::Closed => None,
    }
}

fn cost(job: &Job) -> u64 {
    job.metadata.get("cost").unwrap().as_u64().unwrap()
}

// Queues.

#[test]
fn fifo_queue_basic_usage() {
    let mut q = FifoQueue::new();

    q.enqueue(job(r#"{"n": 1}"#), 0);
    q.enqueue(job(r#"{"n": 2}"#), 0);

    let first = next(&mut q).unwrap();
    let second = next(&mut q).unwrap();

    assert_eq!(first.request.get("n").unwrap().as_u64(), Some(1));
    assert_eq!(second.request.get("n").unwrap().as_u64(), Some(2));
}

#[test]
fn cost_weighted_queue_basic_usage() {
    let mut q = CostWeightedQueue::new();

    q.enqueue(job_with_cost(99), 0);
    q.enqueue(job_with_cost(1), 0);

    let first = next(&mut q).unwrap();
    assert_eq!(cost(&first), 1, "cheaper job should come out first");
}

#[test]
fn age_priority_queue_eventually_promotes_old_expensive_job() {
    let mut q = AgePriorityQueue::new();

    q.enqueue(job_with_cost(100), 0);
    q.enqueue(job_with_cost(1), 150 * MILLI);
    q.rebalance(155 * MILLI);

    let first = next(&mut q).unwrap();
    assert_eq!(
        cost(&first),
        100,
        "older expensive job should eventually outrank a newly-arrived cheap job"
    );
}

#[test]
fn fifo_close_returns_none_on_empty() {
    let mut q = FifoQueue::new();
    q.close();
    assert!(next(&mut q).is_none());
}

#[test]
fn fifo_close_drains_buffered_then_none() {
    let mut q = FifoQueue::new();
    q.enqueue(job(r#"{"n": 1}"#), 0);
    q.close();
    assert!(next(&mut q).is_some(), "buffered item should drain");
    assert!(next(&mut q).is_none(), "should return None after drain");
}

#[test]
fn fifo_enqueue_after_close_is_dropped() {
    let mut q = FifoQueue::new();
    q.close();
    q.enqueue(job("{}"), 0);
    assert!(next(&mut q).is_none());
}

#[test]
fn cost_weighted_close_returns_none() {
    let mut q = CostWeightedQueue::new();
    q.close();
    assert!(next(&mut q).is_none());
}

#[test]
fn age_priority_close_returns_none() {
    let mut q = AgePriorityQueue::new();
    q.close();
    assert!(next(&mut q).is_none());
}

#[test]
fn fifo_close_unblocks_waiting_dequeue() {
    let mut q = FifoQueue::new();
    assert!(matches!(q.dequeue(), Dequeued::Empty));
    q.close();
    assert!(matches!(q.dequeue(), Dequeued::Closed));
}

#[test]
fn enqueue_then_dequeue_roundtrip() {
    let mut q = CostWeightedQueue::new();
    q.enqueue(job_with_cost(10), 0);
    let job = next(&mut q).unwrap();
    assert_eq!(cost(&job), 10);
}

#[test]
fn cheap_dequeued_before_expensive() {
    let mut q = CostWeightedQueue::new();
    q.enqueue(job_with_cost(100), 0);
    q.enqueue(job_with_cost(1), 0);

    let first = next(&mut q).unwrap();
    let second = next(&mut q).unwrap();

    assert_eq!(cost(&first), 1, "cheap should come first");
    assert_eq!(cost(&second), 100);
}

#[test]
fn fifo_tiebreak_for_equal_cost() {
    let mut q = CostWeightedQueue::new();
    for seq in [1u64, 2, 3] {
        let mut job = job("{}");
        job.metadata = parse_yaml(&format!("{{cost: 10, seq_label: {seq}}}")).unwrap();
        q.enqueue(job, seq * 5 * MILLI);
    }
    let mut order = Vec::new();
    for _ in 0..3 {
        let job = next(&mut q).unwrap();
        order.push(job.metadata.get("seq_label").unwrap().as_u64().unwrap());
    }
    assert_eq!(order, vec![1, 2, 3], "equal cost jobs should be FIFO");
}

#[test]
fn costs_default_where_they_are_no_numbers() {
    let mut odd = job("{}");
    assert_eq!(read_cost(&odd, 7), 7);
    odd.metadata = parse_yaml("{cost: cheap}").unwrap();
    assert_eq!(read_cost(&odd, 7), 7);
    odd.metadata = parse_yaml("{cost: -1}").unwrap();
    assert_eq!(read_cost(&odd, 0), 0);
    odd.metadata = parse_yaml("{cost: 3}").unwrap();
    assert_eq!(read_cost(&odd, 7), 3);
}

#[test]
fn equal_costs_rank_by_age() {
    let mut q = AgePriorityQueue::new();
    for (id, at) in [("b", 10u64), ("a", 20), ("c", 30)] {
        let mut waiting = named(id);
        waiting.metadata = parse_yaml("{cost: 4}").unwrap();
        q.enqueue(waiting, at);
    }
    q.rebalance(100);
    let order: Vec<String> = (0..3).map(|_| next(&mut q).unwrap().id).collect();
    assert_eq!(order, vec!["b", "a", "c"]);
}

#[test]
fn square_roots_are_rounded_down() {
    for (value, root) in [(0u128, 1u128), (1, 1), (3, 1), (4, 2), (99, 9), (100, 10)] {
        assert_eq!(integer_sqrt(value), root);
    }
    assert_eq!(integer_sqrt(u128::MAX), u64::MAX as u128);
}

#[test]
fn entries_that_are_put_back_keep_their_place() {
    let mut q = CostWeightedQueue::new();
    q.enqueue(job_with_cost(2), 0);
    q.enqueue(job_with_cost(1), 0);
    let entry = q.take().unwrap();
    assert_eq!(entry.cost, 1);
    q.put_back(entry);
    assert_eq!(cost(&next(&mut q).unwrap()), 1);
    let mut aged = AgePriorityQueue::new();
    aged.enqueue(job_with_cost(1), 0);
    let kept = aged.take().unwrap();
    aged.put_back(kept);
    assert!(next(&mut aged).is_some());
}

#[test]
fn scheduled_jobs_find_their_channel() {
    let mut d = ScheduledDispatcher::new(FifoQueue::new());
    d.dispatch(named("a"), 1, 0);
    d.dispatch(named("b"), 2, 0);
    d.forget("a");
    assert!(matches!(d.next(), ScheduleStep::Skip(job) if job.id == "a"));
    assert!(matches!(d.next(), ScheduleStep::Run { job, channel: 2 } if job.id == "b"));
    assert!(matches!(d.next(), ScheduleStep::Idle));
    d.queue.close();
    assert!(matches!(d.next(), ScheduleStep::Closed));
    assert_eq!(
        scheduler_closed().to_text(),
        "Resource error: scheduler closed"
    );
}

// Executors.

#[test]
fn semaphores_limit_what_runs() {
    let mut semaphore = SemaphoreExecutor::new(1);
    assert!(matches!(semaphore.acquire(), Turn::Run));
    assert!(matches!(semaphore.acquire(), Turn::Wait));
    semaphore.release();
    assert!(matches!(semaphore.acquire(), Turn::Run));
    semaphore.closed = true;
    match semaphore.acquire() {
        Turn::Refused(e) => assert_eq!(e.to_text(), "Resource error: semaphore closed"),
        _ => panic!("expected a refusal"),
    }
    assert_eq!(
        ExternalPoolDispatcher.dispatch().to_text(),
        "Resource error: external pool not yet implemented"
    );
    assert_eq!(AsyncPoolExecutor::new(3).concurrency, 3);
    assert_eq!(ThreadPoolExecutor::new(4).concurrency, 4);
    assert_eq!(
        RemotePoolExecutor::new("p", Span::from_secs(5)).pool_name,
        "p"
    );
}

fn remote(secs: &str) -> ExecutorKind {
    ExecutorKind::RemotePool {
        config: RemotePoolConfig {
            heartbeat_timeout_secs: Number::Fraction(secs.into()),
        },
    }
}

#[test]
fn dispatchers_are_planned_from_settings() {
    let plan = |queue, executor: Option<&ExecutorKind>, capacity| {
        DispatcherPlan::from_config(queue, executor, Some("pool"), true, true, capacity)
    };
    assert!(plan(None, None, 1).unwrap().is_none());
    let default = plan(Some(QueueKind::CostWeighted), None, 5)
        .unwrap()
        .unwrap();
    assert_eq!(default.queue, QueueKind::CostWeighted);
    assert_eq!(default.queue_capacity, 5);
    assert!(matches!(
        default.executor,
        ExecutorPlan::AsyncPool {
            concurrency: DEFAULT_POOL_SIZE
        }
    ));
    let threads = ExecutorKind::ThreadPool {
        concurrency: Some(2),
    };
    assert!(matches!(
        plan(None, Some(&threads), 5).unwrap().unwrap().executor,
        ExecutorPlan::ThreadPool { concurrency: 2 }
    ));
    match plan(None, Some(&remote("1.5")), 5).unwrap().unwrap().executor {
        ExecutorPlan::RemotePool {
            pool_name,
            heartbeat_timeout,
        } => {
            assert_eq!(pool_name, "pool");
            assert_eq!(
                heartbeat_timeout,
                Span {
                    secs: 1,
                    nanos: 500_000_000
                }
            );
        }
        _ => panic!("expected a remote pool"),
    }
    assert_eq!(
        plan(None, Some(&threads), 0).unwrap_err(),
        "queue_capacity must be greater than zero"
    );
    assert_eq!(
        plan(None, Some(&remote("0.0")), 5).unwrap_err(),
        "remote_pool: heartbeat_timeout_secs must be positive"
    );
    let told = plan(None, Some(&remote("-1.0")), 5).unwrap_err();
    assert!(
        told.starts_with("remote_pool: invalid heartbeat_timeout_secs: "),
        "{told}"
    );
}

#[test]
fn remote_pools_need_a_named_target_and_a_server() {
    let plan = |name, server, target| {
        DispatcherPlan::from_config(None, Some(&remote("1.0")), name, server, target, 1).unwrap_err()
    };
    assert_eq!(
        plan(Some("p"), true, false),
        "remote_pool executor can only be used with target actions"
    );
    assert_eq!(
        plan(None, true, true),
        "remote_pool executor requires a named target registry entry (pool name)"
    );
    assert_eq!(
        plan(Some("p"), false, true),
        "remote_pool executor requires bits.worker_server to be configured"
    );
}

// Dispatchers.

fn dispatcher(capacity: usize) -> Dispatcher {
    Dispatcher::from_config(
        Some(QueueKind::Fifo),
        Some(&ExecutorKind::AsyncPool {
            concurrency: Some(1),
        }),
        None,
        false,
        true,
        capacity,
    )
    .expect("dispatcher config should not error")
    .expect("dispatcher should be created")
}

fn failure(step: DispatchStep) -> String {
    match step {
        DispatchStep::Failed { error, .. } => error.to_text(),
        _ => panic!("expected a failure"),
    }
}

#[test]
fn no_more_work_waits_than_there_are_places() {
    let mut d = dispatcher(2);
    assert!(matches!(
        d.dispatch(named("a"), DispatchGuard::Unguarded, 0),
        DispatchStep::Queued { displaced: None }
    ));
    assert!(matches!(
        d.dispatch(named("b"), DispatchGuard::Unguarded, 0),
        DispatchStep::Queued { displaced: None }
    ));
    assert_eq!(
        failure(d.dispatch(named("c"), DispatchGuard::Unguarded, 0)),
        "Queue full: dispatcher queue is full"
    );
    match d.next_work() {
        WorkStep::Run { job, .. } => assert_eq!(job.id, "a"),
        _ => panic!("expected work"),
    }
    assert!(matches!(
        d.dispatch(named("c"), DispatchGuard::Unguarded, 0),
        DispatchStep::Queued { displaced: None }
    ));
    let stranded = d.close();
    assert_eq!(stranded.len(), 2);
    assert_eq!(
        failure(d.dispatch(named("d"), DispatchGuard::Unguarded, 0)),
        "Resource error: dispatcher closed"
    );
    assert_eq!(
        stranded_error().to_text(),
        "Resource error: dispatcher closed"
    );
    assert_eq!(DEFAULT_QUEUE_CAPACITY, 500_000);
}

/// The order in which one worker gets jobs that cost 9, 1 and 9 and came one after another.
fn order_under(kind: QueueKind) -> Vec<String> {
    let mut d = Dispatcher::from_config(
        Some(kind),
        Some(&ExecutorKind::AsyncPool {
            concurrency: Some(1),
        }),
        None,
        false,
        true,
        5,
    )
    .expect("dispatcher config should not error")
    .expect("dispatcher should be created");
    for (at, (id, cost)) in [("a", 9), ("b", 1), ("c", 9)].into_iter().enumerate() {
        let mut job = named(id);
        job.metadata = parse_yaml(&format!("{{cost: {cost}}}")).unwrap();
        let step = d.dispatch(job, DispatchGuard::Unguarded, at as u64 * 1_000_000_000);
        assert!(matches!(step, DispatchStep::Queued { displaced: None }));
    }
    let mut order = Vec::new();
    while let WorkStep::Run { job, .. } = d.next_work() {
        order.push(job.id);
    }
    order
}

#[test]
fn work_leaves_in_the_order_of_its_queue() {
    assert_eq!(order_under(QueueKind::Fifo), vec!["a", "b", "c"]);
    assert_eq!(order_under(QueueKind::CostWeighted), vec!["b", "a", "c"]);
}

#[test]
fn closing_gives_every_place_back() {
    let mut d = dispatcher(2);
    d.dispatch(named("a"), DispatchGuard::Unguarded, 0);
    assert_eq!(d.free_places, 1);
    assert_eq!(d.close().len(), 1);
    assert_eq!(d.free_places, 2);
}

#[test]
fn jobs_of_one_id_displace_each_other() {
    let mut d = dispatcher(3);
    d.dispatch(named("a"), DispatchGuard::Cancelled, 5);
    match d.dispatch(named("a"), DispatchGuard::Unguarded, 6) {
        DispatchStep::Queued {
            displaced: Some(item),
        } => {
            assert_eq!(item.enqueued_nanos, 5);
            assert_eq!(item.guard, DispatchGuard::Cancelled);
        }
        _ => panic!("expected the earlier work"),
    }
    assert!(matches!(d.next_work(), WorkStep::Run { .. }));
    assert!(matches!(d.next_work(), WorkStep::Skipped(_)));
    assert!(matches!(d.next_work(), WorkStep::Idle));
    d.close();
    assert!(matches!(d.next_work(), WorkStep::Closed));
}

#[test]
fn guards_look_at_the_job_when_its_turn_comes() {
    assert!(DispatchGuard::Unguarded.check(true, false).is_ok());
    assert!(DispatchGuard::Cancelled.check(false, false).is_ok());
    assert!(matches!(
        DispatchGuard::Cancelled.check(true, true),
        Err(ActionError::Cancelled)
    ));
    assert!(matches!(
        DispatchGuard::CancelledOrClientGone.check(true, false),
        Err(ActionError::Cancelled)
    ));
    assert!(matches!(
        DispatchGuard::CancelledOrClientGone.check(false, false),
        Err(ActionError::ClientGone)
    ));
    assert!(DispatchGuard::CancelledOrClientGone.check(false, true).is_ok());
}

fn limit(max: usize, key: &[&str]) -> UserLimitConfig {
    UserLimitConfig {
        max,
        key: key.iter().map(|s| s.to_string()).collect(),
    }
}

fn of_user(id: &str, user: &str) -> Job {
    let mut job = named(id);
    job.user = parse_yaml(user).unwrap();
    job
}

#[test]
fn local_limits_hold_back_a_users_jobs() {
    let mut d = dispatcher(10).with_user_limit(Some(limit(1, &["/name"])), "s", "b", false);
    assert!(matches!(
        d.dispatch(of_user("a", "{name: ada}"), DispatchGuard::Unguarded, 0),
        DispatchStep::Queued { .. }
    ));
    assert_eq!(
        failure(d.dispatch(of_user("b", "{name: ada}"), DispatchGuard::Unguarded, 0)),
        "User limit exceeded: user is at the per-user limit (1) for this route"
    );
    assert!(matches!(
        d.dispatch(of_user("c", "{name: bob}"), DispatchGuard::Unguarded, 0),
        DispatchStep::Queued { .. }
    ));
    // Whoever cannot be told apart is not limited.
    for id in ["d", "e"] {
        assert!(matches!(
            d.dispatch(of_user(id, "{name: null}"), DispatchGuard::Unguarded, 0),
            DispatchStep::Queued { .. }
        ));
    }
    let guard = match d.next_work() {
        WorkStep::Run { item, .. } => item.user_guard,
        _ => panic!("expected work"),
    };
    assert!(d.give_back(guard).is_none());
    assert!(matches!(
        d.dispatch(of_user("f", "{name: ada}"), DispatchGuard::Unguarded, 0),
        DispatchStep::Queued { .. }
    ));
}

fn entry(job_id: &str, seq: u64) -> UserLimitEntry {
    UserLimitEntry {
        scope: "s".into(),
        user: "ada".into(),
        job_id: job_id.into(),
        owner_broker_id: "b".into(),
        seq,
        created_at: Timestamp { secs: 0, nanos: 0 },
    }
}

#[test]
fn strict_limits_go_by_rank_in_the_store() {
    let mut d = dispatcher(10).with_user_limit(Some(limit(2, &["/name"])), "s", "b", true);
    let request = match d.dispatch(of_user("j3", "{name: ada}"), DispatchGuard::Unguarded, 0) {
        DispatchStep::Reserve(request) => request,
        _ => panic!("expected a reservation"),
    };
    let (request, seq) = match d.after_reserve(request, Ok(3), 0) {
        DispatchStep::List { request, seq } => (request, seq),
        _ => panic!("expected a listing"),
    };
    assert_eq!(seq, 3);
    let listed = vec![entry("j1", 1), entry("j2", 2), entry("j3", 3)];
    match d.after_list(request, seq, Ok(listed), 0) {
        DispatchStep::Failed { error, release } => {
            assert!(matches!(error, ActionError::UserLimitExceeded(_)));
            assert_eq!(release.unwrap().job_id, "j3");
        }
        _ => panic!("expected the third job to be held back"),
    }
    let request = match d.dispatch(of_user("j2", "{name: ada}"), DispatchGuard::Unguarded, 0) {
        DispatchStep::Reserve(request) => request,
        _ => panic!("expected a reservation"),
    };
    let (request, seq) = match d.after_reserve(request, Ok(2), 0) {
        DispatchStep::List { request, seq } => (request, seq),
        _ => panic!("expected a listing"),
    };
    let listed = vec![entry("j1", 1), entry("j2", 2), entry("j3", 3)];
    assert!(matches!(
        d.after_list(request, seq, Ok(listed), 0),
        DispatchStep::Queued { .. }
    ));
}

#[test]
fn stores_that_fail_keep_nobody_out() {
    let mut d = dispatcher(10).with_user_limit(Some(limit(1, &["/name"])), "s", "b", true);
    for id in ["a", "b"] {
        let request = match d.dispatch(of_user(id, "{name: ada}"), DispatchGuard::Unguarded, 0) {
            DispatchStep::Reserve(request) => request,
            _ => panic!("expected a reservation"),
        };
        assert!(matches!(
            d.after_reserve(request, Err(DbError::Backend("down".into())), 0),
            DispatchStep::Queued { .. }
        ));
    }
}

#[test]
fn lazy_limits_trust_a_recent_count() {
    let mut limiter = UserLimiter::new(limit(11, &["/name"]), "s".into(), "b".into(), true);
    assert!(!limiter.strict());
    assert_eq!((limiter.scope(), limiter.broker_id(), limiter.max()), ("s", "b", 11));
    assert!(matches!(
        limiter.begin_admission("ada", "j"),
        AdmitStep::Reserve
    ));
    assert!(matches!(
        limiter.after_reserve("ada", "j", Ok(1), 100),
        AdmitStep::List { seq: 1 }
    ));
    let many: Vec<UserLimitEntry> = (1..=12).map(|n| entry("x", n)).collect();
    assert!(matches!(
        limiter.after_list("ada", "j", 1, Ok(many), 100),
        AdmitStep::BackOut
    ));
    limiter.begin_admission("ada", "k");
    assert!(matches!(
        limiter.after_reserve("ada", "k", Ok(2), 100 + LAZY_RECONCILE_NANOS - 1),
        AdmitStep::BackOut
    ));
    limiter.begin_admission("ada", "l");
    assert!(matches!(
        limiter.after_reserve("ada", "l", Ok(3), 100 + LAZY_RECONCILE_NANOS),
        AdmitStep::List { seq: 3 }
    ));
    assert!(matches!(
        limiter.after_list("ada", "l", 3, Ok(vec![entry("l", 3)]), 500),
        AdmitStep::Admitted(_)
    ));
}

#[test]
fn identities_join_their_parts() {
    let limiter = UserLimiter::new(
        limit(1, &["/realm", "/ids/0"]),
        "s".into(),
        "b".into(),
        false,
    );
    let key = |user: &str| limiter.user_key(&parse_yaml(user).unwrap());
    assert_eq!(
        key("{realm: ecmwf, ids: [7]}").unwrap(),
        "ecmwf\u{1f}7"
    );
    assert!(key("{realm: ecmwf, ids: []}").is_none());
    assert!(key("{ids: [7]}").is_none());
}

// Remote pools.

fn hand_out(pool: &mut RemotePool, id: &str, now: u64) -> WorkOffer {
    pool.get_work(
        Some((named(id), DispatchGuard::CancelledOrClientGone)),
        false,
        false,
        true,
        9,
        now,
    )
}

#[test]
fn workers_get_jobs_and_report_back() {
    let mut pool = RemotePool::new(1000);
    match hand_out(&mut pool, "a", 0) {
        WorkOffer::Hand(response) => {
            assert_eq!(response.job_id, "a");
            assert_eq!(response.request.to_text(), "{}");
        }
        _ => panic!("expected work"),
    }
    assert!(pool.heartbeat("a", 500));
    assert!(!pool.heartbeat("b", 500));
    assert!(pool.reap(1499).is_empty());
    assert_eq!(pool.complete("a"), Some(9));
    assert_eq!(pool.complete("a"), None);
    hand_out(&mut pool, "c", 2000);
    let evicted = pool.reap(3000);
    assert_eq!(evicted.len(), 1);
    assert_eq!(evicted[0].0, "c");
    assert_eq!(pool.complete("c"), None);
}

#[test]
fn workers_get_nothing_for_callers_that_left() {
    let mut pool = RemotePool::new(1000);
    let guard = DispatchGuard::CancelledOrClientGone;
    assert!(matches!(
        pool.get_work(None, false, false, true, 1, 0),
        WorkOffer::Nothing
    ));
    assert!(matches!(
        pool.get_work(Some((named("a"), guard)), true, false, true, 1, 0),
        WorkOffer::Nothing
    ));
    assert!(matches!(
        pool.get_work(Some((named("a"), guard)), false, true, true, 1, 0),
        WorkOffer::Refuse(ActionError::Cancelled)
    ));
    assert!(matches!(
        pool.get_work(Some((named("a"), guard)), false, false, false, 1, 0),
        WorkOffer::Refuse(ActionError::ClientGone)
    ));
    assert!(!pool.heartbeat("a", 1));
}

#[test]
fn reports_become_results() {
    let stream = ByteStream { id: 2 };
    match worker_result(Some(posted_body(None, Some("12".into()), stream))).unwrap() {
        TargetResult::Complete(JobResult::Success {
            content_type, size, ..
        }) => {
            assert_eq!(content_type, "application/octet-stream");
            assert_eq!(size, 12);
        }
        _ => panic!("expected a success"),
    }
    match posted_body(Some("text/plain".into()), Some("many".into()), stream) {
        WorkerOutcome::Complete {
            content_type, size, ..
        } => {
            assert_eq!(content_type, "text/plain");
            assert_eq!(size, -1);
        }
        _ => panic!("expected a body"),
    }
    assert!(matches!(
        worker_result(Some(WorkerOutcome::Redirect {
            location: "l".into(),
            message: "m".into()
        })),
        Ok(TargetResult::Complete(JobResult::Redirect { .. }))
    ));
    assert!(matches!(
        worker_result(Some(WorkerOutcome::Reject { reason: "r".into() })),
        Ok(TargetResult::Reject { silent: true, .. })
    ));
    assert_eq!(
        worker_result(Some(WorkerOutcome::Error { message: "e".into() }))
            .unwrap_err()
            .to_text(),
        "Resource error: e"
    );
    assert_eq!(
        worker_result(None).unwrap_err().to_text(),
        "Resource error: worker heartbeat timeout or disconnect"
    );
}
