//! Remote pools: workers elsewhere poll for jobs, send heartbeats and report outcomes.

use vstd::prelude::*;

use crate::actions::{ActionError, TargetResult};
use crate::dispatcher::dispatch::{guard_error, DispatchGuard};
use crate::dispatcher::tables::{
    get_stamp, new_stamps, remove_stamp, set_stamp, stamp_keys, stamps_in,
};
use crate::job::Job;
use crate::json::Json;
use crate::result::{ByteStream, JobResult};
use crate::text::{parse_i64, signed_value, texts};

verus! {

pub const DEFAULT_POLL_TIMEOUT_MS: u64 = 30_000;

/// What a worker reports.
#[derive(Debug)]
pub enum WorkerOutcome {
    Complete { content_type: String, size: i64, stream: ByteStream },
    Redirect { location: String, message: String },
    Reject { reason: String },
    Error { message: String },
}

/// What the caller of a job gets for the report of a worker, or for a worker that was lost.
pub open spec fn reported(
    outcome: Option<WorkerOutcome>,
    r: Result<TargetResult, ActionError>,
) -> bool {
    match outcome {
        Some(WorkerOutcome::Complete { content_type, size, stream }) => r == Ok::<
            TargetResult,
            ActionError,
        >(TargetResult::Complete(JobResult::Success { content_type, size, stream })),
        Some(WorkerOutcome::Redirect { location, message }) => r == Ok::<TargetResult, ActionError>(
            TargetResult::Complete(
                JobResult::Redirect { location, message, content_type: None, content_length: None },
            ),
        ),
        Some(WorkerOutcome::Reject { reason }) => r == Ok::<TargetResult, ActionError>(
            TargetResult::Reject { reason, silent: true },
        ),
        Some(WorkerOutcome::Error { message }) => r == Err::<TargetResult, ActionError>(
            ActionError::ResourceError(message),
        ),
        None => r matches Err(ActionError::ResourceError(m)) && m@
            == "worker heartbeat timeout or disconnect"@,
    }
}

/// Turns the report of a worker into the result of the target.
pub fn worker_result(outcome: Option<WorkerOutcome>) -> (r: Result<TargetResult, ActionError>)
    ensures
        reported(outcome, r),
{
    match outcome {
        Some(WorkerOutcome::Complete { content_type, size, stream }) => Ok(
            TargetResult::Complete(JobResult::Success { content_type, size, stream }),
        ),
        Some(WorkerOutcome::Redirect { location, message }) => Ok(
            TargetResult::Complete(
                JobResult::Redirect { location, message, content_type: None, content_length: None },
            ),
        ),
        Some(WorkerOutcome::Reject { reason }) => Ok(TargetResult::Reject { reason, silent: true }),
        Some(WorkerOutcome::Error { message }) => Err(ActionError::ResourceError(message)),
        None => Err(
            ActionError::ResourceError("worker heartbeat timeout or disconnect".to_owned()),
        ),
    }
}

/// The content type of a posted body: what the header says, or plain bytes.
pub open spec fn body_type(header: Option<Seq<char>>) -> Seq<char> {
    match header {
        Some(text) => text,
        None => "application/octet-stream"@,
    }
}

/// The size of a posted body: what the header says if it is a number, or unknown.
pub open spec fn body_size(header: Option<Seq<char>>) -> int {
    match header {
        Some(text) => match signed_value(text) {
            Some(n) => if i64::MIN <= n <= i64::MAX {
                n
            } else {
                -1int
            },
            None => -1int,
        },
        None => -1int,
    }
}

/// The report of a worker that posts the body of a result.
pub fn posted_body(
    content_type: Option<String>,
    content_length: Option<String>,
    stream: ByteStream,
) -> (outcome: WorkerOutcome)
    ensures
        outcome matches WorkerOutcome::Complete { content_type: t, size, stream: s } && t@
            == body_type(crate::routing::opt_text(content_type)) && size == body_size(
            crate::routing::opt_text(content_length),
        ) && s == stream,
{
    let size: i64 = match &content_length {
        Some(text) => match parse_i64(text) {
            Some(n) => n,
            None => -1,
        },
        None => -1,
    };
    let content_type = match content_type {
        Some(text) => text,
        None => "application/octet-stream".to_owned(),
    };
    WorkerOutcome::Complete { content_type, size, stream }
}

/// What a worker is handed.
#[derive(Debug)]
pub struct WorkResponse {
    pub job_id: String,
    pub request: Json,
    pub user: Json,
    pub metadata: Json,
}

/// The answer to a worker that asks for work, and to the caller of the job that was taken up.
#[derive(Debug)]
pub enum WorkOffer {
    /// The worker gets the job.
    Hand(WorkResponse),
    /// There is nothing for the worker at the moment.
    Nothing,
    /// There is nothing for the worker, and the caller of the job gets an error.
    Refuse(ActionError),
}

/// The jobs that workers have in hand. Each has a token by which its caller is found again, and
/// the clock reading of its last sign of life.
pub struct RemotePool {
    in_progress: dashmap::DashMap<String, (usize, u64)>,
    heartbeat_timeout_nanos: u64,
}

/// The last sign of life is recent enough.
pub open spec fn alive(last_nanos: u64, now_nanos: u64, timeout_nanos: u64) -> bool {
    (if now_nanos >= last_nanos {
        now_nanos - last_nanos
    } else {
        0
    }) < timeout_nanos
}

impl RemotePool {
    /// The jobs in hand.
    pub closed spec fn in_hand(&self) -> Map<Seq<char>, (usize, u64)> {
        stamps_in(self.in_progress)
    }

    pub closed spec fn timeout(&self) -> u64 {
        self.heartbeat_timeout_nanos
    }

    pub fn new(heartbeat_timeout_nanos: u64) -> (r: RemotePool)
        ensures
            r.in_hand() == Map::<Seq<char>, (usize, u64)>::empty(),
            r.timeout() == heartbeat_timeout_nanos,
    {
        let r = RemotePool { in_progress: new_stamps(), heartbeat_timeout_nanos };
        assert(r.in_hand() =~= Map::<Seq<char>, (usize, u64)>::empty());
        r
    }

    /// Answers a worker that asked for work. `work` is what came out of the queue in time, with
    /// the guard under which it was queued; it is `None` where nothing came, or where the work
    /// behind the job is gone. A job whose caller does not listen any more is dropped.
    pub fn get_work(
        &mut self,
        work: Option<(Job, DispatchGuard)>,
        caller_gone: bool,
        cancelled: bool,
        client_present: bool,
        token: usize,
        now_nanos: u64,
    ) -> (offer: WorkOffer)
        ensures
            final(self).timeout() == old(self).timeout(),
            match work {
                None => offer is Nothing && final(self).in_hand() == old(self).in_hand(),
                Some((job, guard)) => {
                    if caller_gone {
                        offer is Nothing && final(self).in_hand() == old(self).in_hand()
                    } else {
                        match guard_error(guard, cancelled, client_present) {
                            Some(e) => offer == WorkOffer::Refuse(e) && final(self).in_hand()
                                == old(self).in_hand(),
                            None => {
                                &&& offer matches WorkOffer::Hand(response)
                                &&& response.job_id@ == job@.id
                                &&& response.request@ == job@.request
                                &&& response.user@ == job@.user
                                &&& response.metadata@ == job@.metadata
                                &&& final(self).in_hand() == old(self).in_hand().insert(
                                    job@.id,
                                    (token, now_nanos),
                                )
                            },
                        }
                    }
                },
            },
    {
        match work {
            None => WorkOffer::Nothing,
            Some((job, guard)) => {
                if caller_gone {
                    return WorkOffer::Nothing;
                }
                match guard.check(cancelled, client_present) {
                    Ok(()) => {},
                    Err(e) => {
                        return WorkOffer::Refuse(e);
                    },
                }
                set_stamp(&mut self.in_progress, &job.id, (token, now_nanos));
                WorkOffer::Hand(
                    WorkResponse {
                        job_id: job.id,
                        request: job.request,
                        user: job.user,
                        metadata: job.metadata,
                    },
                )
            },
        }
    }

    /// Takes a sign of life of a worker in; false where the job is not in hand.
    pub fn heartbeat(&mut self, job_id: &str, now_nanos: u64) -> (known: bool)
        ensures
            final(self).timeout() == old(self).timeout(),
            known == old(self).in_hand().contains_key(job_id@),
            final(self).in_hand() == if known {
                old(self).in_hand().insert(
                    job_id@,
                    (old(self).in_hand()[job_id@].0, now_nanos),
                )
            } else {
                old(self).in_hand()
            },
    {
        match get_stamp(&self.in_progress, job_id) {
            Some((token, _)) => {
                set_stamp(&mut self.in_progress, job_id, (token, now_nanos));
                true
            },
            None => false,
        }
    }

    /// Takes a job out of a worker's hand when its outcome comes; `None` where the job is not in
    /// hand.
    pub fn complete(&mut self, job_id: &str) -> (token: Option<usize>)
        ensures
            final(self).timeout() == old(self).timeout(),
            token == if old(self).in_hand().contains_key(job_id@) {
                Some(old(self).in_hand()[job_id@].0)
            } else {
                None
            },
            final(self).in_hand() == old(self).in_hand().remove(job_id@),
    {
        match get_stamp(&self.in_progress, job_id) {
            Some((token, _)) => {
                remove_stamp(&mut self.in_progress, job_id);
                Some(token)
            },
            None => {
                assert(self.in_hand() =~= self.in_hand().remove(job_id@));
                None
            },
        }
    }

    /// Takes the jobs out of the hands of workers that gave no sign of life in time. The result is
    /// the tokens of their callers.
    pub fn reap(&mut self, now_nanos: u64) -> (evicted: Vec<(String, usize)>)
        ensures
            final(self).timeout() == old(self).timeout(),
            final(self).in_hand() == old(self).in_hand().restrict(
                Set::new(
                    |id: Seq<char>|
                        old(self).in_hand().contains_key(id) && alive(
                            old(self).in_hand()[id].1,
                            now_nanos,
                            old(self).timeout(),
                        ),
                ),
            ),
            forall|i: int|
                0 <= i < evicted@.len() ==> {
                    let (id, token) = #[trigger] evicted@[i];
                    &&& old(self).in_hand().contains_key(id@)
                    &&& !final(self).in_hand().contains_key(id@)
                    &&& old(self).in_hand()[id@].0 == token
                },
            forall|id: Seq<char>|
                #![trigger old(self).in_hand().contains_key(id)]
                old(self).in_hand().contains_key(id) && !final(self).in_hand().contains_key(id)
                    ==> exists|i: int| 0 <= i < evicted@.len() && (#[trigger] evicted@[i]).0@ == id,
            forall|i: int, j: int|
                0 <= i < j < evicted@.len() ==> (#[trigger] evicted@[i]).0@ != (
                #[trigger] evicted@[j]).0@,
    {
        let keys = stamp_keys(&self.in_progress);
        let ghost before = self.in_hand();
        let mut evicted: Vec<(String, usize)> = Vec::new();
        let mut i: usize = 0;
        while i < keys.len()
            invariant
                i <= keys.len(),
                before == old(self).in_hand(),
                self.timeout() == old(self).timeout(),
                texts(keys@).no_duplicates(),
                forall|key: Seq<char>| #[trigger]
                    texts(keys@).contains(key) <==> before.contains_key(key),
                forall|id: Seq<char>| #[trigger]
                    self.in_hand().contains_key(id) <==> before.contains_key(id) && (alive(
                        before[id].1,
                        now_nanos,
                        old(self).timeout(),
                    ) || !texts(keys@).take(i as int).contains(id)),
                forall|id: Seq<char>| #[trigger]
                    self.in_hand().contains_key(id) ==> self.in_hand()[id] == before[id],
                forall|k: int|
                    0 <= k < evicted@.len() ==> {
                        let (id, token) = #[trigger] evicted@[k];
                        &&& before.contains_key(id@)
                        &&& !self.in_hand().contains_key(id@)
                        &&& before[id@].0 == token
                    },
                forall|id: Seq<char>|
                    #![trigger before.contains_key(id)]
                    before.contains_key(id) && !self.in_hand().contains_key(id) ==> exists|k: int|
                        0 <= k < evicted@.len() && (#[trigger] evicted@[k]).0@ == id,
                forall|k: int, m: int|
                    0 <= k < m < evicted@.len() ==> (#[trigger] evicted@[k]).0@ != (
                    #[trigger] evicted@[m]).0@,
            decreases keys.len() - i,
        {
            let ghost all = texts(keys@);
            let ghost now_in_hand = self.in_hand();
            let ghost listed = evicted@;
            let id = keys[i].as_str();
            proof {
                assert(all[i as int] == id@);
                assert(all.contains(id@));
                assert(!all.take(i as int).contains(id@)) by {
                    if all.take(i as int).contains(id@) {
                        let fewer = all.take(i as int);
                        let k = choose|k: int| 0 <= k < fewer.len() && fewer[k] == id@;
                        assert(all[k] == all[i as int]);
                    }
                }
                assert(now_in_hand.contains_key(id@));
                assert(all.take(i + 1) =~= all.take(i as int).push(id@));
                assert forall|x: Seq<char>| #[trigger]
                    all.take(i + 1).contains(x) <==> (x == id@ || all.take(i as int).contains(
                        x,
                    )) by {
                    let more = all.take(i + 1);
                    let fewer = all.take(i as int);
                    if more.contains(x) && x != id@ {
                        let k = choose|k: int| 0 <= k < more.len() && more[k] == x;
                        assert(fewer[k] == x);
                    }
                    if fewer.contains(x) {
                        let k = choose|k: int| 0 <= k < fewer.len() && fewer[k] == x;
                        assert(more[k] == x);
                    }
                    assert(more[i as int] == id@);
                }
            }
            match get_stamp(&self.in_progress, id) {
                Some((token, last_nanos)) => {
                    if now_nanos.saturating_sub(last_nanos) >= self.heartbeat_timeout_nanos {
                        remove_stamp(&mut self.in_progress, id);
                        evicted.push((keys[i].clone(), token));
                        assert(evicted@[listed.len() as int].0@ == id@);
                        assert forall|x: Seq<char>|
                            #![trigger before.contains_key(x)]
                            before.contains_key(x) && !self.in_hand().contains_key(
                                x,
                            ) implies exists|k: int|
                            0 <= k < evicted@.len() && (#[trigger] evicted@[k]).0@ == x by {
                            if x != id@ {
                                assert(!now_in_hand.contains_key(x));
                                let k = choose|k: int|
                                    0 <= k < listed.len() && (#[trigger] listed[k]).0@ == x;
                                assert(evicted@[k].0@ == x);
                            }
                        }
                    }
                },
                None => {},
            }
            i = i + 1;
        }
        proof {
            assert(texts(keys@).take(i as int) =~= texts(keys@));
            assert(self.in_hand() =~= before.restrict(
                Set::new(
                    |id: Seq<char>|
                        before.contains_key(id) && alive(
                            before[id].1,
                            now_nanos,
                            old(self).timeout(),
                        ),
                ),
            ));
        }
        evicted
    }
}

/// A worker's report reaches the caller unchanged: a body or a redirect completes the job, a
/// rejection rejects it silently in the worker's words, and an error of the worker, or the loss of
/// it, is an error of the resource.
pub proof fn law_reports_reach_the_caller(
    outcome: Option<WorkerOutcome>,
    r: Result<TargetResult, ActionError>,
)
    requires
        reported(outcome, r),
    ensures
        (r matches Ok(TargetResult::Complete(_))) <==> (outcome matches Some(WorkerOutcome::Complete {
            ..
        }) || outcome matches Some(WorkerOutcome::Redirect { .. })),
        (r matches Ok(TargetResult::Reject { .. })) <==> (outcome matches Some(
            WorkerOutcome::Reject { .. },
        )),
        r is Err <==> (outcome is None || outcome matches Some(WorkerOutcome::Error { .. })),
        outcome matches Some(WorkerOutcome::Complete { content_type, size, stream }) ==> (r matches Ok(
            TargetResult::Complete(JobResult::Success { content_type: t, size: n, stream: s }),
        ) && t == content_type && n == size && s == stream),
        outcome matches Some(WorkerOutcome::Redirect { location, message }) ==> (r matches Ok(
            TargetResult::Complete(
                JobResult::Redirect { location: l, message: m, content_type, content_length },
            ),
        ) && l == location && m == message && content_type is None && content_length is None),
        outcome matches Some(WorkerOutcome::Reject { reason }) ==> (r matches Ok(
            TargetResult::Reject { reason: words, silent },
        ) && words == reason && silent),
        outcome matches Some(WorkerOutcome::Error { message }) ==> (r matches Err(
            ActionError::ResourceError(words),
        ) && words == message),
        outcome is None ==> (r matches Err(ActionError::ResourceError(words)) && words@
            == "worker heartbeat timeout or disconnect"@),
{
}

/// The length of a posted body is what its header says where that is a number of the machine, and
/// unknown, which is told by minus one, otherwise. A body without a type is plain bytes.
pub proof fn law_posted_bodies_keep_their_headers(kind: Option<Seq<char>>, length: Option<Seq<char>>)
    ensures
        kind matches Some(text) ==> body_type(kind) == text,
        kind is None ==> body_type(kind) == "application/octet-stream"@,
        length matches Some(text) ==> (signed_value(text) matches Some(n) ==> (i64::MIN <= n
            <= i64::MAX ==> body_size(length) == n)),
        length matches Some(text) ==> (signed_value(text) is None ==> body_size(length) == -1),
        length matches Some(text) ==> (signed_value(text) matches Some(n) ==> (!(i64::MIN <= n
            <= i64::MAX) ==> body_size(length) == -1)),
        length is None ==> body_size(length) == -1,
{
}

/// A worker loses its job exactly where its last sign of life lies at least the timeout back; a
/// clock that went backwards costs nobody a job.
pub proof fn law_workers_have_the_whole_timeout(last_nanos: u64, now_nanos: u64, timeout_nanos: u64)
    ensures
        alive(last_nanos, now_nanos, timeout_nanos) <==> timeout_nanos > 0 && now_nanos < last_nanos
            + timeout_nanos,
        timeout_nanos > 0 && now_nanos <= last_nanos ==> alive(
            last_nanos,
            now_nanos,
            timeout_nanos,
        ),
{
}

} // verus!
