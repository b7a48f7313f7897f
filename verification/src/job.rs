//! Jobs: units of work flowing through checks, transforms and a terminal target.

use vstd::prelude::*;

use crate::db::{JobFacts, PersistentJobRecord};
use crate::json::{member_trees, Json, Tree};
use crate::result::JobResult;
use crate::time::{utc_now, Timestamp};

verus! {

/// A unit of work flowing through a route.
#[derive(Debug)]
pub struct Job {
    /// Unique identifier for the job.
    pub id: String,
    /// The request as submitted by the client. Never modified after creation.
    pub original_request: Json,
    /// The working request, changed by transform actions.
    pub request: Json,
    /// Arbitrary user-scoped context carried alongside the request.
    pub user: Json,
    /// Creation time.
    pub created_at: Timestamp,
    /// Free-form metadata available to actions and persistence backends.
    pub metadata: Json,
    /// Set when the job is cancelled.
    pub cancelled: bool,
    /// Number of polls that are waiting for the job.
    pub active_pollers: usize,
    /// The clock reading, in nanoseconds, by which the client must be back after a poll.
    pub reconnect_deadline_nanos: u64,
    /// Whether a durable record was written for the job.
    pub persisted: bool,
    /// The final outcome, until a poll takes it.
    pub result: Option<JobResult>,
}

/// What a job is about, apart from how far it has come.
#[verifier::ext_equal]
pub struct JobContents {
    pub id: Seq<char>,
    pub original_request: Tree,
    pub request: Tree,
    pub user: Tree,
    pub created_at: Timestamp,
    pub metadata: Tree,
}

impl View for Job {
    type V = JobContents;

    open spec fn view(&self) -> JobContents {
        JobContents {
            id: self.id@,
            original_request: self.original_request@,
            request: self.request@,
            user: self.user@,
            created_at: self.created_at,
            metadata: self.metadata@,
        }
    }
}

/// An object without members.
pub open spec fn empty_object() -> Tree {
    Tree::Obj(Seq::empty())
}

/// The durable record of a job that a broker owns. What transforms made of the request is not kept.
pub open spec fn record_of(job: JobContents, broker_id: Seq<char>) -> JobFacts {
    JobFacts {
        job_id: job.id,
        broker_id,
        original_request: job.original_request,
        user: job.user,
        metadata: job.metadata,
        created_at: job.created_at,
    }
}

/// The job that a durable record stands for, before any transform.
pub open spec fn restored_from(record: JobFacts) -> JobContents {
    JobContents {
        id: record.job_id,
        original_request: record.original_request,
        request: record.original_request,
        user: record.user,
        created_at: record.created_at,
        metadata: record.metadata,
    }
}

/// A job that is restored from its record is the job that was recorded, with its request as it was
/// submitted, whichever broker owned it.
pub proof fn law_restored_jobs_start_over(job: JobContents, broker_id: Seq<char>)
    ensures
        restored_from(record_of(job, broker_id)) == (JobContents {
            request: job.original_request,
            ..job
        }),
{
}

/// Recording a restored job gives its record back, in the name of the broker that records it.
pub proof fn law_records_of_restored_jobs_repeat(record: JobFacts, broker_id: Seq<char>)
    ensures
        record_of(restored_from(record), broker_id) == (JobFacts { broker_id, ..record }),
{
}

/// Makes an object without members.
pub fn new_object() -> (json: Json)
    ensures
        json@ == empty_object(),
{
    let members: Vec<(String, Json)> = Vec::new();
    assert(member_trees(members@) =~= Seq::empty());
    Json::Object(members)
}

/// Calls `uuid::Uuid::new_v4` and prints it with hyphens, which takes 36 characters. Nothing else
/// is said of the random identifier.
#[verifier::external_body]
fn new_uuid() -> (id: String)
    ensures
        id@.len() == 36,
{
    uuid::Uuid::new_v4().to_string()
}

impl Job {
    /// Nothing has happened to the job yet, and its reconnect window is already over.
    pub open spec fn fresh(self, now_nanos: u64) -> bool {
        &&& !self.cancelled
        &&& self.active_pollers == 0
        &&& self.reconnect_deadline_nanos == now_nanos
        &&& !self.persisted
        &&& self.result is None
    }

    /// Whether the client is polling, or may still come back.
    pub open spec fn client_here(self, now_nanos: u64) -> bool {
        self.active_pollers > 0 || now_nanos < self.reconnect_deadline_nanos
    }

    /// Creates a new job with a generated id.
    pub fn new(request: Json, now_nanos: u64) -> (job: Job)
        ensures
            job.id@.len() == 36,
            job@.original_request == request@,
            job@.request == request@,
            job@.user == empty_object(),
            job@.metadata == empty_object(),
            job.fresh(now_nanos),
    {
        Job::new_with_id(new_uuid(), request, now_nanos)
    }

    /// Creates a new job with an explicit id.
    pub fn new_with_id(id: String, request: Json, now_nanos: u64) -> (job: Job)
        ensures
            job@ == (JobContents {
                id: id@,
                original_request: request@,
                request: request@,
                user: empty_object(),
                created_at: job.created_at,
                metadata: empty_object(),
            }),
            job.fresh(now_nanos),
    {
        let created_at = utc_now();
        Job::new_at(id, request, created_at, now_nanos)
    }

    /// Creates a new job with an explicit id and creation time.
    pub fn new_at(id: String, request: Json, created_at: Timestamp, now_nanos: u64) -> (job: Job)
        ensures
            job@ == (JobContents {
                id: id@,
                original_request: request@,
                request: request@,
                user: empty_object(),
                created_at,
                metadata: empty_object(),
            }),
            job.fresh(now_nanos),
    {
        Job {
            id,
            original_request: request.copy(),
            request,
            user: new_object(),
            created_at,
            metadata: new_object(),
            cancelled: false,
            active_pollers: 0,
            reconnect_deadline_nanos: now_nanos,
            persisted: false,
            result: None,
        }
    }

    /// Reconstructs a job from a durable record. The work starts over from the original request.
    pub fn restore(record: PersistentJobRecord, now_nanos: u64) -> (job: Job)
        ensures
            job@ == restored_from(record@),
            job.fresh(now_nanos),
    {
        Job {
            id: record.job_id,
            original_request: record.original_request.copy(),
            request: record.original_request,
            user: record.user,
            created_at: record.created_at,
            metadata: record.metadata,
            cancelled: false,
            active_pollers: 0,
            reconnect_deadline_nanos: now_nanos,
            persisted: false,
            result: None,
        }
    }

    /// The durable form of the job under the broker that owns it.
    pub fn to_record(&self, broker_id: &str) -> (record: PersistentJobRecord)
        ensures
            record@ == record_of(self@, broker_id@),
    {
        PersistentJobRecord {
            job_id: self.id.clone(),
            broker_id: broker_id.to_owned(),
            original_request: self.original_request.copy(),
            user: self.user.copy(),
            metadata: self.metadata.copy(),
            created_at: self.created_at,
        }
    }

    /// Returns whether cancellation has been requested for this job.
    pub fn is_cancelled(&self) -> (r: bool)
        ensures
            r == self.cancelled,
    {
        self.cancelled
    }

    /// Returns true if the client is currently polling or is within the reconnect window.
    pub fn client_present(&self, now_nanos: u64) -> (r: bool)
        ensures
            r == self.client_here(now_nanos),
    {
        self.active_pollers > 0 || now_nanos < self.reconnect_deadline_nanos
    }

    pub fn set_reconnect_deadline(&mut self, deadline_nanos: u64)
        ensures
            *final(self) == (Job { reconnect_deadline_nanos: deadline_nanos, ..*old(self) }),
    {
        self.reconnect_deadline_nanos = deadline_nanos;
    }

    /// The job as the pipeline works on it: the same contents and the same signs of life, without
    /// the outcome and the durability flag.
    pub fn copy(&self) -> (job: Job)
        ensures
            job@ == self@,
            job.cancelled == self.cancelled,
            job.active_pollers == self.active_pollers,
            job.reconnect_deadline_nanos == self.reconnect_deadline_nanos,
            !job.persisted,
            job.result is None,
    {
        Job {
            id: self.id.clone(),
            original_request: self.original_request.copy(),
            request: self.request.copy(),
            user: self.user.copy(),
            created_at: self.created_at,
            metadata: self.metadata.copy(),
            cancelled: self.cancelled,
            active_pollers: self.active_pollers,
            reconnect_deadline_nanos: self.reconnect_deadline_nanos,
            persisted: false,
            result: None,
        }
    }
}

/// The durable record of a job keeps its identifier, the request as it was submitted, the user, the
/// metadata and the creation time, under the broker that owns it.
pub proof fn law_records_keep_what_was_submitted(job: JobContents, broker_id: Seq<char>)
    ensures
        record_of(job, broker_id).job_id == job.id,
        record_of(job, broker_id).broker_id == broker_id,
        record_of(job, broker_id).original_request == job.original_request,
        record_of(job, broker_id).user == job.user,
        record_of(job, broker_id).metadata == job.metadata,
        record_of(job, broker_id).created_at == job.created_at,
{
}

/// A new job is not cancelled, has no result and no durable record, and counts as left by its
/// client until somebody polls for it.
pub proof fn law_new_jobs_are_idle(job: Job, now_nanos: u64)
    requires
        job.fresh(now_nanos),
    ensures
        !job.cancelled && job.active_pollers == 0 && job.result is None && !job.persisted,
        job.reconnect_deadline_nanos == now_nanos,
        !job.client_here(now_nanos),
{
}

/// A client counts as there exactly while it polls, and until the clock reaches its deadline after.
pub proof fn law_clients_are_there_until_their_deadline(job: Job, now_nanos: u64)
    ensures
        job.active_pollers > 0 ==> job.client_here(now_nanos),
        job.active_pollers == 0 ==> (job.client_here(now_nanos) <==> now_nanos
            < job.reconnect_deadline_nanos),
{
}

} // verus!
