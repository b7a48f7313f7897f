//! A queue in front of an executor.

use vstd::prelude::*;

use crate::actions::ActionError;
use crate::dispatcher::queue::{Dequeued, Queue};
use crate::job::Job;
use crate::table::Table;

verus! {

/// Composes a queue, which decides which job runs next, with whatever runs the jobs.
///
/// A caller hands in a job with the number of the channel on which it waits for the result. A
/// worker takes the jobs out in the order of the queue.
pub struct ScheduledDispatcher<Q: Queue> {
    pub queue: Q,
    /// Channels of the callers, by job.
    pub pending: Table<u64>,
}

/// What a worker finds.
#[derive(Debug)]
pub enum ScheduleStep {
    /// Run the job and answer on this channel.
    Run { job: Job, channel: u64 },
    /// Nobody waits for this job any more.
    Skip(Job),
    /// Nothing is waiting at the moment.
    Idle,
    /// Nothing will come any more.
    Closed,
}

impl<Q: Queue> ScheduledDispatcher<Q> {
    pub open spec fn wf(self) -> bool {
        self.queue.wf() && self.pending.wf()
    }

    pub fn new(queue: Q) -> (r: ScheduledDispatcher<Q>)
        requires
            queue.wf(),
        ensures
            r.wf(),
            r.queue == queue,
            r.pending@ == Map::<Seq<char>, u64>::empty(),
    {
        ScheduledDispatcher { queue, pending: Table::new() }
    }

    /// Hands in a job. The channel is known before the job can be taken out.
    pub fn dispatch(&mut self, job: Job, channel: u64, now_nanos: u64)
        requires
            old(self).wf(),
        ensures
            final(self).wf(),
            final(self).pending@ == old(self).pending@.insert(job.id@, channel),
            old(self).queue.added(&final(self).queue, job, now_nanos),
            final(self).queue.shut() == old(self).queue.shut(),
            final(self).queue.waiting() == if old(self).queue.shut() {
                old(self).queue.waiting()
            } else {
                old(self).queue.waiting().insert(job)
            },
    {
        self.pending.insert(job.id.clone(), channel);
        self.queue.enqueue(job, now_nanos);
    }

    /// Gives up waiting for a job.
    pub fn forget(&mut self, job_id: &str)
        requires
            old(self).wf(),
        ensures
            final(self).wf(),
            final(self).pending@ == old(self).pending@.remove(job_id@),
            final(self).queue == old(self).queue,
    {
        self.pending.remove(job_id);
    }

    /// Takes out the job that runs next.
    pub fn next(&mut self) -> (step: ScheduleStep)
        requires
            old(self).wf(),
        ensures
            final(self).wf(),
            final(self).queue.shut() == old(self).queue.shut(),
            old(self).queue.served(&final(self).queue),
            match step {
                ScheduleStep::Run { job, channel } => {
                    &&& old(self).queue.line().len() > 0
                    &&& job == old(self).queue.line()[0]
                    &&& final(self).queue.line() == old(self).queue.line().drop_first()
                    &&& old(self).queue.waiting().contains(job)
                    &&& final(self).queue.waiting() == old(self).queue.waiting().remove(job)
                    &&& old(self).pending@.contains_key(job.id@)
                    &&& channel == old(self).pending@[job.id@]
                    &&& final(self).pending@ == old(self).pending@.remove(job.id@)
                },
                ScheduleStep::Skip(job) => {
                    &&& old(self).queue.line().len() > 0
                    &&& job == old(self).queue.line()[0]
                    &&& final(self).queue.line() == old(self).queue.line().drop_first()
                    &&& old(self).queue.waiting().contains(job)
                    &&& final(self).queue.waiting() == old(self).queue.waiting().remove(job)
                    &&& !old(self).pending@.contains_key(job.id@)
                    &&& final(self).pending@ == old(self).pending@
                },
                ScheduleStep::Idle => {
                    &&& !old(self).queue.shut()
                    &&& old(self).queue.line().len() == 0
                    &&& old(self).queue.waiting().len() == 0
                    &&& final(self).queue.waiting() == old(self).queue.waiting()
                    &&& final(self).pending@ == old(self).pending@
                },
                ScheduleStep::Closed => {
                    &&& old(self).queue.shut()
                    &&& old(self).queue.line().len() == 0
                    &&& final(self).queue.waiting() == old(self).queue.waiting()
                    &&& final(self).pending@ == old(self).pending@
                },
            },
    {
        match self.queue.dequeue() {
            Dequeued::Next(job) => match self.pending.remove(&job.id) {
                Some(channel) => ScheduleStep::Run { job, channel },
                None => {
                    assert(self.pending@ =~= old(self).pending@);
                    ScheduleStep::Skip(job)
                },
            },
            Dequeued::Empty => ScheduleStep::Idle,
            Dequeued::Closed => ScheduleStep::Closed,
        }
    }
}

/// What a caller is told whose channel was closed without an answer.
pub fn scheduler_closed() -> (e: ActionError)
    ensures
        e matches ActionError::ResourceError(m) && m@ == "scheduler closed"@,
{
    ActionError::ResourceError("scheduler closed".to_owned())
}

} // verus!
