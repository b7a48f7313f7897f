//! First in, first out.

use std::collections::VecDeque;

use vstd::multiset::Multiset;
use vstd::prelude::*;

use crate::dispatcher::queue::{Dequeued, Queue};
use crate::job::Job;

verus! {

/// A simple FIFO queue. Jobs come out in the order in which they went in.
#[derive(Debug)]
pub struct FifoQueue {
    pub jobs: VecDeque<Job>,
    pub closed: bool,
}

impl FifoQueue {
    pub fn new() -> (q: FifoQueue)
        ensures
            q.jobs@ == Seq::<Job>::empty(),
            !q.closed,
    {
        FifoQueue { jobs: VecDeque::new(), closed: false }
    }
}

impl Default for FifoQueue {
    fn default() -> (q: FifoQueue)
        ensures
            q.jobs@ == Seq::<Job>::empty(),
            !q.closed,
    {
        FifoQueue::new()
    }
}

impl Queue for FifoQueue {
    open spec fn waiting(&self) -> Multiset<Job> {
        self.jobs@.to_multiset()
    }

    open spec fn line(&self) -> Seq<Job> {
        self.jobs@
    }

    open spec fn added(&self, after: &Self, job: Job, now_nanos: u64) -> bool {
        &&& after.closed == self.closed
        &&& after.jobs@ == if self.closed {
            self.jobs@
        } else {
            self.jobs@.push(job)
        }
    }

    open spec fn served(&self, after: &Self) -> bool {
        &&& after.closed == self.closed
        &&& after.jobs@ == if self.jobs@.len() > 0 {
            self.jobs@.drop_first()
        } else {
            self.jobs@
        }
    }

    open spec fn closed_down(&self, after: &Self) -> bool {
        after.closed && after.jobs@ == self.jobs@
    }

    open spec fn shut(&self) -> bool {
        self.closed
    }

    open spec fn wf(&self) -> bool {
        true
    }

    fn enqueue(&mut self, job: Job, now_nanos: u64)
        ensures
            final(self).closed == old(self).closed,
            final(self).jobs@ == if old(self).closed {
                old(self).jobs@
            } else {
                old(self).jobs@.push(job)
            },
    {
        broadcast use vstd::seq_lib::group_to_multiset_ensures;

        if !self.closed {
            self.jobs.push_back(job);
        }
    }

    /// Jobs that were waiting when the queue was shut down still come out.
    fn dequeue(&mut self) -> (r: Dequeued)
        ensures
            final(self).closed == old(self).closed,
            match r {
                Dequeued::Next(job) => old(self).jobs@.len() > 0 && job == old(self).jobs@[0]
                    && final(self).jobs@ == old(self).jobs@.drop_first(),
                Dequeued::Empty => old(self).jobs@.len() == 0 && !old(self).closed
                    && final(self).jobs@ == old(self).jobs@,
                Dequeued::Closed => old(self).jobs@.len() == 0 && old(self).closed
                    && final(self).jobs@ == old(self).jobs@,
            },
    {
        broadcast use vstd::seq_lib::group_to_multiset_ensures;

        match self.jobs.pop_front() {
            Some(job) => {
                proof {
                    let before = old(self).jobs@;
                    assert(before.drop_first() =~= before.remove(0));
                    assert(before.contains(before[0]));
                }
                Dequeued::Next(job)
            },
            None => {
                if self.closed {
                    Dequeued::Closed
                } else {
                    proof {
                        assert(self.jobs@.to_multiset().len() == 0);
                        assert(self.jobs@.to_multiset() =~= Multiset::<Job>::empty());
                    }
                    Dequeued::Empty
                }
            },
        }
    }

    fn close(&mut self)
        ensures
            final(self).jobs@ == old(self).jobs@,
    {
        self.closed = true;
    }
}

/// Jobs leave in the order of their arrival: a job that is added stands behind all that wait.
pub proof fn law_arrivals_stand_behind(
    before: FifoQueue,
    after: FifoQueue,
    job: Job,
    now_nanos: u64,
)
    requires
        !before.closed,
        before.added(&after, job, now_nanos),
    ensures
        after.line() == before.line().push(job),
{
}

/// Serving takes the job in front and leaves the others in their order. A queue that is shut down
/// keeps its jobs and takes no more.
pub proof fn law_waiting_jobs_survive_the_shutdown(
    before: FifoQueue,
    served: FifoQueue,
    shut: FifoQueue,
    refused: FifoQueue,
    job: Job,
    now_nanos: u64,
)
    requires
        before.served(&served),
        before.closed_down(&shut),
        shut.added(&refused, job, now_nanos),
    ensures
        before.line().len() > 0 ==> before.line() == seq![before.line()[0]] + served.line(),
        served.shut() == before.shut(),
        shut.shut(),
        shut.line() == before.line(),
        refused.shut(),
        refused.line() == before.line(),
{
    if before.jobs@.len() > 0 {
        assert(before.line() =~= seq![before.line()[0]] + served.line());
    }
}

} // verus!
