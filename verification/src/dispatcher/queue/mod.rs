//! Queues decide which waiting job runs next.

pub mod age_priority;
pub mod cost_weighted;
pub mod fifo;

use vstd::multiset::Multiset;
use vstd::prelude::*;

use crate::job::Job;
use crate::json::{lookup, NumberValue, Tree};

verus! {

/// Selects the queue of a dispatcher.
#[derive(Debug, Clone, Copy, PartialEq, Eq, Structural)]
pub enum QueueKind {
    Fifo,
    CostWeighted,
    AgePriority,
}

/// What a queue has for a worker.
#[derive(Debug)]
pub enum Dequeued {
    /// The job that runs next.
    Next(Job),
    /// Nothing is waiting at the moment.
    Empty,
    /// The queue is shut down; nothing will come any more.
    Closed,
}

/// A queue is a pure data structure: jobs go in and come out in an order of its own.
pub trait Queue {
    /// The jobs that are waiting.
    spec fn waiting(&self) -> Multiset<Job>;

    /// The waiting jobs in the order in which they come out, as far as it is settled: the first
    /// one is next.
    spec fn line(&self) -> Seq<Job>;

    /// The queue after a job was added to it at a clock reading.
    spec fn added(&self, after: &Self, job: Job, now_nanos: u64) -> bool;

    /// The queue after the job in front was taken out of it, if there was one.
    spec fn served(&self, after: &Self) -> bool;

    /// The queue after it was shut down.
    spec fn closed_down(&self, after: &Self) -> bool;

    /// The queue was shut down.
    spec fn shut(&self) -> bool;

    /// The invariant of the queue.
    spec fn wf(&self) -> bool;

    /// Adds a job at the given clock reading. A queue that is shut down drops it.
    fn enqueue(&mut self, job: Job, now_nanos: u64)
        requires
            old(self).wf(),
        ensures
            final(self).wf(),
            final(self).shut() == old(self).shut(),
            old(self).added(final(self), job, now_nanos),
            old(self).shut() ==> final(self).waiting() == old(self).waiting(),
            !old(self).shut() ==> final(self).waiting() == old(self).waiting().insert(job),
    ;

    /// Takes out the job that runs next.
    fn dequeue(&mut self) -> (r: Dequeued)
        requires
            old(self).wf(),
        ensures
            final(self).wf(),
            final(self).shut() == old(self).shut(),
            old(self).served(final(self)),
            match r {
                Dequeued::Next(job) => {
                    &&& old(self).line().len() > 0
                    &&& job == old(self).line()[0]
                    &&& final(self).line() == old(self).line().drop_first()
                    &&& old(self).waiting().contains(job)
                    &&& final(self).waiting() == old(self).waiting().remove(job)
                },
                Dequeued::Empty => {
                    &&& !old(self).shut()
                    &&& old(self).line().len() == 0
                    &&& final(self).line().len() == 0
                    &&& old(self).waiting() == Multiset::<Job>::empty()
                    &&& final(self).waiting() == old(self).waiting()
                },
                Dequeued::Closed => {
                    &&& old(self).shut()
                    &&& old(self).line().len() == 0
                    &&& final(self).line().len() == 0
                    &&& final(self).waiting() == old(self).waiting()
                },
            },
    ;

    /// Shuts the queue down.
    fn close(&mut self)
        requires
            old(self).wf(),
        ensures
            final(self).wf(),
            final(self).shut(),
            old(self).closed_down(final(self)),
    ;
}

/// The `cost` in the metadata of a job, or a default where it holds no unsigned integer.
pub open spec fn job_cost(metadata: Tree, default: u64) -> u64 {
    match metadata.get("cost"@) {
        Some(cost) => match cost.as_u64() {
            Some(n) => n,
            None => default,
        },
        None => default,
    }
}

/// Reads the cost of a job.
pub fn read_cost(job: &Job, default: u64) -> (cost: u64)
    ensures
        cost == job_cost(job@.metadata, default),
{
    match job.metadata.get("cost") {
        Some(cost) => match cost.as_u64() {
            Some(n) => n,
            None => default,
        },
        None => default,
    }
}

/// Inserting an element anywhere adds it to the elements.
pub proof fn lemma_insert_to_multiset<A>(s: Seq<A>, at: int, a: A)
    requires
        0 <= at <= s.len(),
    ensures
        s.insert(at, a).to_multiset() == s.to_multiset().insert(a),
{
    broadcast use vstd::seq_lib::group_to_multiset_ensures;

    let after = s.insert(at, a);
    assert(after.remove(at) =~= s);
    assert(after[at] == a);
    assert(after.contains(a));
    assert(after.to_multiset() =~= s.to_multiset().insert(a));
}

/// The cost of a job is the whole number at or above zero under `cost` in its metadata. Anything
/// else there counts as the default, and so does nothing.
pub proof fn law_costs_stand_in_the_metadata(
    members: Seq<(Seq<char>, Tree)>,
    metadata: Tree,
    default: u64,
    n: u64,
)
    ensures
        lookup(members, "cost"@) == Some(Tree::Number(NumberValue::Unsigned(n))) ==> job_cost(
            Tree::Obj(members),
            default,
        ) == n,
        lookup(members, "cost"@) is None ==> job_cost(Tree::Obj(members), default) == default,
        lookup(members, "cost"@) is Some && !(lookup(members, "cost"@)->0 matches Tree::Number(
            NumberValue::Unsigned(_),
        )) ==> job_cost(Tree::Obj(members), default) == default,
        !(metadata is Obj) ==> job_cost(metadata, default) == default,
{
}

} // verus!
