//! Cheapest first.

use vstd::multiset::Multiset;
use vstd::prelude::*;

use crate::dispatcher::queue::{
    job_cost, lemma_insert_to_multiset, read_cost, Dequeued, Queue,
};
use crate::job::Job;

verus! {

/// A waiting job with its cost and its place among the arrivals.
#[derive(Debug)]
pub struct CostEntry {
    pub cost: u64,
    pub seq: u64,
    pub job: Job,
}

impl CostEntry {
    /// Whether this entry comes out before another: it is cheaper, or as cheap and here earlier.
    pub open spec fn precedes(self, other: CostEntry) -> bool {
        self.cost < other.cost || (self.cost == other.cost && self.seq < other.seq)
    }

    fn comes_before(&self, other: &CostEntry) -> (r: bool)
        ensures
            r == self.precedes(*other),
    {
        self.cost < other.cost || (self.cost == other.cost && self.seq < other.seq)
    }
}

/// A queue that yields the cheapest waiting job first, and among equally cheap jobs the one that
/// came first. The cost is read from the `cost` in a job's metadata; a job without one costs
/// nothing.
#[derive(Debug)]
pub struct CostWeightedQueue {
    /// The waiting jobs; the one at the end comes out next.
    pub entries: Vec<CostEntry>,
    pub next_seq: u64,
    pub closed: bool,
}

/// No entry stands behind one that it does not precede.
pub open spec fn cheapest_last(entries: Seq<CostEntry>) -> bool {
    forall|i: int, j: int|
        0 <= i < j < entries.len() ==> !(#[trigger] entries[i]).precedes(#[trigger] entries[j])
}

/// The cost of every entry is the one in the metadata of its job.
pub open spec fn costs_are_read(entries: Seq<CostEntry>) -> bool {
    forall|i: int|
        0 <= i < entries.len() ==> (#[trigger] entries[i]).cost == job_cost(
            entries[i].job@.metadata,
            0,
        )
}

/// The jobs of some entries.
pub open spec fn cost_jobs(entries: Seq<CostEntry>) -> Seq<Job> {
    Seq::new(entries.len(), |i: int| entries[i].job)
}

impl CostWeightedQueue {
    /// Every entry came before the next one to arrive, and no two came at once.
    pub open spec fn numbered(self) -> bool {
        &&& forall|i: int|
            0 <= i < self.entries@.len() ==> (#[trigger] self.entries@[i]).seq < self.next_seq
        &&& forall|i: int, j: int|
            0 <= i < j < self.entries@.len() ==> (#[trigger] self.entries@[i]).seq != (
            #[trigger] self.entries@[j]).seq
    }

    pub fn new() -> (q: CostWeightedQueue)
        ensures
            q.wf(),
            q.numbered(),
            q.entries@ == Seq::<CostEntry>::empty(),
            q.next_seq == 0,
            !q.closed,
    {
        CostWeightedQueue { entries: Vec::new(), next_seq: 0, closed: false }
    }

    /// Puts an entry in its place.
    pub fn put_back(&mut self, entry: CostEntry)
        requires
            old(self).wf(),
            !old(self).closed,
            entry.cost == job_cost(entry.job@.metadata, 0),
        ensures
            final(self).wf(),
            final(self).next_seq == old(self).next_seq,
            final(self).closed == old(self).closed,
            final(self).entries@.to_multiset() == old(self).entries@.to_multiset().insert(entry),
            final(self).waiting() == old(self).waiting().insert(entry.job),
            old(self).numbered() && entry.seq < old(self).next_seq && (forall|i: int|
                0 <= i < old(self).entries@.len() ==> (#[trigger] old(self).entries@[i]).seq
                    != entry.seq) ==> final(self).numbered(),
    {
        let ghost before = self.entries@;
        let mut at: usize = self.entries.len();
        while at > 0 && self.entries[at - 1].comes_before(&entry)
            invariant
                at <= self.entries.len(),
                self.entries@ == before,
                cheapest_last(before),
                forall|k: int| at <= k < before.len() ==> (#[trigger] before[k]).precedes(entry),
            decreases at,
        {
            at = at - 1;
        }
        let ghost number = entry.seq;
        self.entries.insert(at, entry);
        proof {
            let after = self.entries@;
            assert(after == before.insert(at as int, entry));
            assert forall|i: int, j: int| 0 <= i < j < after.len() implies !(
            #[trigger] after[i]).precedes(#[trigger] after[j]) by {
                if i < at && j == at {
                    if before[i].precedes(entry) {
                        assert(!before[i].precedes(before[at - 1]) || i == at - 1);
                    }
                } else if i == at {
                    assert(before[j - 1].precedes(entry));
                } else if j < at {
                    assert(!before[i].precedes(before[j]));
                } else if i < at {
                    assert(!before[i].precedes(before[j - 1]));
                } else {
                    assert(!before[i - 1].precedes(before[j - 1]));
                }
            }
            assert forall|i: int| 0 <= i < after.len() implies (#[trigger] after[i]).cost
                == job_cost(after[i].job@.metadata, 0) by {
                if i < at {
                    assert(after[i] == before[i]);
                } else if i > at {
                    assert(after[i] == before[i - 1]);
                }
            }
            if old(self).numbered() && number < old(self).next_seq && (forall|i: int|
                0 <= i < before.len() ==> (#[trigger] before[i]).seq != number) {
                assert forall|i: int| 0 <= i < after.len() implies (#[trigger] after[i]).seq
                    < self.next_seq by {
                    if i < at {
                        assert(after[i] == before[i]);
                    } else if i > at {
                        assert(after[i] == before[i - 1]);
                    }
                }
                assert forall|i: int, j: int| 0 <= i < j < after.len() implies (
                #[trigger] after[i]).seq != (#[trigger] after[j]).seq by {
                    let a = if i < at {
                        i
                    } else {
                        i - 1
                    };
                    let b = if j < at {
                        j
                    } else {
                        j - 1
                    };
                    if i != at && j != at {
                        assert(before[a].seq != before[b].seq);
                    }
                }
            }
            lemma_insert_to_multiset(before, at as int, entry);
            assert(cost_jobs(after) =~= cost_jobs(before).insert(at as int, entry.job));
            lemma_insert_to_multiset(cost_jobs(before), at as int, entry.job);
        }
    }

    /// Takes out the entry that comes next: no other precedes it.
    pub fn take(&mut self) -> (r: Option<CostEntry>)
        requires
            old(self).wf(),
        ensures
            final(self).wf(),
            final(self).next_seq == old(self).next_seq,
            final(self).closed == old(self).closed,
            match r {
                Some(entry) => {
                    &&& old(self).entries@.len() > 0
                    &&& entry == old(self).entries@.last()
                    &&& final(self).entries@ == old(self).entries@.drop_last()
                    &&& forall|i: int|
                        0 <= i < old(self).entries@.len() ==> !(
                        #[trigger] old(self).entries@[i]).precedes(entry)
                    &&& old(self).waiting().contains(entry.job)
                    &&& final(self).waiting() == old(self).waiting().remove(entry.job)
                },
                None => old(self).entries@.len() == 0 && final(self).entries@
                    == old(self).entries@,
            },
            old(self).numbered() ==> final(self).numbered(),
    {
        let ghost before = self.entries@;
        let r = self.entries.pop();
        proof {
            broadcast use vstd::seq_lib::group_to_multiset_ensures;

            if before.len() > 0 {
                let n = before.len() - 1;
                assert(!before[n].precedes(before[n]));
                assert(cost_jobs(self.entries@) =~= cost_jobs(before).remove(n));
                assert(cost_jobs(before)[n] == before[n].job);
                assert(cost_jobs(before).contains(before[n].job));
            }
        }
        r
    }
}

impl Default for CostWeightedQueue {
    fn default() -> (q: CostWeightedQueue)
        ensures
            q.wf(),
            q.numbered(),
            q.entries@ == Seq::<CostEntry>::empty(),
            q.next_seq == 0,
            !q.closed,
    {
        CostWeightedQueue::new()
    }
}

impl Queue for CostWeightedQueue {
    open spec fn waiting(&self) -> Multiset<Job> {
        cost_jobs(self.entries@).to_multiset()
    }

    open spec fn line(&self) -> Seq<Job> {
        cost_jobs(self.entries@).reverse()
    }

    open spec fn added(&self, after: &Self, job: Job, now_nanos: u64) -> bool {
        if self.closed {
            *after == *self
        } else {
            let entry = CostEntry { cost: job_cost(job@.metadata, 0), seq: self.next_seq, job };
            &&& !after.closed
            &&& after.entries@.to_multiset() == self.entries@.to_multiset().insert(entry)
            &&& cheapest_last(after.entries@)
            &&& after.next_seq == if self.next_seq < u64::MAX {
                self.next_seq + 1
            } else {
                0
            }
            &&& self.numbered() && self.next_seq < u64::MAX ==> after.numbered()
        }
    }

    open spec fn served(&self, after: &Self) -> bool {
        &&& after.closed == self.closed
        &&& after.next_seq == self.next_seq
        &&& after.entries@ == if self.entries@.len() > 0 {
            self.entries@.drop_last()
        } else {
            self.entries@
        }
    }

    open spec fn closed_down(&self, after: &Self) -> bool {
        after.closed && after.entries@.len() == 0 && after.next_seq == self.next_seq
    }

    open spec fn shut(&self) -> bool {
        self.closed
    }

    open spec fn wf(&self) -> bool {
        &&& cheapest_last(self.entries@)
        &&& costs_are_read(self.entries@)
        &&& self.closed ==> self.entries@.len() == 0
    }

    fn enqueue(&mut self, job: Job, now_nanos: u64) {
        if !self.closed {
            let cost: u64 = read_cost(&job, 0);
            let seq: u64 = self.next_seq;
            self.next_seq = seq.wrapping_add(1);
            self.put_back(CostEntry { cost, seq, job });
        }
    }

    /// A queue that was shut down gives nothing more, even where jobs were waiting.
    fn dequeue(&mut self) -> (r: Dequeued) {
        if self.closed {
            return Dequeued::Closed;
        }
        proof {
            let before = cost_jobs(self.entries@);
            if before.len() > 0 {
                assert(cost_jobs(self.entries@.drop_last()).reverse()
                    =~= before.reverse().drop_first());
            }
        }
        match self.take() {
            Some(entry) => Dequeued::Next(entry.job),
            None => {
                proof {
                    broadcast use vstd::seq_lib::group_to_multiset_ensures;

                    assert(cost_jobs(self.entries@).to_multiset() =~= Multiset::<Job>::empty());
                }
                Dequeued::Empty
            },
        }
    }

    fn close(&mut self) {
        self.closed = true;
        self.entries.clear();
    }
}

/// The job that comes out next is a cheapest one: no waiting job costs less, and none of the same
/// cost arrived before it.
pub proof fn law_next_job_is_the_cheapest(queue: CostWeightedQueue, i: int)
    requires
        queue.wf(),
        queue.numbered(),
        0 <= i < queue.entries@.len() - 1,
    ensures
        queue.line()[0] == queue.entries@.last().job,
        ({
            let next = queue.entries@.last();
            let other = queue.entries@[i];
            let cost = job_cost(next.job@.metadata, 0);
            let other_cost = job_cost(other.job@.metadata, 0);
            cost < other_cost || (cost == other_cost && next.seq < other.seq)
        }),
{
    let n = queue.entries@.len() - 1;
    assert(!queue.entries@[i].precedes(queue.entries@[n]));
    assert(queue.entries@[i].seq != queue.entries@[n].seq);
}

/// Jobs are numbered as they arrive: a job that is added gets a number above all those that wait.
pub proof fn law_arrivals_are_numbered(
    before: CostWeightedQueue,
    after: CostWeightedQueue,
    job: Job,
    now_nanos: u64,
    i: int,
)
    requires
        before.wf(),
        before.numbered(),
        before.next_seq < u64::MAX,
        !before.closed,
        before.added(&after, job, now_nanos),
        0 <= i < before.entries@.len(),
    ensures
        after.numbered(),
        after.entries@.contains(
            CostEntry { cost: job_cost(job@.metadata, 0), seq: before.next_seq, job },
        ),
        after.entries@.contains(before.entries@[i]),
        before.entries@[i].seq < before.next_seq,
{
    broadcast use vstd::seq_lib::group_to_multiset_ensures;

    let entry = CostEntry { cost: job_cost(job@.metadata, 0), seq: before.next_seq, job };
    let all = before.entries@.to_multiset().insert(entry);
    assert(all.count(entry) > 0);
    assert(before.entries@.to_multiset().count(before.entries@[i]) > 0);
    assert(all.count(before.entries@[i]) > 0);
}

/// Of two equally cheap waiting jobs the one that arrived first comes out first: it stands nearer
/// to the end.
pub proof fn law_equal_costs_leave_in_order(queue: CostWeightedQueue, i: int, j: int)
    requires
        queue.wf(),
        0 <= i < queue.entries@.len(),
        0 <= j < queue.entries@.len(),
        queue.entries@[i].cost == queue.entries@[j].cost,
        queue.entries@[i].seq < queue.entries@[j].seq,
    ensures
        j < i,
{
    if i < j {
        assert(!queue.entries@[i].precedes(queue.entries@[j]));
    }
}

/// Cheaper jobs come out before dearer ones: they stand nearer to the end.
pub proof fn law_cheaper_leaves_first(queue: CostWeightedQueue, i: int, j: int)
    requires
        queue.wf(),
        0 <= i < queue.entries@.len(),
        0 <= j < queue.entries@.len(),
        queue.entries@[i].cost < queue.entries@[j].cost,
    ensures
        j < i,
{
    if i < j {
        assert(!queue.entries@[i].precedes(queue.entries@[j]));
    }
}

/// Serving takes the job in front and leaves the others in their order. A queue that is shut down
/// drops its jobs and takes no more.
pub proof fn law_nothing_waits_after_the_shutdown(
    before: CostWeightedQueue,
    served: CostWeightedQueue,
    shut: CostWeightedQueue,
    refused: CostWeightedQueue,
    job: Job,
    now_nanos: u64,
)
    requires
        before.served(&served),
        before.closed_down(&shut),
        shut.added(&refused, job, now_nanos),
    ensures
        before.line().len() > 0 ==> before.line() == seq![before.line()[0]] + served.line(),
        served.shut() == before.shut(),
        shut.shut(),
        shut.line().len() == 0,
        refused == shut,
{
    if before.entries@.len() > 0 {
        assert(cost_jobs(before.entries@).last() == before.line()[0]);
        assert(before.line() =~= seq![before.line()[0]] + served.line());
    }
}

} // verus!
