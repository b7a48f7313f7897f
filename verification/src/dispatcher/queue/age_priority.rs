//! Age against cost.

use vstd::multiset::Multiset;
use vstd::prelude::*;

use crate::dispatcher::queue::{
    job_cost, lemma_insert_to_multiset, read_cost, Dequeued, Queue,
};
use crate::job::Job;

verus! {

/// A waiting job with its cost, its place among the arrivals and the clock reading at its arrival.
#[derive(Debug)]
pub struct AgeEntry {
    pub cost: u64,
    pub seq: u64,
    pub enqueued_nanos: u64,
    pub job: Job,
}

// ---------------------------------------------------------------------------------------------
// Integer square root
// ---------------------------------------------------------------------------------------------

/// The integer square root of a number, but at least one.
pub open spec fn is_root(value: nat, root: nat) -> bool {
    &&& root >= 1
    &&& value >= 1 ==> root * root <= value && value < (root + 1) * (root + 1)
    &&& value == 0 ==> root == 1
}

/// There is only one such root.
pub proof fn law_root_is_unique(value: nat, a: nat, b: nat)
    requires
        is_root(value, a),
        is_root(value, b),
    ensures
        a == b,
{
    if value >= 1 {
        if a < b {
            assert((a + 1) * (a + 1) <= b * b) by (nonlinear_arith)
                requires
                    a < b,
            ;
        } else if b < a {
            assert((b + 1) * (b + 1) <= a * a) by (nonlinear_arith)
                requires
                    b < a,
            ;
        }
    }
}

/// One step of Newton's method stays at or above the root.
proof fn lemma_newton(value: nat, x: nat)
    requires
        x >= 1,
        value >= 1,
    ensures
        ({
            let y = (x + value / x) / 2;
            &&& value < (y + 1) * (y + 1)
            &&& y >= x ==> x * x <= value
            &&& y < x ==> y >= 1
        }),
{
    let q = value / x;
    let y = (x + q) / 2;
    assert(q * x <= value && value < (q + 1) * x) by (nonlinear_arith)
        requires
            x >= 1,
            q == value / x,
    ;
    assert(value < (y + 1) * (y + 1)) by (nonlinear_arith)
        requires
            value < (q + 1) * x,
            2 * (y + 1) >= x + q + 1,
    ;
    if y >= x {
        assert(q >= x);
        assert(x * x <= value) by (nonlinear_arith)
            requires
                q * x <= value,
                q >= x,
        ;
    }
    if y < x && y == 0 {
        assert(x + q < 2);
        assert(x == 1 && q == 0);
        assert(value < 1);
    }
}

/// The integer square root by Newton's method, but at least one.
pub fn integer_sqrt(value: u128) -> (root: u128)
    ensures
        is_root(value as nat, root as nat),
        root <= 0x1_0000_0000_0000_0000,
{
    if value == 0 {
        return 1;
    }
    let mut x: u128 = value;
    let mut y: u128 = x / 2 + x % 2;
    proof {
        if value == 1 {
        } else {
            assert(value < (y + 1) * (y + 1)) by (nonlinear_arith)
                requires
                    2 * y >= value,
                    y >= 1,
            ;
        }
        assert(value < (x + 1) * (x + 1)) by (nonlinear_arith)
            requires
                x == value,
        ;
    }
    while y < x
        invariant
            value >= 1,
            x >= 1,
            y >= 1,
            x <= value,
            value < (x + 1) * (x + 1),
            value < (y + 1) * (y + 1),
            y >= x ==> x * x <= value,
            y < x ==> 2 * y <= value + 1,
        decreases x,
    {
        x = y;
        proof {
            lemma_newton(value as nat, x as nat);
            assert(x + value / x <= u128::MAX) by {
                lemma_newton_fits(value as nat, x as nat);
            }
        }
        y = (x + value / x) / 2;
    }
    proof {
        assert(x <= 0x1_0000_0000_0000_0000) by {
            if x > 0x1_0000_0000_0000_0000 {
                assert(x * x > u128::MAX) by (nonlinear_arith)
                    requires
                        x > 0x1_0000_0000_0000_0000,
                ;
            }
        }
    }
    x
}

proof fn lemma_newton_fits(value: nat, x: nat)
    requires
        1 <= x <= value,
        value <= u128::MAX,
        2 * x <= value + 1,
        value < (x + 1) * (x + 1),
    ensures
        x + value / x <= u128::MAX,
{
    if x == 1 {
        assert(value < 4) by (nonlinear_arith)
            requires
                value < (x + 1) * (x + 1),
                x == 1,
        ;
    } else {
        assert(value / x <= value / 2) by (nonlinear_arith)
            requires
                x >= 2,
        ;
    }
}

// ---------------------------------------------------------------------------------------------
// Rank
// ---------------------------------------------------------------------------------------------

/// The square root of a cost, but at least one.
pub open spec fn cost_root(cost: u64) -> nat {
    choose|root: nat| is_root(cost as nat, root)
}

/// How long an entry has waited at a clock reading.
pub open spec fn waited(entry: AgeEntry, now_nanos: u64) -> nat {
    if now_nanos >= entry.enqueued_nanos {
        (now_nanos - entry.enqueued_nanos) as nat
    } else {
        0
    }
}

/// Whether `a` ranks below `b`: its waiting time in relation to the square root of its cost is
/// smaller, or as large and it came later.
pub open spec fn ranks_below(a: AgeEntry, b: AgeEntry, now_nanos: u64) -> bool {
    let left = waited(a, now_nanos) * cost_root(b.cost);
    let right = waited(b, now_nanos) * cost_root(a.cost);
    left < right || (left == right && a.seq > b.seq)
}

/// The entries by rising rank.
pub open spec fn by_rank(entries: Seq<AgeEntry>, now_nanos: u64) -> bool {
    forall|i: int, j: int|
        0 <= i < j < entries.len() ==> !ranks_below(
            #[trigger] entries[j],
            #[trigger] entries[i],
            now_nanos,
        )
}

/// The root of a cost as [`integer_sqrt`] computes it.
proof fn lemma_cost_root(cost: u64, root: u128)
    requires
        is_root(cost as nat, root as nat),
    ensures
        cost_root(cost) == root,
        cost_root(cost) >= 1,
{
    assert(is_root(cost as nat, root as nat));
    law_root_is_unique(cost as nat, cost_root(cost), root as nat);
}

fn root_of(cost: u64) -> (root: u128)
    ensures
        root == cost_root(cost),
        1 <= root <= 0x1_0000_0000,
{
    let root: u128 = integer_sqrt(if cost >= 1 {
        cost as u128
    } else {
        1
    });
    proof {
        if cost == 0 {
            assert(root * root <= 1);
            assert(root == 1) by (nonlinear_arith)
                requires
                    root >= 1,
                    root * root <= 1,
            ;
        }
        lemma_cost_root(cost, root);
        if root > 0x1_0000_0000 {
            assert(root * root > u64::MAX) by (nonlinear_arith)
                requires
                    root > 0x1_0000_0000,
            ;
        }
    }
    root
}

/// Whether one entry ranks below another.
fn compare_entries(a: &AgeEntry, b: &AgeEntry, now_nanos: u64) -> (r: bool)
    ensures
        r == ranks_below(*a, *b, now_nanos),
{
    let a_root: u128 = root_of(a.cost);
    let b_root: u128 = root_of(b.cost);
    let a_wait: u128 = now_nanos.saturating_sub(a.enqueued_nanos) as u128;
    let b_wait: u128 = now_nanos.saturating_sub(b.enqueued_nanos) as u128;
    assert(a_wait * b_root <= 0xffff_ffff_ffff_ffff * 0x1_0000_0000) by (nonlinear_arith)
        requires
            a_wait <= 0xffff_ffff_ffff_ffff,
            b_root <= 0x1_0000_0000,
    ;
    assert(b_wait * a_root <= 0xffff_ffff_ffff_ffff * 0x1_0000_0000) by (nonlinear_arith)
        requires
            b_wait <= 0xffff_ffff_ffff_ffff,
            a_root <= 0x1_0000_0000,
    ;
    let left: u128 = a_wait * b_root;
    let right: u128 = b_wait * a_root;
    left < right || (left == right && a.seq > b.seq)
}

proof fn lemma_roots_positive(cost: u64)
    ensures
        cost_root(cost) >= 1,
    decreases cost,
{
    lemma_root_exists(cost as nat);
}

proof fn lemma_root_exists(value: nat)
    ensures
        exists|root: nat| is_root(value, root),
    decreases value,
{
    if value <= 1 {
        assert((1nat + 1) * (1nat + 1) == 4) by (nonlinear_arith);
        assert(is_root(value, 1));
    } else {
        let less = (value - 1) as nat;
        lemma_root_exists(less);
        let r = choose|root: nat| is_root(less, root);
        if value < (r + 1) * (r + 1) {
            assert(is_root(value, r));
        } else {
            assert(value == (r + 1) * (r + 1));
            assert(value < (r + 2) * (r + 2)) by (nonlinear_arith)
                requires
                    value == (r + 1) * (r + 1),
            ;
            assert(is_root(value, r + 1));
        }
    }
}

/// Rank is transitive: if `b` does not rank below `a` and `c` does not rank below `b`, then `c`
/// does not rank below `a`.
pub proof fn law_rank_is_transitive(a: AgeEntry, b: AgeEntry, c: AgeEntry, now_nanos: u64)
    requires
        !ranks_below(b, a, now_nanos),
        !ranks_below(c, b, now_nanos),
    ensures
        !ranks_below(c, a, now_nanos),
{
    lemma_roots_positive(a.cost);
    lemma_roots_positive(b.cost);
    lemma_roots_positive(c.cost);
    let (wa, wb, wc) = (waited(a, now_nanos), waited(b, now_nanos), waited(c, now_nanos));
    let (ra, rb, rc) = (cost_root(a.cost), cost_root(b.cost), cost_root(c.cost));
    // b is not below a: a's waiting time in relation to its root is not above b's.
    assert(wa * rb <= wb * ra);
    assert(wb * rc <= wc * rb);
    assert(wa * rc <= wc * ra) by (nonlinear_arith)
        requires
            wa * rb <= wb * ra,
            wb * rc <= wc * rb,
            ra >= 1,
            rb >= 1,
            rc >= 1,
    {
        assert((wa * rc) * rb == (wa * rb) * rc);
        assert((wa * rb) * rc <= (wb * ra) * rc);
        assert((wb * ra) * rc == (wb * rc) * ra);
        assert((wb * rc) * ra <= (wc * rb) * ra);
        assert((wc * rb) * ra == (wc * ra) * rb);
        assert((wa * rc) * rb <= (wc * ra) * rb);
    }
    if wc * ra == wa * rc {
        // Both relations are equalities then, and the places among the arrivals decide.
        assert(wa * rb == wb * ra && wb * rc == wc * rb) by (nonlinear_arith)
            requires
                wa * rb <= wb * ra,
                wb * rc <= wc * rb,
                wc * ra == wa * rc,
                ra >= 1,
                rb >= 1,
                rc >= 1,
        {
            assert((wa * rb) * rc <= (wb * ra) * rc);
            assert((wb * rc) * ra <= (wc * rb) * ra);
            assert((wb * ra) * rc == (wb * rc) * ra);
            assert((wc * rb) * ra == (wc * ra) * rb);
            assert((wa * rb) * rc == (wa * rc) * rb);
            assert((wa * rb) * rc == (wb * ra) * rc);
            assert((wb * rc) * ra == (wc * rb) * ra);
        }
    }
}

/// A job that was already waiting ranks above one that arrives at this moment, whatever the two
/// cost.
pub proof fn law_waiting_job_outranks_arrival(old_: AgeEntry, new: AgeEntry)
    requires
        old_.enqueued_nanos < new.enqueued_nanos,
    ensures
        ranks_below(new, old_, new.enqueued_nanos),
{
    lemma_roots_positive(new.cost);
    let w = waited(old_, new.enqueued_nanos);
    let r = cost_root(new.cost);
    assert(waited(new, new.enqueued_nanos) * cost_root(old_.cost) == 0) by (nonlinear_arith)
        requires
            waited(new, new.enqueued_nanos) == 0,
    ;
    assert(w * r > 0) by (nonlinear_arith)
        requires
            w >= 1,
            r >= 1,
    ;
}

/// Of two jobs of the same cost the one that has waited longer ranks above the other.
pub proof fn law_equal_costs_rank_by_age(a: AgeEntry, b: AgeEntry, now_nanos: u64)
    requires
        a.cost == b.cost,
        a.enqueued_nanos < b.enqueued_nanos <= now_nanos,
    ensures
        ranks_below(b, a, now_nanos),
{
    lemma_roots_positive(a.cost);
    let (wa, wb) = (waited(a, now_nanos), waited(b, now_nanos));
    let r = cost_root(a.cost);
    assert(wb * r < wa * r) by (nonlinear_arith)
        requires
            wb < wa,
            r >= 1,
    ;
}

// ---------------------------------------------------------------------------------------------
// Queue
// ---------------------------------------------------------------------------------------------

/// The cost of every entry is the one in the metadata of its job.
pub open spec fn age_costs_are_read(entries: Seq<AgeEntry>) -> bool {
    forall|i: int|
        0 <= i < entries.len() ==> (#[trigger] entries[i]).cost == job_cost(
            entries[i].job@.metadata,
            1,
        )
}

/// The jobs of some entries.
pub open spec fn age_jobs(entries: Seq<AgeEntry>) -> Seq<Job> {
    Seq::new(entries.len(), |i: int| entries[i].job)
}

/// A queue in which waiting weighs against cost: the job with the largest waiting time in
/// relation to the square root of its cost comes out first. The cost is read from the `cost` in a
/// job's metadata; a job without one costs one.
#[derive(Debug)]
pub struct AgePriorityQueue {
    /// The waiting jobs by rising rank; the one at the end comes out next.
    pub entries: Vec<AgeEntry>,
    /// The clock reading at which the entries were last ranked.
    pub ranked_nanos: u64,
    pub next_seq: u64,
    pub closed: bool,
}

fn insert_by_rank(entries: &mut Vec<AgeEntry>, entry: AgeEntry, now_nanos: u64)
    requires
        by_rank(old(entries)@, now_nanos),
        age_costs_are_read(old(entries)@),
        entry.cost == job_cost(entry.job@.metadata, 1),
    ensures
        by_rank(final(entries)@, now_nanos),
        age_costs_are_read(final(entries)@),
        final(entries)@.to_multiset() == old(entries)@.to_multiset().insert(entry),
        age_jobs(final(entries)@).to_multiset() == age_jobs(old(entries)@).to_multiset().insert(
            entry.job,
        ),
{
    let ghost before = entries@;
    let mut at: usize = entries.len();
    while at > 0 && compare_entries(&entry, &entries[at - 1], now_nanos)
        invariant
            at <= entries.len(),
            entries@ == before,
            by_rank(before, now_nanos),
            forall|k: int|
                at <= k < before.len() ==> ranks_below(entry, #[trigger] before[k], now_nanos),
        decreases at,
    {
        at = at - 1;
    }
    entries.insert(at, entry);
    proof {
        let after = entries@;
        assert(after == before.insert(at as int, entry));
        assert forall|i: int, j: int| 0 <= i < j < after.len() implies !ranks_below(
            #[trigger] after[j],
            #[trigger] after[i],
            now_nanos,
        ) by {
            if j == at {
                // Everything in front does not rank above the neighbour in front.
                if i < at - 1 {
                    law_rank_is_transitive(before[i], before[at - 1], entry, now_nanos);
                }
            } else if i == at {
                assert(ranks_below(entry, before[j - 1], now_nanos));
            } else if j < at {
                assert(!ranks_below(before[j], before[i], now_nanos));
            } else if i < at {
                assert(!ranks_below(before[j - 1], before[i], now_nanos));
            } else {
                assert(!ranks_below(before[j - 1], before[i - 1], now_nanos));
            }
        }
        assert forall|i: int| 0 <= i < after.len() implies (#[trigger] after[i]).cost == job_cost(
            after[i].job@.metadata,
            1,
        ) by {
            if i < at {
                assert(after[i] == before[i]);
            } else if i > at {
                assert(after[i] == before[i - 1]);
            }
        }
        lemma_insert_to_multiset(before, at as int, entry);
        assert(age_jobs(after) =~= age_jobs(before).insert(at as int, entry.job));
        lemma_insert_to_multiset(age_jobs(before), at as int, entry.job);
    }
}

impl AgePriorityQueue {
    pub fn new() -> (q: AgePriorityQueue)
        ensures
            q.wf(),
            q.entries@ == Seq::<AgeEntry>::empty(),
            q.next_seq == 0,
            !q.closed,
    {
        AgePriorityQueue { entries: Vec::new(), ranked_nanos: 0, next_seq: 0, closed: false }
    }

    /// Ranks the waiting jobs anew at a clock reading.
    pub fn rebalance(&mut self, now_nanos: u64)
        requires
            old(self).wf(),
        ensures
            final(self).wf(),
            final(self).ranked_nanos == now_nanos,
            final(self).next_seq == old(self).next_seq,
            final(self).closed == old(self).closed,
            final(self).entries@.to_multiset() == old(self).entries@.to_multiset(),
            final(self).waiting() == old(self).waiting(),
    {
        broadcast use vstd::seq_lib::group_to_multiset_ensures;

        let ghost all = self.entries@;
        let mut reversed: Vec<AgeEntry> = Vec::new();
        proof {
            assert(all.to_multiset().add(Seq::<AgeEntry>::empty().to_multiset())
                =~= all.to_multiset());
            assert(age_jobs(Seq::<AgeEntry>::empty()) =~= Seq::<Job>::empty());
            assert(age_jobs(all).to_multiset().add(Seq::<Job>::empty().to_multiset())
                =~= age_jobs(all).to_multiset());
        }
        while self.entries.len() > 0
            invariant
                age_costs_are_read(self.entries@),
                age_costs_are_read(reversed@),
                self.next_seq == old(self).next_seq,
                self.closed == old(self).closed,
                self.entries@.to_multiset().add(reversed@.to_multiset()) == all.to_multiset(),
                age_jobs(self.entries@).to_multiset().add(age_jobs(reversed@).to_multiset())
                    == age_jobs(all).to_multiset(),
            decreases self.entries.len(),
        {
            broadcast use vstd::seq_lib::group_to_multiset_ensures;

            let ghost from = self.entries@;
            let ghost to = reversed@;
            let entry = self.entries.pop().unwrap();
            reversed.push(entry);
            proof {
                lemma_move_last(from, to);
                assert(age_jobs(from.drop_last()) =~= age_jobs(from).drop_last());
                assert(age_jobs(to.push(entry)) =~= age_jobs(to).push(age_jobs(from).last()));
                lemma_move_last(age_jobs(from), age_jobs(to));
            }
        }
        self.ranked_nanos = now_nanos;
        proof {
            assert(self.entries@ =~= Seq::<AgeEntry>::empty());
            assert(age_jobs(self.entries@) =~= Seq::<Job>::empty());
        }
        while reversed.len() > 0
            invariant
                self.next_seq == old(self).next_seq,
                self.closed == old(self).closed,
                self.ranked_nanos == now_nanos,
                by_rank(self.entries@, now_nanos),
                age_costs_are_read(self.entries@),
                age_costs_are_read(reversed@),
                self.entries@.to_multiset().add(reversed@.to_multiset()) == all.to_multiset(),
                age_jobs(self.entries@).to_multiset().add(age_jobs(reversed@).to_multiset())
                    == age_jobs(all).to_multiset(),
            decreases reversed.len(),
        {
            broadcast use vstd::seq_lib::group_to_multiset_ensures;

            let ghost from = reversed@;
            let ghost to = self.entries@;
            let entry = reversed.pop().unwrap();
            insert_by_rank(&mut self.entries, entry, now_nanos);
            proof {
                lemma_drop_last_to_multiset(from);
                assert(age_jobs(from.drop_last()) =~= age_jobs(from).drop_last());
                assert(age_jobs(from).last() == entry.job);
                lemma_drop_last_to_multiset(age_jobs(from));
                assert(self.entries@.to_multiset().add(reversed@.to_multiset())
                    =~= to.to_multiset().add(from.to_multiset()));
                assert(age_jobs(self.entries@).to_multiset().add(age_jobs(reversed@).to_multiset())
                    =~= age_jobs(to).to_multiset().add(age_jobs(from).to_multiset()));
            }
        }
        proof {
            assert(reversed@ =~= Seq::<AgeEntry>::empty());
            assert(age_jobs(reversed@) =~= Seq::<Job>::empty());
            assert(self.entries@.to_multiset() =~= all.to_multiset());
            assert(age_jobs(self.entries@).to_multiset() =~= age_jobs(all).to_multiset());
            assert(self.entries@.len() == self.entries@.to_multiset().len());
            assert(all.len() == all.to_multiset().len());
        }
    }

    /// Puts an entry in its place among the entries as they were last ranked.
    pub fn put_back(&mut self, entry: AgeEntry)
        requires
            old(self).wf(),
            !old(self).closed,
            entry.cost == job_cost(entry.job@.metadata, 1),
        ensures
            final(self).wf(),
            final(self).ranked_nanos == old(self).ranked_nanos,
            final(self).next_seq == old(self).next_seq,
            final(self).closed == old(self).closed,
            final(self).entries@.to_multiset() == old(self).entries@.to_multiset().insert(entry),
            final(self).waiting() == old(self).waiting().insert(entry.job),
    {
        let now_nanos: u64 = self.ranked_nanos;
        insert_by_rank(&mut self.entries, entry, now_nanos);
    }

    /// Takes out the entry that comes next: it does not rank below any other.
    pub fn take(&mut self) -> (r: Option<AgeEntry>)
        requires
            old(self).wf(),
        ensures
            final(self).wf(),
            final(self).ranked_nanos == old(self).ranked_nanos,
            final(self).next_seq == old(self).next_seq,
            final(self).closed == old(self).closed,
            match r {
                Some(entry) => {
                    &&& old(self).entries@.len() > 0
                    &&& entry == old(self).entries@.last()
                    &&& final(self).entries@ == old(self).entries@.drop_last()
                    &&& forall|i: int|
                        0 <= i < old(self).entries@.len() ==> !ranks_below(
                            entry,
                            #[trigger] old(self).entries@[i],
                            old(self).ranked_nanos,
                        )
                    &&& old(self).waiting().contains(entry.job)
                    &&& final(self).waiting() == old(self).waiting().remove(entry.job)
                },
                None => old(self).entries@.len() == 0 && final(self).entries@
                    == old(self).entries@,
            },
    {
        broadcast use vstd::seq_lib::group_to_multiset_ensures;

        let ghost before = self.entries@;
        let r = self.entries.pop();
        proof {
            if before.len() > 0 {
                let n = before.len() - 1;
                assert(age_jobs(self.entries@) =~= age_jobs(before).remove(n));
                assert(age_jobs(before)[n] == before[n].job);
                assert(age_jobs(before).contains(before[n].job));
            }
        }
        r
    }
}

proof fn lemma_drop_last_to_multiset<A>(s: Seq<A>)
    requires
        s.len() > 0,
    ensures
        s.to_multiset() == s.drop_last().to_multiset().insert(s.last()),
{
    broadcast use vstd::seq_lib::group_to_multiset_ensures;

    assert(s =~= s.drop_last().push(s.last()));
}

proof fn lemma_move_last<A>(from: Seq<A>, to: Seq<A>)
    requires
        from.len() > 0,
    ensures
        from.drop_last().to_multiset().add(to.push(from.last()).to_multiset())
            == from.to_multiset().add(to.to_multiset()),
{
    broadcast use vstd::seq_lib::group_to_multiset_ensures;

    lemma_drop_last_to_multiset(from);
    assert(from.drop_last().to_multiset().add(to.push(from.last()).to_multiset())
        =~= from.to_multiset().add(to.to_multiset()));
}

impl Default for AgePriorityQueue {
    fn default() -> (q: AgePriorityQueue)
        ensures
            q.wf(),
            q.entries@ == Seq::<AgeEntry>::empty(),
            q.next_seq == 0,
            !q.closed,
    {
        AgePriorityQueue::new()
    }
}

impl Queue for AgePriorityQueue {
    open spec fn waiting(&self) -> Multiset<Job> {
        age_jobs(self.entries@).to_multiset()
    }

    open spec fn line(&self) -> Seq<Job> {
        age_jobs(self.entries@).reverse()
    }

    open spec fn added(&self, after: &Self, job: Job, now_nanos: u64) -> bool {
        if self.closed {
            *after == *self
        } else {
            let entry = AgeEntry {
                cost: job_cost(job@.metadata, 1),
                seq: self.next_seq,
                enqueued_nanos: now_nanos,
                job,
            };
            &&& !after.closed
            &&& after.entries@.to_multiset() == self.entries@.to_multiset().insert(entry)
            &&& after.ranked_nanos == now_nanos
            &&& by_rank(after.entries@, now_nanos)
            &&& after.next_seq == if self.next_seq < u64::MAX {
                self.next_seq + 1
            } else {
                0
            }
        }
    }

    open spec fn served(&self, after: &Self) -> bool {
        &&& after.closed == self.closed
        &&& after.next_seq == self.next_seq
        &&& after.ranked_nanos == self.ranked_nanos
        &&& after.entries@ == if self.entries@.len() > 0 {
            self.entries@.drop_last()
        } else {
            self.entries@
        }
    }

    open spec fn closed_down(&self, after: &Self) -> bool {
        &&& after.closed
        &&& after.entries@.len() == 0
        &&& after.next_seq == self.next_seq
        &&& after.ranked_nanos == self.ranked_nanos
    }

    open spec fn shut(&self) -> bool {
        self.closed
    }

    open spec fn wf(&self) -> bool {
        &&& by_rank(self.entries@, self.ranked_nanos)
        &&& age_costs_are_read(self.entries@)
        &&& self.closed ==> self.entries@.len() == 0
    }

    /// Adds a job and ranks all waiting jobs anew.
    fn enqueue(&mut self, job: Job, now_nanos: u64) {
        if !self.closed {
            let cost: u64 = read_cost(&job, 1);
            let seq: u64 = self.next_seq;
            self.next_seq = seq.wrapping_add(1);
            self.rebalance(now_nanos);
            self.put_back(AgeEntry { cost, seq, enqueued_nanos: now_nanos, job });
        }
    }

    /// A queue that was shut down gives nothing more, even where jobs were waiting.
    fn dequeue(&mut self) -> (r: Dequeued) {
        if self.closed {
            return Dequeued::Closed;
        }
        proof {
            let before = age_jobs(self.entries@);
            if before.len() > 0 {
                assert(age_jobs(self.entries@.drop_last()).reverse()
                    =~= before.reverse().drop_first());
            }
        }
        match self.take() {
            Some(entry) => Dequeued::Next(entry.job),
            None => {
                proof {
                    broadcast use vstd::seq_lib::group_to_multiset_ensures;

                    assert(age_jobs(self.entries@).to_multiset() =~= Multiset::<Job>::empty());
                }
                Dequeued::Empty
            },
        }
    }

    fn close(&mut self) {
        self.closed = true;
        self.entries.clear();
    }
}

/// The job that comes out next is the one of the highest rank: at the last ranking, no waiting job
/// had waited longer in relation to the square root of its cost.
pub proof fn law_next_job_ranks_highest(queue: AgePriorityQueue, i: int)
    requires
        queue.wf(),
        0 <= i < queue.entries@.len() - 1,
    ensures
        queue.line()[0] == queue.entries@.last().job,
        queue.entries@.last().cost == job_cost(queue.line()[0]@.metadata, 1),
        !ranks_below(queue.entries@.last(), queue.entries@[i], queue.ranked_nanos),
{
    let n = queue.entries@.len() - 1;
    assert(!ranks_below(queue.entries@[n], queue.entries@[i], queue.ranked_nanos));
}

/// Entries are ranked by the time that they have waited over the integer square root of their cost,
/// a cost of zero counting as one: the smaller share ranks below, and of equal shares the one that
/// came later.
pub proof fn law_rank_is_age_over_root_of_cost(
    a: AgeEntry,
    b: AgeEntry,
    now_nanos: u64,
    root_a: nat,
    root_b: nat,
)
    requires
        now_nanos >= a.enqueued_nanos,
        now_nanos >= b.enqueued_nanos,
        root_a >= 1,
        root_b >= 1,
        a.cost == 0 ==> root_a == 1,
        b.cost == 0 ==> root_b == 1,
        a.cost > 0 ==> root_a * root_a <= a.cost < (root_a + 1) * (root_a + 1),
        b.cost > 0 ==> root_b * root_b <= b.cost < (root_b + 1) * (root_b + 1),
    ensures
        (now_nanos - a.enqueued_nanos) * root_b < (now_nanos - b.enqueued_nanos) * root_a
            ==> ranks_below(a, b, now_nanos),
        (now_nanos - a.enqueued_nanos) * root_b > (now_nanos - b.enqueued_nanos) * root_a
            ==> !ranks_below(a, b, now_nanos),
        (now_nanos - a.enqueued_nanos) * root_b == (now_nanos - b.enqueued_nanos) * root_a ==> (
        ranks_below(a, b, now_nanos) <==> a.seq > b.seq),
{
    assert(is_root(a.cost as nat, root_a));
    assert(is_root(b.cost as nat, root_b));
    law_root_is_unique(a.cost as nat, cost_root(a.cost), root_a);
    law_root_is_unique(b.cost as nat, cost_root(b.cost), root_b);
}

/// Before the clock reaches the arrival of an entry, the entry has not waited at all, so that it
/// ranks below all that have.
pub proof fn law_arrivals_to_come_have_not_waited(a: AgeEntry, b: AgeEntry, now_nanos: u64)
    requires
        b.enqueued_nanos < now_nanos <= a.enqueued_nanos,
    ensures
        ranks_below(a, b, now_nanos),
        !ranks_below(b, a, now_nanos),
{
    lemma_roots_positive(a.cost);
    lemma_roots_positive(b.cost);
    let left = waited(a, now_nanos) * cost_root(b.cost);
    let right = waited(b, now_nanos) * cost_root(a.cost);
    assert(left == 0) by (nonlinear_arith)
        requires
            left == waited(a, now_nanos) * cost_root(b.cost),
            waited(a, now_nanos) == 0,
    ;
    assert(right > 0) by (nonlinear_arith)
        requires
            right == waited(b, now_nanos) * cost_root(a.cost),
            waited(b, now_nanos) > 0,
            cost_root(a.cost) >= 1,
    ;
}

/// A job starts to wait when it arrives, and every arrival ranks all waiting jobs anew.
pub proof fn law_arrivals_start_to_wait(
    before: AgePriorityQueue,
    after: AgePriorityQueue,
    job: Job,
    now_nanos: u64,
    i: int,
)
    requires
        before.added(&after, job, now_nanos),
        !before.closed,
    ensures
        after.ranked_nanos == now_nanos,
        after.entries@.contains(
            AgeEntry {
                cost: job_cost(job@.metadata, 1),
                seq: before.next_seq,
                enqueued_nanos: now_nanos,
                job,
            },
        ),
        0 <= i < before.entries@.len() ==> after.entries@.contains(before.entries@[i]),
        0 <= i < after.entries@.len() - 1 ==> !ranks_below(
            after.entries@.last(),
            after.entries@[i],
            now_nanos,
        ),
        before.next_seq < u64::MAX ==> after.next_seq == before.next_seq + 1,
{
    broadcast use vstd::seq_lib::group_to_multiset_ensures;

    let entry = AgeEntry {
        cost: job_cost(job@.metadata, 1),
        seq: before.next_seq,
        enqueued_nanos: now_nanos,
        job,
    };
    let all = before.entries@.to_multiset().insert(entry);
    assert(all.count(entry) > 0);
    if 0 <= i < before.entries@.len() {
        assert(before.entries@.to_multiset().count(before.entries@[i]) > 0);
        assert(all.count(before.entries@[i]) > 0);
    }
}

/// Serving takes the job in front and leaves the others in their order. A queue that is shut down
/// drops its jobs and takes no more.
pub proof fn law_nothing_is_ranked_after_the_shutdown(
    before: AgePriorityQueue,
    served: AgePriorityQueue,
    shut: AgePriorityQueue,
    refused: AgePriorityQueue,
    job: Job,
    now_nanos: u64,
)
    requires
        before.served(&served),
        before.closed_down(&shut),
        shut.added(&refused, job, now_nanos),
    ensures
        before.line().len() > 0 ==> before.line() == seq![before.line()[0]] + served.line(),
        served.shut() == before.shut(),
        served.ranked_nanos == before.ranked_nanos,
        shut.shut(),
        shut.line().len() == 0,
        refused == shut,
{
    if before.entries@.len() > 0 {
        assert(age_jobs(before.entries@).last() == before.line()[0]);
        assert(before.line() =~= seq![before.line()[0]] + served.line());
    }
}

} // verus!
