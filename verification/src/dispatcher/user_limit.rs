//! Per-user admission limits of a dispatcher.

use vstd::prelude::*;
use vstd::relations::injective_on;
use vstd::set_lib::{
    lemma_int_range, lemma_len_subset, lemma_map_size, lemma_subset_equality, set_int_range,
};

use crate::db::{DbError, UserLimitEntry};
use crate::dispatcher::tables::{
    counts_in, get_count, get_stamp, new_counts, new_stamps, remove_count, set_count, set_stamp,
    stamps_in,
};
use crate::json::{json_text, pointed, Json, Tree};
use crate::text::{chars_of, join, joined, text_eq, texts};

verus! {

/// How long, in nanoseconds, a broker trusts a cached count before it asks the store again.
pub const LAZY_RECONCILE_NANOS: u64 = 2_000_000_000;

/// Limits at or below this are enforced strictly across brokers; above it, lazily.
pub const STRICT_MAX_THRESHOLD: usize = 10;

/// A hard per-user cap on the jobs queued or in flight on a dispatcher. The user is identified by
/// the values that the JSON pointers in `key` refer to.
#[derive(Debug)]
pub struct UserLimitConfig {
    pub max: usize,
    pub key: Vec<String>,
}

/// Tracks how many jobs each user has queued or in flight on one dispatcher.
pub struct UserLimiter {
    max: usize,
    key: Vec<String>,
    scope: String,
    broker_id: String,
    has_store: bool,
    counts: dashmap::DashMap<String, usize>,
    /// The last count that the store gave for a user, and when.
    cached_count: dashmap::DashMap<String, (usize, u64)>,
}

// ---------------------------------------------------------------------------------------------
// Identity
// ---------------------------------------------------------------------------------------------

/// The text of one part of a user's identity. What is missing or null identifies nobody.
pub open spec fn key_part(user: Tree, pointer: Seq<char>) -> Option<Seq<char>> {
    match pointed(user, pointer) {
        None => None,
        Some(Tree::Null) => None,
        Some(Tree::Str(s)) => Some(s),
        Some(other) => Some(json_text(other)),
    }
}

/// The parts of a user's identity, if none is missing.
pub open spec fn key_parts(user: Tree, pointers: Seq<Seq<char>>) -> Option<Seq<Seq<char>>>
    decreases pointers.len(),
{
    if pointers.len() == 0 {
        Some(Seq::empty())
    } else {
        match (key_parts(user, pointers.drop_last()), key_part(user, pointers.last())) {
            (Some(parts), Some(part)) => Some(parts.push(part)),
            _ => None,
        }
    }
}

/// The identity of a user: its parts with unit separators between them.
pub open spec fn user_identity(user: Tree, pointers: Seq<Seq<char>>) -> Option<Seq<char>> {
    match key_parts(user, pointers) {
        Some(parts) => Some(joined(parts, seq!['\u{1f}'])),
        None => None,
    }
}

proof fn lemma_key_parts_prefix(user: Tree, pointers: Seq<Seq<char>>, n: int)
    requires
        0 <= n <= pointers.len(),
        key_parts(user, pointers.take(n)) is None,
    ensures
        key_parts(user, pointers) is None,
    decreases pointers.len(),
{
    if n < pointers.len() {
        assert(pointers.drop_last().take(n) =~= pointers.take(n));
        lemma_key_parts_prefix(user, pointers.drop_last(), n);
    } else {
        assert(pointers.take(n) =~= pointers);
    }
}

// ---------------------------------------------------------------------------------------------
// Rank
// ---------------------------------------------------------------------------------------------

/// Whether one text sorts before another, by the code points of their characters.
pub open spec fn text_before(a: Seq<char>, b: Seq<char>) -> bool
    decreases a.len(),
{
    if b.len() == 0 {
        false
    } else if a.len() == 0 {
        true
    } else if a[0] != b[0] {
        a[0] < b[0]
    } else {
        text_before(a.drop_first(), b.drop_first())
    }
}

/// A place in the order of arrivals.
pub struct Ticket {
    pub seq: u64,
    pub job_id: Seq<char>,
}

/// Whether one ticket comes before another.
pub open spec fn ticket_before(a: Ticket, b: Ticket) -> bool {
    a.seq < b.seq || (a.seq == b.seq && text_before(a.job_id, b.job_id))
}

/// How many of the first `n` tickets come before a given one.
pub open spec fn earlier(tickets: Seq<Ticket>, mine: Ticket, n: int) -> nat
    decreases n,
{
    if n <= 0 {
        0
    } else {
        earlier(tickets, mine, n - 1) + if ticket_before(tickets[n - 1], mine) {
            1nat
        } else {
            0nat
        }
    }
}

/// The rank of a ticket among all tickets; one that is not among them ranks first.
pub open spec fn rank(tickets: Seq<Ticket>, mine: Ticket) -> nat {
    if tickets.contains(mine) {
        earlier(tickets, mine, tickets.len() as int)
    } else {
        0
    }
}

/// The tickets of a list of store entries.
pub open spec fn tickets_of(entries: Seq<UserLimitEntry>) -> Seq<Ticket> {
    Seq::new(entries.len(), |i: int| Ticket { seq: entries[i].seq, job_id: entries[i].job_id@ })
}

fn before(a: &str, b: &str) -> (r: bool)
    ensures
        r == text_before(a@, b@),
{
    let left = chars_of(a);
    let right = chars_of(b);
    let mut i: usize = 0;
    assert(left@.skip(0) =~= a@);
    assert(right@.skip(0) =~= b@);
    while i < left.len() && i < right.len()
        invariant
            i <= left.len(),
            i <= right.len(),
            left@ == a@,
            right@ == b@,
            text_before(a@, b@) == text_before(a@.skip(i as int), b@.skip(i as int)),
        decreases left.len() - i,
    {
        let ghost x = a@.skip(i as int);
        let ghost y = b@.skip(i as int);
        if left[i] != right[i] {
            return left[i] < right[i];
        }
        assert(x.drop_first() =~= a@.skip(i + 1));
        assert(y.drop_first() =~= b@.skip(i + 1));
        i = i + 1;
    }
    i < right.len()
}

/// The rank of a reservation among the store entries of its user.
fn rank_in(entries: &Vec<UserLimitEntry>, seq: u64, job_id: &str) -> (r: usize)
    ensures
        r == rank(tickets_of(entries@), Ticket { seq, job_id: job_id@ }),
{
    let ghost tickets = tickets_of(entries@);
    let ghost mine = Ticket { seq, job_id: job_id@ };
    let mut found = false;
    let mut count: usize = 0;
    let mut i: usize = 0;
    while i < entries.len()
        invariant
            i <= entries.len(),
            tickets == tickets_of(entries@),
            mine == (Ticket { seq, job_id: job_id@ }),
            count == earlier(tickets, mine, i as int),
            count <= i,
            found == exists|k: int| 0 <= k < i && #[trigger] tickets[k] == mine,
        decreases entries.len() - i,
    {
        let entry = &entries[i];
        assert(tickets[i as int] == (Ticket { seq: entry.seq, job_id: entry.job_id@ }));
        if entry.seq == seq && text_eq(&entry.job_id, job_id) {
            found = true;
            assert(tickets[i as int] == mine);
        }
        if entry.seq < seq || (entry.seq == seq && before(&entry.job_id, job_id)) {
            count = count + 1;
        }
        i = i + 1;
    }
    if found {
        count
    } else {
        0
    }
}

// ---------------------------------------------------------------------------------------------
// Admission
// ---------------------------------------------------------------------------------------------

/// Holds one place of a user on the dispatcher until it is given back.
#[derive(Debug)]
pub struct UserLimitGuard {
    pub key: String,
    pub job_id: String,
}

/// What the admission of a job needs next, or how it was decided.
#[derive(Debug)]
pub enum AdmitStep {
    /// The job is admitted.
    Admitted(UserLimitGuard),
    /// The user is at the limit.
    Rejected,
    /// The user is at the limit, and the reservation in the store must be released.
    BackOut,
    /// A place must be reserved in the store.
    Reserve,
    /// The store must list the user's reservations, of which ours has this number.
    List { seq: u64 },
}

/// How the admission of a job starts. Without a store the local count decides. With one, a strict
/// limit is decided by the store alone, and a lazy limit passes the local count first.
pub open spec fn admission_begun(
    before: UserLimiter,
    after: UserLimiter,
    user: Seq<char>,
    job_id: Seq<char>,
    step: AdmitStep,
) -> bool {
    let n = before.count(user);
    let full = n >= before.limit();
    if !before.synced() {
        if full {
            step is Rejected && after == before
        } else {
            &&& step matches AdmitStep::Admitted(g)
            &&& g.key@ == user && g.job_id@ == job_id
            &&& after.counted(&before, user, n + 1)
        }
    } else if before.is_strict() {
        step is Reserve && after == before
    } else if full {
        step is Rejected && after == before
    } else {
        step is Reserve && after.counted(&before, user, n + 1)
    }
}

/// How an admission goes on after the store was asked to reserve a place. A store that fails
/// never keeps a job out.
pub open spec fn reserve_answered(
    before: UserLimiter,
    after: UserLimiter,
    user: Seq<char>,
    job_id: Seq<char>,
    reserved: Result<u64, DbError>,
    now_nanos: u64,
    step: AdmitStep,
) -> bool {
    let n = before.count(user);
    let held = if n < usize::MAX {
        n + 1
    } else {
        usize::MAX as int
    };
    if before.is_strict() {
        &&& after.counted(&before, user, held)
        &&& match reserved {
            Ok(seq) => step == (AdmitStep::List { seq }),
            Err(_) => step matches AdmitStep::Admitted(g) && g.key@ == user
                && g.job_id@ == job_id,
        }
    } else {
        match reserved {
            Err(_) => {
                &&& step matches AdmitStep::Admitted(g)
                &&& g.key@ == user && g.job_id@ == job_id
                &&& after == before
            },
            Ok(seq) => match before.fresh_count(user, now_nanos) {
                None => step == (AdmitStep::List { seq }) && after == before,
                Some(synced) => if synced > before.limit() {
                    &&& step is BackOut
                    &&& after.counted(
                        &before,
                        user,
                        if n > 0 {
                            n - 1
                        } else {
                            0
                        },
                    )
                } else {
                    &&& step matches AdmitStep::Admitted(g)
                    &&& g.key@ == user && g.job_id@ == job_id
                    &&& after == before
                },
            },
        }
    }
}

/// How an admission is decided after the store was asked for the user's reservations. A strict
/// limit admits by rank; a lazy limit by the number of reservations, which is remembered for a
/// while.
pub open spec fn list_answered(
    before: UserLimiter,
    after: UserLimiter,
    user: Seq<char>,
    job_id: Seq<char>,
    seq: u64,
    listed: Result<Vec<UserLimitEntry>, DbError>,
    now_nanos: u64,
    step: AdmitStep,
) -> bool {
    let n = before.count(user);
    let given_back = if n > 0 {
        n - 1
    } else {
        0
    };
    match listed {
        Err(_) => {
            &&& step matches AdmitStep::Admitted(g)
            &&& g.key@ == user && g.job_id@ == job_id
            &&& after == before
        },
        Ok(entries) => {
            let over = if before.is_strict() {
                rank(tickets_of(entries@), Ticket { seq, job_id })
                    >= before.limit()
            } else {
                entries@.len() > before.limit()
            };
            &&& if over {
                step is BackOut && after.count(user) == given_back
            } else {
                &&& step matches AdmitStep::Admitted(g)
                &&& g.key@ == user && g.job_id@ == job_id
                &&& after.count(user) == n
            }
            &&& after.same_settings(&before)
            &&& forall|u: Seq<char>|
                u != user ==> #[trigger] after.count(u) == before.count(u)
            &&& forall|u: Seq<char>| #[trigger]
                after.cached(u) == if u == user && !before.is_strict() {
                    Some((entries@.len() as usize, now_nanos))
                } else {
                    before.cached(u)
                }
        },
    }
}

impl UserLimiter {
    pub closed spec fn limit(&self) -> usize {
        self.max
    }

    pub closed spec fn pointers(&self) -> Seq<Seq<char>> {
        texts(self.key@)
    }

    pub closed spec fn scope_text(&self) -> Seq<char> {
        self.scope@
    }

    pub closed spec fn broker_text(&self) -> Seq<char> {
        self.broker_id@
    }

    /// The counts are kept in step with the other brokers through a store.
    pub closed spec fn synced(&self) -> bool {
        self.has_store
    }

    /// How many jobs a user has queued or in flight here.
    pub closed spec fn count(&self, user: Seq<char>) -> usize {
        if counts_in(self.counts).contains_key(user) {
            counts_in(self.counts)[user]
        } else {
            0
        }
    }

    /// The last count that the store gave for a user, and when.
    pub closed spec fn cached(&self, user: Seq<char>) -> Option<(usize, u64)> {
        if stamps_in(self.cached_count).contains_key(user) {
            Some(stamps_in(self.cached_count)[user])
        } else {
            None
        }
    }

    /// Small limits are enforced strictly.
    pub open spec fn is_strict(&self) -> bool {
        self.limit() <= STRICT_MAX_THRESHOLD
    }

    /// The settings are those of another limiter.
    pub open spec fn same_settings(&self, other: &UserLimiter) -> bool {
        &&& self.limit() == other.limit()
        &&& self.pointers() == other.pointers()
        &&& self.scope_text() == other.scope_text()
        &&& self.broker_text() == other.broker_text()
        &&& self.synced() == other.synced()
    }

    /// The same limiter, except for the count of one user.
    pub open spec fn counted(&self, other: &UserLimiter, user: Seq<char>, count: int) -> bool {
        &&& self.same_settings(other)
        &&& self.count(user) == count
        &&& forall|u: Seq<char>| u != user ==> #[trigger] self.count(u) == other.count(u)
        &&& forall|u: Seq<char>| #[trigger] self.cached(u) == other.cached(u)
    }

    /// A cached count that is still trusted.
    pub open spec fn fresh_count(&self, user: Seq<char>, now_nanos: u64) -> Option<usize> {
        match self.cached(user) {
            Some((count, at)) => if now_nanos - at < LAZY_RECONCILE_NANOS {
                Some(count)
            } else {
                None
            },
            None => None,
        }
    }

    pub fn new(cfg: UserLimitConfig, scope: String, broker_id: String, has_store: bool) -> (r:
        UserLimiter)
        ensures
            r.limit() == cfg.max,
            r.pointers() == texts(cfg.key@),
            r.scope_text() == scope@,
            r.broker_text() == broker_id@,
            r.synced() == has_store,
            forall|u: Seq<char>| #[trigger] r.count(u) == 0,
            forall|u: Seq<char>| (#[trigger] r.cached(u)) is None,
    {
        UserLimiter {
            max: cfg.max,
            key: cfg.key,
            scope,
            broker_id,
            has_store,
            counts: new_counts(),
            cached_count: new_stamps(),
        }
    }

    /// The limit.
    pub fn max(&self) -> (r: usize)
        ensures
            r == self.limit(),
    {
        self.max
    }

    /// The shared key under which the brokers account for this dispatcher.
    pub fn scope(&self) -> (r: &str)
        ensures
            r@ == self.scope_text(),
    {
        &self.scope
    }

    /// The broker that tags the reservations made here.
    pub fn broker_id(&self) -> (r: &str)
        ensures
            r@ == self.broker_text(),
    {
        &self.broker_id
    }

    pub fn strict(&self) -> (r: bool)
        ensures
            r == self.is_strict(),
    {
        self.max <= STRICT_MAX_THRESHOLD
    }

    /// Finds the identity of a user; a user without one is not limited.
    pub fn user_key(&self, user: &Json) -> (r: Option<String>)
        ensures
            match r {
                Some(key) => user_identity(user@, self.pointers()) == Some(key@),
                None => user_identity(user@, self.pointers()) is None,
            },
    {
        let ghost pointers = texts(self.key@);
        let mut parts: Vec<String> = Vec::new();
        let mut i: usize = 0;
        assert(texts(parts@) =~= Seq::<Seq<char>>::empty());
        assert(pointers.take(0) =~= Seq::<Seq<char>>::empty());
        while i < self.key.len()
            invariant
                i <= self.key.len(),
                pointers == texts(self.key@),
                key_parts(user@, pointers.take(i as int)) == Some(texts(parts@)),
            decreases self.key.len() - i,
        {
            let ghost before = texts(parts@);
            proof {
                assert(pointers.take(i + 1).drop_last() =~= pointers.take(i as int));
                assert(pointers.take(i + 1).last() == self.key@[i as int]@);
            }
            let part: Option<String> = match user.pointer(&self.key[i]) {
                None => None,
                Some(Json::Null) => None,
                Some(Json::Str(s)) => Some(s.clone()),
                Some(other) => Some(other.to_text()),
            };
            match part {
                Some(part) => {
                    parts.push(part);
                    assert(texts(parts@) =~= before.push(part@));
                },
                None => {
                    proof {
                        lemma_key_parts_prefix(user@, pointers, i + 1);
                    }
                    return None;
                },
            }
            i = i + 1;
        }
        assert(pointers.take(i as int) =~= pointers);
        proof {
            reveal_strlit("\u{1f}");
            assert("\u{1f}"@ =~= seq!['\u{1f}']);
        }
        Some(join(&parts, "\u{1f}"))
    }

    /// Admits one job here if the user is below the limit. The result is the new count, or the
    /// count at the limit.
    pub fn try_admit_local(&mut self, key: &str) -> (r: Result<usize, usize>)
        ensures
            match r {
                Ok(n) => {
                    &&& old(self).count(key@) < old(self).limit()
                    &&& n == old(self).count(key@) + 1
                    &&& final(self).counted(old(self), key@, n as int)
                },
                Err(n) => {
                    &&& old(self).count(key@) >= old(self).limit()
                    &&& n == old(self).count(key@)
                    &&& *final(self) == *old(self)
                },
            },
    {
        let current: usize = self.local_count(key);
        if current >= self.max {
            Err(current)
        } else {
            set_count(&mut self.counts, key, current + 1);
            Ok(current + 1)
        }
    }

    fn local_count(&self, key: &str) -> (n: usize)
        ensures
            n == self.count(key@),
    {
        match get_count(&self.counts, key) {
            Some(n) => n,
            None => 0,
        }
    }

    /// Counts one more job of a user without asking for the limit.
    fn incr_local(&mut self, key: &str)
        ensures
            final(self).counted(
                old(self),
                key@,
                if old(self).count(key@) < usize::MAX {
                    old(self).count(key@) + 1
                } else {
                    usize::MAX as int
                },
            ),
    {
        let current: usize = self.local_count(key);
        set_count(&mut self.counts, key, current.saturating_add(1));
    }

    /// Gives one place of a user back.
    pub fn release_local(&mut self, key: &str)
        ensures
            final(self).counted(
                old(self),
                key@,
                if old(self).count(key@) > 0 {
                    old(self).count(key@) - 1
                } else {
                    0
                },
            ),
    {
        let current: usize = self.local_count(key);
        if current > 1 {
            set_count(&mut self.counts, key, current - 1);
        } else {
            remove_count(&mut self.counts, key);
        }
    }

    fn guard(&self, key: &str, job_id: &str) -> (g: UserLimitGuard)
        ensures
            g.key@ == key@,
            g.job_id@ == job_id@,
    {
        UserLimitGuard { key: key.to_owned(), job_id: job_id.to_owned() }
    }

    /// Starts the admission of a job. Without a store the local count decides. With one, a strict
    /// limit is decided by the store alone, and a lazy limit passes the local count first.
    pub fn begin_admission(&mut self, user_key: &str, job_id: &str) -> (step: AdmitStep)
        ensures
            admission_begun(*old(self), *final(self), user_key@, job_id@, step),
    {
        if !self.has_store {
            return match self.try_admit_local(user_key) {
                Ok(_) => AdmitStep::Admitted(self.guard(user_key, job_id)),
                Err(_) => AdmitStep::Rejected,
            };
        }
        if self.strict() {
            return AdmitStep::Reserve;
        }
        match self.try_admit_local(user_key) {
            Ok(_) => AdmitStep::Reserve,
            Err(_) => AdmitStep::Rejected,
        }
    }

    /// Goes on after the store was asked to reserve a place. A store that fails never keeps a job
    /// out.
    pub fn after_reserve(
        &mut self,
        user_key: &str,
        job_id: &str,
        reserved: Result<u64, DbError>,
        now_nanos: u64,
    ) -> (step: AdmitStep)
        ensures
            reserve_answered(
                *old(self),
                *final(self),
                user_key@,
                job_id@,
                reserved,
                now_nanos,
                step,
            ),
    {
        if self.strict() {
            self.incr_local(user_key);
            return match reserved {
                Ok(seq) => AdmitStep::List { seq },
                Err(_) => AdmitStep::Admitted(self.guard(user_key, job_id)),
            };
        }
        let seq: u64 = match reserved {
            Ok(seq) => seq,
            Err(_) => {
                return AdmitStep::Admitted(self.guard(user_key, job_id));
            },
        };
        match get_stamp(&self.cached_count, user_key) {
            Some((synced, at)) => {
                if now_nanos.saturating_sub(at) < LAZY_RECONCILE_NANOS {
                    if synced > self.max {
                        self.release_local(user_key);
                        AdmitStep::BackOut
                    } else {
                        AdmitStep::Admitted(self.guard(user_key, job_id))
                    }
                } else {
                    AdmitStep::List { seq }
                }
            },
            None => AdmitStep::List { seq },
        }
    }

    /// Decides after the store was asked for the user's reservations. A strict limit admits by
    /// rank; a lazy limit by the number of reservations, which is remembered for a while.
    pub fn after_list(
        &mut self,
        user_key: &str,
        job_id: &str,
        seq: u64,
        listed: Result<Vec<UserLimitEntry>, DbError>,
        now_nanos: u64,
    ) -> (step: AdmitStep)
        ensures
            list_answered(
                *old(self),
                *final(self),
                user_key@,
                job_id@,
                seq,
                listed,
                now_nanos,
                step,
            ),
    {
        let entries = match listed {
            Ok(entries) => entries,
            Err(_) => {
                return AdmitStep::Admitted(self.guard(user_key, job_id));
            },
        };
        let over: bool = if self.strict() {
            rank_in(&entries, seq, job_id) >= self.max
        } else {
            let synced: usize = entries.len();
            set_stamp(&mut self.cached_count, user_key, (synced, now_nanos));
            synced > self.max
        };
        if over {
            self.release_local(user_key);
            AdmitStep::BackOut
        } else {
            AdmitStep::Admitted(self.guard(user_key, job_id))
        }
    }

    /// Gives a place back when the work is done or dropped. Returns whether the reservation in the
    /// store must be released too.
    pub fn release(&mut self, guard: &UserLimitGuard) -> (in_store: bool)
        ensures
            in_store == old(self).synced(),
            final(self).counted(
                old(self),
                guard.key@,
                if old(self).count(guard.key@) > 0 {
                    old(self).count(guard.key@) - 1
                } else {
                    0
                },
            ),
    {
        self.release_local(&guard.key);
        self.has_store
    }
}

// ---------------------------------------------------------------------------------------------
// Laws
// ---------------------------------------------------------------------------------------------

proof fn lemma_text_order(a: Seq<char>, b: Seq<char>, c: Seq<char>)
    ensures
        !text_before(a, a),
        text_before(a, b) && text_before(b, c) ==> text_before(a, c),
        a != b ==> text_before(a, b) || text_before(b, a),
    decreases a.len() + b.len() + c.len(),
{
    if a.len() > 0 {
        lemma_text_order(a.drop_first(), seq![], seq![]);
    }
    if a.len() > 0 && b.len() > 0 && a[0] == b[0] {
        if a.drop_first() == b.drop_first() {
            assert(a =~= seq![a[0]] + a.drop_first());
            assert(b =~= seq![b[0]] + b.drop_first());
        }
        if c.len() > 0 {
            lemma_text_order(a.drop_first(), b.drop_first(), c.drop_first());
        } else {
            lemma_text_order(a.drop_first(), b.drop_first(), c);
        }
    } else if a.len() == 0 && b.len() == 0 {
        assert(a =~= b);
    }
}

proof fn lemma_ticket_order(a: Ticket, b: Ticket, c: Ticket)
    ensures
        !ticket_before(a, a),
        ticket_before(a, b) && ticket_before(b, c) ==> ticket_before(a, c),
        a != b ==> ticket_before(a, b) || ticket_before(b, a),
{
    lemma_text_order(a.job_id, b.job_id, c.job_id);
}

/// Everything before an earlier ticket is before a later one as well, and so is the earlier
/// ticket itself.
proof fn lemma_earlier_grows(tickets: Seq<Ticket>, a: Ticket, b: Ticket, n: int)
    requires
        0 <= n <= tickets.len(),
        ticket_before(a, b),
    ensures
        earlier(tickets, a, n) <= earlier(tickets, b, n),
        (exists|k: int| 0 <= k < n && #[trigger] tickets[k] == a) ==> earlier(tickets, a, n)
            < earlier(tickets, b, n),
    decreases n,
{
    if n > 0 {
        lemma_earlier_grows(tickets, a, b, n - 1);
        let t = tickets[n - 1];
        lemma_ticket_order(t, a, b);
        lemma_ticket_order(a, b, t);
        if exists|k: int| 0 <= k < n && #[trigger] tickets[k] == a {
            let k = choose|k: int| 0 <= k < n && #[trigger] tickets[k] == a;
            if k < n - 1 {
                assert(tickets[k] == a);
            }
        }
    }
}

proof fn lemma_earlier_bounded(tickets: Seq<Ticket>, mine: Ticket, n: int)
    requires
        0 <= n <= tickets.len(),
    ensures
        earlier(tickets, mine, n) <= n,
        (exists|k: int| 0 <= k < n && #[trigger] tickets[k] == mine) ==> earlier(tickets, mine, n)
            < n,
    decreases n,
{
    if n > 0 {
        lemma_earlier_bounded(tickets, mine, n - 1);
        lemma_ticket_order(mine, mine, mine);
        if exists|k: int| 0 <= k < n && #[trigger] tickets[k] == mine {
            let k = choose|k: int| 0 <= k < n && #[trigger] tickets[k] == mine;
            if k < n - 1 {
                assert(tickets[k] == mine);
            }
        }
    }
}

/// The places of the reservations that a strict limit admits.
pub open spec fn admitted_places(tickets: Seq<Ticket>, max: nat) -> Set<int> {
    Set::new(|i: int| 0 <= i < tickets.len() && rank(tickets, tickets[i]) < max)
}

/// Among the reservations of a user, a strict limit admits exactly as many as it allows, or all
/// of them where there are fewer: brokers that see the same reservations agree on who is in.
pub proof fn law_strict_limit_admits_exactly_max(tickets: Seq<Ticket>, max: nat)
    requires
        tickets.no_duplicates(),
    ensures
        admitted_places(tickets, max).finite(),
        admitted_places(tickets, max).len() == if max < tickets.len() {
            max
        } else {
            tickets.len()
        },
{
    let n = tickets.len() as int;
    let f = |i: int| rank(tickets, tickets[i]) as int;
    let all = set_int_range(0, n);
    lemma_int_range(0, n);
    assert forall|i: int| 0 <= i < n implies 0 <= #[trigger] f(i) < n by {
        assert(tickets.contains(tickets[i]));
        lemma_earlier_bounded(tickets, tickets[i], n);
    }
    assert forall|i: int, j: int|
        #![trigger f(i), f(j)]
        all.contains(i) && all.contains(j) && f(i) == f(j) implies i == j by {
        if i != j {
            assert(tickets.contains(tickets[i]));
            assert(tickets.contains(tickets[j]));
            assert(tickets[i] != tickets[j]);
            lemma_ticket_order(tickets[i], tickets[j], tickets[i]);
            if ticket_before(tickets[i], tickets[j]) {
                lemma_earlier_grows(tickets, tickets[i], tickets[j], n);
            } else {
                lemma_earlier_grows(tickets, tickets[j], tickets[i], n);
            }
        }
    }
    assert(injective_on(f, all));
    let image = all.map(f);
    lemma_map_size(all, image, f);
    assert(image.subset_of(all));
    lemma_subset_equality(image, all);
    let admitted = admitted_places(tickets, max);
    let m = if max < n {
        max as int
    } else {
        n
    };
    lemma_int_range(0, m);
    assert(admitted.subset_of(all));
    lemma_len_subset(admitted, all);
    assert(admitted.map(f) =~= set_int_range(0, m)) by {
        assert forall|r: int| set_int_range(0, m).contains(r) implies admitted.map(f).contains(
            r,
        ) by {
            assert(all.contains(r));
            assert(image.contains(r));
            let i = choose|i: int| all.contains(i) && f(i) == r;
            assert(admitted.contains(i));
        }
        assert forall|r: int| admitted.map(f).contains(r) implies set_int_range(0, m).contains(
            r,
        ) by {
            let i = choose|i: int| admitted.contains(i) && f(i) == r;
            assert(all.contains(i));
        }
    }
    assert(injective_on(f, admitted));
    lemma_map_size(admitted, set_int_range(0, m), f);
}

proof fn lemma_earlier_counts(entries: Seq<UserLimitEntry>, seq: u64, job_id: Seq<char>, n: int)
    requires
        0 <= n <= entries.len(),
    ensures
        ({
            let ahead = Set::new(
                |i: int|
                    0 <= i < n && (entries[i].seq < seq || (entries[i].seq == seq && text_before(
                        entries[i].job_id@,
                        job_id,
                    ))),
            );
            &&& ahead.finite()
            &&& ahead.len() == earlier(tickets_of(entries), Ticket { seq, job_id }, n)
        }),
    decreases n,
{
    let ahead = Set::new(
        |i: int|
            0 <= i < n && (entries[i].seq < seq || (entries[i].seq == seq && text_before(
                entries[i].job_id@,
                job_id,
            ))),
    );
    if n == 0 {
        assert(ahead =~= Set::<int>::empty());
    } else {
        lemma_earlier_counts(entries, seq, job_id, n - 1);
        let fewer = Set::new(
            |i: int|
                0 <= i < n - 1 && (entries[i].seq < seq || (entries[i].seq == seq && text_before(
                    entries[i].job_id@,
                    job_id,
                ))),
        );
        if ahead.contains(n - 1) {
            assert(ahead =~= fewer.insert(n - 1));
        } else {
            assert(ahead =~= fewer);
        }
    }
}

/// Who is refused at the start of an admission already holds as many places here as the limit
/// allows, and who is admitted holds one more than before and no more than the limit. Where a store
/// keeps the brokers in step, nobody is admitted before it was asked, and a limit of at most ten
/// refuses nobody before that.
pub proof fn law_admissions_begin_with_the_local_count(
    before: UserLimiter,
    after: UserLimiter,
    user: Seq<char>,
    job_id: Seq<char>,
    step: AdmitStep,
)
    requires
        admission_begun(before, after, user, job_id, step),
    ensures
        step is Admitted || step is Rejected || step is Reserve,
        step is Rejected ==> before.count(user) >= before.limit(),
        step is Rejected ==> !before.synced() || before.limit() > 10,
        !before.synced() ==> (step is Rejected <==> before.count(user) >= before.limit()),
        !before.synced() ==> (step is Admitted <==> before.count(user) < before.limit()),
        before.synced() ==> !(step is Admitted),
        before.synced() && before.limit() <= 10 ==> step is Reserve,
        before.synced() && before.limit() > 10 ==> (step is Reserve <==> before.count(user)
            < before.limit()),
        step matches AdmitStep::Admitted(g) ==> g.key@ == user && g.job_id@ == job_id
            && after.count(user) == before.count(user) + 1 <= before.limit(),
        step is Reserve && before.limit() > 10 ==> after.count(user) == before.count(user) + 1,
        step is Reserve && before.limit() <= 10 ==> after.count(user) == before.count(user),
        step is Rejected ==> after.count(user) == before.count(user),
        forall|u: Seq<char>| u != user ==> #[trigger] after.count(u) == before.count(u),
        after.limit() == before.limit() && after.synced() == before.synced(),
{
}

/// After a reservation, a user is refused exactly where a limit above ten is exceeded by a count
/// that the store gave less than two seconds ago. A count that is not above the limit admits, a
/// store that failed admits, and where there is no such count the store is asked for one.
pub proof fn law_reservations_are_judged_by_a_fresh_count(
    before: UserLimiter,
    after: UserLimiter,
    user: Seq<char>,
    job_id: Seq<char>,
    reserved: Result<u64, DbError>,
    now_nanos: u64,
    step: AdmitStep,
)
    requires
        reserve_answered(before, after, user, job_id, reserved, now_nanos, step),
    ensures
        step is Admitted || step is BackOut || step is List,
        reserved is Err ==> step is Admitted,
        step is BackOut <==> (reserved is Ok && before.limit() > 10 && before.cached(user) is Some
            && now_nanos - (before.cached(user)->0).1 < 2_000_000_000
            && (before.cached(user)->0).0 > before.limit()),
        reserved is Ok && before.limit() > 10 && before.cached(user) is Some && now_nanos
            - (before.cached(user)->0).1 < 2_000_000_000 && (before.cached(user)->0).0
            <= before.limit() ==> step is Admitted,
        step is Admitted ==> reserved is Err || (before.limit() > 10 && before.cached(user) is Some
            && now_nanos - (before.cached(user)->0).1 < 2_000_000_000 && (before.cached(user)->0).0
            <= before.limit()),
        step matches AdmitStep::List { seq } ==> reserved == Ok::<u64, DbError>(seq),
        step matches AdmitStep::Admitted(g) ==> g.key@ == user && g.job_id@ == job_id,
{
}

/// After a listing, a user is refused exactly where the store holds more entries than a limit above
/// ten, or where as many entries as a limit of at most ten come before the reservation. A listing
/// that failed refuses nobody.
pub proof fn law_listings_are_judged_by_their_entries(
    before: UserLimiter,
    after: UserLimiter,
    user: Seq<char>,
    job_id: Seq<char>,
    seq: u64,
    listed: Result<Vec<UserLimitEntry>, DbError>,
    now_nanos: u64,
    step: AdmitStep,
)
    requires
        list_answered(before, after, user, job_id, seq, listed, now_nanos, step),
    ensures
        step is Admitted || step is BackOut,
        listed is Err ==> step is Admitted,
        step matches AdmitStep::Admitted(g) ==> g.key@ == user && g.job_id@ == job_id,
        listed matches Ok(entries) ==> {
            let ahead = Set::new(
                |i: int|
                    0 <= i < entries@.len() && (entries@[i].seq < seq || (entries@[i].seq == seq
                        && text_before(entries@[i].job_id@, job_id))),
            );
            let ours = exists|i: int|
                0 <= i < entries@.len() && (#[trigger] entries@[i]).seq == seq
                    && entries@[i].job_id@ == job_id;
            &&& before.limit() > 10 ==> (step is BackOut <==> entries@.len() > before.limit())
            &&& before.limit() <= 10 && ours ==> ahead.finite() && (step is BackOut <==> ahead.len()
                >= before.limit())
            &&& 0 < before.limit() <= 10 && !ours ==> step is Admitted
        },
{
    match listed {
        Ok(entries) => {
            let mine = Ticket { seq, job_id };
            lemma_earlier_counts(entries@, seq, job_id, entries@.len() as int);
            if tickets_of(entries@).contains(mine) {
                let i = choose|i: int|
                    0 <= i < tickets_of(entries@).len() && tickets_of(entries@)[i] == mine;
                assert(entries@[i].seq == seq);
            }
            if exists|i: int|
                0 <= i < entries@.len() && (#[trigger] entries@[i]).seq == seq
                    && entries@[i].job_id@ == job_id {
                let i = choose|i: int|
                    0 <= i < entries@.len() && (#[trigger] entries@[i]).seq == seq
                        && entries@[i].job_id@ == job_id;
                assert(tickets_of(entries@)[i] == mine);
            }
        },
        Err(_) => {},
    }
}

/// Only a listing for a limit above ten changes the remembered count of a user, and it remembers
/// how many entries there are and when they were listed.
pub proof fn law_remembered_counts_are_listings(
    before: UserLimiter,
    after: UserLimiter,
    user: Seq<char>,
    job_id: Seq<char>,
    seq: u64,
    reserved: Result<u64, DbError>,
    listed: Result<Vec<UserLimitEntry>, DbError>,
    now_nanos: u64,
    step: AdmitStep,
    u: Seq<char>,
)
    ensures
        admission_begun(before, after, user, job_id, step) ==> after.cached(u) == before.cached(u),
        reserve_answered(before, after, user, job_id, reserved, now_nanos, step) ==> after.cached(u)
            == before.cached(u),
        list_answered(before, after, user, job_id, seq, listed, now_nanos, step) ==> after.cached(u)
            == if u == user && before.limit() > 10 && listed is Ok {
            Some((listed->Ok_0@.len() as usize, now_nanos))
        } else {
            before.cached(u)
        },
{
}

/// An admission that needs the store leaves a user with one place more where it admits, and with as
/// many as before where it refuses, whatever the store answered.
pub proof fn law_admissions_balance(
    start: UserLimiter,
    begun: UserLimiter,
    asked: UserLimiter,
    listed_after: UserLimiter,
    user: Seq<char>,
    job_id: Seq<char>,
    reserved: Result<u64, DbError>,
    listed: Result<Vec<UserLimitEntry>, DbError>,
    then_nanos: u64,
    now_nanos: u64,
    second: AdmitStep,
    third: AdmitStep,
)
    requires
        start.count(user) < usize::MAX,
        admission_begun(start, begun, user, job_id, AdmitStep::Reserve),
        reserve_answered(begun, asked, user, job_id, reserved, then_nanos, second),
        second matches AdmitStep::List { seq } ==> list_answered(
            asked,
            listed_after,
            user,
            job_id,
            seq,
            listed,
            now_nanos,
            third,
        ),
    ensures
        second is Admitted ==> asked.count(user) == start.count(user) + 1,
        second is BackOut ==> asked.count(user) == start.count(user),
        second is List && third is Admitted ==> listed_after.count(user) == start.count(user) + 1,
        second is List && third is BackOut ==> listed_after.count(user) == start.count(user),
        forall|u: Seq<char>| u != user ==> #[trigger] asked.count(u) == start.count(u),
        second is List ==> forall|u: Seq<char>|
            u != user ==> #[trigger] listed_after.count(u) == start.count(u),
{
}

/// The identity of a user is made of what all the pointers lead to: texts as they are, other values
/// as they print, with a unit separator between any two. One that leads nowhere or to null leaves
/// the user without an identity.
pub proof fn law_identities_need_every_part(user: Tree, pointers: Seq<Seq<char>>)
    ensures
        user_identity(user, pointers) is None <==> exists|i: int|
            0 <= i < pointers.len() && ((#[trigger] pointed(user, pointers[i])) is None || pointed(
                user,
                pointers[i],
            ) == Some(Tree::Null)),
        user_identity(user, pointers) matches Some(id) ==> exists|parts: Seq<Seq<char>>|
            #![trigger parts.len()]
            {
                &&& parts.len() == pointers.len()
                &&& id == joined(parts, seq!['\u{1f}'])
                &&& forall|i: int|
                    0 <= i < pointers.len() ==> (#[trigger] parts[i]) == match pointed(
                        user,
                        pointers[i],
                    )->0 {
                        Tree::Str(text) => text,
                        other => json_text(other),
                    }
            },
{
    lemma_parts_are_all(user, pointers);
    if let Some(parts) = key_parts(user, pointers) {
        assert(parts.len() == pointers.len());
    }
}

proof fn lemma_parts_are_all(user: Tree, pointers: Seq<Seq<char>>)
    ensures
        key_parts(user, pointers) is None <==> exists|i: int|
            0 <= i < pointers.len() && ((#[trigger] pointed(user, pointers[i])) is None || pointed(
                user,
                pointers[i],
            ) == Some(Tree::Null)),
        key_parts(user, pointers) matches Some(parts) ==> parts.len() == pointers.len() && forall|
            i: int,
        |
            0 <= i < pointers.len() ==> (#[trigger] parts[i]) == match pointed(
                user,
                pointers[i],
            )->0 {
                Tree::Str(text) => text,
                other => json_text(other),
            },
    decreases pointers.len(),
{
    if pointers.len() > 0 {
        let n = pointers.len() - 1;
        let fewer = pointers.drop_last();
        lemma_parts_are_all(user, fewer);
        assert(pointers.last() == pointers[n]);
        let missing = pointed(user, pointers[n]) is None || pointed(user, pointers[n]) == Some(
            Tree::Null,
        );
        if key_parts(user, fewer) is None {
            let i = choose|i: int|
                0 <= i < fewer.len() && ((#[trigger] pointed(user, fewer[i])) is None || pointed(
                    user,
                    fewer[i],
                ) == Some(Tree::Null));
            assert(pointers[i] == fewer[i]);
        } else if !missing {
            assert forall|i: int| 0 <= i < pointers.len() implies !((#[trigger] pointed(
                user,
                pointers[i],
            )) is None || pointed(user, pointers[i]) == Some(Tree::Null)) by {
                if i < n {
                    assert(fewer[i] == pointers[i]);
                }
            }
            let parts = key_parts(user, pointers)->0;
            let front = key_parts(user, fewer)->0;
            assert forall|i: int| 0 <= i < pointers.len() implies (#[trigger] parts[i])
                == match pointed(user, pointers[i])->0 {
                Tree::Str(text) => text,
                other => json_text(other),
            } by {
                if i < n {
                    assert(parts[i] == front[i]);
                    assert(fewer[i] == pointers[i]);
                }
            }
        }
    }
}

/// Texts sort by the first character in which they differ, and a text that another one begins with
/// comes before it.
pub proof fn law_texts_sort_by_code_points(a: Seq<char>, b: Seq<char>)
    ensures
        text_before(a, b) <==> exists|k: int|
            0 <= k <= a.len() && k < b.len() && #[trigger] a.take(k) == b.take(k) && (k == a.len()
                || a[k] < b[k]),
    decreases a.len(),
{
    if a.len() > 0 && b.len() > 0 && a[0] == b[0] {
        let x = a.drop_first();
        let y = b.drop_first();
        law_texts_sort_by_code_points(x, y);
        if text_before(a, b) {
            let k = choose|k: int|
                0 <= k <= x.len() && k < y.len() && #[trigger] x.take(k) == y.take(k) && (k
                    == x.len() || x[k] < y[k]);
            assert forall|i: int| 0 <= i < k + 1 implies a[i] == b[i] by {
                if i > 0 {
                    assert(x.take(k)[i - 1] == y.take(k)[i - 1]);
                }
            }
            assert(a.take(k + 1) =~= b.take(k + 1));
        }
        if exists|k: int|
            0 <= k <= a.len() && k < b.len() && #[trigger] a.take(k) == b.take(k) && (k == a.len()
                || a[k] < b[k]) {
            let k = choose|k: int|
                0 <= k <= a.len() && k < b.len() && #[trigger] a.take(k) == b.take(k) && (k
                    == a.len() || a[k] < b[k]);
            assert(k > 0);
            assert forall|i: int| 0 <= i < k - 1 implies x[i] == y[i] by {
                assert(a.take(k)[i + 1] == b.take(k)[i + 1]);
            }
            assert(x.take(k - 1) =~= y.take(k - 1));
        }
    } else {
        if text_before(a, b) {
            assert(a.take(0) =~= b.take(0));
        }
        if exists|k: int|
            0 <= k <= a.len() && k < b.len() && #[trigger] a.take(k) == b.take(k) && (k == a.len()
                || a[k] < b[k]) {
            let k = choose|k: int|
                0 <= k <= a.len() && k < b.len() && #[trigger] a.take(k) == b.take(k) && (k
                    == a.len() || a[k] < b[k]);
            if k > 0 {
                assert(a.take(k)[0] == b.take(k)[0]);
            }
        }
    }
}

/// The lower number comes first, and of equal numbers the lesser identifier. Of two different
/// tickets exactly one comes before the other.
pub proof fn law_tickets_go_by_number(a: Ticket, b: Ticket)
    ensures
        a.seq < b.seq ==> ticket_before(a, b) && !ticket_before(b, a),
        a.seq == b.seq ==> (ticket_before(a, b) <==> text_before(a.job_id, b.job_id)),
        !ticket_before(a, a),
        a != b ==> ticket_before(a, b) != ticket_before(b, a),
{
    lemma_ticket_order(a, b, a);
}

} // verus!
