//! Decisions of the store that keeps its records in TiKV.
//!
//! Every change is an optimistic transaction: read, decide, write, commit. A commit that
//! conflicts with another is tried again.

use vstd::prelude::*;

use crate::db::keys::{job_key, keyed};
use crate::db::nats::backend;
use crate::db::{
    claim_settled, owned_by, slots_exhausted, ClaimResult, DbError, JobFacts, PersistentJobRecord,
};
use crate::text::{cat2, cat3, cat4, text_eq};
use crate::time::{format_tenths, tenths_text, Span, NANOS_PER_SEC};

verus! {

pub const JOB_PREFIX: &'static str = "jobs/";

pub const BROKER_PREFIX: &'static str = "brokers/";

pub const BROKER_SLOT_COUNTER_PREFIX: &'static str = "counters/broker_slot/";

/// How often a claim is tried.
pub const MAX_CLAIM_ATTEMPTS: u8 = 2;

/// Where the servers are.
pub struct TiKvStore {
    pub endpoints: Vec<String>,
    pub connect_timeout: Span,
}

impl TiKvStore {
    pub fn new(endpoints: Vec<String>, connect_timeout: Span) -> (store: TiKvStore)
        ensures
            store.endpoints == endpoints,
            store.connect_timeout == connect_timeout,
    {
        TiKvStore { endpoints, connect_timeout }
    }

    /// The error of a connection that was not made in time.
    pub fn timed_out(&self) -> (e: DbError)
        requires
            self.connect_timeout.nanos < NANOS_PER_SEC,
        ensures
            backend(
                e,
                "TiKV connection timed out after "@ + tenths_text(
                    self.connect_timeout.secs,
                    self.connect_timeout.nanos,
                ) + "s"@,
            ),
    {
        DbError::Backend(
            cat3(
                "TiKV connection timed out after ",
                &format_tenths(self.connect_timeout.secs, self.connect_timeout.nanos),
                "s",
            ),
        )
    }
}

/// The key of a job record.
pub fn tikv_job_key(job_id: &str) -> (r: Result<String, DbError>)
    ensures
        keyed(job_id@, "jobs/"@, "/"@, r),
{
    job_key(job_id, JOB_PREFIX, "/")
}

/// The key of a lease.
pub fn broker_key(broker_id: &str) -> (r: String)
    ensures
        r@ == "brokers/"@ + broker_id@,
{
    cat2(BROKER_PREFIX, broker_id)
}

/// The key of a slot counter.
pub fn broker_slot_counter_key(site_tag: &str, env_tag: &str) -> (r: String)
    ensures
        r@ == "counters/broker_slot/"@ + site_tag@ + "/"@ + env_tag@,
{
    cat4(BROKER_SLOT_COUNTER_PREFIX, site_tag, "/", env_tag)
}

/// Why a commit failed, as far as it matters.
pub enum CommitProblem {
    /// A problem with one key, with or without a write that came first.
    Key { conflict: bool },
    /// Several problems at once.
    Several(Vec<CommitProblem>),
    Other,
}

/// Some part of a problem is a write that came first.
pub open spec fn write_conflict(problem: CommitProblem) -> bool
    decreases problem,
{
    match problem {
        CommitProblem::Key { conflict } => conflict,
        CommitProblem::Several(parts) => any_conflict(parts@),
        CommitProblem::Other => false,
    }
}

/// Some problem has a part that is a write that came first.
pub open spec fn any_conflict(parts: Seq<CommitProblem>) -> bool
    decreases parts,
{
    parts.len() > 0 && (any_conflict(parts.drop_last()) || write_conflict(parts.last()))
}

proof fn lemma_any_conflict(parts: Seq<CommitProblem>, i: int)
    requires
        0 <= i < parts.len(),
        write_conflict(parts[i]),
    ensures
        any_conflict(parts),
    decreases parts.len(),
{
    if i < parts.len() - 1 {
        assert(parts.drop_last()[i] == parts[i]);
        lemma_any_conflict(parts.drop_last(), i);
    }
}

/// Tells whether a commit failed because another write came first.
pub fn is_write_conflict(problem: &CommitProblem) -> (r: bool)
    ensures
        r == write_conflict(*problem),
    decreases *problem,
{
    match problem {
        CommitProblem::Key { conflict } => *conflict,
        CommitProblem::Several(parts) => {
            let mut i: usize = 0;
            while i < parts.len()
                invariant
                    i <= parts@.len(),
                    problem matches CommitProblem::Several(p) && p == *parts,
                    !any_conflict(parts@.take(i as int)),
                decreases parts@.len() - i,
            {
                assert(decreases_to!(*problem => problem->Several_0));
                assert(decreases_to!(*parts => parts[i as int]));
                if is_write_conflict(&parts[i]) {
                    proof {
                        lemma_any_conflict(parts@, i as int);
                    }
                    return true;
                }
                assert(parts@.take(i + 1).drop_last() =~= parts@.take(i as int));
                i = i + 1;
            }
            assert(parts@.take(i as int) =~= parts@);
            false
        },
        CommitProblem::Other => false,
    }
}

/// What the first half of a transaction came back with.
pub enum TxnRead<T> {
    /// The key holds nothing.
    Missing,
    /// The key holds a value.
    Found(T),
    /// The key holds something else, with the reader's words.
    Unreadable(String),
    /// The transaction could not begin, in the server's words.
    BeginFailed(String),
    /// The read failed, in the server's words.
    Failed(String),
}

/// What the second half of a transaction came back with.
pub enum TxnWrite {
    Committed,
    /// The write failed before the commit, in the server's words.
    PutFailed(String),
    /// The commit failed, and in the server's words.
    CommitFailed(CommitProblem, String),
}

/// The record that was read, if there was one.
pub open spec fn job_read(read: TxnRead<PersistentJobRecord>) -> Option<JobFacts> {
    match read {
        TxnRead::Found(value) => Some(value@),
        _ => None,
    }
}

/// A claim in progress.
pub struct TiKvClaim {
    pub job_id: String,
    pub key: String,
    pub expected: String,
    pub claimant: String,
    /// How often a commit conflicted.
    pub attempts: u8,
}

/// What a claim does next.
pub enum ClaimStep {
    /// Begin a transaction and read the record.
    Begin,
    /// Write the record and commit.
    Commit(PersistentJobRecord),
    Done(Result<ClaimResult, DbError>),
}

/// What a claim does with a record that it read.
pub open spec fn claim_read(
    expected: Seq<char>,
    claimant: Seq<char>,
    read: TxnRead<PersistentJobRecord>,
    step: ClaimStep,
) -> bool {
    match read {
        TxnRead::Missing => step matches ClaimStep::Done(Ok(ClaimResult::NotFound)),
        TxnRead::Found(value) => if value@.broker_id == claimant {
            step matches ClaimStep::Done(Ok(ClaimResult::Claimed(record))) && record@ == value@
        } else if value@.broker_id == expected {
            step matches ClaimStep::Commit(record) && record@ == owned_by(value@, claimant)
        } else {
            step matches ClaimStep::Done(Ok(ClaimResult::Active { owner_broker_id }))
                && owner_broker_id@ == value@.broker_id
        },
        TxnRead::Unreadable(text) => step matches ClaimStep::Done(Err(e)) && backend(
            e,
            "deserialize failed: "@ + text@,
        ),
        TxnRead::BeginFailed(text) => step matches ClaimStep::Done(Err(e)) && backend(
            e,
            "begin txn failed: "@ + text@,
        ),
        TxnRead::Failed(text) => step matches ClaimStep::Done(Err(e)) && backend(
            e,
            "get failed: "@ + text@,
        ),
    }
}

impl TiKvClaim {
    /// Starts a claim. The first step is to begin a transaction.
    pub fn new(job_id: &str, expected: &str, claimant: &str) -> (r: Result<TiKvClaim, DbError>)
        ensures
            match r {
                Ok(claim) => claim.attempts == 0 && claim.job_id@ == job_id@ && claim.expected@
                    == expected@ && claim.claimant@ == claimant@ && keyed(
                    job_id@,
                    "jobs/"@,
                    "/"@,
                    Ok(claim.key),
                ),
                Err(e) => keyed(job_id@, "jobs/"@, "/"@, Err(e)),
            },
    {
        match tikv_job_key(job_id) {
            Ok(key) => Ok(
                TiKvClaim {
                    job_id: job_id.to_owned(),
                    key,
                    expected: expected.to_owned(),
                    claimant: claimant.to_owned(),
                    attempts: 0,
                },
            ),
            Err(e) => Err(e),
        }
    }

    /// Decides on the record that was read.
    pub fn after_read(&self, read: TxnRead<PersistentJobRecord>) -> (step: ClaimStep)
        ensures
            claim_read(self.expected@, self.claimant@, read, step),
    {
        match read {
            TxnRead::Missing => ClaimStep::Done(Ok(ClaimResult::NotFound)),
            TxnRead::Found(value) => {
                if text_eq(&value.broker_id, &self.claimant) {
                    return ClaimStep::Done(Ok(ClaimResult::Claimed(value)));
                }
                if text_eq(&value.broker_id, &self.expected) {
                    let mut record = value;
                    record.broker_id = self.claimant.clone();
                    assert(record@ =~= owned_by(value@, self.claimant@));
                    return ClaimStep::Commit(record);
                }
                ClaimStep::Done(Ok(ClaimResult::Active { owner_broker_id: value.broker_id }))
            },
            TxnRead::Unreadable(text) => ClaimStep::Done(
                Err(DbError::Backend(cat2("deserialize failed: ", &text))),
            ),
            TxnRead::BeginFailed(text) => ClaimStep::Done(
                Err(DbError::Backend(cat2("begin txn failed: ", &text))),
            ),
            TxnRead::Failed(text) => ClaimStep::Done(
                Err(DbError::Backend(cat2("get failed: ", &text))),
            ),
        }
    }

    /// Goes on after the write of a record.
    pub fn after_commit(&mut self, record: PersistentJobRecord, reply: TxnWrite) -> (step: ClaimStep)
        requires
            old(self).attempts < MAX_CLAIM_ATTEMPTS,
        ensures
            final(self).job_id == old(self).job_id,
            final(self).key == old(self).key,
            final(self).expected == old(self).expected,
            final(self).claimant == old(self).claimant,
            final(self).attempts == if (reply matches TxnWrite::CommitFailed(problem, _)
                && write_conflict(problem)) {
                old(self).attempts + 1
            } else {
                old(self).attempts as int
            },
            match reply {
                TxnWrite::Committed => step matches ClaimStep::Done(
                    Ok(ClaimResult::Claimed(claimed)),
                ) && claimed == record,
                TxnWrite::PutFailed(text) => step matches ClaimStep::Done(Err(e)) && backend(
                    e,
                    "put failed: "@ + text@,
                ),
                TxnWrite::CommitFailed(problem, text) => if !write_conflict(problem) {
                    step matches ClaimStep::Done(Err(e)) && backend(e, "commit failed: "@ + text@)
                } else if final(self).attempts < MAX_CLAIM_ATTEMPTS {
                    step is Begin
                } else {
                    step matches ClaimStep::Done(Err(DbError::Conflict(m))) && m@
                        == "claim conflict for job '"@ + old(self).job_id@ + "'"@
                },
            },
    {
        match reply {
            TxnWrite::Committed => ClaimStep::Done(Ok(ClaimResult::Claimed(record))),
            TxnWrite::PutFailed(text) => ClaimStep::Done(
                Err(DbError::Backend(cat2("put failed: ", &text))),
            ),
            TxnWrite::CommitFailed(problem, text) => {
                if !is_write_conflict(&problem) {
                    return ClaimStep::Done(Err(DbError::Backend(cat2("commit failed: ", &text))));
                }
                self.attempts = self.attempts + 1;
                if self.attempts < MAX_CLAIM_ATTEMPTS {
                    ClaimStep::Begin
                } else {
                    ClaimStep::Done(
                        Err(DbError::Conflict(cat3("claim conflict for job '", &self.job_id, "'"))),
                    )
                }
            },
        }
    }
}

/// A claim settles the record as it stood when it was read, whether it ends without writing or
/// commits.
pub proof fn law_tikv_claims_settle(
    expected: Seq<char>,
    claimant: Seq<char>,
    read: TxnRead<PersistentJobRecord>,
    step: ClaimStep,
)
    requires
        claim_read(expected, claimant, read, step),
    ensures
        step matches ClaimStep::Done(Ok(r)) ==> claim_settled(
            job_read(read),
            expected,
            claimant,
            job_read(read),
            r,
        ),
        step matches ClaimStep::Commit(record) ==> claim_settled(
            job_read(read),
            expected,
            claimant,
            Some(record@),
            ClaimResult::Claimed(record),
        ),
{
    if read is Found && read->Found_0@.broker_id == claimant {
        assert(owned_by(read->Found_0@, claimant) =~= read->Found_0@);
    }
}

/// What an allocation does next.
pub enum SlotStep {
    /// Begin a transaction and read the counter.
    Begin,
    /// Write one slot more than were used and commit.
    Commit { used: u16 },
    Done(Result<u16, DbError>),
}

/// The slots in use according to a read.
pub open spec fn slots_read(read: TxnRead<u32>) -> nat {
    match read {
        TxnRead::Found(value) => value as nat,
        _ => 0,
    }
}

/// What an allocation does with a counter that it read.
pub open spec fn slot_counter_read(
    site: Seq<char>,
    env: Seq<char>,
    read: TxnRead<u32>,
    step: SlotStep,
) -> bool {
    match read {
        TxnRead::Missing | TxnRead::Found(_) => if slots_read(read) > u16::MAX {
            step matches SlotStep::Done(Err(e)) && slots_exhausted(e, site, env)
        } else {
            step matches SlotStep::Commit { used } && used == slots_read(read)
        },
        TxnRead::Unreadable(text) => step matches SlotStep::Done(Err(e)) && backend(
            e,
            "deserialize failed: "@ + text@,
        ),
        TxnRead::BeginFailed(text) => step matches SlotStep::Done(Err(e)) && backend(
            e,
            "begin txn failed: "@ + text@,
        ),
        TxnRead::Failed(text) => step matches SlotStep::Done(Err(e)) && backend(
            e,
            "get broker slot counter failed: "@ + text@,
        ),
    }
}

/// What an allocation does with the reply to its write.
pub open spec fn slot_counter_written(used: u16, reply: TxnWrite, step: SlotStep) -> bool {
    match reply {
        TxnWrite::Committed => step matches SlotStep::Done(Ok(slot)) && slot == used,
        TxnWrite::PutFailed(text) => step matches SlotStep::Done(Err(e)) && backend(
            e,
            "put broker slot counter failed: "@ + text@,
        ),
        TxnWrite::CommitFailed(problem, text) => if write_conflict(problem) {
            step is Begin
        } else {
            step matches SlotStep::Done(Err(e)) && backend(
                e,
                "commit broker slot counter failed: "@ + text@,
            )
        },
    }
}

/// Decides on the counter that was read.
pub fn slot_after_read(site_tag: &str, env_tag: &str, read: TxnRead<u32>) -> (step: SlotStep)
    ensures
        slot_counter_read(site_tag@, env_tag@, read, step),
{
    let used: u32 = match read {
        TxnRead::Missing => 0,
        TxnRead::Found(value) => value,
        TxnRead::Unreadable(text) => return SlotStep::Done(
            Err(DbError::Backend(cat2("deserialize failed: ", &text))),
        ),
        TxnRead::BeginFailed(text) => return SlotStep::Done(
            Err(DbError::Backend(cat2("begin txn failed: ", &text))),
        ),
        TxnRead::Failed(text) => return SlotStep::Done(
            Err(DbError::Backend(cat2("get broker slot counter failed: ", &text))),
        ),
    };
    if used > 65535 {
        SlotStep::Done(
            Err(
                DbError::SlotExhausted {
                    site: site_tag.to_owned(),
                    env: env_tag.to_owned(),
                    ceiling: 65535,
                },
            ),
        )
    } else {
        SlotStep::Commit { used: used as u16 }
    }
}

/// The number that an allocation writes: one more than were used.
pub fn slot_value(used: u16) -> (value: u32)
    ensures
        value == used + 1,
{
    used as u32 + 1
}

/// Goes on after the write of the counter.
pub fn slot_after_commit(used: u16, reply: TxnWrite) -> (step: SlotStep)
    ensures
        slot_counter_written(used, reply, step),
{
    match reply {
        TxnWrite::Committed => SlotStep::Done(Ok(used)),
        TxnWrite::PutFailed(text) => SlotStep::Done(
            Err(DbError::Backend(cat2("put broker slot counter failed: ", &text))),
        ),
        TxnWrite::CommitFailed(problem, text) => {
            if is_write_conflict(&problem) {
                SlotStep::Begin
            } else {
                SlotStep::Done(
                    Err(DbError::Backend(cat2("commit broker slot counter failed: ", &text))),
                )
            }
        },
    }
}

/// An allocation that commits takes the first free slot according to the counter that it read.
pub proof fn law_tikv_slots_are_consecutive(
    site: Seq<char>,
    env: Seq<char>,
    read: TxnRead<u32>,
    used: u16,
    step: SlotStep,
)
    requires
        slot_counter_read(site, env, read, SlotStep::Commit { used }),
        slot_counter_written(used, TxnWrite::Committed, step),
    ensures
        step matches SlotStep::Done(Ok(slot)) && slot == slots_read(read),
{
}

/// A claim commits exactly where the record that it read belongs to the expected owner and not
/// already to the claimant, and writes that record with the claimant as its only change. It is told
/// of a record of another owner, and fails where nothing could be read.
pub proof fn law_tikv_claims_write_only_expected_records(
    expected: Seq<char>,
    claimant: Seq<char>,
    read: TxnRead<PersistentJobRecord>,
    step: ClaimStep,
)
    requires
        claim_read(expected, claimant, read, step),
    ensures
        !(step is Begin),
        step is Commit <==> (read matches TxnRead::Found(value) && value@.broker_id == expected
            && value@.broker_id != claimant),
        step matches ClaimStep::Commit(record) ==> record@ == (JobFacts {
            broker_id: claimant,
            ..read->Found_0@
        }),
        (step matches ClaimStep::Done(Ok(ClaimResult::NotFound))) <==> read is Missing,
        (step matches ClaimStep::Done(Ok(ClaimResult::Claimed(_)))) <==> (read matches TxnRead::Found(
            value,
        ) && value@.broker_id == claimant),
        step matches ClaimStep::Done(Ok(ClaimResult::Claimed(record))) ==> record@ == read->Found_0@,
        step matches ClaimStep::Done(Ok(ClaimResult::Active { owner_broker_id })) ==> (
        read matches TxnRead::Found(value) && owner_broker_id@ == value@.broker_id
            && value@.broker_id != expected && value@.broker_id != claimant),
        (step matches ClaimStep::Done(Err(_))) <==> (read is Unreadable || read is BeginFailed
            || read is Failed),
{
}

/// A counter below 65536 gives out its value as the next slot; one at the ceiling gives out none.
/// A conflict starts over, and any other failure ends the allocation.
pub proof fn law_tikv_slots_stop_at_the_ceiling(
    site: Seq<char>,
    env: Seq<char>,
    read: TxnRead<u32>,
    used: u16,
    reply: TxnWrite,
    first: SlotStep,
    second: SlotStep,
)
    requires
        slot_counter_read(site, env, read, first),
        slot_counter_written(used, reply, second),
    ensures
        read is Missing ==> (first matches SlotStep::Commit { used: n } && n == 0),
        read matches TxnRead::Found(value) ==> (value <= 65535 ==> (first matches SlotStep::Commit {
            used: n,
        } && n == value)),
        read matches TxnRead::Found(value) ==> (value > 65535 ==> (first matches SlotStep::Done(
            Err(DbError::SlotExhausted { site: s, env: e, ceiling }),
        ) && s@ == site && e@ == env && ceiling == 65535)),
        read is Unreadable || read is BeginFailed || read is Failed ==> (first matches SlotStep::Done(
            Err(DbError::Backend(_)),
        )),
        reply is Committed <==> (second matches SlotStep::Done(Ok(_))),
        second matches SlotStep::Done(Ok(slot)) ==> slot == used,
        second is Begin <==> (reply matches TxnWrite::CommitFailed(problem, _) && write_conflict(
            problem,
        )),
{
}

/// A commit conflicted exactly where some part of its problem is a write that came first.
pub proof fn law_conflicts_are_found_at_any_depth(parts: Vec<CommitProblem>, conflict: bool)
    ensures
        write_conflict(CommitProblem::Several(parts)) <==> exists|i: int|
            0 <= i < parts@.len() && write_conflict(#[trigger] parts@[i]),
        write_conflict(CommitProblem::Key { conflict }) <==> conflict,
        !write_conflict(CommitProblem::Other),
{
    lemma_conflict_among(parts@);
}

proof fn lemma_conflict_among(parts: Seq<CommitProblem>)
    ensures
        any_conflict(parts) <==> exists|i: int|
            0 <= i < parts.len() && write_conflict(#[trigger] parts[i]),
    decreases parts.len(),
{
    if parts.len() > 0 {
        let front = parts.drop_last();
        lemma_conflict_among(front);
        if any_conflict(front) {
            let i = choose|i: int| 0 <= i < front.len() && write_conflict(#[trigger] front[i]);
            assert(write_conflict(parts[i]));
        }
        if write_conflict(parts.last()) {
            assert(write_conflict(parts[parts.len() - 1]));
        }
        if exists|i: int| 0 <= i < parts.len() && write_conflict(#[trigger] parts[i]) {
            let i = choose|i: int| 0 <= i < parts.len() && write_conflict(#[trigger] parts[i]);
            if i < front.len() {
                assert(front[i] == parts[i]);
            }
        }
    }
}

} // verus!
