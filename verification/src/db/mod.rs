//! Durable records and the stores that keep them.

pub mod keys;
pub mod memory;
pub mod nats;
pub mod tikv;

use vstd::prelude::*;

use crate::json::{Json, Tree};
use crate::text::{cat2, cat5, cat6, decimal, decimal_text};
use crate::time::{end_of_lease, lease_end, Span, Timestamp};

verus! {

/// Error of a persistence backend.
#[derive(Debug)]
pub enum DbError {
    Conflict(String),
    Backend(String),
    SlotExhausted { site: String, env: String, ceiling: u16 },
}

/// The stable code of the error.
pub open spec fn db_error_code(e: DbError) -> Seq<char> {
    match e {
        DbError::Conflict(_) => "PERSISTENCE_CONFLICT"@,
        DbError::Backend(_) => "PERSISTENCE_BACKEND"@,
        DbError::SlotExhausted { .. } => "PERSISTENCE_SLOT_EXHAUSTED"@,
    }
}

/// The error in words.
pub open spec fn db_error_text(e: DbError) -> Seq<char> {
    match e {
        DbError::Conflict(message) => "conflict: "@ + message@,
        DbError::Backend(message) => "backend error: "@ + message@,
        DbError::SlotExhausted { site, env, ceiling } => {
            "broker slot allocation exhausted for site '"@ + site@ + "' env '"@ + env@
                + "': reached slot ceiling "@ + decimal_text(ceiling as nat)
                + "; recovery requires bumping the broker-id version byte before allocating more broker slots"@
        },
    }
}

impl DbError {
    pub fn code(&self) -> (r: &'static str)
        ensures
            r@ == db_error_code(*self),
    {
        match self {
            DbError::Conflict(_) => "PERSISTENCE_CONFLICT",
            DbError::Backend(_) => "PERSISTENCE_BACKEND",
            DbError::SlotExhausted { .. } => "PERSISTENCE_SLOT_EXHAUSTED",
        }
    }

    /// Everything but an exhausted slot range may succeed later.
    pub fn is_retryable(&self) -> (r: bool)
        ensures
            r == !(self is SlotExhausted),
    {
        match self {
            DbError::SlotExhausted { .. } => false,
            _ => true,
        }
    }

    /// The error in words.
    pub fn to_text(&self) -> (r: String)
        ensures
            r@ == db_error_text(*self),
    {
        match self {
            DbError::Conflict(message) => cat2("conflict: ", message),
            DbError::Backend(message) => cat2("backend error: ", message),
            DbError::SlotExhausted { site, env, ceiling } => {
                let head = cat6(
                    "broker slot allocation exhausted for site '",
                    site,
                    "' env '",
                    env,
                    "': reached slot ceiling ",
                    &decimal(*ceiling as u64),
                );
                cat2(
                    &head,
                    "; recovery requires bumping the broker-id version byte before allocating more broker slots",
                )
            },
        }
    }
}

/// The durable form of a job, kept so that another broker can take the job over.
#[derive(Debug)]
pub struct PersistentJobRecord {
    pub job_id: String,
    pub broker_id: String,
    pub original_request: Json,
    pub user: Json,
    pub metadata: Json,
    pub created_at: Timestamp,
}

/// The mathematical contents of a [`PersistentJobRecord`].
#[verifier::ext_equal]
pub struct JobFacts {
    pub job_id: Seq<char>,
    pub broker_id: Seq<char>,
    pub original_request: Tree,
    pub user: Tree,
    pub metadata: Tree,
    pub created_at: Timestamp,
}

impl View for PersistentJobRecord {
    type V = JobFacts;

    open spec fn view(&self) -> JobFacts {
        JobFacts {
            job_id: self.job_id@,
            broker_id: self.broker_id@,
            original_request: self.original_request@,
            user: self.user@,
            metadata: self.metadata@,
            created_at: self.created_at,
        }
    }
}

impl PersistentJobRecord {
    /// A record with the same contents.
    pub fn copy(&self) -> (r: PersistentJobRecord)
        ensures
            r@ == self@,
    {
        PersistentJobRecord {
            job_id: self.job_id.clone(),
            broker_id: self.broker_id.clone(),
            original_request: self.original_request.copy(),
            user: self.user.copy(),
            metadata: self.metadata.copy(),
            created_at: self.created_at,
        }
    }
}

/// One in-flight job counted against a per-dispatcher, per-user admission limit.
#[derive(Debug)]
pub struct UserLimitEntry {
    pub scope: String,
    pub user: String,
    pub job_id: String,
    pub owner_broker_id: String,
    pub seq: u64,
    pub created_at: Timestamp,
}

/// The mathematical contents of a [`UserLimitEntry`].
#[verifier::ext_equal]
pub struct LimitFacts {
    pub scope: Seq<char>,
    pub user: Seq<char>,
    pub job_id: Seq<char>,
    pub owner_broker_id: Seq<char>,
    pub seq: u64,
    pub created_at: Timestamp,
}

impl View for UserLimitEntry {
    type V = LimitFacts;

    open spec fn view(&self) -> LimitFacts {
        LimitFacts {
            scope: self.scope@,
            user: self.user@,
            job_id: self.job_id@,
            owner_broker_id: self.owner_broker_id@,
            seq: self.seq,
            created_at: self.created_at,
        }
    }
}

impl UserLimitEntry {
    pub fn copy(&self) -> (r: UserLimitEntry)
        ensures
            r@ == self@,
    {
        UserLimitEntry {
            scope: self.scope.clone(),
            user: self.user.clone(),
            job_id: self.job_id.clone(),
            owner_broker_id: self.owner_broker_id.clone(),
            seq: self.seq,
            created_at: self.created_at,
        }
    }
}

/// What an attempt to take a durable job over came to.
#[derive(Debug)]
pub enum ClaimResult {
    /// No durable record of the job exists.
    NotFound,
    /// Another broker is the owner.
    Active { owner_broker_id: String },
    /// The claimant is the owner now.
    Claimed(PersistentJobRecord),
}

/// A broker's announcement that it is alive and where it can be polled.
#[derive(Debug)]
pub struct BrokerLeaseRecord {
    pub broker_id: String,
    pub internal_poll_base_url: String,
    pub lease_until: Timestamp,
    pub updated_at: Timestamp,
}

/// The mathematical contents of a [`BrokerLeaseRecord`].
#[verifier::ext_equal]
pub struct LeaseFacts {
    pub broker_id: Seq<char>,
    pub internal_poll_base_url: Seq<char>,
    pub lease_until: Timestamp,
    pub updated_at: Timestamp,
}

impl View for BrokerLeaseRecord {
    type V = LeaseFacts;

    open spec fn view(&self) -> LeaseFacts {
        LeaseFacts {
            broker_id: self.broker_id@,
            internal_poll_base_url: self.internal_poll_base_url@,
            lease_until: self.lease_until,
            updated_at: self.updated_at,
        }
    }
}

impl BrokerLeaseRecord {
    pub fn copy(&self) -> (r: BrokerLeaseRecord)
        ensures
            r@ == self@,
    {
        BrokerLeaseRecord {
            broker_id: self.broker_id.clone(),
            internal_poll_base_url: self.internal_poll_base_url.clone(),
            lease_until: self.lease_until,
            updated_at: self.updated_at,
        }
    }
}

/// A job record under another owner.
pub open spec fn owned_by(job: JobFacts, broker_id: Seq<char>) -> JobFacts {
    JobFacts { broker_id, ..job }
}

/// What a claim does to the record of a job, where there is one: the record afterwards and the
/// result. The claimant keeps a job that it owns, takes a job over from the owner it expects, and
/// is told the owner otherwise.
pub open spec fn claim_settled(
    before: Option<JobFacts>,
    expected: Seq<char>,
    claimant: Seq<char>,
    after: Option<JobFacts>,
    r: ClaimResult,
) -> bool {
    match before {
        None => after is None && r is NotFound,
        Some(job) => if job.broker_id == claimant || job.broker_id == expected {
            after == Some(owned_by(job, claimant)) && (r matches ClaimResult::Claimed(record)
                && record@ == owned_by(job, claimant))
        } else {
            after == Some(job) && (r matches ClaimResult::Active { owner_broker_id }
                && owner_broker_id@ == job.broker_id)
        },
    }
}

/// The value of a key, if it has one.
pub open spec fn found<K, V>(map: Map<K, V>, key: K) -> Option<V> {
    if map.contains_key(key) {
        Some(map[key])
    } else {
        None
    }
}

/// A broker holds a lease that has not run out.
pub open spec fn lease_is_live(
    leases: Map<Seq<char>, LeaseFacts>,
    broker_id: Seq<char>,
    now: Timestamp,
) -> bool {
    leases.contains_key(broker_id) && leases[broker_id].lease_until.after(now)
}

/// An entry stands for a job of a user of a dispatcher.
pub open spec fn stands_for(
    entry: LimitFacts,
    scope: Seq<char>,
    user: Seq<char>,
    job_id: Seq<char>,
) -> bool {
    entry.scope == scope && entry.user == user && entry.job_id == job_id
}

/// Some entry stands for a job of a user of a dispatcher.
pub open spec fn is_reserved(
    entries: Set<LimitFacts>,
    scope: Seq<char>,
    user: Seq<char>,
    job_id: Seq<char>,
) -> bool {
    exists|e: LimitFacts| #[trigger] entries.contains(e) && stands_for(e, scope, user, job_id)
}

/// The entries whose owner is alive.
pub open spec fn owned_by_the_living(
    entries: Set<LimitFacts>,
    leases: Map<Seq<char>, LeaseFacts>,
    now: Timestamp,
) -> Set<LimitFacts> {
    entries.filter(|e: LimitFacts| lease_is_live(leases, e.owner_broker_id, now))
}

/// The entries of a user of a dispatcher.
pub open spec fn entries_of(
    entries: Set<LimitFacts>,
    scope: Seq<char>,
    user: Seq<char>,
) -> Set<LimitFacts> {
    entries.filter(|e: LimitFacts| e.scope == scope && e.user == user)
}

/// The entries that do not stand for a job of a user of a dispatcher.
pub open spec fn entries_without(
    entries: Set<LimitFacts>,
    scope: Seq<char>,
    user: Seq<char>,
    job_id: Seq<char>,
) -> Set<LimitFacts> {
    entries.filter(|e: LimitFacts| !stands_for(e, scope, user, job_id))
}

/// The contents of entries.
pub open spec fn limit_facts(entries: Seq<UserLimitEntry>) -> Seq<LimitFacts> {
    Seq::new(entries.len(), |i: int| entries[i]@)
}

/// A reservation leaves the entries as they are where the job has one, and gives its number back.
/// Otherwise it adds one entry, numbered above all others.
pub open spec fn slot_reserved(
    before: Set<LimitFacts>,
    scope: Seq<char>,
    user: Seq<char>,
    job_id: Seq<char>,
    owner: Seq<char>,
    after: Set<LimitFacts>,
    seq: u64,
) -> bool {
    exists|e: LimitFacts|
        {
            &&& #[trigger] after.contains(e)
            &&& stands_for(e, scope, user, job_id)
            &&& e.seq == seq
            &&& if is_reserved(before, scope, user, job_id) {
                after == before
            } else {
                &&& after == before.insert(e)
                &&& e.owner_broker_id == owner
                &&& forall|x: LimitFacts| #[trigger] before.contains(x) ==> x.seq < seq
            }
        }
}

/// A reservation of a job that has one gives out no number; any other gives out a number above
/// every one that was ever given out.
pub open spec fn slot_numbered(reserved: bool, before: nat, seq: u64, after: nat) -> bool {
    if reserved {
        seq <= before <= after
    } else {
        before < seq <= after
    }
}

/// Storage in a sound state. A store that says nothing of what it keeps keeps nothing.
pub trait StoreState {
    open spec fn wf(&self) -> bool {
        true
    }

    /// The highest number that an entry of a job in flight was ever given. No call lowers it.
    open spec fn last_number(&self) -> nat {
        0
    }
}

/// Durable storage of job records.
///
/// A failed call leaves the records as they were.
pub trait JobStore: StoreState {
    /// The durable records, by job.
    open spec fn jobs(&self) -> Map<Seq<char>, JobFacts> {
        Map::empty()
    }

    /// How a claim of a job may end: with an answer, or with an error. A store that others share
    /// may end one and the same claim in several ways.
    open spec fn claim_may_end(&self, job_id: Seq<char>, ending: Result<(), DbError>) -> bool {
        true
    }

    /// Writes the record of a job, over an earlier one if there is any.
    fn upsert_job(&mut self, record: PersistentJobRecord) -> (r: Result<(), DbError>)
        requires
            old(self).wf(),
        ensures
            final(self).wf(),
            old(self).last_number() <= final(self).last_number(),
            final(self).jobs() == if r is Ok {
                old(self).jobs().insert(record@.job_id, record@)
            } else {
                old(self).jobs()
            },
    ;

    /// Removes the record of a job.
    fn delete_job(&mut self, job_id: &str) -> (r: Result<(), DbError>)
        requires
            old(self).wf(),
        ensures
            final(self).wf(),
            old(self).last_number() <= final(self).last_number(),
            final(self).jobs() == if r is Ok {
                old(self).jobs().remove(job_id@)
            } else {
                old(self).jobs()
            },
    ;

    /// Takes a job over, in one step, from the owner that the caller expects it to have.
    fn claim_if_owner(
        &mut self,
        job_id: &str,
        expected_owner_broker_id: &str,
        claimant_broker_id: &str,
    ) -> (r: Result<ClaimResult, DbError>)
        requires
            old(self).wf(),
        ensures
            final(self).wf(),
            old(self).last_number() <= final(self).last_number(),
            final(self).jobs().remove(job_id@) == old(self).jobs().remove(job_id@),
            match r {
                Ok(outcome) => old(self).claim_may_end(job_id@, Ok(())) && claim_settled(
                    found(old(self).jobs(), job_id@),
                    expected_owner_broker_id@,
                    claimant_broker_id@,
                    found(final(self).jobs(), job_id@),
                    outcome,
                ),
                Err(e) => old(self).claim_may_end(job_id@, Err(e)) && final(self).jobs() == old(
                    self,
                ).jobs(),
            },
    ;
}

/// Registry of the brokers that are alive.
pub trait BrokerLeaseStore: StoreState {
    /// The recorded leases, by broker.
    open spec fn leases(&self) -> Map<Seq<char>, LeaseFacts> {
        Map::empty()
    }

    /// Writes or renews a lease, which ends the given time after it was written.
    fn upsert_broker_lease(&mut self, broker_id: &str, internal_poll_base_url: &str, ttl: Span) -> (r:
        Result<(), DbError>)
        requires
            old(self).wf(),
        ensures
            final(self).wf(),
            old(self).last_number() <= final(self).last_number(),
            match r {
                Ok(()) => exists|now: Timestamp|
                    final(self).leases() == old(self).leases().insert(
                        broker_id@,
                        #[trigger] lease_from(broker_id@, internal_poll_base_url@, ttl, now),
                    ),
                Err(_) => final(self).leases() == old(self).leases(),
            },
    ;

    /// The lease of a broker, live or not.
    fn get_broker_lease(&self, broker_id: &str) -> (r: Result<Option<BrokerLeaseRecord>, DbError>)
        requires
            self.wf(),
        ensures
            r matches Ok(lease) ==> match lease {
                Some(record) => found(self.leases(), broker_id@) == Some(record@),
                None => !self.leases().contains_key(broker_id@),
            },
    ;

    /// Removes the lease of a broker.
    fn delete_broker_lease(&mut self, broker_id: &str) -> (r: Result<(), DbError>)
        requires
            old(self).wf(),
        ensures
            final(self).wf(),
            old(self).last_number() <= final(self).last_number(),
            final(self).leases() == if r is Ok {
                old(self).leases().remove(broker_id@)
            } else {
                old(self).leases()
            },
    ;
}

/// The lease that a broker takes at a point in time.
pub open spec fn lease_from(
    broker_id: Seq<char>,
    url: Seq<char>,
    ttl: Span,
    now: Timestamp,
) -> LeaseFacts {
    LeaseFacts {
        broker_id,
        internal_poll_base_url: url,
        lease_until: lease_end(now, ttl),
        updated_at: now,
    }
}

/// Makes the lease that a broker takes at a point in time.
pub fn new_lease(broker_id: &str, internal_poll_base_url: &str, ttl: Span, now: Timestamp) -> (r:
    BrokerLeaseRecord)
    ensures
        r@ == lease_from(broker_id@, internal_poll_base_url@, ttl, now),
{
    BrokerLeaseRecord {
        broker_id: broker_id.to_owned(),
        internal_poll_base_url: internal_poll_base_url.to_owned(),
        lease_until: end_of_lease(now, ttl),
        updated_at: now,
    }
}

/// The error of a slot counter that has run out.
pub open spec fn slots_exhausted(e: DbError, site_tag: Seq<char>, env_tag: Seq<char>) -> bool {
    e matches DbError::SlotExhausted { site, env, ceiling } && site@ == site_tag && env@ == env_tag
        && ceiling == u16::MAX
}

/// The error of a store that allocates no slots.
pub open spec fn slots_refused(e: DbError, site_tag: Seq<char>, env_tag: Seq<char>) -> bool {
    e matches DbError::Backend(m) && m@
        == "broker slot allocation is not implemented for this persistence backend (site '"@
        + site_tag + "', env '"@ + env_tag + "')"@
}

/// Makes the error of a store that allocates no slots.
pub fn slots_unsupported(site_tag: &str, env_tag: &str) -> (e: DbError)
    ensures
        slots_refused(e, site_tag@, env_tag@),
{
    DbError::Backend(
        cat5(
            "broker slot allocation is not implemented for this persistence backend (site '",
            site_tag,
            "', env '",
            env_tag,
            "')",
        ),
    )
}

/// The error of a store that keeps no admission records.
pub open spec fn limits_refused(e: DbError) -> bool {
    e matches DbError::Backend(m) && m@
        == "user-limit store not implemented for this persistence backend"@
}

/// Makes the error of a store that keeps no admission records.
pub fn user_limits_unsupported() -> (e: DbError)
    ensures
        limits_refused(e),
{
    DbError::Backend("user-limit store not implemented for this persistence backend".to_owned())
}

/// Allocator of broker slots, a sequence of its own for each site and environment.
///
/// A store that says nothing of its own on slots refuses to allocate any.
pub trait BrokerSlotStore: StoreState {
    /// How many slots a site and environment have used up.
    open spec fn slots_used(&self, site: Seq<char>, env: Seq<char>) -> nat {
        0
    }

    /// Allocates the next slot of a site and environment.
    fn allocate_broker_slot(&mut self, site_tag: &str, env_tag: &str) -> (r: Result<u16, DbError>)
        requires
            old(self).wf(),
        ensures
            final(self).wf(),
            old(self).last_number() <= final(self).last_number(),
            r matches Ok(slot) ==> slot == old(self).slots_used(site_tag@, env_tag@),
            r matches Err(DbError::SlotExhausted { site, env, ceiling }) ==> old(self).slots_used(
                site_tag@,
                env_tag@,
            ) > u16::MAX && site@ == site_tag@ && env@ == env_tag@ && ceiling == u16::MAX,
            forall|site: Seq<char>, env: Seq<char>|
                #[trigger] final(self).slots_used(site, env) == old(self).slots_used(site, env)
                    + if r is Ok && site == site_tag@ && env == env_tag@ {
                    1nat
                } else {
                    0nat
                },
        default_ensures
            r matches Err(e) && slots_refused(e, site_tag@, env_tag@),
    {
        Err(slots_unsupported(site_tag, env_tag))
    }
}

/// Admission records of the users of each dispatcher, shared by its replicas.
///
/// A store that says nothing of its own on them keeps none, and refuses every call.
pub trait UserLimitStore: BrokerLeaseStore {
    /// The entries of all jobs in flight.
    open spec fn reservations(&self) -> Set<LimitFacts> {
        Set::empty()
    }

    /// A number is left for another entry.
    open spec fn has_number(&self) -> bool {
        true
    }

    /// Records a job in flight, once, and gives its number.
    fn reserve_user_slot(
        &mut self,
        scope: &str,
        user: &str,
        job_id: &str,
        owner_broker_id: &str,
    ) -> (r: Result<u64, DbError>)
        requires
            old(self).wf(),
            old(self).has_number(),
        ensures
            final(self).wf(),
            old(self).last_number() <= final(self).last_number(),
            match r {
                Ok(seq) => {
                    &&& slot_reserved(
                        old(self).reservations(),
                        scope@,
                        user@,
                        job_id@,
                        owner_broker_id@,
                        final(self).reservations(),
                        seq,
                    )
                    &&& slot_numbered(
                        is_reserved(old(self).reservations(), scope@, user@, job_id@),
                        old(self).last_number(),
                        seq,
                        final(self).last_number(),
                    )
                },
                Err(_) => final(self).reservations() == old(self).reservations(),
            },
        default_ensures
            r matches Err(e) && limits_refused(e),
    {
        Err(user_limits_unsupported())
    }

    /// Removes the record of a job, if there is one.
    fn release_user_slot(&mut self, scope: &str, user: &str, job_id: &str) -> (r: Result<
        (),
        DbError,
    >)
        requires
            old(self).wf(),
        ensures
            final(self).wf(),
            old(self).last_number() <= final(self).last_number(),
            final(self).reservations() == if r is Ok {
                entries_without(old(self).reservations(), scope@, user@, job_id@)
            } else {
                old(self).reservations()
            },
        default_ensures
            r matches Err(e) && limits_refused(e),
    {
        Err(user_limits_unsupported())
    }

    /// The entries of a user of a dispatcher, each once, in no particular order.
    fn list_user_slots(&self, scope: &str, user: &str) -> (r: Result<Vec<UserLimitEntry>, DbError>)
        requires
            self.wf(),
        ensures
            r matches Ok(entries) ==> {
                &&& limit_facts(entries@).no_duplicates()
                &&& limit_facts(entries@).to_set() == entries_of(
                    self.reservations(),
                    scope@,
                    user@,
                )
            },
        default_ensures
            r matches Err(e) && limits_refused(e),
    {
        Err(user_limits_unsupported())
    }

    /// Removes the entries whose owner is not alive and counts them.
    fn reclaim_user_slots(&mut self) -> (r: Result<u64, DbError>)
        requires
            old(self).wf(),
        ensures
            final(self).wf(),
            old(self).last_number() <= final(self).last_number(),
            match r {
                Ok(removed) => {
                    &&& exists|now: Timestamp|
                        final(self).reservations() == #[trigger] owned_by_the_living(
                            old(self).reservations(),
                            old(self).leases(),
                            now,
                        )
                    &&& removed == old(self).reservations().len()
                        - final(self).reservations().len()
                },
                Err(_) => final(self).reservations() == old(self).reservations(),
            },
        default_ensures
            r matches Err(e) && limits_refused(e),
    {
        Err(user_limits_unsupported())
    }
}

/// All that the broker needs of a store.
pub trait PersistenceStore: JobStore + BrokerLeaseStore + BrokerSlotStore + UserLimitStore {

}

impl<T: JobStore + BrokerLeaseStore + BrokerSlotStore + UserLimitStore> PersistenceStore for T {

}

/// What a claim tells of the record of a job: it is missing only where the claim finds none.
pub fn presence_of(claim: Result<ClaimResult, DbError>) -> (r: Result<bool, DbError>)
    ensures
        match claim {
            Ok(outcome) => r == Ok::<bool, DbError>(!(outcome is NotFound)),
            Err(e) => r == Err::<bool, DbError>(e),
        },
{
    match claim {
        Ok(ClaimResult::NotFound) => Ok(false),
        Ok(_) => Ok(true),
        Err(e) => Err(e),
    }
}

/// The record of a job after its presence was asked for. Only the names that the question is asked
/// in could lose it, and no broker bears them.
pub open spec fn probed(record: Option<JobFacts>) -> Option<JobFacts> {
    match record {
        Some(job) => if job.broker_id == "__never_expected__"@ {
            Some(owned_by(job, "__presence_probe__"@))
        } else {
            Some(job)
        },
        None => None,
    }
}

/// Whether a durable record of a job exists. The store is asked by a claim from an owner that no
/// job has, and fails to tell only where such a claim fails.
pub fn durable_job_present<S: PersistenceStore>(store: &mut S, job_id: &str) -> (r: Result<
    bool,
    DbError,
>)
    requires
        old(store).wf(),
    ensures
        final(store).wf(),
        old(store).last_number() <= final(store).last_number(),
        match r {
            Ok(present) => {
                &&& old(store).claim_may_end(job_id@, Ok(()))
                &&& present == old(store).jobs().contains_key(job_id@)
                &&& found(final(store).jobs(), job_id@) == probed(found(old(store).jobs(), job_id@))
            },
            Err(e) => {
                &&& old(store).claim_may_end(job_id@, Err(e))
                &&& final(store).jobs() == old(store).jobs()
            },
        },
        final(store).jobs().remove(job_id@) == old(store).jobs().remove(job_id@),
        final(store).jobs().dom() == old(store).jobs().dom(),
{
    let ghost before = store.jobs();
    let claim = store.claim_if_owner(job_id, "__never_expected__", "__presence_probe__");
    proof {
        let after = store.jobs();
        assert forall|k: Seq<char>| before.dom().contains(k) == after.dom().contains(k) by {
            assert(before.remove(job_id@).contains_key(k) == after.remove(job_id@).contains_key(k));
        }
        assert(after.dom() =~= before.dom());
        if before.contains_key(job_id@) && before[job_id@].broker_id == "__presence_probe__"@ {
            assert(owned_by(before[job_id@], "__presence_probe__"@) == before[job_id@]);
        }
    }
    presence_of(claim)
}

/// A claim repeated by the same claimant succeeds again and changes nothing more.
pub proof fn law_claims_repeat(
    before: Option<JobFacts>,
    expected: Seq<char>,
    claimant: Seq<char>,
    after: Option<JobFacts>,
    first: ClaimResult,
    last: Option<JobFacts>,
    second: ClaimResult,
)
    requires
        claim_settled(before, expected, claimant, after, first),
        first is Claimed,
        claim_settled(after, expected, claimant, last, second),
    ensures
        last == after,
        second matches ClaimResult::Claimed(record) && record@ == first->Claimed_0@,
{
}

/// Of two brokers that claim a job from the same dead owner, one after the other, only the first
/// succeeds.
pub proof fn law_one_claimant_wins(
    before: JobFacts,
    dead: Seq<char>,
    one: Seq<char>,
    other: Seq<char>,
    after: Option<JobFacts>,
    first: ClaimResult,
    last: Option<JobFacts>,
    second: ClaimResult,
)
    requires
        before.broker_id == dead,
        one != dead,
        one != other,
        claim_settled(Some(before), dead, one, after, first),
        claim_settled(after, dead, other, last, second),
    ensures
        first is Claimed,
        last == after,
        second matches ClaimResult::Active { owner_broker_id } && owner_broker_id@ == one,
{
}

/// Nothing of a job record changes hands but its owner.
pub proof fn law_claims_keep_the_job(
    before: JobFacts,
    expected: Seq<char>,
    claimant: Seq<char>,
    after: Option<JobFacts>,
    r: ClaimResult,
)
    requires
        claim_settled(Some(before), expected, claimant, after, r),
    ensures
        after matches Some(job) && owned_by(job, before.broker_id) == before,
{
}

/// A second reservation of a job changes nothing and gives the same number.
pub proof fn law_reservations_repeat(
    before: Set<LimitFacts>,
    scope: Seq<char>,
    user: Seq<char>,
    job_id: Seq<char>,
    owner: Seq<char>,
    after: Set<LimitFacts>,
    first: u64,
    last: Set<LimitFacts>,
    second: u64,
)
    requires
        forall|a: LimitFacts, b: LimitFacts|
            #![trigger before.contains(a), before.contains(b)]
            before.contains(a) && before.contains(b) && stands_for(a, b.scope, b.user, b.job_id)
                ==> a == b,
        slot_reserved(before, scope, user, job_id, owner, after, first),
        slot_reserved(after, scope, user, job_id, owner, last, second),
    ensures
        last == after,
        second == first,
{
    let e = choose|e: LimitFacts|
        {
            &&& #[trigger] after.contains(e)
            &&& stands_for(e, scope, user, job_id)
            &&& e.seq == first
            &&& if is_reserved(before, scope, user, job_id) {
                after == before
            } else {
                &&& after == before.insert(e)
                &&& e.owner_broker_id == owner
                &&& forall|x: LimitFacts| #[trigger] before.contains(x) ==> x.seq < first
            }
        };
    assert(after.contains(e));
    assert(is_reserved(after, scope, user, job_id));
    let f = choose|f: LimitFacts| #[trigger]
        last.contains(f) && stands_for(f, scope, user, job_id) && f.seq == second;
    assert(after.contains(f));
    if is_reserved(before, scope, user, job_id) {
        assert(e == f);
    } else if f != e {
        assert(before.contains(f));
        assert(is_reserved(before, scope, user, job_id));
    }
}

/// Numbers rise: whatever happens to a store between two reservations, a job that gets a new number
/// gets one above that of the reservation before, even where that was released meanwhile.
pub proof fn law_reservation_numbers_rise(
    reserved: bool,
    start: nat,
    first: u64,
    between: nat,
    later: nat,
    second: u64,
    end: nat,
)
    requires
        slot_numbered(reserved, start, first, between),
        between <= later,
        slot_numbered(false, later, second, end),
    ensures
        first < second,
{
}

/// Releasing a job after reserving it leaves the entries as if it had never been there, and
/// releasing it again changes nothing.
pub proof fn law_release_undoes_reserve(
    before: Set<LimitFacts>,
    scope: Seq<char>,
    user: Seq<char>,
    job_id: Seq<char>,
    owner: Seq<char>,
    after: Set<LimitFacts>,
    seq: u64,
)
    requires
        !is_reserved(before, scope, user, job_id),
        slot_reserved(before, scope, user, job_id, owner, after, seq),
    ensures
        entries_without(after, scope, user, job_id) == before,
        entries_without(before, scope, user, job_id) == before,
{
    assert(entries_without(before, scope, user, job_id) =~= before);
    assert(entries_without(after, scope, user, job_id) =~= before);
}

/// A claim finds nothing exactly where there is no record. It wins exactly where the record belongs
/// to the claimant or to the expected owner, and then the claimant owns the record and nothing else
/// of it has changed. Otherwise it is told the true owner, and the record stays.
pub proof fn law_claims_need_the_expected_owner(
    before: Option<JobFacts>,
    expected: Seq<char>,
    claimant: Seq<char>,
    after: Option<JobFacts>,
    r: ClaimResult,
)
    requires
        claim_settled(before, expected, claimant, after, r),
    ensures
        r is NotFound <==> before is None,
        r is Claimed <==> (before is Some && (before->0.broker_id == expected || before->0.broker_id
            == claimant)),
        r matches ClaimResult::Claimed(record) ==> record@.broker_id == claimant && record@.job_id
            == before->0.job_id && record@.original_request == before->0.original_request
            && record@.user == before->0.user && record@.metadata == before->0.metadata
            && record@.created_at == before->0.created_at && after == Some(record@),
        r matches ClaimResult::Active { owner_broker_id } ==> before is Some && owner_broker_id@
            == before->0.broker_id,
        !(r is Claimed) ==> after == before,
{
}

/// A reservation of a job that has none adds one entry, with the user, the dispatcher, the job and
/// the owner that were given, and a number above all others. One that has an entry gets its number
/// again, and nothing is added.
pub proof fn law_reservations_add_one_entry(
    before: Set<LimitFacts>,
    scope: Seq<char>,
    user: Seq<char>,
    job_id: Seq<char>,
    owner: Seq<char>,
    after: Set<LimitFacts>,
    seq: u64,
)
    requires
        slot_reserved(before, scope, user, job_id, owner, after, seq),
    ensures
        ({
            let held = exists|e: LimitFacts| #[trigger]
                before.contains(e) && e.scope == scope && e.user == user && e.job_id == job_id;
            &&& held ==> after == before
            &&& !held ==> exists|e: LimitFacts|
                {
                    &&& after == #[trigger] before.insert(e)
                    &&& !before.contains(e)
                    &&& e.scope == scope && e.user == user && e.job_id == job_id
                    &&& e.owner_broker_id == owner
                    &&& e.seq == seq
                    &&& forall|x: LimitFacts| #[trigger] before.contains(x) ==> x.seq < seq
                }
            &&& exists|e: LimitFacts| #[trigger]
                after.contains(e) && e.scope == scope && e.user == user && e.job_id == job_id
                    && e.seq == seq
        }),
{
    let held = exists|e: LimitFacts| #[trigger]
        before.contains(e) && e.scope == scope && e.user == user && e.job_id == job_id;
    if held {
        let e = choose|e: LimitFacts| #[trigger]
            before.contains(e) && e.scope == scope && e.user == user && e.job_id == job_id;
        assert(before.contains(e) && stands_for(e, scope, user, job_id));
        assert(is_reserved(before, scope, user, job_id));
    } else {
        assert(!is_reserved(before, scope, user, job_id)) by {
            if is_reserved(before, scope, user, job_id) {
                let e = choose|e: LimitFacts| #[trigger]
                    before.contains(e) && stands_for(e, scope, user, job_id);
                assert(before.contains(e) && e.scope == scope);
            }
        }
    }
}

/// Releasing a job removes exactly its entries, listing a user gives exactly the entries of that
/// user of that dispatcher, and reclaiming keeps exactly the entries whose owner holds a lease that
/// ends after the present.
pub proof fn law_entries_are_told_apart(
    entries: Set<LimitFacts>,
    leases: Map<Seq<char>, LeaseFacts>,
    scope: Seq<char>,
    user: Seq<char>,
    job_id: Seq<char>,
    now: Timestamp,
    e: LimitFacts,
)
    ensures
        entries_without(entries, scope, user, job_id).contains(e) <==> entries.contains(e) && !(
        e.scope == scope && e.user == user && e.job_id == job_id),
        entries_of(entries, scope, user).contains(e) <==> entries.contains(e) && e.scope == scope
            && e.user == user,
        owned_by_the_living(entries, leases, now).contains(e) <==> entries.contains(e)
            && leases.contains_key(e.owner_broker_id) && (now.secs
            < leases[e.owner_broker_id].lease_until.secs || (now.secs
            == leases[e.owner_broker_id].lease_until.secs && now.nanos
            < leases[e.owner_broker_id].lease_until.nanos)),
{
}

/// A lease names its broker and where to poll it, is dated by its writing, and ends its length
/// after.
pub proof fn law_leases_say_who_and_how_long(
    broker_id: Seq<char>,
    url: Seq<char>,
    ttl: Span,
    now: Timestamp,
)
    ensures
        lease_from(broker_id, url, ttl, now).broker_id == broker_id,
        lease_from(broker_id, url, ttl, now).internal_poll_base_url == url,
        lease_from(broker_id, url, ttl, now).updated_at == now,
        lease_from(broker_id, url, ttl, now).lease_until == lease_end(now, ttl),
{
}

/// Asking whether a job has a record leaves the record as it is, unless its owner bears the name
/// that the question is asked in.
pub proof fn law_questions_leave_the_record(record: Option<JobFacts>)
    ensures
        record is None <==> probed(record) is None,
        record matches Some(job) ==> (job.broker_id != "__never_expected__"@ ==> probed(record)
            == record),
{
}

/// A record is found exactly under its key.
pub proof fn law_records_are_found_under_their_key<K, V>(
    records: Map<K, V>,
    key: K,
    other: K,
    value: V,
)
    ensures
        found(records.insert(key, value), key) == Some(value),
        found(records.remove(key), key) is None,
        other != key ==> found(records.insert(key, value), other) == found(records, other),
        other != key ==> found(records.remove(key), other) == found(records, other),
        found(records, key) matches Some(held) ==> records.contains_pair(key, held),
        found(records, key) is None ==> !records.contains_key(key),
{
}

/// A new reservation may get the very next number, and one that is repeated keeps its own.
pub proof fn law_reservation_numbers_are_used_up(before: nat, seq: u64, after: nat)
    ensures
        seq == before + 1 && after == before + 1 ==> slot_numbered(false, before, seq, after),
        slot_numbered(false, before, seq, after) ==> before < seq && seq <= after,
        slot_numbered(true, before, seq, after) <==> seq <= before && before <= after,
{
}

} // verus!
