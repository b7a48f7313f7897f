//! A store that lives in memory.

use vstd::prelude::*;
use vstd::seq_lib::lemma_seq_contains_after_push;

use crate::db::keys::{job_key, job_path, keyed, law_job_keys_are_distinct, names_job};
use crate::db::{
    entries_of, entries_without, is_reserved, lease_from, lease_is_live, limit_facts, new_lease,
    owned_by, owned_by_the_living, slot_reserved, slots_exhausted, stands_for, BrokerLeaseRecord,
    BrokerLeaseStore, BrokerSlotStore, ClaimResult, DbError, JobFacts, JobStore, LeaseFacts,
    LimitFacts, PersistentJobRecord, StoreState, UserLimitEntry, UserLimitStore,
};
use crate::table::Table;
use crate::text::text_eq;
use crate::time::{utc_now, Span, Timestamp};

verus! {

/// A [`crate::db::PersistenceStore`] for a single process.
pub struct MemoryStore {
    /// Records by job path.
    pub jobs: Table<PersistentJobRecord>,
    /// Leases by broker.
    brokers: Table<BrokerLeaseRecord>,
    /// Number of slots in use, by site and then by environment.
    broker_slots: Table<Table<u32>>,
    /// Entries of the jobs in flight, oldest first.
    user_slots: Vec<UserLimitEntry>,
    /// Number of the youngest entry ever made.
    user_seq: u64,
}

/// The key of a job record.
pub open spec fn memory_key(job_id: Seq<char>) -> Seq<char> {
    ""@ + job_path(job_id, "/"@)
}

impl StoreState for MemoryStore {
    closed spec fn wf(&self) -> bool {
        &&& self.jobs.wf()
        &&& self.brokers.wf()
        &&& self.broker_slots.wf()
        &&& forall|site: Seq<char>| #[trigger]
            self.broker_slots@.contains_key(site) ==> self.broker_slots@[site].wf() && forall|
                env: Seq<char>,
            | #[trigger]
                self.broker_slots@[site]@.contains_key(env) ==> self.broker_slots@[site]@[env]
                    <= 65536
        &&& entries_sound(limit_facts(self.user_slots@), self.user_seq)
    }

    closed spec fn last_number(&self) -> nat {
        self.user_seq as nat
    }
}

/// Every site and environment has used up as many slots as before.
pub open spec fn slots_kept(before: MemoryStore, after: MemoryStore) -> bool {
    forall|site: Seq<char>, env: Seq<char>| #[trigger]
        after.slots_taken(site, env) == before.slots_taken(site, env)
}

/// No job is counted twice, and no entry is numbered above the last number given.
pub open spec fn entries_sound(entries: Seq<LimitFacts>, last: u64) -> bool {
    &&& forall|i: int, j: int|
        #![trigger entries[i], entries[j]]
        0 <= i < j < entries.len() ==> !stands_for(
            entries[i],
            entries[j].scope,
            entries[j].user,
            entries[j].job_id,
        )
    &&& forall|i: int| #![trigger entries[i]] 0 <= i < entries.len() ==> entries[i].seq <= last
}

proof fn lemma_sound_entries_differ(entries: Seq<LimitFacts>, last: u64)
    requires
        entries_sound(entries, last),
    ensures
        entries.no_duplicates(),
        entries.to_set().len() == entries.len(),
        entries.to_set().finite(),
{
    assert forall|i: int, j: int|
        0 <= i < entries.len() && 0 <= j < entries.len() && i != j implies entries[i]
        != entries[j] by {
        if i < j {
            assert(!stands_for(entries[i], entries[j].scope, entries[j].user, entries[j].job_id));
        } else {
            assert(!stands_for(entries[j], entries[i].scope, entries[i].user, entries[i].job_id));
        }
    }
    entries.unique_seq_to_set();
}

impl MemoryStore {
    /// The records, by job.
    pub closed spec fn job_records(self) -> Map<Seq<char>, JobFacts> {
        Map::new(
            |id: Seq<char>| names_job(id) && self.jobs@.contains_key(memory_key(id)),
            |id: Seq<char>| self.jobs@[memory_key(id)]@,
        )
    }

    /// The leases, by broker.
    pub closed spec fn lease_records(self) -> Map<Seq<char>, LeaseFacts> {
        self.brokers@.map_values(|lease: BrokerLeaseRecord| lease@)
    }

    /// How many slots a site and environment have used up.
    pub closed spec fn slots_taken(self, site: Seq<char>, env: Seq<char>) -> nat {
        if self.broker_slots@.contains_key(site) && self.broker_slots@[site]@.contains_key(env) {
            self.broker_slots@[site]@[env] as nat
        } else {
            0
        }
    }

    /// The entries of all jobs in flight.
    pub closed spec fn in_flight(self) -> Set<LimitFacts> {
        limit_facts(self.user_slots@).to_set()
    }

    pub fn new() -> (store: MemoryStore)
        ensures
            store.wf(),
            store.last_number() == 0,
            store.jobs() == Map::<Seq<char>, JobFacts>::empty(),
            store.leases() == Map::<Seq<char>, LeaseFacts>::empty(),
            store.reservations() == Set::<LimitFacts>::empty(),
            forall|site: Seq<char>, env: Seq<char>| #[trigger] store.slots_used(site, env) == 0,
    {
        let store = MemoryStore {
            jobs: Table::new(),
            brokers: Table::new(),
            broker_slots: Table::new(),
            user_slots: Vec::new(),
            user_seq: 0,
        };
        proof {
            assert(store.jobs() =~= Map::<Seq<char>, JobFacts>::empty());
            assert(store.leases() =~= Map::<Seq<char>, LeaseFacts>::empty());
            assert(store.reservations() =~= Set::<LimitFacts>::empty());
        }
        store
    }

    proof fn lemma_other_jobs(
        self,
        before: MemoryStore,
        job_id: Seq<char>,
        record: Option<PersistentJobRecord>,
    )
        requires
            names_job(job_id),
            self.jobs@ == match record {
                Some(r) => before.jobs@.insert(memory_key(job_id), r),
                None => before.jobs@.remove(memory_key(job_id)),
            },
        ensures
            self.jobs() == match record {
                Some(r) => before.jobs().insert(job_id, r@),
                None => before.jobs().remove(job_id),
            },
    {
        assert forall|k: Seq<char>| names_job(k) && k != job_id implies memory_key(k)
            != memory_key(job_id) by {
            if memory_key(k) == memory_key(job_id) {
                law_job_keys_are_distinct(k, job_id, ""@, "/"@);
            }
        }
        match record {
            Some(r) => {
                assert(self.jobs() =~= before.jobs().insert(job_id, r@));
            },
            None => {
                assert(self.jobs() =~= before.jobs().remove(job_id));
            },
        }
    }
}

impl Default for MemoryStore {
    fn default() -> (store: MemoryStore)
        ensures
            store.wf(),
            store.jobs() == Map::<Seq<char>, JobFacts>::empty(),
            store.leases() == Map::<Seq<char>, LeaseFacts>::empty(),
            store.reservations() == Set::<LimitFacts>::empty(),
            forall|site: Seq<char>, env: Seq<char>| #[trigger] store.slots_used(site, env) == 0,
            store.last_number() == 0,
    {
        MemoryStore::new()
    }
}

/// The path of a job: its site, environment, slot and identifier.
pub fn memory_job_key(job_id: &str) -> (r: Result<String, DbError>)
    ensures
        keyed(job_id@, ""@, "/"@, r),
{
    job_key(job_id, "", "/")
}

impl JobStore for MemoryStore {
    open spec fn jobs(&self) -> Map<Seq<char>, JobFacts> {
        self.job_records()
    }

    /// Claims are answered exactly for what names a job.
    open spec fn claim_may_end(&self, job_id: Seq<char>, ending: Result<(), DbError>) -> bool {
        match ending {
            Ok(()) => names_job(job_id),
            Err(e) => keyed(job_id, ""@, "/"@, Err(e)),
        }
    }

    fn upsert_job(&mut self, record: PersistentJobRecord) -> (r: Result<(), DbError>)
        ensures
            r is Ok <==> names_job(record@.job_id),
            r is Err ==> *final(self) == *old(self),
            final(self).lease_records() == old(self).lease_records(),
            final(self).in_flight() == old(self).in_flight(),
            slots_kept(*old(self), *final(self)),
            final(self).last_number() == old(self).last_number(),
    {
        match memory_job_key(&record.job_id) {
            Ok(key) => {
                let ghost id = record@.job_id;
                let ghost copy = record;
                self.jobs.insert(key, record);
                proof {
                    self.lemma_other_jobs(*old(self), id, Some(copy));
                }
                Ok(())
            },
            Err(e) => Err(e),
        }
    }

    fn delete_job(&mut self, job_id: &str) -> (r: Result<(), DbError>)
        ensures
            r is Ok <==> names_job(job_id@),
            r is Err ==> *final(self) == *old(self),
            final(self).lease_records() == old(self).lease_records(),
            final(self).in_flight() == old(self).in_flight(),
            slots_kept(*old(self), *final(self)),
            final(self).last_number() == old(self).last_number(),
    {
        match memory_job_key(job_id) {
            Ok(key) => {
                self.jobs.remove(&key);
                proof {
                    self.lemma_other_jobs(*old(self), job_id@, None);
                }
                Ok(())
            },
            Err(e) => Err(e),
        }
    }

    fn claim_if_owner(
        &mut self,
        job_id: &str,
        expected_owner_broker_id: &str,
        claimant_broker_id: &str,
    ) -> (r: Result<ClaimResult, DbError>)
        ensures
            r is Ok <==> names_job(job_id@),
            match r {
                Ok(ClaimResult::Claimed(_)) => old(self).jobs()[job_id@].broker_id
                    == claimant_broker_id@ ==> *final(self) == *old(self),
                _ => *final(self) == *old(self),
            },
            final(self).lease_records() == old(self).lease_records(),
            final(self).in_flight() == old(self).in_flight(),
            slots_kept(*old(self), *final(self)),
            final(self).last_number() == old(self).last_number(),
    {
        let key = match memory_job_key(job_id) {
            Ok(key) => key,
            Err(e) => return Err(e),
        };
        let mut record = match self.jobs.get(&key) {
            Some(record) => record.copy(),
            None => return Ok(ClaimResult::NotFound),
        };
        let ghost before = record@;
        assert(self.jobs().contains_key(job_id@) && self.jobs()[job_id@] == before);
        if text_eq(&record.broker_id, claimant_broker_id) {
            assert(owned_by(before, claimant_broker_id@) =~= before);
            return Ok(ClaimResult::Claimed(record));
        }
        if !text_eq(&record.broker_id, expected_owner_broker_id) {
            return Ok(ClaimResult::Active { owner_broker_id: record.broker_id });
        }
        record.broker_id = claimant_broker_id.to_owned();
        let taken = record.copy();
        let ghost kept = record;
        self.jobs.insert(key, record);
        proof {
            self.lemma_other_jobs(*old(self), job_id@, Some(kept));
            assert(self.jobs().remove(job_id@) =~= old(self).jobs().remove(job_id@));
        }
        Ok(ClaimResult::Claimed(taken))
    }
}

impl BrokerLeaseStore for MemoryStore {
    open spec fn leases(&self) -> Map<Seq<char>, LeaseFacts> {
        self.lease_records()
    }

    fn upsert_broker_lease(
        &mut self,
        broker_id: &str,
        internal_poll_base_url: &str,
        ttl: Span,
    ) -> (r: Result<(), DbError>)
        ensures
            r is Ok,
            final(self).job_records() == old(self).job_records(),
            final(self).in_flight() == old(self).in_flight(),
            slots_kept(*old(self), *final(self)),
            final(self).last_number() == old(self).last_number(),
    {
        let now = utc_now();
        self.renew_lease_at(broker_id, internal_poll_base_url, ttl, now);
        Ok(())
    }

    fn get_broker_lease(&self, broker_id: &str) -> (r: Result<Option<BrokerLeaseRecord>, DbError>)
        ensures
            r is Ok,
    {
        match self.brokers.get(broker_id) {
            Some(lease) => Ok(Some(lease.copy())),
            None => Ok(None),
        }
    }

    fn delete_broker_lease(&mut self, broker_id: &str) -> (r: Result<(), DbError>)
        ensures
            r is Ok,
            final(self).job_records() == old(self).job_records(),
            final(self).in_flight() == old(self).in_flight(),
            slots_kept(*old(self), *final(self)),
            final(self).last_number() == old(self).last_number(),
    {
        self.brokers.remove(broker_id);
        assert(self.leases() =~= old(self).leases().remove(broker_id@));
        Ok(())
    }
}

impl MemoryStore {
    /// Writes the lease that a broker takes at a point in time.
    pub fn renew_lease_at(
        &mut self,
        broker_id: &str,
        internal_poll_base_url: &str,
        ttl: Span,
        now: Timestamp,
    )
        requires
            old(self).wf(),
        ensures
            final(self).wf(),
            final(self).leases() == old(self).leases().insert(
                broker_id@,
                lease_from(broker_id@, internal_poll_base_url@, ttl, now),
            ),
            final(self).jobs() == old(self).jobs(),
            final(self).reservations() == old(self).reservations(),
            slots_kept(*old(self), *final(self)),
            final(self).last_number() == old(self).last_number(),
    {
        let lease = new_lease(broker_id, internal_poll_base_url, ttl, now);
        self.brokers.insert(broker_id.to_owned(), lease);
        assert(self.leases() =~= old(self).leases().insert(
            broker_id@,
            lease_from(broker_id@, internal_poll_base_url@, ttl, now),
        ));
    }

    /// Allocates the next slot of a site and environment.
    pub fn allocate_memory_broker_slot(&mut self, site_tag: &str, env_tag: &str) -> (r: Result<
        u16,
        DbError,
    >)
        requires
            old(self).wf(),
        ensures
            final(self).wf(),
            final(self).jobs() == old(self).jobs(),
            final(self).leases() == old(self).leases(),
            final(self).reservations() == old(self).reservations(),
            final(self).last_number() == old(self).last_number(),
            match r {
                Ok(slot) => old(self).slots_used(site_tag@, env_tag@) <= u16::MAX && slot == old(
                    self,
                ).slots_used(site_tag@, env_tag@),
                Err(e) => old(self).slots_used(site_tag@, env_tag@) > u16::MAX && slots_exhausted(
                    e,
                    site_tag@,
                    env_tag@,
                ),
            },
            forall|site: Seq<char>, env: Seq<char>|
                #[trigger] final(self).slots_used(site, env) == old(self).slots_used(site, env)
                    + if r is Ok && site == site_tag@ && env == env_tag@ {
                    1nat
                } else {
                    0nat
                },
    {
        let ghost slots = self.broker_slots@;
        let used: u32 = match self.broker_slots.get(site_tag) {
            Some(envs) => match envs.get(env_tag) {
                Some(used) => *used,
                None => 0,
            },
            None => 0,
        };
        assert(used == self.slots_used(site_tag@, env_tag@));
        if used > 65535 {
            return Err(
                DbError::SlotExhausted {
                    site: site_tag.to_owned(),
                    env: env_tag.to_owned(),
                    ceiling: 65535,
                },
            );
        }
        let mut envs = match self.broker_slots.remove(site_tag) {
            Some(envs) => envs,
            None => Table::new(),
        };
        let ghost envs_before = envs@;
        envs.insert(env_tag.to_owned(), used + 1);
        self.broker_slots.insert(site_tag.to_owned(), envs);
        proof {
            assert(self.broker_slots@ =~= slots.insert(site_tag@, self.broker_slots@[site_tag@]));
            assert forall|site: Seq<char>, env: Seq<char>|
                #[trigger] self.slots_used(site, env) == old(self).slots_used(site, env) + if site
                    == site_tag@ && env == env_tag@ {
                    1nat
                } else {
                    0nat
                } by {
                if site == site_tag@ {
                    assert(self.broker_slots@[site]@ == envs_before.insert(
                        env_tag@,
                        (used + 1) as u32,
                    ));
                }
            }
        }
        Ok(used as u16)
    }
}

impl BrokerSlotStore for MemoryStore {
    open spec fn slots_used(&self, site: Seq<char>, env: Seq<char>) -> nat {
        self.slots_taken(site, env)
    }

    fn allocate_broker_slot(&mut self, site_tag: &str, env_tag: &str) -> (r: Result<u16, DbError>)
        ensures
            r is Ok <==> old(self).slots_used(site_tag@, env_tag@) <= u16::MAX,
            final(self).job_records() == old(self).job_records(),
            final(self).lease_records() == old(self).lease_records(),
            final(self).in_flight() == old(self).in_flight(),
            final(self).last_number() == old(self).last_number(),
            r is Err ==> r->Err_0 is SlotExhausted,
    {
        self.allocate_memory_broker_slot(site_tag, env_tag)
    }
}

impl MemoryStore {
    /// Where the entry of a job stands.
    fn entry_position(&self, scope: &str, user: &str, job_id: &str) -> (r: Option<usize>)
        ensures
            match r {
                Some(i) => i < self.user_slots@.len() && stands_for(
                    limit_facts(self.user_slots@)[i as int],
                    scope@,
                    user@,
                    job_id@,
                ),
                None => forall|k: int|
                    #![trigger limit_facts(self.user_slots@)[k]]
                    0 <= k < self.user_slots@.len() ==> !stands_for(
                        limit_facts(self.user_slots@)[k],
                        scope@,
                        user@,
                        job_id@,
                    ),
            },
    {
        let mut i: usize = 0;
        while i < self.user_slots.len()
            invariant
                i <= self.user_slots@.len(),
                forall|k: int|
                    #![trigger limit_facts(self.user_slots@)[k]]
                    0 <= k < i ==> !stands_for(
                        limit_facts(self.user_slots@)[k],
                        scope@,
                        user@,
                        job_id@,
                    ),
            decreases self.user_slots@.len() - i,
        {
            let entry = &self.user_slots[i];
            if text_eq(&entry.scope, scope) && text_eq(&entry.user, user) && text_eq(
                &entry.job_id,
                job_id,
            ) {
                return Some(i);
            }
            i = i + 1;
        }
        None
    }

    /// Whether a number is left for another entry.
    pub fn numbers_left(&self) -> (r: bool)
        ensures
            r == self.has_number(),
    {
        self.user_seq < u64::MAX
    }

    /// Records a job in flight at a point in time.
    pub fn reserve_user_slot_memory(
        &mut self,
        scope: &str,
        user: &str,
        job_id: &str,
        owner_broker_id: &str,
        now: Timestamp,
    ) -> (seq: u64)
        requires
            old(self).wf(),
            old(self).has_number(),
        ensures
            final(self).wf(),
            final(self).jobs() == old(self).jobs(),
            final(self).leases() == old(self).leases(),
            slots_kept(*old(self), *final(self)),
            slot_reserved(
                old(self).reservations(),
                scope@,
                user@,
                job_id@,
                owner_broker_id@,
                final(self).reservations(),
                seq,
            ),
            forall|e: LimitFacts| #[trigger]
                final(self).reservations().contains(e) && !old(self).reservations().contains(e)
                    ==> e.created_at == now,
            if is_reserved(old(self).reservations(), scope@, user@, job_id@) {
                seq <= old(self).last_number() && final(self).last_number()
                    == old(self).last_number()
            } else {
                seq == old(self).last_number() + 1 && final(self).last_number() == seq
            },
    {
        let ghost facts = limit_facts(self.user_slots@);
        let ghost held = self.reservations();
        match self.entry_position(scope, user, job_id) {
            Some(i) => {
                assert(held.contains(facts[i as int]));
                assert(is_reserved(held, scope@, user@, job_id@));
                self.user_slots[i].seq
            },
            None => {
                assert(!is_reserved(held, scope@, user@, job_id@));
                let seq: u64 = self.user_seq + 1;
                self.user_seq = seq;
                let entry = UserLimitEntry {
                    scope: scope.to_owned(),
                    user: user.to_owned(),
                    job_id: job_id.to_owned(),
                    owner_broker_id: owner_broker_id.to_owned(),
                    seq,
                    created_at: now,
                };
                let ghost e = entry@;
                self.user_slots.push(entry);
                proof {
                    let after = limit_facts(self.user_slots@);
                    assert(after =~= facts.push(e));
                    assert forall|x: LimitFacts| after.to_set().contains(x) == held.insert(
                        e,
                    ).contains(x) by {
                        lemma_seq_contains_after_push(facts, e, x);
                    }
                    assert(self.reservations() =~= held.insert(e));
                    assert(self.reservations().contains(e));
                    assert forall|x: LimitFacts| #[trigger] held.contains(x) implies x.seq < seq by {
                        let i = choose|i: int| 0 <= i < facts.len() && facts[i] == x;
                        assert(facts[i].seq <= old(self).user_seq);
                    }
                    assert forall|i: int, j: int|
                        #![trigger after[i], after[j]]
                        0 <= i < j < after.len() implies !stands_for(
                        after[i],
                        after[j].scope,
                        after[j].user,
                        after[j].job_id,
                    ) by {
                        assert(after[i] == facts[i]);
                        if j < facts.len() {
                            assert(after[j] == facts[j]);
                        } else {
                            assert(!stands_for(facts[i], scope@, user@, job_id@));
                        }
                    }
                }
                seq
            },
        }
    }

    /// Removes the entry of a job.
    pub fn release_user_slot_memory(&mut self, scope: &str, user: &str, job_id: &str)
        requires
            old(self).wf(),
        ensures
            final(self).wf(),
            final(self).jobs() == old(self).jobs(),
            final(self).leases() == old(self).leases(),
            slots_kept(*old(self), *final(self)),
            final(self).last_number() == old(self).last_number(),
            final(self).reservations() == entries_without(
                old(self).reservations(),
                scope@,
                user@,
                job_id@,
            ),
    {
        let ghost facts = limit_facts(self.user_slots@);
        let ghost held = self.reservations();
        let ghost without = entries_without(held, scope@, user@, job_id@);
        match self.entry_position(scope, user, job_id) {
            Some(i) => {
                self.user_slots.remove(i);
                proof {
                    let after = limit_facts(self.user_slots@);
                    assert(after =~= facts.remove(i as int));
                    assert forall|x: LimitFacts| after.to_set().contains(x) == without.contains(
                        x,
                    ) by {
                        if after.to_set().contains(x) {
                            let k = choose|k: int| 0 <= k < after.len() && after[k] == x;
                            let m = if k < i { k } else { k + 1 };
                            assert(facts[m] == x);
                            assert(held.contains(facts[m]));
                            if stands_for(x, scope@, user@, job_id@) {
                                if m < i {
                                    assert(!stands_for(
                                        facts[m],
                                        facts[i as int].scope,
                                        facts[i as int].user,
                                        facts[i as int].job_id,
                                    ));
                                } else {
                                    assert(!stands_for(
                                        facts[i as int],
                                        facts[m].scope,
                                        facts[m].user,
                                        facts[m].job_id,
                                    ));
                                }
                            }
                        }
                        if without.contains(x) {
                            let m = choose|m: int| 0 <= m < facts.len() && facts[m] == x;
                            let k = if m < i { m } else { m - 1 };
                            assert(m != i);
                            assert(after[k] == x);
                        }
                    }
                    assert(self.reservations() =~= without);
                    assert forall|a: int, b: int|
                        #![trigger after[a], after[b]]
                        0 <= a < b < after.len() implies !stands_for(
                        after[a],
                        after[b].scope,
                        after[b].user,
                        after[b].job_id,
                    ) by {
                        let p = if a < i { a } else { a + 1 };
                        let q = if b < i { b } else { b + 1 };
                        assert(after[a] == facts[p] && after[b] == facts[q]);
                    }
                }
            },
            None => {
                proof {
                    assert forall|x: LimitFacts| held.contains(x) == without.contains(x) by {
                        if held.contains(x) {
                            let k = choose|k: int| 0 <= k < facts.len() && facts[k] == x;
                            assert(!stands_for(facts[k], scope@, user@, job_id@));
                        }
                    }
                    assert(held =~= without);
                }
            },
        }
    }

    /// The entries of a user of a dispatcher, oldest first.
    pub fn list_user_slots_memory(&self, scope: &str, user: &str) -> (entries: Vec<UserLimitEntry>)
        requires
            self.wf(),
        ensures
            limit_facts(entries@).no_duplicates(),
            limit_facts(entries@).to_set() == entries_of(self.reservations(), scope@, user@),
    {
        let ghost facts = limit_facts(self.user_slots@);
        let ghost wanted = |e: LimitFacts| e.scope == scope@ && e.user == user@;
        let mut listed: Vec<UserLimitEntry> = Vec::new();
        let mut i: usize = 0;
        proof {
            assert(facts.take(0).filter(wanted) =~= Seq::<LimitFacts>::empty()) by {
                reveal(Seq::filter);
            }
        }
        while i < self.user_slots.len()
            invariant
                i <= self.user_slots@.len(),
                facts == limit_facts(self.user_slots@),
                wanted == (|e: LimitFacts| e.scope == scope@ && e.user == user@),
                limit_facts(listed@) == facts.take(i as int).filter(wanted),
            decreases self.user_slots@.len() - i,
        {
            let entry = &self.user_slots[i];
            proof {
                assert(facts.take(i + 1).drop_last() =~= facts.take(i as int));
                assert(facts.take(i + 1).filter(wanted) == if wanted(facts[i as int]) {
                    facts.take(i as int).filter(wanted).push(facts[i as int])
                } else {
                    facts.take(i as int).filter(wanted)
                }) by {
                    reveal(Seq::filter);
                }
            }
            if text_eq(&entry.scope, scope) && text_eq(&entry.user, user) {
                let ghost before = listed@;
                listed.push(entry.copy());
                assert(limit_facts(listed@) =~= limit_facts(before).push(facts[i as int]));
            }
            i = i + 1;
        }
        proof {
            assert(facts.take(i as int) =~= facts);
            lemma_sound_entries_differ(facts, self.user_seq);
            lemma_filtered(facts, wanted);
            assert(limit_facts(listed@).to_set() =~= entries_of(
                self.reservations(),
                scope@,
                user@,
            )) by {
                assert(entries_of(self.reservations(), scope@, user@) =~= facts.to_set().filter(
                    wanted,
                ));
            }
        }
        listed
    }

    /// Removes the entries whose owner is not alive at a point in time, and counts them.
    pub fn reclaim_user_slots_memory(&mut self, now: Timestamp) -> (removed: u64)
        requires
            old(self).wf(),
        ensures
            final(self).wf(),
            final(self).jobs() == old(self).jobs(),
            final(self).leases() == old(self).leases(),
            slots_kept(*old(self), *final(self)),
            final(self).last_number() == old(self).last_number(),
            final(self).reservations() == owned_by_the_living(
                old(self).reservations(),
                old(self).leases(),
                now,
            ),
            removed == old(self).reservations().len() - final(self).reservations().len(),
    {
        let ghost facts = limit_facts(self.user_slots@);
        let ghost leases = self.leases();
        let ghost alive = |e: LimitFacts| lease_is_live(leases, e.owner_broker_id, now);
        let count: usize = self.user_slots.len();
        let mut kept: Vec<UserLimitEntry> = Vec::new();
        let mut i: usize = 0;
        proof {
            assert(facts.take(0).filter(alive) =~= Seq::<LimitFacts>::empty()) by {
                reveal(Seq::filter);
            }
        }
        while i < self.user_slots.len()
            invariant
                i <= self.user_slots@.len(),
                self.brokers.wf(),
                *self == *old(self),
                facts == limit_facts(self.user_slots@),
                leases == self.leases(),
                alive == (|e: LimitFacts| lease_is_live(leases, e.owner_broker_id, now)),
                limit_facts(kept@) == facts.take(i as int).filter(alive),
                kept@.len() <= i,
            decreases self.user_slots@.len() - i,
        {
            let entry = &self.user_slots[i];
            proof {
                assert(facts.take(i + 1).drop_last() =~= facts.take(i as int));
                assert(facts.take(i + 1).filter(alive) == if alive(facts[i as int]) {
                    facts.take(i as int).filter(alive).push(facts[i as int])
                } else {
                    facts.take(i as int).filter(alive)
                }) by {
                    reveal(Seq::filter);
                }
            }
            let live = match self.brokers.get(&entry.owner_broker_id) {
                Some(lease) => lease.lease_until.is_after(&now),
                None => false,
            };
            assert(live == alive(facts[i as int]));
            if live {
                let ghost before = kept@;
                kept.push(entry.copy());
                assert(limit_facts(kept@) =~= limit_facts(before).push(facts[i as int]));
            }
            i = i + 1;
        }
        let left: usize = kept.len();
        proof {
            assert(facts.take(i as int) =~= facts);
            lemma_sound_entries_differ(facts, self.user_seq);
            lemma_filtered(facts, alive);
            lemma_filter_is_sound(facts, alive, self.user_seq);
            lemma_sound_entries_differ(facts.filter(alive), self.user_seq);
        }
        self.user_slots = kept;
        proof {
            assert(self.reservations() =~= owned_by_the_living(
                old(self).reservations(),
                leases,
                now,
            )) by {
                assert(owned_by_the_living(old(self).reservations(), leases, now)
                    =~= facts.to_set().filter(alive));
            }
        }
        (count - left) as u64
    }
}

/// Filtering a sequence without repetition keeps what the filter admits, without repetition.
proof fn lemma_filtered(entries: Seq<LimitFacts>, admits: spec_fn(LimitFacts) -> bool)
    requires
        entries.no_duplicates(),
    ensures
        entries.filter(admits).no_duplicates(),
        entries.filter(admits).to_set() == entries.to_set().filter(admits),
    decreases entries.len(),
{
    reveal(Seq::filter);
    if entries.len() > 0 {
        let init = entries.drop_last();
        let last = entries.last();
        assert(init.no_duplicates());
        lemma_filtered(init, admits);
        assert forall|x: LimitFacts| entries.to_set().contains(x) == (init.to_set().contains(x) || x
            == last) by {
            assert(entries =~= init.push(last));
            lemma_seq_contains_after_push(init, last, x);
        }
        assert(!init.to_set().contains(last));
        assert forall|x: LimitFacts|
            entries.filter(admits).to_set().contains(x) == entries.to_set().filter(admits).contains(
                x,
            ) by {
            assert(init.filter(admits).to_set().contains(x) == init.to_set().filter(
                admits,
            ).contains(x));
            if admits(last) {
                lemma_seq_contains_after_push(init.filter(admits), last, x);
            }
        }
        if admits(last) {
            assert(!init.filter(admits).to_set().contains(last));
            assert(entries.filter(admits) =~= init.filter(admits).push(last));
        }
        assert(entries.filter(admits).to_set() =~= entries.to_set().filter(admits));
    } else {
        assert(entries.filter(admits).to_set() =~= entries.to_set().filter(admits));
    }
}

proof fn lemma_filter_is_sound(
    entries: Seq<LimitFacts>,
    admits: spec_fn(LimitFacts) -> bool,
    last: u64,
)
    requires
        entries_sound(entries, last),
    ensures
        entries_sound(entries.filter(admits), last),
        entries.filter(admits).len() <= entries.len(),
    decreases entries.len(),
{
    reveal(Seq::filter);
    if entries.len() > 0 {
        let init = entries.drop_last();
        let end = entries.last();
        assert(entries_sound(init, last)) by {
            assert forall|i: int, j: int|
                #![trigger init[i], init[j]]
                0 <= i < j < init.len() implies !stands_for(
                init[i],
                init[j].scope,
                init[j].user,
                init[j].job_id,
            ) by {
                assert(init[i] == entries[i] && init[j] == entries[j]);
            }
            assert forall|i: int| #![trigger init[i]] 0 <= i < init.len() implies init[i].seq
                <= last by {
                assert(init[i] == entries[i]);
            }
        }
        lemma_filter_is_sound(init, admits, last);
        if admits(end) {
            let left = init.filter(admits);
            let all = entries.filter(admits);
            assert(all =~= left.push(end));
            assert forall|i: int, j: int|
                #![trigger all[i], all[j]]
                0 <= i < j < all.len() implies !stands_for(
                all[i],
                all[j].scope,
                all[j].user,
                all[j].job_id,
            ) by {
                assert(all[i] == left[i]);
                if j < left.len() {
                    assert(all[j] == left[j]);
                } else {
                    lemma_sound_entries_differ(init, last);
                    lemma_filtered(init, admits);
                    assert(left.to_set().contains(left[i]));
                    assert(init.to_set().contains(left[i]));
                    let k = choose|k: int| 0 <= k < init.len() && init[k] == left[i];
                    assert(entries[k] == left[i]);
                    assert(entries[entries.len() - 1] == end);
                }
            }
            assert forall|i: int| #![trigger all[i]] 0 <= i < all.len() implies all[i].seq
                <= last by {
                if i < left.len() {
                    assert(all[i] == left[i]);
                } else {
                    assert(all[i] == entries[entries.len() - 1]);
                }
            }
        }
    }
}

impl UserLimitStore for MemoryStore {
    open spec fn reservations(&self) -> Set<LimitFacts> {
        self.in_flight()
    }

    open spec fn has_number(&self) -> bool {
        self.last_number() < u64::MAX
    }

    fn reserve_user_slot(
        &mut self,
        scope: &str,
        user: &str,
        job_id: &str,
        owner_broker_id: &str,
    ) -> (r: Result<u64, DbError>)
        ensures
            r is Ok,
            final(self).job_records() == old(self).job_records(),
            final(self).lease_records() == old(self).lease_records(),
            slots_kept(*old(self), *final(self)),
            final(self).last_number() == if is_reserved(
                old(self).reservations(),
                scope@,
                user@,
                job_id@,
            ) {
                old(self).last_number()
            } else {
                old(self).last_number() + 1
            },
    {
        let now = utc_now();
        Ok(self.reserve_user_slot_memory(scope, user, job_id, owner_broker_id, now))
    }

    fn release_user_slot(&mut self, scope: &str, user: &str, job_id: &str) -> (r: Result<
        (),
        DbError,
    >)
        ensures
            r is Ok,
            final(self).job_records() == old(self).job_records(),
            final(self).lease_records() == old(self).lease_records(),
            slots_kept(*old(self), *final(self)),
            final(self).last_number() == old(self).last_number(),
    {
        self.release_user_slot_memory(scope, user, job_id);
        Ok(())
    }

    fn list_user_slots(&self, scope: &str, user: &str) -> (r: Result<Vec<UserLimitEntry>, DbError>)
        ensures
            r is Ok,
    {
        Ok(self.list_user_slots_memory(scope, user))
    }

    fn reclaim_user_slots(&mut self) -> (r: Result<u64, DbError>)
        ensures
            r is Ok,
            final(self).job_records() == old(self).job_records(),
            final(self).lease_records() == old(self).lease_records(),
            slots_kept(*old(self), *final(self)),
            final(self).last_number() == old(self).last_number(),
    {
        let now = utc_now();
        Ok(self.reclaim_user_slots_memory(now))
    }
}

} // verus!
