//! The jobs of a broker, by identifier.

use vstd::prelude::*;

use crate::dispatcher::tables::{counts_in, get_count, new_counts, remove_count, set_count};
use crate::job::Job;
use crate::text::texts;

verus! {

/// Jobs in no particular order, with a table of where each of them is.
pub struct JobTable {
    places: dashmap::DashMap<String, usize>,
    jobs: Vec<Job>,
}

impl View for JobTable {
    type V = Map<Seq<char>, Job>;

    closed spec fn view(&self) -> Map<Seq<char>, Job> {
        Map::new(
            |id: Seq<char>| counts_in(self.places).contains_key(id),
            |id: Seq<char>| self.jobs@[counts_in(self.places)[id] as int],
        )
    }
}

impl JobTable {
    /// Every job is where the table says, and nothing else is there.
    pub closed spec fn wf(self) -> bool {
        &&& forall|i: int|
            0 <= i < self.jobs@.len() ==> counts_in(self.places).contains_key(
                (#[trigger] self.jobs@[i]).id@,
            ) && counts_in(self.places)[self.jobs@[i].id@] == i
        &&& forall|id: Seq<char>| #[trigger]
            counts_in(self.places).contains_key(id) ==> counts_in(self.places)[id]
                < self.jobs@.len() && self.jobs@[counts_in(self.places)[id] as int].id@ == id
    }

    /// How many jobs there are.
    pub closed spec fn count(self) -> nat {
        self.jobs@.len()
    }

    /// A job stands under its own identifier.
    pub proof fn lemma_key(self, id: Seq<char>)
        requires
            self.wf(),
            self@.contains_key(id),
        ensures
            self@[id].id@ == id,
    {
    }

    pub fn new() -> (table: JobTable)
        ensures
            table.wf(),
            table@ == Map::<Seq<char>, Job>::empty(),
            table.count() == 0,
    {
        let table = JobTable { places: new_counts(), jobs: Vec::new() };
        assert(table@ =~= Map::<Seq<char>, Job>::empty());
        table
    }

    pub fn len(&self) -> (n: usize)
        ensures
            n == self.count(),
    {
        self.jobs.len()
    }

    pub fn get(&self, id: &str) -> (r: Option<&Job>)
        requires
            self.wf(),
        ensures
            match r {
                Some(job) => self@.contains_key(id@) && *job == self@[id@],
                None => !self@.contains_key(id@),
            },
    {
        match get_count(&self.places, id) {
            Some(place) => Some(&self.jobs[place]),
            None => None,
        }
    }

    /// The identifiers of the jobs, each once.
    pub fn ids(&self) -> (ids: Vec<String>)
        requires
            self.wf(),
        ensures
            ids@.len() == self.count(),
            texts(ids@).no_duplicates(),
            forall|id: Seq<char>| #[trigger] texts(ids@).contains(id) <==> self@.contains_key(id),
    {
        let mut ids: Vec<String> = Vec::new();
        let mut i: usize = 0;
        while i < self.jobs.len()
            invariant
                i <= self.jobs@.len(),
                ids@.len() == i,
                forall|k: int| 0 <= k < i ==> (#[trigger] ids@[k])@ == self.jobs@[k].id@,
            decreases self.jobs@.len() - i,
        {
            ids.push(self.jobs[i].id.clone());
            i = i + 1;
        }
        proof {
            let all = texts(ids@);
            assert forall|k: int| 0 <= k < all.len() implies counts_in(self.places).contains_key(
                #[trigger] all[k],
            ) && counts_in(self.places)[all[k]] == k by {
                assert(all[k] == self.jobs@[k].id@);
            }
            assert forall|id: Seq<char>| #[trigger] self@.contains_key(id) implies all.contains(
                id,
            ) by {
                let k = counts_in(self.places)[id] as int;
                assert(self.jobs@[k].id@ == id);
                assert(all[k] == id);
            }
        }
        ids
    }

    /// Puts a job in, over one with the same identifier.
    pub fn insert(&mut self, job: Job)
        requires
            old(self).wf(),
        ensures
            final(self).wf(),
            final(self)@ == old(self)@.insert(job.id@, job),
            final(self).count() == old(self).count() + if old(self)@.contains_key(job.id@) {
                0nat
            } else {
                1nat
            },
    {
        let ghost id = job.id@;
        let ghost kept = job;
        match get_count(&self.places, &job.id) {
            Some(place) => {
                self.jobs.set(place, job);
            },
            None => {
                let place: usize = self.jobs.len();
                set_count(&mut self.places, &job.id, place);
                self.jobs.push(job);
            },
        }
        proof {
            let before = old(self)@.insert(id, kept);
            assert forall|k: Seq<char>| self@.contains_key(k) implies self@[k] == before[k] by {}
            assert(self@ =~= before);
        }
    }

    /// Takes a job out.
    pub fn remove(&mut self, id: &str) -> (r: Option<Job>)
        requires
            old(self).wf(),
        ensures
            final(self).wf(),
            final(self)@ == old(self)@.remove(id@),
            match r {
                Some(job) => old(self)@.contains_key(id@) && job == old(self)@[id@]
                    && final(self).count() == old(self).count() - 1,
                None => !old(self)@.contains_key(id@) && final(self).count() == old(self).count(),
            },
    {
        let place: usize = match get_count(&self.places, id) {
            Some(place) => place,
            None => {
                assert(self@ =~= old(self)@.remove(id@));
                return None;
            },
        };
        let last: usize = self.jobs.len() - 1;
        let job = self.jobs.swap_remove(place);
        remove_count(&mut self.places, id);
        if place < last {
            set_count(&mut self.places, &self.jobs[place].id, place);
        }
        proof {
            let b = old(self).jobs@;
            let a = self.jobs@;
            let before = counts_in(old(self).places);
            let after = counts_in(self.places);
            assert forall|i: int| 0 <= i < a.len() implies after.contains_key(
                (#[trigger] a[i]).id@,
            ) && after[a[i].id@] == i by {
                if i == place {
                    assert(a[i] == b[last as int]);
                } else {
                    assert(a[i] == b[i]);
                    assert(before[b[i].id@] == i);
                    if place < last {
                        assert(before[b[last as int].id@] == last);
                    }
                }
            }
            assert forall|k: Seq<char>| #[trigger] after.contains_key(k) implies after[k] < a.len()
                && a[after[k] as int].id@ == k by {
                if place < last && k == b[last as int].id@ {
                    assert(a[place as int] == b[last as int]);
                } else {
                    assert(before.contains_key(k) && k != id@);
                    assert(before[k] < b.len() && b[before[k] as int].id@ == k);
                    assert(before[k] != place);
                    if before[k] == last {
                        assert(b[last as int].id@ == k);
                    }
                    assert(a[before[k] as int] == b[before[k] as int]);
                }
            }
            assert forall|k: Seq<char>|
                self@.contains_key(k) == old(self)@.remove(id@).contains_key(k) by {
                if place < last {
                    assert(before.contains_key(b[last as int].id@));
                    assert(before[b[last as int].id@] == last);
                }
            }
            assert forall|k: Seq<char>| self@.contains_key(k) implies self@[k] == old(self)@.remove(
                id@,
            )[k] by {
                assert(after[k] < a.len() && a[after[k] as int].id@ == k);
                let i = after[k] as int;
                if i == place {
                    assert(a[i] == b[last as int]);
                    assert(before[b[last as int].id@] == last);
                } else {
                    assert(a[i] == b[i]);
                    assert(before[b[i].id@] == i);
                }
            }
            assert(self@ =~= old(self)@.remove(id@));
        }
        Some(job)
    }
}

} // verus!
