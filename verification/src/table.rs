//! Tables keyed by text.

use vstd::prelude::*;

use crate::text::text_eq;

verus! {

/// A table with at most one value for each key.
#[derive(Debug)]
pub struct Table<V> {
    pub entries: Vec<(String, V)>,
}

/// Where a key stands among entries, if it does.
pub open spec fn place_of<V>(entries: Seq<(String, V)>, key: Seq<char>) -> Option<int> {
    if exists|i: int| 0 <= i < entries.len() && (#[trigger] entries[i]).0@ == key {
        Some(choose|i: int| 0 <= i < entries.len() && (#[trigger] entries[i]).0@ == key)
    } else {
        None
    }
}

/// No key occurs twice.
pub open spec fn keys_distinct<V>(entries: Seq<(String, V)>) -> bool {
    forall|i: int, j: int|
        0 <= i < j < entries.len() ==> (#[trigger] entries[i]).0@ != (#[trigger] entries[j]).0@
}

/// What entries hold, by key.
pub open spec fn held<V>(entries: Seq<(String, V)>) -> Map<Seq<char>, V> {
    Map::new(
        |key: Seq<char>| place_of(entries, key) is Some,
        |key: Seq<char>| entries[place_of(entries, key)->0].1,
    )
}

impl<V> View for Table<V> {
    type V = Map<Seq<char>, V>;

    open spec fn view(&self) -> Map<Seq<char>, V> {
        held(self.entries@)
    }
}

proof fn lemma_place<V>(entries: Seq<(String, V)>, i: int)
    requires
        keys_distinct(entries),
        0 <= i < entries.len(),
    ensures
        place_of(entries, entries[i].0@) == Some(i),
        held(entries).contains_key(entries[i].0@),
        held(entries)[entries[i].0@] == entries[i].1,
{
    let key = entries[i].0@;
    assert(entries[i].0@ == key);
    let j = choose|j: int| 0 <= j < entries.len() && (#[trigger] entries[j]).0@ == key;
    if j < i {
        assert(entries[j].0@ != entries[i].0@);
    } else if i < j {
        assert(entries[i].0@ != entries[j].0@);
    }
}

impl<V> Table<V> {
    /// No key occurs twice.
    pub open spec fn wf(self) -> bool {
        keys_distinct(self.entries@)
    }

    pub fn new() -> (t: Table<V>)
        ensures
            t.wf(),
            t@ == Map::<Seq<char>, V>::empty(),
            t.entries@.len() == 0,
    {
        let t: Table<V> = Table { entries: Vec::new() };
        assert(t@ =~= Map::<Seq<char>, V>::empty());
        t
    }

    fn position(&self, key: &str) -> (r: Option<usize>)
        requires
            self.wf(),
        ensures
            match r {
                Some(i) => i < self.entries@.len() && self.entries@[i as int].0@ == key@
                    && place_of(self.entries@, key@) == Some(i as int),
                None => place_of(self.entries@, key@) is None,
            },
    {
        let mut i: usize = 0;
        while i < self.entries.len()
            invariant
                self.wf(),
                i <= self.entries.len(),
                forall|k: int| 0 <= k < i ==> (#[trigger] self.entries@[k]).0@ != key@,
            decreases self.entries.len() - i,
        {
            if text_eq(&self.entries[i].0, key) {
                proof {
                    lemma_place(self.entries@, i as int);
                }
                return Some(i);
            }
            i = i + 1;
        }
        None
    }

    /// The value of a key.
    pub fn get(&self, key: &str) -> (r: Option<&V>)
        requires
            self.wf(),
        ensures
            match r {
                Some(value) => self@.contains_key(key@) && *value == self@[key@],
                None => !self@.contains_key(key@),
            },
    {
        match self.position(key) {
            Some(i) => Some(&self.entries[i].1),
            None => None,
        }
    }

    pub fn contains_key(&self, key: &str) -> (r: bool)
        requires
            self.wf(),
        ensures
            r == self@.contains_key(key@),
    {
        self.position(key).is_some()
    }

    /// Sets the value of a key and gives back the value that it had.
    pub fn insert(&mut self, key: String, value: V) -> (r: Option<V>)
        requires
            old(self).wf(),
        ensures
            final(self).wf(),
            final(self)@ == old(self)@.insert(key@, value),
            match r {
                Some(before) => old(self)@.contains_key(key@) && before == old(self)@[key@]
                    && final(self).entries@.len() == old(self).entries@.len(),
                None => !old(self)@.contains_key(key@) && final(self).entries@.len()
                    == old(self).entries@.len() + 1,
            },
    {
        let ghost before = self.entries@;
        let r = self.remove(&key);
        let ghost without = self.entries@;
        self.entries.push((key, value));
        proof {
            let after = self.entries@;
            assert forall|i: int, j: int| 0 <= i < j < after.len() implies (
            #[trigger] after[i]).0@ != (#[trigger] after[j]).0@ by {
                if j == after.len() - 1 {
                    if without[i].0@ == key@ {
                        lemma_place(without, i);
                    }
                } else {
                    assert(without[i].0@ != without[j].0@);
                }
            }
            assert(held(after) =~= held(before).insert(key@, value)) by {
                assert forall|k: Seq<char>| #[trigger]
                    held(after).contains_key(k) == held(before).insert(key@, value).contains_key(
                        k,
                    ) && (held(after).contains_key(k) ==> held(after)[k] == held(before).insert(
                        key@,
                        value,
                    )[k]) by {
                    lemma_pushed(without, after, key, value, k);
                }
            }
        }
        r
    }

    /// Removes a key and gives back its value.
    pub fn remove(&mut self, key: &str) -> (r: Option<V>)
        requires
            old(self).wf(),
        ensures
            final(self).wf(),
            final(self)@ == old(self)@.remove(key@),
            match r {
                Some(value) => old(self)@.contains_key(key@) && value == old(self)@[key@]
                    && final(self).entries@.len() == old(self).entries@.len() - 1,
                None => !old(self)@.contains_key(key@) && final(self).entries@
                    == old(self).entries@,
            },
    {
        let ghost before = self.entries@;
        match self.position(key) {
            Some(i) => {
                let (_, value) = self.entries.remove(i);
                proof {
                    let after = self.entries@;
                    assert(after =~= before.remove(i as int));
                    assert forall|a: int, b: int| 0 <= a < b < after.len() implies (
                    #[trigger] after[a]).0@ != (#[trigger] after[b]).0@ by {
                        let x = if a < i {
                            a
                        } else {
                            a + 1
                        };
                        let y = if b < i {
                            b
                        } else {
                            b + 1
                        };
                        assert(before[x].0@ != before[y].0@);
                    }
                    assert(held(after) =~= held(before).remove(key@)) by {
                        assert forall|k: Seq<char>| #[trigger]
                            held(after).contains_key(k) == held(before).remove(key@).contains_key(
                                k,
                            ) && (held(after).contains_key(k) ==> held(after)[k] == held(
                                before,
                            ).remove(key@)[k]) by {
                            lemma_removed(before, i as int, k);
                        }
                    }
                }
                Some(value)
            },
            None => {
                assert(held(before) =~= held(before).remove(key@));
                None
            },
        }
    }
}

proof fn lemma_pushed<V>(
    without: Seq<(String, V)>,
    after: Seq<(String, V)>,
    key: String,
    value: V,
    k: Seq<char>,
)
    requires
        keys_distinct(without),
        keys_distinct(after),
        after == without.push((key, value)),
    ensures
        held(after).contains_key(k) == (k == key@ || held(without).contains_key(k)),
        k == key@ ==> held(after)[k] == value,
        k != key@ && held(without).contains_key(k) ==> held(after)[k] == held(without)[k],
{
    let n = without.len() as int;
    lemma_place(after, n);
    if k != key@ {
        if held(without).contains_key(k) {
            let i = place_of(without, k)->0;
            assert(after[i].0@ == k);
            lemma_place(after, i);
            lemma_place(without, i);
        } else if held(after).contains_key(k) {
            let i = place_of(after, k)->0;
            assert(i != n);
            assert(without[i].0@ == k);
        }
    }
}

proof fn lemma_removed<V>(before: Seq<(String, V)>, at: int, k: Seq<char>)
    requires
        keys_distinct(before),
        keys_distinct(before.remove(at)),
        0 <= at < before.len(),
    ensures
        held(before.remove(at)).contains_key(k) == (k != before[at].0@ && held(
            before,
        ).contains_key(k)),
        k != before[at].0@ && held(before).contains_key(k) ==> held(before.remove(at))[k] == held(
            before,
        )[k],
{
    let after = before.remove(at);
    if held(before).contains_key(k) && k != before[at].0@ {
        let i = place_of(before, k)->0;
        lemma_place(before, i);
        let j = if i < at {
            i
        } else {
            i - 1
        };
        assert(after[j] == before[i]);
        lemma_place(after, j);
    }
    if held(after).contains_key(k) {
        let j = place_of(after, k)->0;
        let i = if j < at {
            j
        } else {
            j + 1
        };
        assert(after[j] == before[i]);
        assert(before[i].0@ == k);
        lemma_place(before, i);
        if k == before[at].0@ {
            lemma_place(before, at);
        }
    }
}

} // verus!
