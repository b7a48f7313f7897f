//! Concurrent tables keyed by text. The library changes a table only through an exclusive
//! reference, so what a table holds stays the same between two changes.

use vstd::prelude::*;

use crate::text::texts;

verus! {

#[verifier::external_type_specification]
#[verifier::external_body]
#[verifier::reject_recursive_types(K)]
#[verifier::reject_recursive_types(V)]
#[verifier::reject_recursive_types(S)]
pub struct ExDashMap<K, V, S>(dashmap::DashMap<K, V, S>);

/// What a table of counts holds.
pub uninterp spec fn counts_in(table: dashmap::DashMap<String, usize>) -> Map<Seq<char>, usize>;

/// What a table of numbers with a clock reading holds.
pub uninterp spec fn stamps_in(table: dashmap::DashMap<String, (usize, u64)>) -> Map<
    Seq<char>,
    (usize, u64),
>;

/// Calls `DashMap::new`, which makes an empty table.
#[verifier::external_body]
pub(crate) fn new_counts() -> (table: dashmap::DashMap<String, usize>)
    ensures
        forall|key: Seq<char>| !(#[trigger] counts_in(table).contains_key(key)),
{
    dashmap::DashMap::new()
}

/// Calls `DashMap::get`, which finds the value of a key.
#[verifier::external_body]
pub(crate) fn get_count(table: &dashmap::DashMap<String, usize>, key: &str) -> (r: Option<usize>)
    ensures
        r == if counts_in(*table).contains_key(key@) {
            Some(counts_in(*table)[key@])
        } else {
            None
        },
{
    table.get(key).map(|count| *count)
}

/// Calls `DashMap::insert`, which sets the value of a key.
#[verifier::external_body]
pub(crate) fn set_count(table: &mut dashmap::DashMap<String, usize>, key: &str, count: usize)
    ensures
        counts_in(*final(table)) == counts_in(*old(table)).insert(key@, count),
{
    table.insert(key.to_string(), count);
}

/// Calls `DashMap::remove`, which removes a key with its value.
#[verifier::external_body]
pub(crate) fn remove_count(table: &mut dashmap::DashMap<String, usize>, key: &str)
    ensures
        counts_in(*final(table)) == counts_in(*old(table)).remove(key@),
{
    table.remove(key);
}

/// Calls `DashMap::new`, which makes an empty table.
#[verifier::external_body]
pub(crate) fn new_stamps() -> (table: dashmap::DashMap<String, (usize, u64)>)
    ensures
        forall|key: Seq<char>| !(#[trigger] stamps_in(table).contains_key(key)),
{
    dashmap::DashMap::new()
}

/// Calls `DashMap::get`, which finds the value of a key.
#[verifier::external_body]
pub(crate) fn get_stamp(table: &dashmap::DashMap<String, (usize, u64)>, key: &str) -> (r: Option<
    (usize, u64),
>)
    ensures
        r == if stamps_in(*table).contains_key(key@) {
            Some(stamps_in(*table)[key@])
        } else {
            None
        },
{
    table.get(key).map(|stamp| *stamp)
}

/// Calls `DashMap::insert`, which sets the value of a key.
#[verifier::external_body]
pub(crate) fn set_stamp(
    table: &mut dashmap::DashMap<String, (usize, u64)>,
    key: &str,
    stamp: (usize, u64),
)
    ensures
        stamps_in(*final(table)) == stamps_in(*old(table)).insert(key@, stamp),
{
    table.insert(key.to_string(), stamp);
}

/// Calls `DashMap::remove`, which removes a key with its value.
#[verifier::external_body]
pub(crate) fn remove_stamp(table: &mut dashmap::DashMap<String, (usize, u64)>, key: &str)
    ensures
        stamps_in(*final(table)) == stamps_in(*old(table)).remove(key@),
{
    table.remove(key);
}

/// Calls `DashMap::iter` and takes each key once, in an order of which nothing is said.
#[verifier::external_body]
pub(crate) fn stamp_keys(table: &dashmap::DashMap<String, (usize, u64)>) -> (keys: Vec<String>)
    ensures
        texts(keys@).no_duplicates(),
        forall|key: Seq<char>| #[trigger]
            texts(keys@).contains(key) <==> stamps_in(*table).contains_key(key),
{
    table.iter().map(|entry| entry.key().clone()).collect()
}

} // verus!
