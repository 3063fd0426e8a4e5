//! Ordered maps with insertion-order iteration, kept in
//! `indexmap::IndexMap` behind trusted wrappers. The contents of each map
//! instantiation are named as an ordered sequence of key/value pairs, and
//! the wrappers state over that sequence what the crate's documentation
//! promises of each call.

use vstd::prelude::*;
use indexmap::IndexMap;

verus! {

#[verifier::external_type_specification]
#[verifier::external_body]
#[verifier::reject_recursive_types(K)]
#[verifier::reject_recursive_types(V)]
#[verifier::reject_recursive_types(S)]
pub struct ExIndexMap<K, V, S>(IndexMap<K, V, S>);

/// The value stored under key `k` in an ordered entry list, searching from
/// the front.
pub open spec fn lookup<V>(es: Seq<(Seq<char>, V)>, k: Seq<char>) -> Option<V>
    decreases es.len(),
{
    if es.len() == 0 {
        None
    } else if es[0].0 == k {
        Some(es[0].1)
    } else {
        lookup(es.drop_first(), k)
    }
}

/// Insertion into an ordered entry list: an existing key keeps its place and
/// its value is replaced; a new key is appended last.
pub open spec fn insert_entry<V>(es: Seq<(Seq<char>, V)>, k: Seq<char>, v: V) -> Seq<
    (Seq<char>, V),
>
    decreases es.len(),
{
    if es.len() == 0 {
        seq![(k, v)]
    } else if es[0].0 == k {
        seq![(k, v)] + es.drop_first()
    } else {
        seq![es[0]] + insert_entry(es.drop_first(), k, v)
    }
}

/// The keys of an entry list, in order.
pub open spec fn entry_keys<V>(es: Seq<(Seq<char>, V)>) -> Seq<Seq<char>> {
    es.map_values(|e: (Seq<char>, V)| e.0)
}

/// What an `IndexMap<String, String>` holds: its key/value pairs in
/// insertion order.
pub uninterp spec fn power_entries(m: IndexMap<String, String>) -> Seq<(Seq<char>, Seq<char>)>;

/// What an `IndexMap<String, Vec<String>>` holds: its key/value pairs in
/// insertion order.
pub uninterp spec fn dist_entries(m: IndexMap<String, Vec<String>>) -> Seq<
    (Seq<char>, Seq<Seq<char>>),
>;

/// Relies on `indexmap::IndexMap::new`: a new map is empty.
#[verifier::external_body]
pub(crate) fn pm_new() -> (r: IndexMap<String, String>)
    ensures
        power_entries(r).len() == 0,
{
    IndexMap::new()
}

/// Relies on `indexmap::IndexMap::insert`: an existing key retains its place
/// in the order and its value is updated; a new key is inserted last.
#[verifier::external_body]
pub(crate) fn pm_insert(m: &mut IndexMap<String, String>, k: String, v: String)
    ensures
        power_entries(*final(m)) == insert_entry(power_entries(*old(m)), k@, v@),
{
    m.insert(k, v);
}

/// Relies on `indexmap::IndexMap::get`: returns the value stored under the
/// key, or nothing when the key is absent.
#[verifier::external_body]
pub(crate) fn pm_get(m: &IndexMap<String, String>, k: &str) -> (r: Option<String>)
    ensures
        match r {
            Some(v) => lookup(power_entries(*m), k@) == Some(v@),
            None => lookup(power_entries(*m), k@) is None,
        },
{
    m.get(k).cloned()
}

/// Relies on `indexmap::IndexMap::new`: a new map is empty.
#[verifier::external_body]
pub(crate) fn dist_new() -> (r: IndexMap<String, Vec<String>>)
    ensures
        dist_entries(r).len() == 0,
{
    IndexMap::new()
}

/// Relies on `indexmap::IndexMap::insert`: an existing key retains its place
/// in the order and its value is updated; a new key is inserted last.
#[verifier::external_body]
pub(crate) fn dist_insert(m: &mut IndexMap<String, Vec<String>>, k: String, v: Vec<String>)
    ensures
        dist_entries(*final(m)) == insert_entry(dist_entries(*old(m)), k@, v.deep_view()),
{
    m.insert(k, v);
}

/// Relies on `indexmap::IndexMap::get`: returns the value stored under the
/// key, or nothing when the key is absent.
#[verifier::external_body]
pub(crate) fn dist_get(m: &IndexMap<String, Vec<String>>, k: &str) -> (r: Option<Vec<String>>)
    ensures
        match r {
            Some(v) => lookup(dist_entries(*m), k@) == Some(v.deep_view()),
            None => lookup(dist_entries(*m), k@) is None,
        },
{
    m.get(k).cloned()
}

/// Relies on `indexmap::IndexMap::clone`: the copy holds the same pairs in
/// the same order.
#[verifier::external_body]
pub(crate) fn dist_clone(m: &IndexMap<String, Vec<String>>) -> (r: IndexMap<String, Vec<String>>)
    ensures
        dist_entries(r) == dist_entries(*m),
{
    m.clone()
}

/// Relies on `indexmap::IndexMap::iter`: yields the pairs in insertion
/// order.
#[verifier::external_body]
pub(crate) fn dist_items(m: &IndexMap<String, Vec<String>>) -> (r: Vec<(String, Vec<String>)>)
    ensures
        r.deep_view() == dist_entries(*m),
{
    let mut out: Vec<(String, Vec<String>)> = Vec::new();
    for (k, v) in m.iter() {
        out.push((k.clone(), v.clone()));
    }
    out
}

} // verus!
