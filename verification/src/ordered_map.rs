//! Insertion-ordered maps, as the `indexmap` crate provides them.
//!
//! A map is read here as the sequence of its entries, in the order in which
//! their keys were first inserted.

use indexmap::IndexMap;
use std::hash::RandomState;
use vstd::prelude::*;

verus! {

/// `indexmap::IndexMap`, of which nothing is known here but what the
/// functions below say.
#[verifier::external_type_specification]
#[verifier::external_body]
#[verifier::reject_recursive_types(K)]
#[verifier::reject_recursive_types(V)]
#[verifier::reject_recursive_types(S)]
pub struct ExIndexMap<K, V, S>(IndexMap<K, V, S>);

/// The entries of a map of codex pages, in the order in which their keys
/// were first inserted.
pub uninterp spec fn page_entries(pages: IndexMap<i32, bool, RandomState>) -> Seq<(i32, bool)>;

/// The entries of a map of plot names, in the order in which their keys were
/// first inserted.
pub uninterp spec fn name_entries(names: IndexMap<usize, String, RandomState>) -> Seq<
    (usize, Seq<char>),
>;

/// No two entries have the same key.
pub open spec fn distinct_keys<K, V>(entries: Seq<(K, V)>) -> bool {
    forall|i: int, j: int|
        0 <= i < j < entries.len() ==> (#[trigger] entries[i]).0 != (#[trigger] entries[j]).0
}

/// Some entry has the key.
pub open spec fn has_key<K, V>(entries: Seq<(K, V)>, key: K) -> bool {
    exists|i: int| 0 <= i < entries.len() && (#[trigger] entries[i]).0 == key
}

/// `indexmap::IndexMap::new`: a map without entries.
#[verifier::external_body]
pub(crate) fn pages_new() -> (pages: IndexMap<i32, bool, RandomState>)
    ensures
        page_entries(pages) == Seq::<(i32, bool)>::empty(),
{
    IndexMap::new()
}

/// `indexmap::IndexMap::len`: the number of entries.
#[verifier::external_body]
pub(crate) fn pages_len(pages: &IndexMap<i32, bool, RandomState>) -> (n: usize)
    ensures
        n == page_entries(*pages).len(),
{
    pages.len()
}

/// `indexmap::IndexMap::get_index`: the entry at a position, or nothing where
/// the position is not below the length.
#[verifier::external_body]
pub(crate) fn pages_get_index(
    pages: &IndexMap<i32, bool, RandomState>,
    index: usize,
) -> (entry: Option<(i32, bool)>)
    ensures
        entry == (if index < page_entries(*pages).len() {
            Some(page_entries(*pages)[index as int])
        } else {
            None
        }),
{
    pages.get_index(index).map(|(key, value)| (*key, *value))
}

/// `indexmap::IndexMap::get`: the value stored for a key, or nothing where no
/// entry has the key.
#[verifier::external_body]
pub(crate) fn pages_get(pages: &IndexMap<i32, bool, RandomState>, key: i32) -> (value: Option<bool>)
    ensures
        value is None <==> !has_key(page_entries(*pages), key),
        forall|i: int|
            0 <= i < page_entries(*pages).len() && (#[trigger] page_entries(*pages)[i]).0 == key
                ==> value == Some(page_entries(*pages)[i].1),
{
    pages.get(&key).copied()
}

/// `indexmap::IndexMap::insert`: where an entry has the key, its value is
/// replaced, it keeps its place, and the old value is returned; else the
/// entry is added last and nothing is returned.
#[verifier::external_body]
pub(crate) fn pages_insert(
    pages: &mut IndexMap<i32, bool, RandomState>,
    key: i32,
    value: bool,
) -> (replaced: Option<bool>)
    ensures
        !has_key(page_entries(*old(pages)), key) ==> replaced is None && page_entries(
            *final(pages),
        ) == page_entries(*old(pages)).push((key, value)),
        forall|i: int|
            0 <= i < page_entries(*old(pages)).len() && (#[trigger] page_entries(
                *old(pages),
            )[i]).0 == key ==> replaced == Some(page_entries(*old(pages))[i].1) && page_entries(
                *final(pages),
            ) == page_entries(*old(pages)).update(i, (key, value)),
{
    pages.insert(key, value)
}

/// `Clone` of `indexmap::IndexMap`: a map with the same entries in the same
/// order.
#[verifier::external_body]
pub(crate) fn pages_clone(pages: &IndexMap<i32, bool, RandomState>) -> (copy: IndexMap<
    i32,
    bool,
    RandomState,
>)
    ensures
        page_entries(copy) == page_entries(*pages),
{
    pages.clone()
}

/// `indexmap::IndexMap::len`: the number of entries.
#[verifier::external_body]
pub(crate) fn names_len(names: &IndexMap<usize, String, RandomState>) -> (n: usize)
    ensures
        n == name_entries(*names).len(),
{
    names.len()
}

/// `indexmap::IndexMap::get_index`: the entry at a position, or nothing where
/// the position is not below the length.
#[verifier::external_body]
pub(crate) fn names_get_index(names: &IndexMap<usize, String, RandomState>, index: usize) -> (entry:
    Option<(usize, &String)>)
    ensures
        match entry {
            Some((key, name)) => index < name_entries(*names).len() && key == name_entries(
                *names,
            )[index as int].0 && name@ == name_entries(*names)[index as int].1,
            None => index >= name_entries(*names).len(),
        },
{
    names.get_index(index).map(|(key, value)| (*key, value))
}

} // verus!
