//! The map that holds the cached statements: `indexmap::IndexMap`, which finds an
//! entry by its key and keeps the entries in an order.
use crate::model;
use crate::model::CachedStatementView;
use crate::statement_cache::CachedStatement;
use indexmap::IndexMap;
use vstd::prelude::*;

verus! {

/// The map type of the `indexmap` crate.
#[verifier::external_type_specification]
#[verifier::external_body]
#[verifier::reject_recursive_types(K)]
#[verifier::reject_recursive_types(V)]
#[verifier::reject_recursive_types(S)]
pub struct ExIndexMap<K, V, S>(indexmap::IndexMap<K, V, S>);

/// What a map holds: its keys and values, in the map's order.
pub uninterp spec fn entries(map: IndexMap<String, CachedStatement>) -> Seq<
    (Seq<char>, CachedStatementView),
>;

/// Calls `IndexMap::with_capacity`, which gives a map that holds nothing.
#[verifier::external_body]
pub(crate) fn with_capacity(n: usize) -> (r: IndexMap<String, CachedStatement>)
    requires
        model::reservable(n),
    ensures
        entries(r) == Seq::<(Seq<char>, CachedStatementView)>::empty(),
{
    IndexMap::with_capacity(n)
}

/// Calls `IndexMap::len`, which gives the number of entries.
#[verifier::external_body]
pub(crate) fn len(map: &IndexMap<String, CachedStatement>) -> (r: usize)
    ensures
        r == entries(*map).len(),
{
    map.len()
}

/// Calls `IndexMap::is_empty`, which tells whether there is no entry.
#[verifier::external_body]
pub(crate) fn is_empty(map: &IndexMap<String, CachedStatement>) -> (r: bool)
    ensures
        r == (entries(*map).len() == 0),
{
    map.is_empty()
}

/// Calls `IndexMap::get_index`, which gives the entry at position `i` of the map's
/// order, or nothing behind the last one.
#[verifier::external_body]
pub(crate) fn get_index(map: &IndexMap<String, CachedStatement>, i: usize) -> (r: Option<
    (&String, &CachedStatement),
>)
    ensures
        match r {
            Some((key, value)) => i < entries(*map).len() && entries(*map)[i as int] == (
                key@,
                value@,
            ),
            None => i >= entries(*map).len(),
        },
{
    map.get_index(i)
}

/// Calls `IndexMap::get_mut`, which lends out the value under `key`. What becomes of
/// the value is what the map then holds there; all else stays. It gives nothing where the
/// key is not in the map.
#[verifier::external_body]
pub(crate) fn get_mut<'a>(map: &'a mut IndexMap<String, CachedStatement>, key: &str) -> (r: Option<
    &'a mut CachedStatement,
>)
    ensures
        match r {
            Some(value) => exists|i: int|
                {
                    &&& #[trigger] model::key_at(entries(*old(map)), i, key@)
                    &&& value@ == entries(*old(map))[i].1
                    &&& entries(*final(map)) == entries(*old(map)).update(i, (key@, final(value)@))
                },
            None => {
                &&& forall|i: int| !model::key_at(entries(*old(map)), i, key@)
                &&& entries(*final(map)) == entries(*old(map))
            },
        },
{
    map.get_mut(key)
}

/// Calls `IndexMap::insert`. A key that is not in the map comes in last, with `value`;
/// one that is in the map keeps its place, and its value is replaced and returned. As with
/// `Vec::push`, a machine that runs out of memory is left out of account.
#[verifier::external_body]
pub(crate) fn insert(
    map: &mut IndexMap<String, CachedStatement>,
    key: String,
    value: CachedStatement,
) -> (r: Option<CachedStatement>)
    ensures
        match r {
            Some(previous) => exists|i: int|
                {
                    &&& #[trigger] model::key_at(entries(*old(map)), i, key@)
                    &&& previous@ == entries(*old(map))[i].1
                    &&& entries(*final(map)) == entries(*old(map)).update(i, (key@, value@))
                },
            None => {
                &&& forall|i: int| !model::key_at(entries(*old(map)), i, key@)
                &&& entries(*final(map)) == entries(*old(map)).push((key@, value@))
            },
        },
{
    map.insert(key, value)
}

/// Calls `IndexMap::swap_remove`, which takes out the entry under `key`, moves the
/// last entry into its place and returns the value. Where the key is not in the map it
/// changes nothing.
#[verifier::external_body]
pub(crate) fn swap_remove(map: &mut IndexMap<String, CachedStatement>, key: &str) -> (r: Option<
    CachedStatement,
>)
    ensures
        match r {
            Some(value) => exists|i: int|
                {
                    &&& #[trigger] model::key_at(entries(*old(map)), i, key@)
                    &&& value@ == entries(*old(map))[i].1
                    &&& entries(*final(map)) == model::swap_removed(entries(*old(map)), i)
                },
            None => {
                &&& forall|i: int| !model::key_at(entries(*old(map)), i, key@)
                &&& entries(*final(map)) == entries(*old(map))
            },
        },
{
    map.swap_remove(key)
}

/// Calls `IndexMap::clear`, which takes out every entry.
#[verifier::external_body]
pub(crate) fn clear(map: &mut IndexMap<String, CachedStatement>)
    ensures
        entries(*final(map)) == Seq::<(Seq<char>, CachedStatementView)>::empty(),
{
    map.clear()
}

} // verus!
