//! The names of a compound's entries, kept in insertion order by an
//! `IndexMap`. The map finds a name's position; the tags themselves live in a
//! vector beside it, at the same positions.

use indexmap::IndexMap;
use vstd::prelude::*;

verus! {

/// `indexmap::IndexMap`, a hash map that keeps its entries in insertion
/// order. Nothing is claimed of the type itself.
#[verifier::external_type_specification]
#[verifier::external_body]
#[verifier::reject_recursive_types(K)]
#[verifier::reject_recursive_types(V)]
#[verifier::reject_recursive_types(S)]
pub struct ExIndexMap<K, V, S>(IndexMap<K, V, S>);

/// The keys that a map of names holds, in the order of the map.
pub uninterp spec fn index_keys(map: IndexMap<String, ()>) -> Seq<Seq<char>>;

/// Whether `key` is one of `keys`.
pub open spec fn has_key(keys: Seq<Seq<char>>, key: Seq<char>) -> bool {
    exists|i: int| 0 <= i < keys.len() && keys[i] == key
}

/// Whether no key occurs twice.
pub open spec fn distinct_keys(keys: Seq<Seq<char>>) -> bool {
    forall|i: int, j: int| 0 <= i < keys.len() && 0 <= j < keys.len() && keys[i] == keys[j] ==> i == j
}

/// `IndexMap::new`: a map without keys.
#[verifier::external_body]
pub(crate) fn index_new() -> (map: IndexMap<String, ()>)
    ensures
        index_keys(map) == Seq::<Seq<char>>::empty(),
{
    IndexMap::new()
}

/// `IndexMap::insert_full`: a key that the map holds stays where it is, and
/// its position is returned with `true`; a new key goes behind the last one,
/// and that position is returned with `false`.
#[verifier::external_body]
pub(crate) fn index_insert(map: &mut IndexMap<String, ()>, key: String) -> (r: (usize, bool))
    ensures
        has_key(index_keys(*old(map)), key@) ==> r.1 && r.0 < index_keys(*old(map)).len()
            && index_keys(*old(map))[r.0 as int] == key@ && index_keys(*final(map)) == index_keys(
            *old(map),
        ),
        !has_key(index_keys(*old(map)), key@) ==> !r.1 && r.0 == index_keys(*old(map)).len()
            && index_keys(*final(map)) == index_keys(*old(map)).push(key@),
{
    let (position, previous) = map.insert_full(key, ());
    (position, previous.is_some())
}

/// `IndexMap::get_index_of`: the position of `key`, if the map holds it.
#[verifier::external_body]
pub(crate) fn index_position(map: &IndexMap<String, ()>, key: &str) -> (r: Option<usize>)
    ensures
        has_key(index_keys(*map), key@) ==> r is Some && r->0 < index_keys(*map).len()
            && index_keys(*map)[r->0 as int] == key@,
        !has_key(index_keys(*map), key@) ==> r is None,
{
    map.get_index_of(key)
}

/// `IndexMap::get_index`: the key at `position`, if the map has that many.
#[verifier::external_body]
pub(crate) fn index_key_at(map: &IndexMap<String, ()>, position: usize) -> (r: Option<&String>)
    ensures
        position < index_keys(*map).len() ==> r is Some && r->0@ == index_keys(*map)[position as int],
        position >= index_keys(*map).len() ==> r is None,
{
    map.get_index(position).map(|(key, _)| key)
}

/// `IndexMap::swap_remove_full`: a key that the map holds is removed by
/// putting the last key in its place, and its old position is returned; a
/// map that does not hold the key stays as it is.
#[verifier::external_body]
pub(crate) fn index_swap_remove(map: &mut IndexMap<String, ()>, key: &str) -> (r: Option<usize>)
    ensures
        has_key(index_keys(*old(map)), key@) ==> r is Some && r->0 < index_keys(*old(map)).len()
            && index_keys(*old(map))[r->0 as int] == key@ && index_keys(*final(map)) == index_keys(
            *old(map),
        ).update(r->0 as int, index_keys(*old(map)).last()).drop_last(),
        !has_key(index_keys(*old(map)), key@) ==> r is None && index_keys(*final(map))
            == index_keys(*old(map)),
{
    map.swap_remove_full(key).map(|(position, _, _)| position)
}

} // verus!
