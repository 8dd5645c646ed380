//! An insertion-ordered set of integer keys, kept in an `indexmap::IndexMap`.
use vstd::prelude::*;
use indexmap::IndexMap;
use std::collections::hash_map::RandomState;

verus! {

/// `indexmap::IndexMap`, of which nothing is known here but what the
/// functions below say.
#[verifier::external_type_specification]
#[verifier::external_body]
#[verifier::reject_recursive_types(K)]
#[verifier::reject_recursive_types(V)]
#[verifier::reject_recursive_types(S)]
pub struct ExIndexMap<K, V, S>(IndexMap<K, V, S>);

/// The keys of the map in its order, which is the order of insertion as long
/// as nothing is removed.
pub uninterp spec fn index_map_keys(map: IndexMap<u128, (), RandomState>) -> Seq<u128>;

/// `IndexMap::new`: a map without entries.
#[verifier::external_body]
pub(crate) fn index_map_new() -> (map: IndexMap<u128, (), RandomState>)
    ensures
        index_map_keys(map) == Seq::<u128>::empty(),
{
    IndexMap::new()
}

/// `IndexMap::get_index_of`: the position of `key` in the order of the map,
/// or `None` where the map does not hold the key.
#[verifier::external_body]
pub(crate) fn index_map_get_index_of(map: &IndexMap<u128, (), RandomState>, key: u128) -> (index:
    Option<usize>)
    ensures
        match index {
            Some(i) => i < index_map_keys(*map).len() && index_map_keys(*map)[i as int] == key,
            None => !index_map_keys(*map).contains(key),
        },
{
    map.get_index_of(&key)
}

/// `IndexMap::entry` followed by `Entry::or_insert`: a key that the map
/// holds stays where it is and nothing changes; a key that it does not hold
/// is added last in order.
#[verifier::external_body]
pub(crate) fn index_map_insert_if_absent(map: &mut IndexMap<u128, (), RandomState>, key: u128)
    ensures
        index_map_keys(*final(map)) == if index_map_keys(*old(map)).contains(key) {
            index_map_keys(*old(map))
        } else {
            index_map_keys(*old(map)).push(key)
        },
{
    map.entry(key).or_insert(());
}

} // verus!
