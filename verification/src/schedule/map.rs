//! The hash map that holds the sets of a schedule.

use vstd::prelude::*;
use rustc_hash::{FxBuildHasher, FxHashMap};

verus! {

/// The builder of the hasher that `FxHashMap` uses. It holds no data and
/// no random seed.
#[verifier::external_type_specification]
#[verifier::external_body]
pub struct ExFxBuildHasher(FxBuildHasher);

/// `FxHashMap::default`: a map without entries.
#[verifier::external_body]
pub(crate) fn fx_new<T>() -> (map: FxHashMap<u64, T>)
    ensures
        map@.dom() == Set::<u64>::empty(),
{
    FxHashMap::default()
}

/// `HashMap::contains_key` on an `FxHashMap`: whether the map has an entry
/// for `key`.
#[verifier::external_body]
pub(crate) fn fx_contains_key<T>(map: &FxHashMap<u64, T>, key: u64) -> (present: bool)
    ensures
        present == map@.contains_key(key),
{
    map.contains_key(&key)
}

/// `HashMap::insert` on an `FxHashMap`: the map gets the entry, in the
/// place of the one that it had for `key`, if any, which is returned.
#[verifier::external_body]
pub(crate) fn fx_insert<T>(map: &mut FxHashMap<u64, T>, key: u64, value: T) -> (previous: Option<T>)
    ensures
        final(map)@ == old(map)@.insert(key, value),
        previous == if old(map)@.contains_key(key) {
            Some(old(map)@[key])
        } else {
            None
        },
{
    map.insert(key, value)
}

/// `HashMap::get_mut` on an `FxHashMap`: a mutable reference to the value
/// of the entry for `key`, if there is one. What is written through the
/// reference is the only change to the map.
#[verifier::external_body]
pub(crate) fn fx_get_mut<T>(map: &mut FxHashMap<u64, T>, key: u64) -> (value: Option<&mut T>)
    ensures
        match value {
            Some(value) => old(map)@.contains_key(key) && *value == old(map)@[key] && final(map)@ == old(map)@.insert(key, *final(value)),
            None => !old(map)@.contains_key(key) && final(map)@ == old(map)@,
        },
{
    map.get_mut(&key)
}

} // verus!
