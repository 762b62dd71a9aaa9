//! Things known by a name, in a map that threads share.
//!
//! A map holds numbers: what a number stands for is kept by its user.

use vstd::prelude::*;
use vstd::string::*;

use dashmap::DashMap;

verus! {

/// The numbers that a map holds, each by its name.
pub uninterp spec fn held_numbers(map: DashMap<String, u64>) -> Map<Seq<char>, u64>;

/// No numbers at all.
pub open spec fn no_numbers() -> Map<Seq<char>, u64> {
    Map::empty()
}

/// The number with a name, if there is one.
pub open spec fn number_of(numbers: Map<Seq<char>, u64>, name: Seq<char>) -> Option<u64> {
    if numbers.contains_key(name) {
        Some(numbers[name])
    } else {
        None
    }
}

/// `DashMap::new` makes a map that holds nothing.
#[verifier::external_body]
pub(crate) fn number_map_new() -> (map: DashMap<String, u64>)
    ensures
        held_numbers(map) == no_numbers(),
{
    DashMap::new()
}

/// `DashMap::insert` sets the value of a key.
#[verifier::external_body]
pub(crate) fn number_map_insert(map: &mut DashMap<String, u64>, key: String, value: u64)
    ensures
        held_numbers(*final(map)) == held_numbers(*old(map)).insert(key@, value),
{
    map.insert(key, value);
}

/// `DashMap::get` returns the value of a key, if the map has it.
#[verifier::external_body]
pub(crate) fn number_map_get(map: &DashMap<String, u64>, key: &str) -> (value: Option<u64>)
    ensures
        value == number_of(held_numbers(*map), key@),
{
    map.get(key).map(|entry| *entry.value())
}

/// `DashMap::remove` takes a key and its value out of a map.
#[verifier::external_body]
pub(crate) fn number_map_remove(map: &mut DashMap<String, u64>, key: &str)
    ensures
        held_numbers(*final(map)) == held_numbers(*old(map)).remove(key@),
{
    map.remove(key);
}

} // verus!
