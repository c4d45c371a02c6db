//! The insertion-ordered hash map that carries the table.
//!
//! The map itself is an `indexmap::IndexMap`. Nothing in this file is
//! proved: each function states what the map's documentation and source
//! promise, over [`entries`], the key-value pairs of a map in their order.

use crate::record::{WeatherData, WeatherView};
use indexmap::IndexMap;
use std::hash::RandomState;
use vstd::prelude::*;

verus! {

/// `indexmap::IndexMap`, of which nothing is known but what the functions
/// below state.
#[verifier::external_type_specification]
#[verifier::external_body]
#[verifier::reject_recursive_types(K)]
#[verifier::reject_recursive_types(V)]
#[verifier::reject_recursive_types(S)]
pub struct ExIndexMap<K, V, S>(IndexMap<K, V, S>);

/// The key-value pairs that a map holds, in the order in which it walks
/// them, each value by its mathematical content.
pub uninterp spec fn entries(m: IndexMap<u64, WeatherData, RandomState>) -> Seq<(u64, WeatherView)>;

/// `IndexMap::new`: a map that holds nothing.
#[verifier::external_body]
pub(crate) fn map_new() -> (m: IndexMap<u64, WeatherData, RandomState>)
    ensures
        entries(m) == Seq::<(u64, WeatherView)>::empty(),
{
    IndexMap::new()
}

/// `IndexMap::len`: the number of pairs.
#[verifier::external_body]
pub(crate) fn map_len(m: &IndexMap<u64, WeatherData, RandomState>) -> (n: usize)
    ensures
        n == entries(*m).len(),
{
    m.len()
}

/// `IndexMap::get_index`: the value of the pair at a position, if the
/// position is below the number of pairs.
#[verifier::external_body]
pub(crate) fn map_get_index(
    m: &IndexMap<u64, WeatherData, RandomState>,
    index: usize,
) -> (r: Option<&WeatherData>)
    ensures
        match r {
            Some(value) => index < entries(*m).len() && value@ == entries(*m)[index as int].1,
            None => index >= entries(*m).len(),
        },
{
    m.get_index(index).map(|pair| pair.1)
}

/// `IndexMap::get_index_of`: the position of the pair with the given key,
/// or nothing where no pair has that key.
#[verifier::external_body]
pub(crate) fn map_get_index_of(
    m: &IndexMap<u64, WeatherData, RandomState>,
    key: u64,
) -> (r: Option<usize>)
    ensures
        match r {
            Some(index) => index < entries(*m).len() && entries(*m)[index as int].0 == key,
            None => forall|j: int| 0 <= j < entries(*m).len()
                ==> (#[trigger] entries(*m)[j]).0 != key,
        },
{
    m.get_index_of(&key)
}

/// `IndexMap::insert`: where a pair has the key, its value is replaced in
/// place and the old value comes back; where none has, the new pair goes
/// last and nothing comes back.
#[verifier::external_body]
pub(crate) fn map_insert(
    m: &mut IndexMap<u64, WeatherData, RandomState>,
    key: u64,
    value: WeatherData,
) -> (r: Option<WeatherData>)
    ensures
        match r {
            Some(replaced) => exists|i: int|
                0 <= i < entries(*old(m)).len() && (#[trigger] entries(*old(m))[i]).0 == key
                    && replaced@ == entries(*old(m))[i].1 && entries(*final(m)) == entries(
                    *old(m),
                ).update(i, (key, value@)),
            None => (forall|j: int|
                0 <= j < entries(*old(m)).len() ==> (#[trigger] entries(*old(m))[j]).0 != key)
                && entries(*final(m)) == entries(*old(m)).push((key, value@)),
        },
{
    m.insert(key, value)
}

/// `IndexMap::shift_remove`: where a pair has the key, it leaves, the
/// pairs behind it move up one place in their order, and its value comes
/// back; where none has, the map stays as it is.
#[verifier::external_body]
pub(crate) fn map_shift_remove(
    m: &mut IndexMap<u64, WeatherData, RandomState>,
    key: u64,
) -> (r: Option<WeatherData>)
    ensures
        match r {
            Some(removed) => exists|i: int|
                0 <= i < entries(*old(m)).len() && (#[trigger] entries(*old(m))[i]).0 == key
                    && removed@ == entries(*old(m))[i].1 && entries(*final(m)) == entries(
                    *old(m),
                ).remove(i),
            None => (forall|j: int|
                0 <= j < entries(*old(m)).len() ==> (#[trigger] entries(*old(m))[j]).0 != key)
                && entries(*final(m)) == entries(*old(m)),
        },
{
    m.shift_remove(&key)
}

} // verus!
