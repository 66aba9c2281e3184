//! The hashed collections that the engine interns values and remembers positions with.

use ahash::{AHashMap, RandomState};
use indexmap::IndexSet;
use vstd::prelude::*;

use crate::value::ValueOrRef;

verus! {

/// `indexmap::IndexSet`, a set that remembers the order in which its items came.
#[verifier::external_type_specification]
#[verifier::external_body]
#[verifier::reject_recursive_types(Item)]
#[verifier::reject_recursive_types(Hasher)]
pub struct ExIndexSet<Item, Hasher>(indexmap::IndexSet<Item, Hasher>);

/// `ahash::RandomState`, the seed of the hashes.
#[verifier::external_type_specification]
#[verifier::external_body]
pub struct ExRandomState(ahash::RandomState);

/// `ahash::AHashMap`, a hash map.
#[verifier::external_type_specification]
#[verifier::external_body]
#[verifier::reject_recursive_types(Key)]
#[verifier::reject_recursive_types(Item)]
#[verifier::reject_recursive_types(Hasher)]
pub struct ExAHashMap<Key, Item, Hasher>(ahash::AHashMap<Key, Item, Hasher>);

/// A set of distinct values, numbered in the order in which they came.
pub type ValueOrRefSet = IndexSet<ValueOrRef, RandomState>;

/// A map from one position to another, or to nothing.
pub type PositionMap = AHashMap<usize, Option<usize>>;

/// A map from a text to a position.
pub type TextPositionMap = AHashMap<String, usize>;

/// A map from a list of positions to a position, or to nothing.
pub type PositionsMap = AHashMap<Vec<Option<usize>>, Option<usize>>;

/// The values of the set, in order.
pub uninterp spec fn set_values(set: IndexSet<ValueOrRef, RandomState>) -> Seq<ValueOrRef>;

/// The entries of the map.
pub uninterp spec fn position_entries(map: AHashMap<usize, Option<usize>>) -> Map<
    usize,
    Option<usize>,
>;

/// The entries of the map.
pub uninterp spec fn text_position_entries(map: AHashMap<String, usize>) -> Map<Seq<char>, usize>;

/// The entries of the map.
pub uninterp spec fn positions_entries(
    map: AHashMap<Vec<Option<usize>>, Option<usize>>,
) -> Map<Seq<Option<usize>>, Option<usize>>;

/// `IndexSet::with_hasher`: a set without items.
#[verifier::external_body]
pub(crate) fn value_set_new() -> (set: ValueOrRefSet)
    ensures
        set_values(set) == Seq::<ValueOrRef>::empty(),
{
    IndexSet::with_hasher(RandomState::new())
}

/// `IndexSet::insert_full`: adds the value at the end, or finds an equal one that is in the set
/// already and leaves the set alone. One that is the same in all that its hash is taken of is always
/// found; one that is equal but hashes otherwise may be missed.
#[verifier::external_body]
pub(crate) fn value_set_insert_full(set: &mut ValueOrRefSet, value: ValueOrRef) -> (r: (usize, bool))
    ensures
        r.1 ==> set_values(*final(set)) == set_values(*old(set)).push(value),
        r.1 ==> r.0 == set_values(*old(set)).len(),
        !r.1 ==> set_values(*final(set)) == set_values(*old(set)),
        !r.1 ==> r.0 < set_values(*old(set)).len() && crate::value::value_eq(
            value,
            set_values(*old(set))[r.0 as int],
        ),
        (exists|i: int|
            0 <= i < set_values(*old(set)).len() && crate::value::value_same(
                #[trigger] set_values(*old(set))[i],
                value,
            )) ==> !r.1,
{
    set.insert_full(value)
}

/// `IndexSet::len`: the number of values in the set.
#[verifier::external_body]
pub(crate) fn value_set_len(set: &ValueOrRefSet) -> (r: usize)
    ensures
        r == set_values(*set).len(),
{
    set.len()
}

/// `IndexSet::get_index`: the value at a position of the set.
#[verifier::external_body]
pub(crate) fn value_set_get_index(set: &ValueOrRefSet, index: usize) -> (r: Option<&ValueOrRef>)
    ensures
        r is Some == (index < set_values(*set).len()),
        r matches Some(value) ==> *value == set_values(*set)[index as int],
{
    set.get_index(index)
}

/// `IndexSet::clone`: a set of the same values in the same order. The clone of a value is the value.
#[verifier::external_body]
pub(crate) fn value_set_clone(set: &ValueOrRefSet) -> (r: ValueOrRefSet)
    ensures
        set_values(r) == set_values(*set),
{
    set.clone()
}

/// `AHashMap::new`: a map without entries.
#[verifier::external_body]
pub(crate) fn position_map_new() -> (map: PositionMap)
    ensures
        position_entries(map) == (Map::<usize, Option<usize>>::empty()),
{
    AHashMap::new()
}

/// `AHashMap::insert`: puts the entry in, in place of one under the same key.
#[verifier::external_body]
pub(crate) fn position_map_insert(map: &mut PositionMap, key: usize, value: Option<usize>)
    ensures
        position_entries(*final(map)) == position_entries(*old(map)).insert(key, value),
{
    let _ = map.insert(key, value);
}

/// `AHashMap::get`: the entry under the key.
#[verifier::external_body]
pub(crate) fn position_map_get(map: &PositionMap, key: usize) -> (r: Option<Option<usize>>)
    ensures
        r is Some == position_entries(*map).contains_key(key),
        r matches Some(value) ==> value == position_entries(*map)[key],
{
    map.get(&key).copied()
}

/// `AHashMap::new`: a map without entries.
#[verifier::external_body]
pub(crate) fn text_position_map_new() -> (map: TextPositionMap)
    ensures
        text_position_entries(map) == (Map::<Seq<char>, usize>::empty()),
{
    AHashMap::new()
}

/// `AHashMap::insert`: puts the entry in, in place of one under an equal text.
#[verifier::external_body]
pub(crate) fn text_position_map_insert(map: &mut TextPositionMap, key: String, value: usize)
    ensures
        text_position_entries(*final(map)) == text_position_entries(*old(map)).insert(key@, value),
{
    let _ = map.insert(key, value);
}

/// `AHashMap::get`: the entry under the text.
#[verifier::external_body]
pub(crate) fn text_position_map_get(map: &TextPositionMap, key: &str) -> (r: Option<usize>)
    ensures
        r is Some == text_position_entries(*map).contains_key(key@),
        r matches Some(value) ==> value == text_position_entries(*map)[key@],
{
    map.get(key).copied()
}

/// `AHashMap::new`: a map without entries.
#[verifier::external_body]
pub(crate) fn positions_map_new() -> (map: PositionsMap)
    ensures
        positions_entries(map) == (Map::<Seq<Option<usize>>, Option<usize>>::empty()),
{
    AHashMap::new()
}

/// `AHashMap::insert`: puts the entry in, in place of one under an equal list.
#[verifier::external_body]
pub(crate) fn positions_map_insert(
    map: &mut PositionsMap,
    key: Vec<Option<usize>>,
    value: Option<usize>,
)
    ensures
        positions_entries(*final(map)) == positions_entries(*old(map)).insert(key@, value),
{
    let _ = map.insert(key, value);
}

/// `AHashMap::get`: the entry under the list.
#[verifier::external_body]
pub(crate) fn positions_map_get(
    map: &PositionsMap,
    key: &Vec<Option<usize>>,
) -> (r: Option<Option<usize>>)
    ensures
        r is Some == positions_entries(*map).contains_key(key@),
        r matches Some(value) ==> value == positions_entries(*map)[key@],
{
    map.get(key).copied()
}

}
