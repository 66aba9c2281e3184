//! Interning of values: each distinct value is kept once, and a lookup leads from the position of a
//! value to the position of the one that was kept for it.

use vstd::prelude::*;

use crate::collections::{
    position_map_get, position_map_insert, position_map_new, value_set_insert_full, value_set_new,
    PositionMap, ValueOrRefSet,
};
use crate::value::ValueOrRef;

verus! {

/// Where the values have gone: each to its own position, or to the one that the map gives.
pub type IndexLookup = Option<PositionMap>;

/// Whether `stored` is what a set keeps for `value`.
pub open spec fn interned(stored: ValueOrRef, value: ValueOrRef) -> bool {
    stored == value || crate::value::value_eq(value, stored)
}

/// The position that `index` has gone to, if it has gone anywhere.
pub open spec fn lookup_position(lookup: IndexLookup, index: usize) -> Option<usize> {
    match lookup {
        None => Some(index),
        Some(map) => if crate::collections::position_entries(map).contains_key(index) {
            crate::collections::position_entries(map)[index]
        } else {
            None
        },
    }
}

/// What is kept for a value that may be missing: the value, else the one that stands in for null.
pub open spec fn interning_input(
    values: Seq<Option<ValueOrRef>>,
    null_value: Option<ValueOrRef>,
    i: int,
) -> Option<ValueOrRef> {
    match values[i] {
        Some(value) => Some(value),
        None => null_value,
    }
}

/// Whether the position given for index `i` leads to what is kept for value `i`.
pub open spec fn interned_at(
    values: Seq<Option<ValueOrRef>>,
    null_value: Option<ValueOrRef>,
    kept: Seq<ValueOrRef>,
    lookup: IndexLookup,
    i: int,
) -> bool {
    match interning_input(values, null_value, i) {
        Some(value) => {
            &&& lookup_position(lookup, i as usize) matches Some(k)
            &&& k < kept.len()
            &&& interned(kept[k as int], value)
        },
        None => lookup_position(lookup, i as usize) is None,
    }
}

/// Whether the kept value `k` came from one of the first `n` values.
pub open spec fn kept_from(
    values: Seq<Option<ValueOrRef>>,
    null_value: Option<ValueOrRef>,
    kept: Seq<ValueOrRef>,
    lookup: IndexLookup,
    n: int,
    k: int,
) -> bool {
    exists|i: int|
        0 <= i < n && interning_input(values, null_value, i) == Some(kept[k])
            && #[trigger] lookup_position(lookup, i as usize) == Some(k as usize)
}

/// What is to be kept: nothing, a value, or what was kept for an earlier input.
pub ghost enum Input {
    Nothing,
    Value(ValueOrRef),
    Again(int),
}

/// What is to be kept for a value: nothing for null.
pub open spec fn value_input(value: ValueOrRef) -> Input {
    if value is Null {
        Input::Nothing
    } else {
        Input::Value(value)
    }
}

/// How many values are kept once the first `n` inputs have their positions, if `start` were kept
/// before: each new value goes to the next position.
pub open spec fn used(start: nat, positions: Seq<Option<usize>>, n: int) -> nat
    decreases n,
{
    if n <= 0 {
        start
    } else {
        match positions[n - 1] {
            Some(position) => if position >= used(start, positions, n - 1) {
                (position + 1) as nat
            } else {
                used(start, positions, n - 1)
            },
            None => used(start, positions, n - 1),
        }
    }
}

/// Whether a value has its position among those that are kept: that of an equal one, or the next one
/// if no value that is kept so far is the same.
pub open spec fn put(kept: Seq<ValueOrRef>, count: nat, value: ValueOrRef, position: Option<usize>) -> bool {
    &&& position matches Some(k)
    &&& k <= count
    &&& k < kept.len()
    &&& if k == count {
        &&& kept[k as int] == value
        &&& forall|j: int|
            0 <= j < count ==> !crate::value::value_same(#[trigger] kept[j], value)
    } else {
        crate::value::value_eq(value, kept[k as int])
    }
}

/// Whether input `i` has its position.
pub open spec fn placed(
    start: nat,
    inputs: Seq<Input>,
    positions: Seq<Option<usize>>,
    kept: Seq<ValueOrRef>,
    i: int,
) -> bool {
    match inputs[i] {
        Input::Nothing => positions[i] is None,
        Input::Value(value) => put(kept, used(start, positions, i), value, positions[i]),
        Input::Again(j) => 0 <= j < i && positions[i] == positions[j],
    }
}

/// Whether the inputs, kept one after another behind those in `start`, have these positions and leave
/// these values: every value is kept once, in the order in which they first come, and none is there
/// that was not asked for.
pub open spec fn filled(
    start: Seq<ValueOrRef>,
    inputs: Seq<Input>,
    positions: Seq<Option<usize>>,
    kept: Seq<ValueOrRef>,
) -> bool {
    &&& positions.len() == inputs.len()
    &&& start.is_prefix_of(kept)
    &&& kept.len() == used(start.len(), positions, positions.len() as int)
    &&& forall|i: int|
        0 <= i < inputs.len() ==> #[trigger] placed(start.len(), inputs, positions, kept, i)
}

/// Whether a value that is kept gets that position and leaves these values.
pub open spec fn inserted(
    before: Seq<ValueOrRef>,
    value: ValueOrRef,
    position: usize,
    after: Seq<ValueOrRef>,
) -> bool {
    &&& put(after, before.len(), value, Some(position))
    &&& after == (if position == before.len() {
        before.push(value)
    } else {
        before
    })
}

/// Keeps a value.
pub(crate) fn insert_value(set: &mut ValueOrRefSet, value: ValueOrRef) -> (r: usize)
    ensures
        inserted(
            crate::collections::set_values(*old(set)),
            value,
            r,
            crate::collections::set_values(*final(set)),
        ),
        crate::collections::set_values(*old(set)).is_prefix_of(
            crate::collections::set_values(*final(set)),
        ),
        r < crate::collections::set_values(*final(set)).len(),
        interned(crate::collections::set_values(*final(set))[r as int], value),
        !(value is Null) ==> !(crate::collections::set_values(*final(set))[r as int] is Null),
{
    let ghost given = value;
    let (position, added) = value_set_insert_full(set, value);
    proof {
        let before = crate::collections::set_values(*old(set));
        let after = crate::collections::set_values(*set);
        if added {
            assert forall|j: int| 0 <= j < before.len() implies !crate::value::value_same(
                #[trigger] after[j],
                given,
            ) by {
                assert(after[j] == before[j]);
            }
        }
    }
    position
}

pub proof fn lemma_used_prefix(
    start: nat,
    positions: Seq<Option<usize>>,
    more: Seq<Option<usize>>,
    n: int,
)
    requires
        positions.is_prefix_of(more),
        n <= positions.len(),
    ensures
        used(start, more, n) == used(start, positions, n),
    decreases n,
{
    if n > 0 {
        assert(more[n - 1] == positions[n - 1]);
        lemma_used_prefix(start, positions, more, n - 1);
    }
}

pub proof fn lemma_used_at_least(start: nat, positions: Seq<Option<usize>>, i: int, n: int)
    requires
        i <= n,
    ensures
        start <= used(start, positions, i) <= used(start, positions, n),
        0 <= i < n ==> (positions[i] matches Some(k) ==> k < used(start, positions, n)),
    decreases n,
{
    if n > 0 {
        if i < n {
            lemma_used_at_least(start, positions, i, n - 1);
        } else {
            lemma_used_at_least(start, positions, i - 1, n - 1);
        }
    }
}

/// Nothing is kept before the first input.
pub proof fn lemma_filled_start(start: Seq<ValueOrRef>)
    ensures
        filled(start, Seq::empty(), Seq::empty(), start),
{
}

/// One more input gets its position.
pub proof fn lemma_filled_push(
    start: Seq<ValueOrRef>,
    inputs: Seq<Input>,
    positions: Seq<Option<usize>>,
    before: Seq<ValueOrRef>,
    input: Input,
    position: Option<usize>,
    after: Seq<ValueOrRef>,
)
    requires
        filled(start, inputs, positions, before),
        match input {
            Input::Nothing => position is None && after == before,
            Input::Value(value) => position matches Some(k) && inserted(before, value, k, after),
            Input::Again(j) => 0 <= j < inputs.len() && position == positions[j] && after == before,
        },
    ensures
        filled(start, inputs.push(input), positions.push(position), after),
{
    let more = positions.push(position);
    let wanted = inputs.push(input);
    let n = inputs.len() as int;
    lemma_used_prefix(start.len(), positions, more, n);
    assert forall|i: int| 0 <= i < wanted.len() implies #[trigger] placed(
        start.len(),
        wanted,
        more,
        after,
        i,
    ) by {
        lemma_used_prefix(start.len(), positions, more, i);
        if i < n {
            assert(placed(start.len(), inputs, positions, before, i));
            assert(wanted[i] == inputs[i] && more[i] == positions[i]);
            lemma_used_at_least(start.len(), positions, i, n);
            if inputs[i] is Value {
                assert(forall|j: int| 0 <= j < before.len() ==> #[trigger] after[j] == before[j]);
            }
        }
    }
    if input is Again {
        lemma_used_at_least(start.len(), positions, input->Again_0, n);
    }
}

/// Every value that is kept behind those in `start` is the one that was asked for first at its
/// position.
pub proof fn lemma_filled_first_use(
    start: Seq<ValueOrRef>,
    inputs: Seq<Input>,
    positions: Seq<Option<usize>>,
    kept: Seq<ValueOrRef>,
    n: int,
    k: int,
) -> (i: int)
    requires
        filled(start, inputs, positions, kept),
        0 <= n <= inputs.len(),
        start.len() <= k < used(start.len(), positions, n),
    ensures
        0 <= i < n,
        inputs[i] == Input::Value(kept[k]),
        positions[i] is Some && positions[i]->0 == k,
        used(start.len(), positions, i) == k,
    decreases n,
{
    assert(n > 0);
    if k < used(start.len(), positions, n - 1) {
        lemma_filled_first_use(start, inputs, positions, kept, n - 1, k)
    } else {
        assert(placed(start.len(), inputs, positions, kept, n - 1));
        if let Input::Again(j) = inputs[n - 1] {
            lemma_used_at_least(start.len(), positions, j, n - 1);
        }
        n - 1
    }
}

/// No value is kept twice, if none was in `start`.
pub proof fn lemma_filled_distinct(
    start: Seq<ValueOrRef>,
    inputs: Seq<Input>,
    positions: Seq<Option<usize>>,
    kept: Seq<ValueOrRef>,
)
    requires
        filled(start, inputs, positions, kept),
        all_distinct(start),
    ensures
        all_distinct(kept),
{
    assert forall|a: int, b: int| 0 <= a < b < kept.len() implies !crate::value::value_same(
        #[trigger] kept[a],
        #[trigger] kept[b],
    ) by {
        if b < start.len() {
            assert(kept[a] == start[a] && kept[b] == start[b]);
        } else {
            let i = lemma_filled_first_use(
                start,
                inputs,
                positions,
                kept,
                positions.len() as int,
                b,
            );
            assert(placed(start.len(), inputs, positions, kept, i));
            assert(put(kept, b as nat, kept[b], positions[i]));
        }
    }
}

/// The first of the inputs without a value.
pub open spec fn first_missing(values: Seq<Option<ValueOrRef>>, n: int) -> Option<int>
    decreases n,
{
    if n <= 0 {
        None
    } else {
        match first_missing(values, n - 1) {
            Some(i) => Some(i),
            None => if values[n - 1] is None {
                Some(n - 1)
            } else {
                None
            },
        }
    }
}

/// What is to be kept for value `i`: a missing value stands for `null_value`, which is kept the first
/// time that it is asked for.
pub open spec fn set_input(
    values: Seq<Option<ValueOrRef>>,
    null_value: Option<ValueOrRef>,
    i: int,
) -> Input {
    match values[i] {
        Some(value) => Input::Value(value),
        None => match null_value {
            None => Input::Nothing,
            Some(value) => match first_missing(values, i) {
                Some(j) => Input::Again(j),
                None => Input::Value(value),
            },
        },
    }
}

/// What is to be kept for the first `n` values.
pub open spec fn set_inputs(
    values: Seq<Option<ValueOrRef>>,
    null_value: Option<ValueOrRef>,
    n: int,
) -> Seq<Input> {
    Seq::new(n as nat, |i: int| set_input(values, null_value, i))
}

/// The positions that the lookup gives for the first `n` indices.
pub open spec fn lookup_positions(lookup: IndexLookup, n: int) -> Seq<Option<usize>> {
    Seq::new(n as nat, |i: int| lookup_position(lookup, i as usize))
}

/// Applies a lookup to an index.
pub fn apply_lookup(lookup: &IndexLookup, index: usize) -> (r: Option<usize>)
    ensures
        r == lookup_position(*lookup, index),
{
    match lookup {
        None => Some(index),
        Some(map) => match position_map_get(map, index) {
            Some(position) => position,
            None => None,
        },
    }
}

/// A lookup that leads each of the first `fill_count` indices to itself.
fn init_lookup(fill_count: usize) -> (lookup: PositionMap)
    ensures
        forall|i: usize|
            crate::collections::position_entries(lookup).contains_key(i) == (i < fill_count),
        forall|i: usize|
            i < fill_count ==> #[trigger] crate::collections::position_entries(lookup)[i] == Some(i),
{
    let mut lookup: PositionMap = position_map_new();
    let mut i: usize = 0;
    while i < fill_count
        invariant
            i <= fill_count,
            forall|j: usize|
                crate::collections::position_entries(lookup).contains_key(j) == (j < i),
            forall|j: usize|
                j < i ==> #[trigger] crate::collections::position_entries(lookup)[j] == Some(j),
        decreases fill_count - i,
    {
        position_map_insert(&mut lookup, i, Some(i));
        i = i + 1;
    }
    lookup
}

/// Notes in the lookup that `index` goes to `position`. While every index goes to itself, no map is
/// kept.
fn note_position(lookup: &mut IndexLookup, index: usize, position: Option<usize>)
    requires
        *old(lookup) matches Some(map) ==> forall|j: usize|
            crate::collections::position_entries(map).contains_key(j) == (j < index),
    ensures
        *final(lookup) matches Some(map) ==> forall|j: usize|
            crate::collections::position_entries(map).contains_key(j) == (j <= index),
        *final(lookup) is None == (*old(lookup) is None && position == Some(index)),
        forall|j: usize|
            j <= index ==> #[trigger] lookup_position(*final(lookup), j) == (if j == index {
                position
            } else {
                lookup_position(*old(lookup), j)
            }),
{
    let same: bool = match position {
        Some(p) => p == index,
        None => false,
    };
    match lookup.take() {
        None => {
            if !same {
                let mut map: PositionMap = init_lookup(index);
                position_map_insert(&mut map, index, position);
                *lookup = Some(map);
            }
        },
        Some(map) => {
            let mut map = map;
            position_map_insert(&mut map, index, position);
            *lookup = Some(map);
        },
    }
}

/// Whether no two of the kept values are the same.
pub open spec fn all_distinct(kept: Seq<ValueOrRef>) -> bool {
    forall|a: int, b: int|
        0 <= a < b < kept.len() ==> !crate::value::value_same(
            #[trigger] kept[a],
            #[trigger] kept[b],
        )
}

/// No value is kept twice once one more is kept.
pub proof fn lemma_inserted_distinct(
    before: Seq<ValueOrRef>,
    value: ValueOrRef,
    position: usize,
    after: Seq<ValueOrRef>,
)
    requires
        all_distinct(before),
        inserted(before, value, position, after),
    ensures
        all_distinct(after),
{
    assert forall|a: int, b: int| 0 <= a < b < after.len() implies !crate::value::value_same(
        #[trigger] after[a],
        #[trigger] after[b],
    ) by {
        assert(after[a] == before[a]);
        if b < before.len() {
            assert(after[b] == before[b]);
        }
    }
}

/// Whether `kept` and `lookup` are the outcome of interning the values.
pub open spec fn interning(
    values: Seq<Option<ValueOrRef>>,
    null_value: Option<ValueOrRef>,
    kept: Seq<ValueOrRef>,
    lookup: IndexLookup,
) -> bool {
    &&& forall|i: int| 0 <= i < values.len() ==> #[trigger] interned_at(values, null_value, kept, lookup, i)
    &&& forall|k: int|
        0 <= k < kept.len() ==> #[trigger] kept_from(
            values,
            null_value,
            kept,
            lookup,
            values.len() as int,
            k,
        )
    &&& all_distinct(kept)
    &&& filled(
        Seq::empty(),
        set_inputs(values, null_value, values.len() as int),
        lookup_positions(lookup, values.len() as int),
        kept,
    )
    &&& lookup is None == (forall|i: int|
        0 <= i < values.len() ==> #[trigger] lookup_position(lookup, i as usize) == Some(i as usize))
    &&& kept.len() <= values.len()
    &&& lookup is None ==> kept.len() == values.len()
    &&& lookup matches Some(map) ==> forall|j: usize|
        crate::collections::position_entries(map).contains_key(j) == (j < values.len())
}

/// Keeps each distinct value once, in the order in which they first come. A missing value is taken
/// for `null_value`, if there is one; else it goes nowhere.
pub fn iter_into_set(values: Vec<Option<ValueOrRef>>, null_value: Option<ValueOrRef>) -> (r: (
    ValueOrRefSet,
    IndexLookup,
))
    ensures
        interning(values@, null_value, crate::collections::set_values(r.0), r.1),
{
    let mut set: ValueOrRefSet = value_set_new();
    let mut lookup: IndexLookup = None;
    let mut null_position: Option<Option<usize>> = None;
    let mut i: usize = 0;
    while i < values.len()
        invariant
            i <= values@.len(),
            crate::collections::set_values(set).len() <= i,
            lookup is None ==> crate::collections::set_values(set).len() == i,
            lookup matches Some(map) ==> forall|j: usize|
                crate::collections::position_entries(map).contains_key(j) == (j < i),
            forall|j: int|
                0 <= j < i ==> #[trigger] interned_at(
                    values@,
                    null_value,
                    crate::collections::set_values(set),
                    lookup,
                    j,
                ),
            forall|k: int|
                0 <= k < crate::collections::set_values(set).len() ==> #[trigger] kept_from(
                    values@,
                    null_value,
                    crate::collections::set_values(set),
                    lookup,
                    i as int,
                    k,
                ),
            all_distinct(crate::collections::set_values(set)),
            filled(
                Seq::empty(),
                set_inputs(values@, null_value, i as int),
                lookup_positions(lookup, i as int),
                crate::collections::set_values(set),
            ),
            lookup is None == (forall|j: int|
                0 <= j < i ==> #[trigger] lookup_position(lookup, j as usize) == Some(j as usize)),
            null_position is Some == first_missing(values@, i as int) is Some,
            null_position matches Some(position) ==> {
                let j = first_missing(values@, i as int)->0;
                &&& 0 <= j < i
                &&& position == lookup_position(lookup, j as usize)
            },
            null_position matches Some(position) ==> match null_value {
                Some(value) => position matches Some(k) && k < crate::collections::set_values(
                    set,
                ).len() && interned(crate::collections::set_values(set)[k as int], value),
                None => position is None,
            },
        decreases values@.len() - i,
    {
        let ghost before = crate::collections::set_values(set);
        let ghost old_lookup = lookup;
        let ghost input = set_input(values@, null_value, i as int);
        let position: Option<usize> = match &values[i] {
            Some(value) => {
                let position: usize = insert_value(&mut set, value.clone());
                Some(position)
            },
            None => match null_position {
                Some(position) => position,
                None => {
                    let position: Option<usize> = match &null_value {
                        Some(value) => {
                            let position: usize = insert_value(&mut set, value.clone());
                            Some(position)
                        },
                        None => None,
                    };
                    null_position = Some(position);
                    position
                },
            },
        };
        note_position(&mut lookup, i, position);
        proof {
            let kept = crate::collections::set_values(set);
            assert(kept == before || kept == before.push(interning_input(values@, null_value, i as int)->0));
            assert forall|j: int| 0 <= j < i + 1 implies #[trigger] interned_at(
                values@,
                null_value,
                kept,
                lookup,
                j,
            ) by {
                assert(lookup_position(lookup, j as usize) == (if j == i {
                    position
                } else {
                    lookup_position(old_lookup, j as usize)
                }));
                if j < i {
                    assert(interned_at(values@, null_value, before, old_lookup, j));
                }
            }
            assert forall|k: int| 0 <= k < kept.len() implies #[trigger] kept_from(
                values@,
                null_value,
                kept,
                lookup,
                i + 1,
                k,
            ) by {
                if k < before.len() {
                    assert(kept_from(values@, null_value, before, old_lookup, i as int, k));
                    let j = choose|j: int|
                        0 <= j < i && interning_input(values@, null_value, j) == Some(before[k])
                            && #[trigger] lookup_position(old_lookup, j as usize) == Some(
                            k as usize,
                        );
                    assert(lookup_position(lookup, j as usize) == Some(k as usize));
                } else {
                    assert(lookup_position(lookup, i as usize) == Some(k as usize));
                }
            }
        }
        proof {
            let kept = crate::collections::set_values(set);
            let inputs = set_inputs(values@, null_value, i as int);
            let positions = lookup_positions(old_lookup, i as int);
            lemma_filled_push(Seq::empty(), inputs, positions, before, input, position, kept);
            assert(inputs.push(input) =~= set_inputs(values@, null_value, i + 1));
            assert(positions.push(position) =~= lookup_positions(lookup, i + 1)) by {
                assert forall|j: int| 0 <= j < i + 1 implies #[trigger] positions.push(position)[j]
                    == lookup_positions(lookup, i + 1)[j] by {
                    assert(lookup_position(lookup, j as usize) == (if j == i {
                        position
                    } else {
                        lookup_position(old_lookup, j as usize)
                    }));
                }
            }
            let all = forall|j: int|
                0 <= j < i + 1 ==> #[trigger] lookup_position(lookup, j as usize) == Some(
                    j as usize,
                );
            if lookup is None {
                assert(all);
            } else {
                if all {
                    assert(lookup_position(lookup, i as usize) == Some(i));
                    assert forall|j: int| 0 <= j < i implies #[trigger] lookup_position(
                        old_lookup,
                        j as usize,
                    ) == Some(j as usize) by {
                        assert(lookup_position(lookup, j as usize) == Some(j as usize));
                    }
                    assert(false);
                }
            }
        }
        i = i + 1;
    }
    (set, lookup)
}

}
