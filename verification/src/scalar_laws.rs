//! What scalar expressions give each record.

use vstd::prelude::*;

use crate::columnar_records::{ColumnarRecords, RecordTableValue};
use crate::dictionary::Dictionary;
use crate::dictionary_keys::{DictionaryKeyArray, KeyDataType};
use crate::execution_context::ExecutionContext;
use crate::expressions::{
    ExpressionFunctions, ExpressionInfo, RangePart, ScalarExpression, ScalarExpressionKind,
    SliceScalarExpression,
};
use crate::resolved_value::{ResolvedScalarValue, ResolvedSingleOrDictionaryValue};
use crate::scalars::SelectEvaluations;
use crate::selection::{Outcome, SelectStep};
use crate::slice_expression::{Evaluation, SliceSingle};
use crate::value::{ArrayForm, ArrayValueOrRef, MapValueOrRef, ValueOrRef, ValueType};

verus! {

/// Whether a column holds `kept` for a value: null for null, and for another value itself or one equal
/// to it.
pub open spec fn stands_for(kept: ValueOrRef, value: ValueOrRef) -> bool {
    if value is Null {
        kept is Null
    } else {
        kept == value || (!(kept is Null) && crate::value::value_eq(value, kept))
    }
}

/// A value as it is handed out of what is owned or borrowed.
pub open spec fn handed_out(value: ValueOrRef, owned: bool) -> ValueOrRef {
    if owned {
        value
    } else {
        match value {
            ValueOrRef::Array(ArrayValueOrRef::List(_, values)) => ValueOrRef::Array(
                ArrayValueOrRef::List(ArrayForm::Ref, values),
            ),
            ValueOrRef::MapValue(map) => ValueOrRef::MapValue(
                MapValueOrRef { owned: false, map: map.map },
            ),
            _ => value,
        }
    }
}

/// Whether a map has this value under a key; null if it has none.
pub open spec fn is_entry(map: MapValueOrRef, key: Seq<char>, value: ValueOrRef) -> bool {
    ||| exists|i: int| {
        &&& 0 <= i < map.map.entries().len()
        &&& (#[trigger] map.map.entries()[i]).0@ == key
        &&& value == handed_out(map.map.entries()[i].1, map.owned)
    }
    ||| value is Null && forall|i: int|
        0 <= i < map.map.entries().len() ==> (#[trigger] map.map.entries()[i]).0@ != key
}

/// The number of elements of an array.
pub open spec fn size(array: ArrayValueOrRef) -> nat {
    match array {
        ArrayValueOrRef::List(_, values) => values@.len(),
        ArrayValueOrRef::Buffer(bytes) => bytes@.len(),
    }
}

/// The element of an array at a place.
pub open spec fn element(array: ArrayValueOrRef, place: int) -> ValueOrRef {
    match array {
        ArrayValueOrRef::List(form, values) => handed_out(values@[place], !(form is Ref)),
        ArrayValueOrRef::Buffer(bytes) => ValueOrRef::Integer(bytes@[place] as i64),
    }
}

/// Whether a selector picks this of a value: a key the entry of a map, and an index the element of
/// an array, counted from the end if it is negative. All else picks null.
pub open spec fn picks(value: ValueOrRef, by: ValueOrRef, picked: ValueOrRef) -> bool {
    match (value, by) {
        (ValueOrRef::MapValue(map), ValueOrRef::String(key)) => is_entry(map, key@, picked),
        (ValueOrRef::Array(array), ValueOrRef::Integer(index)) => {
            let place = if index < 0 {
                size(array) + index
            } else {
                index as int
            };
            if 0 <= place < size(array) {
                picked == element(array, place)
            } else {
                picked is Null
            }
        },
        _ => picked is Null,
    }
}

proof fn lemma_held(kept: ValueOrRef, value: ValueOrRef)
    requires
        crate::dictionary::held_for(kept, value),
    ensures
        stands_for(kept, value),
{
}

/// Whether a map has a key.
spec fn knows(map: MapValueOrRef, key: Seq<char>) -> bool {
    map.map.has_key(key)
}

/// The place of a key in a map.
spec fn place_of(map: MapValueOrRef, key: Seq<char>) -> int {
    map.map.position(key)
}

proof fn lemma_key_picks(selector: ExpressionInfo, key: std::rc::Rc<String>, value: ValueOrRef)
    ensures
        picks(
            value,
            ValueOrRef::String(key),
            crate::selection::key_outcome(selector, key, value).0,
        ),
{
    if let ValueOrRef::MapValue(map) = value {
        let picked = crate::selection::key_outcome(selector, key, value).0;
        if knows(map, key@) {
            let i = place_of(map, key@);
            assert(0 <= i < map.map.entries().len() && map.map.entries()[i].0@ == key@);
            assert(picked == handed_out(map.map.entries()[i].1, map.owned));
        } else {
            assert forall|i: int| 0 <= i < map.map.entries().len() implies (
            #[trigger] map.map.entries()[i]).0@ != key@ by {}
        }
        assert(is_entry(map, key@, picked));
    }
}

proof fn lemma_index_picks(selector: ExpressionInfo, index: i64, value: ValueOrRef)
    ensures
        picks(
            value,
            ValueOrRef::Integer(index),
            crate::selection::index_outcome(selector, index, value).0,
        ),
{
    if let ValueOrRef::Array(array) = value {
        lemma_elements(array);
    }
}

proof fn lemma_elements(array: ArrayValueOrRef)
    ensures
        array.elements().len() == size(array),
        forall|i: int| 0 <= i < size(array) ==> #[trigger] array.elements()[i] == element(array, i),
{
}

/// What a function makes of a column, it makes of the value of each record, if it makes null of null.
pub proof fn lemma_maps_by_record<N>(
    dictionary: Dictionary,
    relation: spec_fn(ValueOrRef, (ValueOrRef, Option<N>)) -> bool,
    result: Dictionary,
    added: Seq<N>,
    record: int,
) -> (outcome: (ValueOrRef, Option<N>))
    requires
        dictionary.maps_into(relation, result, added),
        dictionary.wf(),
        forall|outcome: (ValueOrRef, Option<N>)| #[trigger]
            relation(ValueOrRef::Null, outcome) ==> outcome.0 is Null,
        0 <= record < dictionary.rows().len(),
    ensures
        result.wf(),
        result.rows().len() == dictionary.rows().len(),
        stands_for(result.rows()[record], outcome.0),
        relation(dictionary.rows()[record], outcome) || (outcome.0 is Null
            && dictionary.rows()[record] is Null),
{
    match dictionary.keys {
        DictionaryKeyArray::SingleValue { value_index: None, .. } => {
            assert(dictionary.keys.position(record) is None);
            (ValueOrRef::Null, None)
        },
        DictionaryKeyArray::SingleValue { value_index: Some(position), .. } => {
            assert(dictionary.keys.position(record) == Some(position));
            let outcome = choose|outcome: (ValueOrRef, Option<N>)| {
                &&& #[trigger] relation(dictionary.values.value_at(position), outcome)
                &&& result.rows() == Seq::new(dictionary.rows().len(), |i: int| outcome.0)
                &&& result.is_scalar(
                    dictionary.keys.key_type(),
                    dictionary.rows().len(),
                    outcome.0,
                )
                &&& added == crate::dictionary_values::notes_of(seq![outcome])
            };
            outcome
        },
        _ => {
            let inputs = crate::dictionary_values::null_first(dictionary.values.values());
            let calls = choose|calls: crate::dictionary_transform::TransformCalls<ValueOrRef, N>| {
                &&& #[trigger] crate::dictionary_transform::calls_related(relation, inputs, calls)
                &&& dictionary.transformed(calls, result)
                &&& added == calls.notes()
            };
            assert(crate::dictionary::held_for(
                result.rows()[record],
                dictionary.transformed_row(calls, record),
            ));
            assert(inputs[0] is Null);
            assert(relation(inputs[0], calls.outcomes[0]));
            assert(calls.outcomes[0].0 is Null);
            match dictionary.keys.position(record) {
                Some(position) => {
                    let outcome = calls.outcomes[position + 1];
                    assert(position < dictionary.values.values().len());
                    assert(inputs[position + 1] == dictionary.values.values()[position as int]);
                    assert(relation(inputs[position + 1], outcome));
                    assert(dictionary.values.value_at(position)
                        == dictionary.values.values()[position as int]);
                    if outcome.0 is Null {
                        assert(dictionary.takes_late(calls.outcomes, record));
                        assert(calls.late is Some);
                        assert(relation(ValueOrRef::Null, calls.late->0));
                    }
                    lemma_held(
                        result.rows()[record],
                        dictionary.transformed_row(calls, record),
                    );
                    outcome
                },
                None => {
                    assert(dictionary.takes_late(calls.outcomes, record));
                    assert(calls.late is Some);
                    assert(relation(ValueOrRef::Null, calls.late->0));
                    calls.late->0
                },
            }
        },
    }
}

/// What a step of a selection gives a record; null where the selection ends.
pub open spec fn selected(step: SelectStep, record: int) -> ValueOrRef {
    match step.next {
        Some(next) => crate::logical_laws::value_of(next, record),
        None => ValueOrRef::Null,
    }
}

/// Whether a step gives a record what its selector picks of its value.
pub open spec fn picked_so(
    current: ResolvedScalarValue,
    by: ResolvedScalarValue,
    step: SelectStep,
    record: int,
) -> bool {
    exists|picked: ValueOrRef| {
        &&& #[trigger] picks(
            crate::logical_laws::value_of(current, record),
            crate::logical_laws::value_of(by, record),
            picked,
        )
        &&& stands_for(selected(step, record), picked)
    }
}

/// A selector picks for each record of the value that the record has, and by the selector that the
/// record has.
pub proof fn lemma_selects_by_record<R: ColumnarRecords>(
    records: Option<&R>,
    key_data_type: Option<KeyDataType>,
    current: ResolvedScalarValue,
    selector: ExpressionInfo,
    by: ResolvedScalarValue,
    step: SelectStep,
    count: nat,
    record: int,
)
    requires
        crate::selection::selects(records, key_data_type, current, selector, by, step),
        crate::logical_laws::has_records(current, count),
        crate::logical_laws::has_records(by, count),
        !(current is Table),
        count <= usize::MAX,
        0 <= record < count,
    ensures
        step.next matches Some(next) ==> crate::logical_laws::has_records(next, count),
        picked_so(current, by, step, record),
{
    let value = crate::logical_laws::value_of(current, record);
    let own = crate::logical_laws::value_of(by, record);
    match by {
        ResolvedScalarValue::Single(ValueOrRef::String(key)) => {
            lemma_key_picks(selector, key, value);
            if let ResolvedScalarValue::Dictionary(d) = current {
                lemma_key_picks(selector, key, ValueOrRef::Null);
                let outcome = lemma_maps_by_record(
                    d,
                    |value: ValueOrRef, outcome: Outcome|
                        outcome == crate::selection::key_outcome(selector, key, value),
                    step.next->0->Dictionary_0,
                    step.notes,
                    record,
                );
                assert(picks(value, own, outcome.0));
            } else {
                assert(picks(value, own, selected(step, record)));
            }
        },
        ResolvedScalarValue::Single(ValueOrRef::Integer(index)) => {
            lemma_index_picks(selector, index, value);
            if let ResolvedScalarValue::Dictionary(d) = current {
                lemma_index_picks(selector, index, ValueOrRef::Null);
                let outcome = lemma_maps_by_record(
                    d,
                    |value: ValueOrRef, outcome: Outcome|
                        outcome == crate::selection::index_outcome(selector, index, value),
                    step.next->0->Dictionary_0,
                    step.notes,
                    record,
                );
                assert(picks(value, own, outcome.0));
            } else {
                assert(picks(value, own, selected(step, record)));
            }
        },
        ResolvedScalarValue::Dictionary(keys) => {
            let outcome = crate::selection::row_outcomes(records, current, selector, keys)[record];
            if let ResolvedScalarValue::Dictionary(d) = current {
                assert(d.row_for(record as usize) == d.rows()[record]);
            }
            if let ValueOrRef::String(key) = own {
                lemma_key_picks(selector, key, value);
            }
            if let ValueOrRef::Integer(index) = own {
                lemma_index_picks(selector, index, value);
            }
            assert(picks(value, own, outcome.0));
            lemma_held(selected(step, record), outcome.0);
        },
        _ => {
            assert(picks(value, own, ValueOrRef::Null));
        },
    }
}

/// Whether a step gives a record what the name that it selects by leads to in a table.
pub open spec fn led_so<R: ColumnarRecords>(
    records: Option<&R>,
    table: usize,
    by: ResolvedScalarValue,
    step: SelectStep,
    record: int,
) -> bool {
    match crate::logical_laws::value_of(by, record) {
        ValueOrRef::String(name) => match records {
            Some(records) => match records.table_value(table, name@) {
                Some(RecordTableValue::Dictionary(column)) => record < column.rows().len()
                    ==> stands_for(selected(step, record), column.rows()[record]),
                Some(RecordTableValue::Table(led)) => by is Single ==> step.next == Some(
                    ResolvedScalarValue::Table(led),
                ),
                None => selected(step, record) is Null,
            },
            None => selected(step, record) is Null,
        },
        _ => selected(step, record) is Null,
    }
}

/// A name leads each record to its own value in the column of that name.
pub proof fn lemma_name_leads_by_record<R: ColumnarRecords>(
    records: Option<&R>,
    key_data_type: Option<KeyDataType>,
    table: usize,
    selector: ExpressionInfo,
    by: ResolvedScalarValue,
    step: SelectStep,
    count: nat,
    record: int,
)
    requires
        crate::selection::selects(
            records,
            key_data_type,
            ResolvedScalarValue::Table(table),
            selector,
            by,
            step,
        ),
        crate::logical_laws::has_records(by, count),
        count <= usize::MAX,
        0 <= record < count,
    ensures
        led_so(records, table, by, step, record),
{
    if let ResolvedScalarValue::Dictionary(keys) = by {
        let current = ResolvedScalarValue::Table(table);
        let outcome = crate::selection::row_outcomes(records, current, selector, keys)[record];
        lemma_held(selected(step, record), outcome.0);
        if let ValueOrRef::String(name) = keys.rows()[record] {
            if let Some(records) = records {
                if let Some(RecordTableValue::Dictionary(column)) = records.table_value(
                    table,
                    name@,
                ) {
                    if record < column.rows().len() {
                        assert(column.row_for(record as usize) == column.rows()[record]);
                    }
                }
            }
        }
    }
}

/// What was selected by on the way, and what each step gave.
pub struct Trail {
    pub bys: Seq<Evaluation>,
    pub steps: Seq<SelectStep>,
}

/// What has been reached after so many steps.
pub open spec fn reached(start: ResolvedScalarValue, trail: Trail, k: int) -> ResolvedScalarValue {
    if k == 0 {
        start
    } else {
        trail.steps[k - 1].next->0
    }
}

/// Whether a selector evaluates to what is selected by, and that selects so from what was reached.
#[verifier::opaque]
pub open spec fn goes_on<F: ExpressionFunctions, R: ColumnarRecords>(
    context: ExecutionContext<'_, F, R>,
    key_data_type: Option<KeyDataType>,
    current: ResolvedScalarValue,
    selector: ScalarExpression,
    by: Evaluation,
    step: SelectStep,
) -> bool {
    &&& crate::scalars::evaluates(context, selector, by)
    &&& crate::selection::selects(
        context.records,
        key_data_type,
        current,
        selector.info,
        by.value,
        step,
    )
}

/// Whether the trail leads from `start` by the selectors from the one at `from` on to a value: each
/// selector is evaluated and selects from what the one before it gave, up to the last, or up to one
/// that selects nothing, which ends in null.
pub open spec fn trails<F: ExpressionFunctions, R: ColumnarRecords>(
    context: ExecutionContext<'_, F, R>,
    key_data_type: Option<KeyDataType>,
    start: ResolvedScalarValue,
    selectors: Seq<ScalarExpression>,
    from: int,
    trail: Trail,
    value: ResolvedScalarValue,
) -> bool {
    let count = trail.steps.len();
    &&& trail.bys.len() == count
    &&& count <= selectors.len() - from
    &&& forall|k: int| #![trigger trail.steps[k]]
        0 <= k < count ==> goes_on(
            context,
            key_data_type,
            reached(start, trail, k),
            selectors[from + k],
            trail.bys[k],
            trail.steps[k],
        )
    &&& forall|k: int| 0 <= k < count - 1 ==> (#[trigger] trail.steps[k]).next is Some
    &&& if count > 0 && trail.steps.last().next is None {
        value == ResolvedScalarValue::Single(ValueOrRef::Null)
    } else {
        count == selectors.len() - from && value == reached(start, trail, count as int)
    }
}

proof fn lemma_trail_extended<F: ExpressionFunctions, R: ColumnarRecords>(
    context: ExecutionContext<'_, F, R>,
    key_data_type: Option<KeyDataType>,
    start: ResolvedScalarValue,
    selectors: Seq<ScalarExpression>,
    from: int,
    by: Evaluation,
    step: SelectStep,
    rest: Trail,
    value: ResolvedScalarValue,
) -> (trail: Trail)
    requires
        0 <= from < selectors.len(),
        goes_on(context, key_data_type, start, selectors[from], by, step),
        step.next is Some,
        trails(context, key_data_type, step.next->0, selectors, from + 1, rest, value),
    ensures
        trails(context, key_data_type, start, selectors, from, trail, value),
{
    let next = step.next->0;
    let trail = Trail { bys: seq![by] + rest.bys, steps: seq![step] + rest.steps };
    assert forall|k: int| #![trigger trail.steps[k]] 0 <= k < trail.steps.len() implies goes_on(
        context,
        key_data_type,
        reached(start, trail, k),
        selectors[from + k],
        trail.bys[k],
        trail.steps[k],
    ) by {
        if k > 0 {
            assert(trail.steps[k] == rest.steps[k - 1]);
            assert(trail.bys[k] == rest.bys[k - 1]);
            assert(selectors[from + 1 + (k - 1)] == selectors[from + k]);
            if k > 1 {
                assert(trail.steps[k - 1] == rest.steps[k - 2]);
            }
            assert(reached(start, trail, k) == reached(next, rest, k - 1));
        }
    }
    assert forall|k: int| 0 <= k < trail.steps.len() - 1 implies (#[trigger] trail.steps[k]).next is Some by {
        if k > 0 {
            assert(trail.steps[k] == rest.steps[k - 1]);
        }
    }
    let count = trail.steps.len() as int;
    if rest.steps.len() > 0 {
        assert(trail.steps.last() == rest.steps.last());
        assert(trail.steps[count - 1] == rest.steps[count - 2]);
    }
    assert(reached(start, trail, count) == reached(next, rest, count - 1));
    trail
}

/// A selection goes by each of its selectors in turn.
pub proof fn lemma_selection_trails<F: ExpressionFunctions, R: ColumnarRecords>(
    context: ExecutionContext<'_, F, R>,
    key_data_type: Option<KeyDataType>,
    start: ResolvedScalarValue,
    selectors: Seq<ScalarExpression>,
    from: nat,
    result: Evaluation,
) -> (trail: Trail)
    requires
        crate::scalars::selection_evaluates(
            context,
            key_data_type,
            start,
            selectors,
            from,
            result,
        ),
        from <= selectors.len(),
    ensures
        trails(context, key_data_type, start, selectors, from as int, trail, result.value),
    decreases selectors.len() - from,
{
    if from >= selectors.len() {
        Trail { bys: Seq::empty(), steps: Seq::empty() }
    } else {
        let parts = lemma_selection_step(context, key_data_type, start, selectors, from, result);
        if parts.step.next is None {
            let trail = Trail { bys: seq![parts.by], steps: seq![parts.step] };
            assert(reached(start, trail, 0) == start);
            trail
        } else {
            let rest = lemma_selection_trails(
                context,
                key_data_type,
                parts.step.next->0,
                selectors,
                from + 1,
                parts.rest,
            );
            lemma_trail_extended(
                context,
                key_data_type,
                start,
                selectors,
                from as int,
                parts.by,
                parts.step,
                rest,
                result.value,
            )
        }
    }
}

proof fn lemma_selection_step<F: ExpressionFunctions, R: ColumnarRecords>(
    context: ExecutionContext<'_, F, R>,
    key_data_type: Option<KeyDataType>,
    start: ResolvedScalarValue,
    selectors: Seq<ScalarExpression>,
    from: nat,
    result: Evaluation,
) -> (parts: SelectEvaluations)
    requires
        crate::scalars::selection_evaluates(
            context,
            key_data_type,
            start,
            selectors,
            from,
            result,
        ),
        from < selectors.len(),
    ensures
        goes_on(context, key_data_type, start, selectors[from as int], parts.by, parts.step),
        result.value == parts.rest.value,
        parts.step.next is None ==> result.value == ResolvedScalarValue::Single(ValueOrRef::Null),
        parts.step.next matches Some(next) ==> crate::scalars::selection_evaluates(
            context,
            key_data_type,
            next,
            selectors,
            from + 1,
            parts.rest,
        ),
{
    reveal(goes_on);
    choose|parts: SelectEvaluations| {
        &&& crate::scalars::evaluates(context, selectors[from as int], parts.by)
        &&& #[trigger] crate::scalars::selects_evaluated(
            context.records,
            key_data_type,
            start,
            selectors[from as int].info,
            parts,
        )
        &&& match parts.step.next {
            None => parts.rest == crate::scalars::silently(ValueOrRef::Null),
            Some(next) => crate::scalars::selection_evaluates(
                context,
                key_data_type,
                next,
                selectors,
                from + 1,
                parts.rest,
            ),
        }
        &&& result.value == parts.rest.value
        &&& result.notes == parts.by.notes + parts.step.notes + parts.rest.notes
    }
}

/// Whether a value has this length: a text its characters, an array its elements and a map its entries.
/// Other values have none.
pub open spec fn measures(value: ValueOrRef, length: ValueOrRef) -> bool {
    match value {
        ValueOrRef::String(text) => length == ValueOrRef::Integer(text@.len() as i64),
        ValueOrRef::Array(array) => length == ValueOrRef::Integer(size(array) as i64),
        ValueOrRef::MapValue(map) => length == ValueOrRef::Integer(
            map.map.entries().len() as i64,
        ),
        _ => length is Null,
    }
}

/// Whether a record has the length of its value.
pub open spec fn measured_so(
    inner: ResolvedScalarValue,
    result: ResolvedScalarValue,
    record: int,
) -> bool {
    exists|length: ValueOrRef| {
        &&& #[trigger] measures(crate::logical_laws::value_of(inner, record), length)
        &&& stands_for(crate::logical_laws::value_of(result, record), length)
    }
}

/// A length expression gives each record the length of its own value.
pub proof fn lemma_lengths_by_record(
    expression: ExpressionInfo,
    inner: ResolvedScalarValue,
    result: Evaluation,
    count: nat,
    record: int,
)
    requires
        crate::scalars::lengths(expression, inner, result),
        crate::logical_laws::has_records(inner, count),
        0 <= record < count,
    ensures
        crate::logical_laws::has_records(result.value, count),
        measured_so(inner, result.value, record),
{
    let value = crate::logical_laws::value_of(inner, record);
    if let ValueOrRef::Array(array) = value {
        lemma_elements(array);
    }
    let length = crate::scalars::length_of(expression, value).0;
    assert(measures(value, length));
    if let ResolvedScalarValue::Dictionary(d) = inner {
        let outcome = lemma_maps_by_record(
            d,
            |value: ValueOrRef, outcome: Outcome|
                outcome == crate::scalars::length_of(expression, value),
            result.value->Dictionary_0,
            result.notes,
            record,
        );
        assert(measures(value, outcome.0));
    }
}

/// Whether this is what a text or an array has from `start` up to `end`. A text gives what it has
/// there; an array gives null past its end.
pub open spec fn cuts(value: ValueOrRef, start: int, end: int, slice: ValueOrRef) -> bool {
    match value {
        ValueOrRef::String(text) => {
            let stop = if end < text@.len() {
                end
            } else {
                text@.len() as int
            };
            &&& slice matches ValueOrRef::String(part)
            &&& part@.len() == (if start < stop {
                stop - start
            } else {
                0
            })
            &&& forall|i: int| 0 <= i < part@.len() ==> #[trigger] part@[i] == text@[start + i]
        },
        ValueOrRef::Array(array) => {
            &&& slice matches ValueOrRef::Array(part)
            &&& size(part) == (if start < end {
                end - start
            } else {
                0
            })
            &&& forall|i: int|
                0 <= i < size(part) ==> #[trigger] element(part, i) == (if start + i < size(array) {
                    element(array, start + i)
                } else {
                    ValueOrRef::Null
                })
        },
        _ => slice is Null,
    }
}

/// Whether a value is sliced so: up to the end that the query language gives for its kind, its length
/// and the range. A range that is refused, and a value that is no text and no array, give null.
pub open spec fn sliced_so<F: ExpressionFunctions>(
    functions: F,
    start: usize,
    length: Option<usize>,
    value: ValueOrRef,
    slice: ValueOrRef,
) -> bool {
    match value {
        ValueOrRef::String(text) => exists|end: Result<usize, String>| {
            &&& #[trigger] call_ensures(
                F::validate_slice_range,
                (&functions, ValueType::String, text@.len() as usize, start, length),
                end,
            )
            &&& match end {
                Ok(end) => cuts(value, start as int, end as int, slice),
                Err(_) => slice is Null,
            }
        },
        ValueOrRef::Array(array) => exists|end: Result<usize, String>| {
            &&& #[trigger] call_ensures(
                F::validate_slice_range,
                (&functions, ValueType::Array, size(array) as usize, start, length),
                end,
            )
            &&& match end {
                Ok(end) => cuts(value, start as int, end as int, slice),
                Err(_) => slice is Null,
            }
        },
        _ => slice is Null,
    }
}

/// A slice holds what the value has from its start up to its end, in order.
pub proof fn lemma_slices_value<F: ExpressionFunctions>(
    functions: F,
    expression: ExpressionInfo,
    start: usize,
    length: Option<usize>,
    value: ValueOrRef,
    outcome: Outcome,
)
    requires
        crate::slice_expression::slices_value(
            functions,
            expression,
            start,
            length,
            value,
            outcome,
        ),
    ensures
        sliced_so(functions, start, length, value, outcome.0),
{
    match value {
        ValueOrRef::Array(array) => {
            lemma_elements(array);
            let end = choose|end: Result<usize, String>| {
                &&& #[trigger] call_ensures(
                    F::validate_slice_range,
                    (&functions, ValueType::Array, array.elements().len() as usize, start, length),
                    end,
                )
                &&& match end {
                    Ok(end) => {
                        &&& outcome.0 matches ValueOrRef::Array(slice)
                        &&& slice matches ArrayValueOrRef::List(form, _) && form is Slice
                        &&& slice.elements() == crate::slicing::array_slice(
                            array.elements(),
                            start as int,
                            end as int,
                        )
                        &&& outcome.1 is None
                    },
                    Err(text) => outcome == (
                        ValueOrRef::Null,
                        Some(crate::slice_expression::error(expression, text)),
                    ),
                }
            };
            if let Ok(end) = end {
                let part = outcome.0->Array_0;
                lemma_elements(part);
                let cut = crate::slicing::array_slice(array.elements(), start as int, end as int);
                assert forall|i: int| 0 <= i < size(part) implies #[trigger] element(part, i) == (
                if start + i < size(array) {
                    element(array, start + i)
                } else {
                    ValueOrRef::Null
                }) by {
                    assert(part.elements()[i] == cut[i]);
                }
                assert(cuts(value, start as int, end as int, outcome.0));
            }
            assert(call_ensures(
                F::validate_slice_range,
                (&functions, ValueType::Array, size(array) as usize, start, length),
                end,
            ));
        },
        _ => {},
    }
}

/// Whether a record has a slice of its value.
pub open spec fn record_sliced_so<F: ExpressionFunctions>(
    functions: F,
    start: usize,
    length: Option<usize>,
    inner: ResolvedScalarValue,
    result: ResolvedScalarValue,
    record: int,
) -> bool {
    exists|slice: ValueOrRef| {
        &&& #[trigger] sliced_so(
            functions,
            start,
            length,
            crate::logical_laws::value_of(inner, record),
            slice,
        )
        &&& stands_for(crate::logical_laws::value_of(result, record), slice)
    }
}

/// A range that is the same for all records slices the value of each.
pub proof fn lemma_slices_by_record<F: ExpressionFunctions>(
    functions: F,
    expression: ExpressionInfo,
    start: usize,
    length: Option<usize>,
    inner: ResolvedScalarValue,
    result: Evaluation,
    count: nat,
    record: int,
)
    requires
        crate::slice_expression::slices_by(
            functions,
            expression,
            start,
            length,
            inner,
            result,
        ),
        crate::logical_laws::has_records(inner, count),
        0 <= record < count,
    ensures
        crate::logical_laws::has_records(result.value, count),
        record_sliced_so(functions, start, length, inner, result.value, record),
{
    let value = crate::logical_laws::value_of(inner, record);
    match inner {
        ResolvedScalarValue::Single(single) => {
            let outcome = choose|outcome: Outcome| {
                &&& #[trigger] crate::slice_expression::slices_value(
                    functions,
                    expression,
                    start,
                    length,
                    single,
                    outcome,
                )
                &&& result.value == ResolvedScalarValue::Single(outcome.0)
                &&& result.notes == crate::slice_expression::optional(outcome.1)
            };
            lemma_slices_value(functions, expression, start, length, single, outcome);
        },
        ResolvedScalarValue::Dictionary(d) => {
            let outcome = lemma_maps_by_record(
                d,
                |value: ValueOrRef, outcome: Outcome|
                    crate::slice_expression::slices_value(
                        functions,
                        expression,
                        start,
                        length,
                        value,
                        outcome,
                    ),
                result.value->Dictionary_0,
                result.notes,
                record,
            );
            if !(value is Null) {
                lemma_slices_value(functions, expression, start, length, value, outcome);
            }
            assert(sliced_so(functions, start, length, value, outcome.0));
        },
        ResolvedScalarValue::Table(_) => {
            assert(sliced_so(functions, start, length, value, ValueOrRef::Null));
        },
    }
}

/// Whether a part of a range is this number: what the query language makes of the value, and none if
/// it refuses the value or the part is not given.
pub open spec fn part_is<F: ExpressionFunctions>(
    functions: F,
    part: RangePart,
    given: bool,
    value: ValueOrRef,
    number: Option<usize>,
) -> bool {
    if given {
        exists|answer: Result<usize, String>|
            #[trigger] call_ensures(
                F::validate_resolved_range_value,
                (&functions, part, &value),
                answer,
            ) && number == answer.ok()
    } else {
        number is None
    }
}

/// Whether each record has a slice of its value, from a start and for a length that are the same for
/// all records. A start that is not given is zero.
pub open spec fn all_sliced<F: ExpressionFunctions>(
    functions: F,
    slice: SliceScalarExpression,
    inner: ResolvedScalarValue,
    start: ValueOrRef,
    length: ValueOrRef,
    value: ResolvedScalarValue,
    count: nat,
    range: (Option<usize>, Option<usize>),
) -> bool {
    &&& part_is(functions, RangePart::Start, slice.range_start is Some, start, range.0)
    &&& part_is(functions, RangePart::Length, slice.range_length is Some, length, range.1)
    &&& forall|record: int|
        0 <= record < count ==> #[trigger] record_sliced_so(
            functions,
            or_zero(range.0),
            range.1,
            inner,
            value,
            record,
        )
}

/// The number, or zero if there is none.
pub open spec fn or_zero(number: Option<usize>) -> usize {
    match number {
        Some(number) => number,
        None => 0,
    }
}

/// A slice expression whose start and length are the same for all records slices the value of each.
pub proof fn lemma_single_range_slices<F: ExpressionFunctions>(
    functions: F,
    slice: SliceScalarExpression,
    inner: ResolvedScalarValue,
    start: ValueOrRef,
    length: ValueOrRef,
    result: Evaluation,
    count: nat,
)
    requires
        crate::slice_expression::slices(
            functions,
            slice,
            inner,
            ResolvedScalarValue::Single(start),
            ResolvedScalarValue::Single(length),
            result,
        ),
        crate::logical_laws::has_records(inner, count),
    ensures
        exists|range: (Option<usize>, Option<usize>)| #[trigger]
            all_sliced(functions, slice, inner, start, length, result.value, count, range),
{
    let steps = choose|steps: SliceSingle|
        #[trigger] crate::slice_expression::slices_single(
            functions,
            slice,
            inner,
            start,
            length,
            steps,
            result,
        );
    let range = (steps.start.0, steps.length.0);
    let from: usize = or_zero(range.0);
    assert forall|record: int| 0 <= record < count implies #[trigger] record_sliced_so(
        functions,
        from,
        range.1,
        inner,
        result.value,
        record,
    ) by {
        lemma_slices_by_record(
            functions,
            slice.info,
            from,
            range.1,
            inner,
            steps.sliced,
            count,
            record,
        );
    }
    assert(all_sliced(functions, slice, inner, start, length, result.value, count, range));
}

/// Whether the trail leads from `start` by all of the selectors.
pub open spec fn goes<F: ExpressionFunctions, R: ColumnarRecords>(
    context: ExecutionContext<'_, F, R>,
    key_data_type: Option<KeyDataType>,
    start: ResolvedScalarValue,
    selectors: Seq<ScalarExpression>,
    value: ResolvedScalarValue,
) -> bool {
    exists|trail: Trail| #[trigger]
        trails(context, key_data_type, start, selectors, 0, trail, value)
}

/// Whether this is what an expression gives. One that reads something starts at the records, at what is
/// attached to them, at a constant or at a variable, and goes on by its selectors. What is not there is
/// null. A local variable hides a global one. A slice without a start is one from the first element,
/// and one without a length goes up to the end.
pub open spec fn gives<F: ExpressionFunctions, R: ColumnarRecords>(
    context: ExecutionContext<'_, F, R>,
    kind: ScalarExpressionKind,
    value: ResolvedScalarValue,
) -> bool {
    let nothing = ResolvedScalarValue::Single(ValueOrRef::Null);
    match kind {
        ScalarExpressionKind::Static(constant) => value == ResolvedScalarValue::Single(
            handed_out(constant, false),
        ),
        ScalarExpressionKind::Source(source) => match context.records {
            Some(records) => goes(
                context,
                Some(records.key_type()),
                ResolvedScalarValue::Table(0),
                source.selectors@,
                value,
            ),
            None => value == nothing,
        },
        ScalarExpressionKind::Attached(attached) => match context.records {
            Some(records) => match records.attached_table(attached.name@) {
                Some(table) => goes(
                    context,
                    Some(records.key_type()),
                    ResolvedScalarValue::Table(table),
                    attached.selectors@,
                    value,
                ),
                None => value == nothing,
            },
            None => value == nothing,
        },
        ScalarExpressionKind::Constant(constant) => if constant.constant_id
            < context.constants@.len() {
            goes(
                context,
                None,
                ResolvedScalarValue::Single(
                    handed_out(context.constants@[constant.constant_id as int].value, false),
                ),
                constant.selectors@,
                value,
            )
        } else {
            value == nothing
        },
        ScalarExpressionKind::Variable(variable) => {
            let local = context.variables.local_variables@;
            let global = context.variables.global_variables@;
            let name = variable.name@;
            if local.contains_key(name) {
                goes(context, None, variable_value(local[name]), variable.selectors@, value)
            } else if global.contains_key(name) {
                goes(context, None, variable_value(global[name]), variable.selectors@, value)
            } else {
                value == nothing
            }
        },
        ScalarExpressionKind::Now => value matches ResolvedScalarValue::Single(
            ValueOrRef::DateTime(time),
        ) && time.offset_seconds == 0 && time.nanoseconds < 1_000_000_000,
        ScalarExpressionKind::Length(length) => exists|inner: Evaluation, measured: Evaluation|
            crate::scalars::evaluates(context, *length.inner_expression, inner)
                && #[trigger] crate::scalars::lengths(length.info, inner.value, measured) && value
                == measured.value,
        ScalarExpressionKind::Slice(slice) => exists|
            inner: ResolvedScalarValue,
            start: ResolvedScalarValue,
            length: ResolvedScalarValue,
            sliced: Evaluation,
        | {
            &&& #[trigger] crate::slice_expression::slices(
                *context.functions,
                slice,
                inner,
                start,
                length,
                sliced,
            )
            &&& may_be(context, *slice.source, inner)
            &&& match slice.range_start {
                Some(given) => may_be(context, *given, start),
                None => start == ResolvedScalarValue::Single(ValueOrRef::Integer(0)),
            }
            &&& match slice.range_length {
                Some(given) => may_be(context, *given, length),
                None => length == nothing,
            }
            &&& value == sliced.value
        },
    }
}

/// Whether an expression may evaluate to a value.
pub open spec fn may_be<F: ExpressionFunctions, R: ColumnarRecords>(
    context: ExecutionContext<'_, F, R>,
    expression: ScalarExpression,
    value: ResolvedScalarValue,
) -> bool {
    exists|evaluated: Evaluation|
        #[trigger] crate::scalars::evaluates(context, expression, evaluated) && evaluated.value
            == value
}


/// What a variable holds.
pub open spec fn variable_value(held: ResolvedSingleOrDictionaryValue) -> ResolvedScalarValue {
    match held {
        ResolvedSingleOrDictionaryValue::Single(value) => ResolvedScalarValue::Single(value),
        ResolvedSingleOrDictionaryValue::Dictionary(d) => ResolvedScalarValue::Dictionary(d),
    }
}

/// An expression that reads something starts where it says, and goes by all its selectors; a length and
/// a slice are those of what their own expressions evaluate to.
pub proof fn lemma_expression_gives<F: ExpressionFunctions, R: ColumnarRecords>(
    context: ExecutionContext<'_, F, R>,
    expression: ScalarExpression,
    result: Evaluation,
)
    requires
        crate::scalars::evaluates(context, expression, result),
    ensures
        gives(context, expression.kind, result.value),
{
    let own = Evaluation { value: result.value, notes: result.notes.drop_last() };
    assert(crate::scalars::kind_evaluates(context, expression.kind, own));
    match expression.kind {
        ScalarExpressionKind::Source(source) => {
            if let Some(records) = context.records {
                let trail = lemma_selection_trails(
                    context,
                    Some(records.key_type()),
                    ResolvedScalarValue::Table(0),
                    source.selectors@,
                    0,
                    own,
                );
            }
        },
        ScalarExpressionKind::Attached(attached) => {
            if let Some(records) = context.records {
                if let Some(table) = records.attached_table(attached.name@) {
                    let trail = lemma_selection_trails(
                        context,
                        Some(records.key_type()),
                        ResolvedScalarValue::Table(table),
                        attached.selectors@,
                        0,
                        own,
                    );
                }
            }
        },
        ScalarExpressionKind::Constant(constant) => {
            if constant.constant_id < context.constants@.len() {
                let found = context.constants@[constant.constant_id as int];
                let trail = lemma_selection_trails(
                    context,
                    None,
                    ResolvedScalarValue::Single(handed_out(found.value, false)),
                    constant.selectors@,
                    0,
                    Evaluation { value: own.value, notes: own.notes.skip(1) },
                );
            }
        },
        ScalarExpressionKind::Variable(variable) => {
            if let Some(value) = context.variables.variable(variable.name@) {
                let trail = lemma_selection_trails(
                    context,
                    None,
                    variable_value(value),
                    variable.selectors@,
                    0,
                    Evaluation { value: own.value, notes: own.notes.skip(1) },
                );
            }
        },
        ScalarExpressionKind::Length(length) => {
            let parts = choose|parts: crate::scalars::LengthEvaluations| {
                &&& crate::scalars::evaluates(context, *length.inner_expression, parts.inner)
                &&& #[trigger] crate::scalars::lengths_evaluated(length.info, parts)
                &&& own.value == parts.length.value
                &&& own.notes == parts.inner.notes + parts.length.notes
            };
            assert(crate::scalars::lengths(length.info, parts.inner.value, parts.length));
        },
        ScalarExpressionKind::Slice(slice) => {
            let parts = choose|parts: crate::scalars::SliceEvaluations| {
                &&& crate::scalars::evaluates(context, *slice.source, parts.inner)
                &&& match slice.range_start {
                    Some(start) => crate::scalars::evaluates(context, *start, parts.start),
                    None => parts.start == crate::scalars::silently(ValueOrRef::Integer(0)),
                }
                &&& match slice.range_length {
                    Some(length) => crate::scalars::evaluates(context, *length, parts.length),
                    None => parts.length == crate::scalars::silently(ValueOrRef::Null),
                }
                &&& #[trigger] crate::scalars::slices_evaluated(*context.functions, slice, parts)
                &&& own.value == parts.sliced.value
            };
            assert(crate::slice_expression::slices(
                *context.functions,
                slice,
                parts.inner.value,
                parts.start.value,
                parts.length.value,
                parts.sliced,
            ));
        },
        _ => {},
    }
}

}
