//! What columns of distinct values give each record.

use vstd::prelude::*;

use crate::dictionary::Dictionary;
use crate::dictionary_keys::DictionaryKeyArray;
use crate::dictionary_merge::{MergeCalls, MergeOutcome};
use crate::dictionary_values::DictionaryValueArray;
use crate::engine_diagnostic::ColumnarEngineDiagnostic;
use crate::expressions::{ExpressionFunctions, ExpressionInfo, RangePart, SliceScalarExpression};
use crate::resolved_value::ResolvedScalarValue;
use crate::selection::Outcome;
use crate::slice_expression::{Evaluation, SliceParts};
use crate::value::ValueOrRef;

verus! {

/// The value at a place of a list of values, a column or a set.
pub open spec fn listed(values: DictionaryValueArray, place: int) -> ValueOrRef {
    match values {
        DictionaryValueArray::Array(column) => column.value(place),
        DictionaryValueArray::Vec(list) => list@[place],
        DictionaryValueArray::SetValues(set) => crate::collections::set_values(*set)[place],
        DictionaryValueArray::Boolean => ValueOrRef::Boolean(place == 1),
    }
}

/// A record has the value that its key leads to: the key of its own, the one key of all records, or its
/// own number. A record of a boolean column has the first value if it is false and the second if it is
/// true. A record without a key has none.
pub proof fn lemma_rows_by_key(dictionary: Dictionary, record: int)
    requires
        dictionary.wf(),
        0 <= record < dictionary.rows().len(),
    ensures
        match dictionary.keys {
            DictionaryKeyArray::KeyArray { keys, .. } => match keys@[record] {
                Some(place) => dictionary.rows()[record] == listed(
                    dictionary.values,
                    place as int,
                ),
                None => dictionary.rows()[record] is Null,
            },
            DictionaryKeyArray::BooleanArray { values, .. } => match crate::boolean_array::boolean_values(
                *values,
            )[record] {
                Some(truth) => dictionary.rows()[record] == listed(
                    dictionary.values,
                    if truth {
                        1
                    } else {
                        0
                    },
                ),
                None => dictionary.rows()[record] is Null,
            },
            DictionaryKeyArray::UniqueValues { .. } => record <= usize::MAX
                ==> dictionary.rows()[record] == listed(dictionary.values, record),
            DictionaryKeyArray::SingleValue { value_index, .. } => match value_index {
                Some(place) => dictionary.rows()[record] == listed(
                    dictionary.values,
                    place as int,
                ),
                None => dictionary.rows()[record] is Null,
            },
        },
{
    assert(dictionary.rows()[record] == dictionary.row(record));
    if let Some(position) = dictionary.keys.position(record) {
        assert(position < dictionary.values.values().len());
        assert(dictionary.values.value_at(position) == dictionary.values.values()[position as int]);
    }
}

/// The values that a record has in several columns; null is a missing value.
pub open spec fn record_values(columns: Seq<Dictionary>, record: int) -> Seq<Option<ValueOrRef>> {
    Seq::new(
        columns.len(),
        |d: int|
            if columns[d].rows()[record] is Null {
                None
            } else {
                Some(columns[d].rows()[record])
            },
    )
}

/// What several columns are merged to for a record is what the function makes of the values that the
/// record has in them.
pub proof fn lemma_merges_by_record<N, E>(
    relation: spec_fn(Seq<Option<ValueOrRef>>, MergeOutcome<N, E>) -> bool,
    columns: Seq<Dictionary>,
    calls: MergeCalls<N, E>,
    merged: Dictionary,
    record: int,
) -> (outcome: MergeOutcome<N, E>)
    requires
        columns.len() > 0,
        crate::dictionary_merge::merged_by(relation, columns, calls, Ok(merged)),
        forall|d: int|
            0 <= d < columns.len() ==> (#[trigger] columns[d]).rows().len()
                == columns[0].rows().len(),
        columns[0].rows().len() <= usize::MAX,
        0 <= record < columns[0].rows().len(),
    ensures
        merged.rows().len() == columns[0].rows().len(),
        relation(record_values(columns, record), outcome),
        outcome.0 matches Ok(value) && crate::scalar_laws::stands_for(
            merged.rows()[record],
            match value {
                Some(value) => value,
                None => ValueOrRef::Null,
            },
        ),
{
    assert(calls.has_call(columns, record));
    let k = calls.call_for(columns, record);
    let row = calls.rows[k];
    let outcome = calls.outcomes[k];
    assert(relation(crate::dictionary_merge::merge_input(columns, row), outcome));
    let here = crate::dictionary_merge::merge_positions(columns, record);
    let there = crate::dictionary_merge::merge_positions(columns, row);
    assert(here == there);
    assert forall|d: int| 0 <= d < columns.len() implies crate::dictionary_merge::merge_input(
        columns,
        row,
    )[d] == #[trigger] record_values(columns, record)[d] by {
        assert(here[d] == there[d]);
        assert(columns[d].rows().len() == columns[0].rows().len());
        assert(columns[d].row_for(record as usize) == columns[d].row_for(row as usize));
        assert(columns[d].row_for(record as usize) == columns[d].rows()[record]);
    }
    assert(crate::dictionary_merge::merge_input(columns, row) =~= record_values(columns, record));
    assert(crate::dictionary::held_for(
        merged.rows()[record],
        calls.merged_row(columns, record),
    ));
    outcome
}

/// What a function makes of a column it makes of the value of each record; where that is null, the record
/// has what the function makes of null.
proof fn lemma_maps_or_null<N>(
    dictionary: Dictionary,
    relation: spec_fn(ValueOrRef, (ValueOrRef, Option<N>)) -> bool,
    result: Dictionary,
    added: Seq<N>,
    record: int,
) -> (outcomes: ((ValueOrRef, Option<N>), (ValueOrRef, Option<N>)))
    requires
        dictionary.maps_into(relation, result, added),
        dictionary.wf(),
        0 <= record < dictionary.rows().len(),
        !(dictionary.keys matches DictionaryKeyArray::SingleValue { .. }),
    ensures
        result.rows().len() == dictionary.rows().len(),
        relation(dictionary.rows()[record], outcomes.0),
        relation(ValueOrRef::Null, outcomes.1),
        crate::scalar_laws::stands_for(
            result.rows()[record],
            if outcomes.0.0 is Null {
                outcomes.1.0
            } else {
                outcomes.0.0
            },
        ),
{
    let inputs = crate::dictionary_values::null_first(dictionary.values.values());
    let calls = choose|calls: crate::dictionary_transform::TransformCalls<ValueOrRef, N>| {
        &&& #[trigger] crate::dictionary_transform::calls_related(relation, inputs, calls)
        &&& dictionary.transformed(calls, result)
        &&& added == calls.notes()
    };
    assert(crate::dictionary::held_for(
        result.rows()[record],
        dictionary.transformed_row(calls, record),
    ));
    assert(inputs[0] is Null);
    assert(relation(inputs[0], calls.outcomes[0]));
    match dictionary.keys.position(record) {
        Some(position) => {
            let outcome = calls.outcomes[position + 1];
            assert(position < dictionary.values.values().len());
            assert(inputs[position + 1] == dictionary.values.values()[position as int]);
            assert(relation(inputs[position + 1], outcome));
            assert(dictionary.values.value_at(position)
                == dictionary.values.values()[position as int]);
            if dictionary.takes_late(calls.outcomes, record) {
                assert(calls.late is Some);
                (outcome, calls.late->0)
            } else {
                (outcome, calls.outcomes[0])
            }
        },
        None => {
            assert(dictionary.takes_late(calls.outcomes, record));
            assert(calls.late is Some);
            (calls.late->0, calls.late->0)
        },
    }
}

/// The length that a number gives, if there is one.
pub open spec fn length_given(length: ValueOrRef) -> Option<usize> {
    if length is Null {
        None
    } else {
        Some(length->Integer_0 as usize)
    }
}

/// Whether a record is sliced so, from its own start and for its own length, once these have been read.
/// A record whose start is not a number has none.
pub open spec fn sliced_by_own<F: ExpressionFunctions>(
    functions: F,
    value: ValueOrRef,
    start: ValueOrRef,
    length: ValueOrRef,
    held: ValueOrRef,
) -> bool {
    if start is Integer && (length is Integer || length is Null) {
        exists|slice: ValueOrRef| {
            &&& #[trigger] crate::scalar_laws::sliced_so(
                functions,
                start->Integer_0 as usize,
                length_given(length),
                value,
                slice,
            )
            &&& crate::scalar_laws::stands_for(held, slice)
        }
    } else {
        held is Null
    }
}

/// Whether a number has been read for a part of a range. A start that cannot be read is zero, and a
/// length that cannot be is none.
pub open spec fn part_read<F: ExpressionFunctions>(
    functions: F,
    part: RangePart,
    value: ValueOrRef,
    number: ValueOrRef,
) -> bool {
    exists|answer: Result<usize, String>| #[trigger]
        may_be_range(functions, part, value, answer) && number == match answer {
            Ok(n) => ValueOrRef::Integer(n as i64),
            Err(_) => match part {
                RangePart::Start => ValueOrRef::Integer(0),
                RangePart::Length => ValueOrRef::Null,
            },
        }
}

/// Whether the query language may read a value so as a part of a range.
pub open spec fn may_be_range<F: ExpressionFunctions>(
    functions: F,
    part: RangePart,
    value: ValueOrRef,
    answer: Result<usize, String>,
) -> bool {
    call_ensures(F::validate_resolved_range_value, (&functions, part, &value), answer)
}

proof fn lemma_part_read<F: ExpressionFunctions>(
    functions: F,
    part: RangePart,
    expression: ExpressionInfo,
    value: ValueOrRef,
    outcome: Outcome,
)
    requires
        crate::slice_expression::range_relation(functions, part, expression)(value, outcome),
    ensures
        part_read(functions, part, value, outcome.0),
{
    let range = choose|range: (Option<usize>, Option<ColumnarEngineDiagnostic>)|
        #[trigger] crate::slice_expression::reads_range(
            functions,
            part,
            expression,
            value,
            range,
        ) && outcome.0 == match part {
            RangePart::Start => ValueOrRef::Integer(
                match range.0 {
                    Some(n) => n as i64,
                    None => 0,
                },
            ),
            RangePart::Length => match range.0 {
                Some(n) => ValueOrRef::Integer(n as i64),
                None => ValueOrRef::Null,
            },
        };
    let answer = choose|answer: Result<usize, String>| {
        &&& #[trigger] call_ensures(
            F::validate_resolved_range_value,
            (&functions, part, &value),
            answer,
        )
        &&& range == (match answer {
            Ok(n) => (Some(n), None),
            Err(text) => (None, Some(crate::slice_expression::error(expression, text))),
        })
    };
    assert(may_be_range(functions, part, value, answer));
}

/// Whether a record has this number for a part of its range: what is read of its own value there, and
/// where that is none, what is read of null. A column that says so by its keys is not read value by
/// value.
pub open spec fn own_part<F: ExpressionFunctions>(
    functions: F,
    part: RangePart,
    column: Dictionary,
    record: int,
    number: ValueOrRef,
) -> bool {
    column.keys is SingleValue || exists|own: ValueOrRef, instead: ValueOrRef| {
        &&& #[trigger] part_read(functions, part, column.rows()[record], own)
        &&& #[trigger] part_read(functions, part, ValueOrRef::Null, instead)
        &&& crate::scalar_laws::stands_for(
            number,
            if own is Null {
                instead
            } else {
                own
            },
        )
    }
}

proof fn lemma_own_part<F: ExpressionFunctions>(
    functions: F,
    part: RangePart,
    expression: ExpressionInfo,
    column: Dictionary,
    read: Dictionary,
    notes: Seq<ColumnarEngineDiagnostic>,
    record: int,
)
    requires
        column.maps_into(
            crate::slice_expression::range_relation(functions, part, expression),
            read,
            notes,
        ),
        column.wf(),
        0 <= record < column.rows().len(),
    ensures
        own_part(functions, part, column, record, read.rows()[record]),
{
    if !(column.keys is SingleValue) {
        let relation = crate::slice_expression::range_relation(functions, part, expression);
        let outcomes = lemma_maps_or_null(column, relation, read, notes, record);
        lemma_part_read(functions, part, expression, column.rows()[record], outcomes.0);
        lemma_part_read(functions, part, expression, ValueOrRef::Null, outcomes.1);
    }
}

/// Whether the records are sliced, each from its own start and for its own length.
pub open spec fn all_sliced_by_own<F: ExpressionFunctions>(
    functions: F,
    parts: SliceParts,
    starts: Dictionary,
    lengths: Dictionary,
    merged: Dictionary,
    count: nat,
) -> bool {
    forall|record: int| #![trigger merged.rows()[record]]
        0 <= record < count ==> {
            &&& own_part(
                functions,
                RangePart::Start,
                parts.start,
                record,
                starts.rows()[record],
            )
            &&& own_part(
                functions,
                RangePart::Length,
                parts.length,
                record,
                lengths.rows()[record],
            )
            &&& sliced_by_own(
                functions,
                parts.inner.rows()[record],
                starts.rows()[record],
                lengths.rows()[record],
                merged.rows()[record],
            )
        }
}

/// A range that differs between records slices the value of each record from its own start and for its
/// own length.
pub proof fn lemma_ranges_slice_by_record<F: ExpressionFunctions>(
    functions: F,
    slice: SliceScalarExpression,
    inner: ResolvedScalarValue,
    start: ResolvedScalarValue,
    length: ResolvedScalarValue,
    key_info: (nat, crate::dictionary_keys::KeyDataType),
    parts: SliceParts,
    result: Evaluation,
)
    requires
        crate::slice_expression::slices_rows(
            functions,
            slice,
            inner,
            start,
            length,
            key_info,
            parts,
            result,
        ),
        key_info.0 <= usize::MAX,
        crate::logical_laws::has_records(inner, key_info.0),
        crate::logical_laws::has_records(start, key_info.0),
        crate::logical_laws::has_records(length, key_info.0),
    ensures
        result.value == ResolvedScalarValue::Dictionary(parts.rows.merged),
        forall|record: int|
            0 <= record < key_info.0 ==> #[trigger] parts.inner.rows()[record]
                == crate::logical_laws::value_of(inner, record) && parts.start.rows()[record]
                == crate::logical_laws::value_of(start, record) && parts.length.rows()[record]
                == crate::logical_laws::value_of(length, record),
        all_sliced_by_own(
            functions,
            parts,
            parts.rows.start_read,
            parts.rows.length_read,
            parts.rows.merged,
            key_info.0,
        ),
{
    let rows = parts.rows;
    let columns = seq![parts.inner, rows.start_read, rows.length_read];
    let merged = rows.merged;
    assert forall|record: int| #![trigger merged.rows()[record]] 0 <= record < key_info.0 implies {
        &&& own_part(
            functions,
            RangePart::Start,
            parts.start,
            record,
            rows.start_read.rows()[record],
        )
        &&& own_part(
            functions,
            RangePart::Length,
            parts.length,
            record,
            rows.length_read.rows()[record],
        )
        &&& sliced_by_own(
            functions,
            parts.inner.rows()[record],
            rows.start_read.rows()[record],
            rows.length_read.rows()[record],
            merged.rows()[record],
        )
    } by {
        lemma_own_part(
            functions,
            RangePart::Start,
            crate::slice_expression::part_info(slice, slice.range_start),
            parts.start,
            rows.start_read,
            rows.start_notes,
            record,
        );
        lemma_own_part(
            functions,
            RangePart::Length,
            crate::slice_expression::part_info(slice, slice.range_length),
            parts.length,
            rows.length_read,
            rows.length_notes,
            record,
        );
        let relation = crate::slice_expression::merge_relation(functions, slice.info);
        let outcome = lemma_merges_by_record(relation, columns, rows.calls, merged, record);
        lemma_own_slice(
            functions,
            slice.info,
            record_values(columns, record),
            outcome,
            parts.inner.rows()[record],
            rows.start_read.rows()[record],
            rows.length_read.rows()[record],
            merged.rows()[record],
        );
    }
}

proof fn lemma_own_slice<F: ExpressionFunctions>(
    functions: F,
    expression: ExpressionInfo,
    input: Seq<Option<ValueOrRef>>,
    outcome: MergeOutcome<ColumnarEngineDiagnostic, ()>,
    value: ValueOrRef,
    start: ValueOrRef,
    length: ValueOrRef,
    held: ValueOrRef,
)
    requires
        input.len() == 3,
        input[0] == crate::dictionary_values::non_null(value),
        input[1] == crate::dictionary_values::non_null(start),
        input[2] == crate::dictionary_values::non_null(length),
        crate::slice_expression::merge_slice(functions, expression, input, outcome),
        outcome.0 matches Ok(slice) && crate::scalar_laws::stands_for(
            held,
            match slice {
                Some(slice) => slice,
                None => ValueOrRef::Null,
            },
        ),
    ensures
        sliced_by_own(functions, value, start, length, held),
{
    if start is Integer && (length is Integer || length is Null) {
        let from = start->Integer_0 as usize;
        let size: Option<usize> = length_given(length);
        let slice = choose|slice: Outcome| {
            &&& #[trigger] crate::slice_expression::slices_value(
                functions,
                expression,
                from,
                size,
                crate::slice_expression::value_or_null(input[0]),
                slice,
            )
            &&& outcome == (
                Ok::<Option<ValueOrRef>, ()>(crate::dictionary_values::non_null(slice.0)),
                slice.1,
            )
        };
        assert(crate::slice_expression::value_or_null(input[0]) == value);
        crate::scalar_laws::lemma_slices_value(functions, expression, from, size, value, slice);
        assert(crate::scalar_laws::sliced_so(functions, from, size, value, slice.0));
    }
}

}
