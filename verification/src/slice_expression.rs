//! The slice expression, once its parts are evaluated.

use std::rc::Rc;

use vstd::prelude::*;

use crate::dictionary::Dictionary;
use crate::dictionary_keys::KeyDataType;
use crate::dictionary_merge::{lemma_merged_by, merge, MergeCalls, MergeOutcome};
use crate::dictionary_values::push_note;
use crate::engine_diagnostic::{
    ColumnarEngineDiagnostic, ColumnarEngineDiagnosticLevel, DiagnosticMessage,
};
use crate::expressions::{
    ExpressionFunctions, ExpressionInfo, RangePart, ScalarExpression, SliceScalarExpression,
};
use crate::resolved_value::ResolvedScalarValue;
use crate::selection::{new_warning, Outcome};
use crate::slicing::{char_len, new_array_slice, new_string_slice};
use crate::value::{ArrayValueOrRef, ValueOrRef, ValueType};

verus! {

/// What an expression evaluated to, and the diagnostics of the evaluation.
pub struct Evaluation {
    pub value: ResolvedScalarValue,
    pub notes: Seq<ColumnarEngineDiagnostic>,
}

/// An error about an expression.
pub open spec fn error(expression: ExpressionInfo, text: String) -> ColumnarEngineDiagnostic {
    ColumnarEngineDiagnostic {
        diagnostic_level: ColumnarEngineDiagnosticLevel::Error,
        expression,
        message: DiagnosticMessage::Text(Rc::new(text)),
    }
}

fn new_error(expression: &ExpressionInfo, text: String) -> (r: ColumnarEngineDiagnostic)
    ensures
        r == error(*expression, text),
{
    ColumnarEngineDiagnostic::new(
        ColumnarEngineDiagnosticLevel::Error,
        expression.clone(),
        DiagnosticMessage::Text(Rc::new(text)),
    )
}

/// Whether a value may be sliced so: a text and an array up to the end that is given for them, any
/// other value, with a warning, not at all.
pub open spec fn slices_value<F: ExpressionFunctions>(
    functions: F,
    expression: ExpressionInfo,
    start: usize,
    length: Option<usize>,
    value: ValueOrRef,
    outcome: Outcome,
) -> bool {
    match value {
        ValueOrRef::String(text) => exists|end: Result<usize, String>| {
            &&& #[trigger] call_ensures(
                F::validate_slice_range,
                (&functions, ValueType::String, text@.len() as usize, start, length),
                end,
            )
            &&& match end {
                Ok(end) => {
                    &&& outcome.0 matches ValueOrRef::String(slice)
                    &&& slice@ == crate::slicing::text_slice(text@, start as int, end as int)
                    &&& outcome.1 is None
                },
                Err(text) => outcome == (ValueOrRef::Null, Some(error(expression, text))),
            }
        },
        ValueOrRef::Array(array) => exists|end: Result<usize, String>| {
            &&& #[trigger] call_ensures(
                F::validate_slice_range,
                (&functions, ValueType::Array, array.elements().len() as usize, start, length),
                end,
            )
            &&& match end {
                Ok(end) => {
                    &&& outcome.0 matches ValueOrRef::Array(slice)
                    &&& slice matches ArrayValueOrRef::List(form, _) && form is Slice
                    &&& slice.elements() == crate::slicing::array_slice(
                        array.elements(),
                        start as int,
                        end as int,
                    )
                    &&& outcome.1 is None
                },
                Err(text) => outcome == (ValueOrRef::Null, Some(error(expression, text))),
            }
        },
        _ => outcome == (
            ValueOrRef::Null,
            Some(
                crate::selection::warning(
                    expression,
                    DiagnosticMessage::SliceOfType(value.value_type()),
                ),
            ),
        ),
    }
}

/// Slices a value.
pub fn slice_value<F: ExpressionFunctions>(
    functions: &F,
    expression: &ExpressionInfo,
    start: usize,
    length: Option<usize>,
    value: &ValueOrRef,
) -> (r: Outcome)
    ensures
        slices_value(*functions, *expression, start, length, *value, r),
{
    match value {
        ValueOrRef::String(text) => {
            let text_length: usize = char_len(text.as_str());
            let end = functions.validate_slice_range(
                ValueType::String,
                text_length,
                start,
                length,
            );
            assert(call_ensures(
                F::validate_slice_range,
                (functions, ValueType::String, text_length, start, length),
                end,
            ));
            match end {
                Ok(end) => (ValueOrRef::String(new_string_slice(text, start, end)), None),
                Err(message) => (ValueOrRef::Null, Some(new_error(expression, message))),
            }
        },
        ValueOrRef::Array(array) => {
            let array_length: usize = array.len();
            let end = functions.validate_slice_range(
                ValueType::Array,
                array_length,
                start,
                length,
            );
            assert(call_ensures(
                F::validate_slice_range,
                (functions, ValueType::Array, array_length, start, length),
                end,
            ));
            match end {
                Ok(end) => (ValueOrRef::Array(new_array_slice(array, start, end)), None),
                Err(message) => (ValueOrRef::Null, Some(new_error(expression, message))),
            }
        },
        _ => (
            ValueOrRef::Null,
            Some(
                new_warning(expression, DiagnosticMessage::SliceOfType(value.get_value_type())),
            ),
        ),
    }
}

/// Whether the value may be read so as a part of a range. One that cannot be read is an error about
/// the expression.
pub open spec fn reads_range<F: ExpressionFunctions>(
    functions: F,
    part: RangePart,
    expression: ExpressionInfo,
    value: ValueOrRef,
    outcome: (Option<usize>, Option<ColumnarEngineDiagnostic>),
) -> bool {
    exists|range: Result<usize, String>| {
        &&& #[trigger] call_ensures(
            F::validate_resolved_range_value,
            (&functions, part, &value),
            range,
        )
        &&& outcome == (match range {
            Ok(n) => (Some(n), None),
            Err(text) => (None, Some(error(expression, text))),
        })
    }
}

fn read_range<F: ExpressionFunctions>(
    functions: &F,
    part: RangePart,
    expression: &ExpressionInfo,
    value: &ValueOrRef,
) -> (r: (Option<usize>, Option<ColumnarEngineDiagnostic>))
    ensures
        reads_range(*functions, part, *expression, *value, r),
{
    let range = functions.validate_resolved_range_value(part, value);
    assert(call_ensures(F::validate_resolved_range_value, (functions, part, value), range));
    match range {
        Ok(n) => (Some(n), None),
        Err(text) => (None, Some(new_error(expression, text))),
    }
}

/// The start of a slice for each record: what cannot be read is zero.
pub open spec fn start_outcome<F: ExpressionFunctions>(
    functions: F,
    expression: ExpressionInfo,
    value: ValueOrRef,
    outcome: Outcome,
) -> bool {
    exists|range: (Option<usize>, Option<ColumnarEngineDiagnostic>)| {
        &&& #[trigger] reads_range(functions, RangePart::Start, expression, value, range)
        &&& outcome == (
            ValueOrRef::Integer(
                match range.0 {
                    Some(n) => n as i64,
                    None => 0,
                },
            ),
            range.1,
        )
    }
}

/// The length of a slice for each record: what cannot be read is null.
pub open spec fn length_outcome<F: ExpressionFunctions>(
    functions: F,
    expression: ExpressionInfo,
    value: ValueOrRef,
    outcome: Outcome,
) -> bool {
    exists|range: (Option<usize>, Option<ColumnarEngineDiagnostic>)| {
        &&& #[trigger] reads_range(functions, RangePart::Length, expression, value, range)
        &&& outcome == (
            match range.0 {
                Some(n) => ValueOrRef::Integer(n as i64),
                None => ValueOrRef::Null,
            },
            range.1,
        )
    }
}

/// Whether the values of a record (what is sliced, the start and the length) may give this outcome.
pub open spec fn merge_slice<F: ExpressionFunctions>(
    functions: F,
    expression: ExpressionInfo,
    input: Seq<Option<ValueOrRef>>,
    outcome: MergeOutcome<ColumnarEngineDiagnostic, ()>,
) -> bool {
    match (input[1], input[2]) {
        (Some(ValueOrRef::Integer(start)), None) => merge_slice_at(
            functions,
            expression,
            start as usize,
            None,
            input[0],
            outcome,
        ),
        (Some(ValueOrRef::Integer(start)), Some(ValueOrRef::Integer(length))) => merge_slice_at(
            functions,
            expression,
            start as usize,
            Some(length as usize),
            input[0],
            outcome,
        ),
        _ => outcome == (
            Ok::<Option<ValueOrRef>, ()>(None),
            None::<ColumnarEngineDiagnostic>,
        ),
    }
}

/// The value, null if it is missing.
pub open spec fn value_or_null(value: Option<ValueOrRef>) -> ValueOrRef {
    match value {
        Some(value) => value,
        None => ValueOrRef::Null,
    }
}

/// Whether a value, null if it is missing, may be sliced so; a null slice is a missing one.
pub open spec fn merge_slice_at<F: ExpressionFunctions>(
    functions: F,
    expression: ExpressionInfo,
    start: usize,
    length: Option<usize>,
    value: Option<ValueOrRef>,
    outcome: MergeOutcome<ColumnarEngineDiagnostic, ()>,
) -> bool {
    exists|slice: Outcome| {
        &&& #[trigger] slices_value(
            functions,
            expression,
            start,
            length,
            value_or_null(value),
            slice,
        )
        &&& outcome == (
            Ok::<Option<ValueOrRef>, ()>(crate::dictionary_values::non_null(slice.0)),
            slice.1,
        )
    }
}

fn merge_values<F: ExpressionFunctions>(
    functions: &F,
    expression: &ExpressionInfo,
    input: &Vec<Option<ValueOrRef>>,
) -> (r: MergeOutcome<ColumnarEngineDiagnostic, ()>)
    requires
        input@.len() == 3,
    ensures
        merge_slice(*functions, *expression, input@, r),
{
    let start: usize = match &input[1] {
        Some(ValueOrRef::Integer(start)) => *start as usize,
        _ => {
            return (Ok(None), None);
        },
    };
    let length: Option<usize> = match &input[2] {
        Some(ValueOrRef::Integer(length)) => Some(*length as usize),
        None => None,
        _ => {
            return (Ok(None), None);
        },
    };
    let null = ValueOrRef::Null;
    let value: &ValueOrRef = match &input[0] {
        Some(value) => value,
        None => &null,
    };
    let outcome = slice_value(functions, expression, start, length, value);
    if outcome.0.is_null() {
        (Ok(None), outcome.1)
    } else {
        (Ok(Some(outcome.0)), outcome.1)
    }
}

/// A list of the diagnostic, if there is one.
pub open spec fn optional(note: Option<ColumnarEngineDiagnostic>) -> Seq<ColumnarEngineDiagnostic> {
    match note {
        Some(note) => seq![note],
        None => Seq::empty(),
    }
}

/// Whether a part of the range that is the same for all records may be read so. A start that is not
/// given is zero; a length that is not given is none.
pub open spec fn reads_part<F: ExpressionFunctions>(
    functions: F,
    part: RangePart,
    expression: Option<Box<ScalarExpression>>,
    value: ValueOrRef,
    outcome: (Option<usize>, Option<ColumnarEngineDiagnostic>),
) -> bool {
    match expression {
        Some(expression) => reads_range(functions, part, expression.info, value, outcome),
        None => outcome == (None::<usize>, None::<ColumnarEngineDiagnostic>),
    }
}

/// What a diagnostic about a part of the range is about: its expression, or the slice itself.
pub open spec fn part_info(
    slice: SliceScalarExpression,
    part: Option<Box<ScalarExpression>>,
) -> ExpressionInfo {
    match part {
        Some(expression) => expression.info,
        None => slice.info,
    }
}

fn get_part_info<'a>(
    slice: &'a SliceScalarExpression,
    part: &'a Option<Box<ScalarExpression>>,
) -> (r: &'a ExpressionInfo)
    ensures
        *r == part_info(*slice, *part),
{
    match part {
        Some(expression) => &expression.info,
        None => &slice.info,
    }
}

/// Whether a value may be sliced so by a range that is the same for all records.
pub open spec fn slices_by<F: ExpressionFunctions>(
    functions: F,
    expression: ExpressionInfo,
    start: usize,
    length: Option<usize>,
    inner: ResolvedScalarValue,
    result: Evaluation,
) -> bool {
    match inner {
        ResolvedScalarValue::Single(value) => exists|outcome: Outcome| {
            &&& #[trigger] slices_value(functions, expression, start, length, value, outcome)
            &&& result.value == ResolvedScalarValue::Single(outcome.0)
            &&& result.notes == optional(outcome.1)
        },
        ResolvedScalarValue::Dictionary(d) => {
            &&& result.value matches ResolvedScalarValue::Dictionary(r)
            &&& d.maps_into(
                |value: ValueOrRef, outcome: Outcome|
                    slices_value(functions, expression, start, length, value, outcome),
                r,
                result.notes,
            )
        },
        ResolvedScalarValue::Table(_) => result == (Evaluation {
            value: ResolvedScalarValue::Single(ValueOrRef::Null),
            notes: seq![crate::selection::warning(expression, DiagnosticMessage::SliceOfTable)],
        }),
    }
}

/// The steps of slicing dictionaries by a range that differs between records: the parts of the range
/// are read, and then each record is sliced.
pub struct SliceRows {
    pub start_read: Dictionary,
    pub start_notes: Seq<ColumnarEngineDiagnostic>,
    pub length_read: Dictionary,
    pub length_notes: Seq<ColumnarEngineDiagnostic>,
    pub calls: MergeCalls<ColumnarEngineDiagnostic, ()>,
    pub merged: Dictionary,
}

impl SliceRows {
    /// The diagnostics of the steps.
    pub open spec fn notes(self) -> Seq<ColumnarEngineDiagnostic> {
        self.start_notes + self.length_notes + crate::dictionary_values::notes_of(
            self.calls.outcomes,
        )
    }
}

/// The dictionaries that are sliced by a range that differs between records, and the steps.
pub struct SliceParts {
    pub inner: Dictionary,
    pub start: Dictionary,
    pub length: Dictionary,
    pub rows: SliceRows,
}

/// Whether the dictionary is the value, spread over the records if it is a single one.
pub open spec fn as_dictionary(
    value: ResolvedScalarValue,
    key_type: KeyDataType,
    key_count: nat,
    dictionary: Dictionary,
) -> bool {
    match value {
        ResolvedScalarValue::Single(value) => crate::resolved_value::spread(
            value,
            key_type,
            key_count,
            dictionary,
        ),
        ResolvedScalarValue::Dictionary(d) => dictionary == d,
        ResolvedScalarValue::Table(_) => false,
    }
}

/// Whether these steps slice the dictionaries.
pub open spec fn slices_dictionaries<F: ExpressionFunctions>(
    functions: F,
    slice: SliceScalarExpression,
    inner: Dictionary,
    start: Dictionary,
    length: Dictionary,
    rows: SliceRows,
) -> bool {
    &&& start.maps_into(
        range_relation(functions, RangePart::Start, part_info(slice, slice.range_start)),
        rows.start_read,
        rows.start_notes,
    )
    &&& length.maps_into(
        range_relation(functions, RangePart::Length, part_info(slice, slice.range_length)),
        rows.length_read,
        rows.length_notes,
    )
    &&& crate::dictionary_merge::merged_by(
        merge_relation(functions, slice.info),
        seq![inner, rows.start_read, rows.length_read],
        rows.calls,
        Ok(rows.merged),
    )
}

/// Whether these steps lead from the parts of a slice to its result.
pub open spec fn slices_rows<F: ExpressionFunctions>(
    functions: F,
    slice: SliceScalarExpression,
    inner: ResolvedScalarValue,
    start: ResolvedScalarValue,
    length: ResolvedScalarValue,
    key_info: (nat, KeyDataType),
    parts: SliceParts,
    result: Evaluation,
) -> bool {
    &&& as_dictionary(inner, key_info.1, key_info.0, parts.inner)
    &&& as_dictionary(start, key_info.1, key_info.0, parts.start)
    &&& as_dictionary(length, key_info.1, key_info.0, parts.length)
    &&& slices_dictionaries(functions, slice, parts.inner, parts.start, parts.length, parts.rows)
    &&& result.value == ResolvedScalarValue::Dictionary(parts.rows.merged)
    &&& result.notes == parts.rows.notes()
}

/// An evaluation to null with one warning.
pub open spec fn null_with(
    expression: ExpressionInfo,
    message: DiagnosticMessage,
) -> Evaluation {
    Evaluation {
        value: ResolvedScalarValue::Single(ValueOrRef::Null),
        notes: seq![crate::selection::warning(expression, message)],
    }
}

/// The steps of slicing by a range that is the same for all records.
pub struct SliceSingle {
    pub start: (Option<usize>, Option<ColumnarEngineDiagnostic>),
    pub length: (Option<usize>, Option<ColumnarEngineDiagnostic>),
    pub sliced: Evaluation,
}

/// Whether these steps lead from the parts of a slice to its result.
pub open spec fn slices_single<F: ExpressionFunctions>(
    functions: F,
    slice: SliceScalarExpression,
    inner: ResolvedScalarValue,
    start: ValueOrRef,
    length: ValueOrRef,
    steps: SliceSingle,
    result: Evaluation,
) -> bool {
    &&& reads_part(functions, RangePart::Start, slice.range_start, start, steps.start)
    &&& reads_part(functions, RangePart::Length, slice.range_length, length, steps.length)
    &&& slices_by(
        functions,
        slice.info,
        match steps.start.0 {
            Some(n) => n,
            None => 0,
        },
        steps.length.0,
        inner,
        steps.sliced,
    )
    &&& result.value == steps.sliced.value
    &&& result.notes == optional(steps.start.1) + optional(steps.length.1) + steps.sliced.notes
}

/// Whether the parts of a slice (what is sliced, its start and its length) may give this result.
pub open spec fn slices<F: ExpressionFunctions>(
    functions: F,
    slice: SliceScalarExpression,
    inner: ResolvedScalarValue,
    start: ResolvedScalarValue,
    length: ResolvedScalarValue,
    result: Evaluation,
) -> bool {
    match (start, length) {
        (
            ResolvedScalarValue::Single(start_value),
            ResolvedScalarValue::Single(length_value),
        ) => exists|steps: SliceSingle|
            #[trigger] slices_single(
                functions,
                slice,
                inner,
                start_value,
                length_value,
                steps,
                result,
            ),
        _ => match ResolvedScalarValue::first_key_info(inner, start, length) {
            None => result == null_with(slice.info, DiagnosticMessage::SliceOfTable),
            Some(key_info) => if inner is Table {
                result == null_with(slice.source.info, DiagnosticMessage::SliceOfTable)
            } else if start is Table {
                result == null_with(
                    part_info(slice, slice.range_start),
                    DiagnosticMessage::RangeStartNotInteger,
                )
            } else if length is Table {
                result == null_with(
                    part_info(slice, slice.range_length),
                    DiagnosticMessage::RangeEndNotInteger,
                )
            } else {
                exists|parts: SliceParts|
                    #[trigger] slices_rows(
                        functions,
                        slice,
                        inner,
                        start,
                        length,
                        key_info,
                        parts,
                        result,
                    )
            },
        },
    }
}

pub(crate) fn null_with_warning(expression: &ExpressionInfo, message: DiagnosticMessage) -> (r: (
    ResolvedScalarValue,
    Vec<ColumnarEngineDiagnostic>,
))
    ensures
        (Evaluation { value: r.0, notes: r.1@ }) == null_with(*expression, message),
{
    let ghost said = message;
    let mut notes: Vec<ColumnarEngineDiagnostic> = Vec::new();
    notes.push(new_warning(expression, message));
    assert(notes@ =~= seq![crate::selection::warning(*expression, said)]);
    (ResolvedScalarValue::new_null(), notes)
}

pub(crate) fn push_optional(
    notes: &mut Vec<ColumnarEngineDiagnostic>,
    note: Option<ColumnarEngineDiagnostic>,
)
    ensures
        final(notes)@ == old(notes)@ + optional(note),
{
    let ghost given = note;
    push_note(notes, note);
    assert(notes@ =~= old(notes)@ + optional(given));
}

fn slice_by<F: ExpressionFunctions>(
    functions: &F,
    expression: &ExpressionInfo,
    start: usize,
    length: Option<usize>,
    inner: ResolvedScalarValue,
) -> (r: (ResolvedScalarValue, Vec<ColumnarEngineDiagnostic>))
    requires
        inner.wf(),
    ensures
        r.0.wf(),
        slices_by(
            *functions,
            *expression,
            start,
            length,
            inner,
            (Evaluation { value: r.0, notes: r.1@ }),
        ),
{
    match inner {
        ResolvedScalarValue::Single(value) => {
            let outcome = slice_value(functions, expression, start, length, &value);
            let ghost result = outcome;
            let mut notes: Vec<ColumnarEngineDiagnostic> = Vec::new();
            push_optional(&mut notes, outcome.1);
            assert(notes@ =~= optional(result.1));
            assert(slices_value(*functions, *expression, start, length, value, result));
            (ResolvedScalarValue::Single(outcome.0), notes)
        },
        ResolvedScalarValue::Dictionary(d) => {
            let ghost source = d;
            let mut notes: Vec<ColumnarEngineDiagnostic> = Vec::new();
            let transform = |value: ValueOrRef| -> (outcome: Outcome)
                ensures
                    slices_value(*functions, *expression, start, length, value, outcome),
                { slice_value(functions, expression, start, length, &value) };
            let r = d.transform_into_any(&transform, &mut notes);
            proof {
                let added = choose|added: Seq<ColumnarEngineDiagnostic>|
                    {
                        &&& notes@ == Seq::<ColumnarEngineDiagnostic>::empty() + added
                        &&& #[trigger] source.transforms_into(transform, r, added)
                    };
                assert(notes@ =~= added);
                source.lemma_maps_into(
                    transform,
                    |value: ValueOrRef, outcome: Outcome|
                        slices_value(*functions, *expression, start, length, value, outcome),
                    r,
                    added,
                );
            }
            (ResolvedScalarValue::Dictionary(r), notes)
        },
        ResolvedScalarValue::Table(_) => null_with_warning(
            expression,
            DiagnosticMessage::SliceOfTable,
        ),
    }
}

fn read_range_value<F: ExpressionFunctions>(
    functions: &F,
    part: RangePart,
    expression: &ExpressionInfo,
    value: &ValueOrRef,
) -> (r: Outcome)
    ensures
        range_relation(*functions, part, *expression)(*value, r),
{
    let range = read_range(functions, part, expression, value);
    let outcome = match (part, range.0) {
        (_, Some(n)) => ValueOrRef::Integer(n as i64),
        (RangePart::Start, None) => ValueOrRef::Integer(0),
        (RangePart::Length, None) => ValueOrRef::Null,
    };
    assert(reads_range(*functions, part, *expression, *value, range));
    (outcome, range.1)
}

/// Reads a part of the range for each record.
fn read_rows<F: ExpressionFunctions>(
    functions: &F,
    part: RangePart,
    expression: &ExpressionInfo,
    dictionary: Dictionary,
    notes: &mut Vec<ColumnarEngineDiagnostic>,
) -> (r: Dictionary)
    requires
        dictionary.wf(),
    ensures
        r.wf(),
        exists|added: Seq<ColumnarEngineDiagnostic>| {
            &&& final(notes)@ == old(notes)@ + added
            &&& #[trigger] dictionary.maps_into(
                range_relation(*functions, part, *expression),
                r,
                added,
            )
        },
{
    let ghost source = dictionary;
    let ghost start = notes@;
    let transform = |value: ValueOrRef| -> (outcome: Outcome)
        ensures
            range_relation(*functions, part, *expression)(value, outcome),
        { read_range_value(functions, part, expression, &value) };
    let r = dictionary.transform_into_any(&transform, notes);
    proof {
        let added = choose|added: Seq<ColumnarEngineDiagnostic>|
            {
                &&& notes@ == start + added
                &&& #[trigger] source.transforms_into(transform, r, added)
            };
        source.lemma_maps_into(
            transform,
            range_relation(*functions, part, *expression),
            r,
            added,
        );
    }
    r
}

/// The outcomes of reading a part of the range, as a relation.
pub open spec fn range_relation<F: ExpressionFunctions>(
    functions: F,
    part: RangePart,
    expression: ExpressionInfo,
) -> spec_fn(ValueOrRef, Outcome) -> bool {
    |value: ValueOrRef, outcome: Outcome|
        match part {
            RangePart::Start => start_outcome(functions, expression, value, outcome),
            RangePart::Length => length_outcome(functions, expression, value, outcome),
        }
}

/// The outcomes of slicing the values of a record, as a relation.
pub open spec fn merge_relation<F: ExpressionFunctions>(
    functions: F,
    expression: ExpressionInfo,
) -> spec_fn(Seq<Option<ValueOrRef>>, MergeOutcome<ColumnarEngineDiagnostic, ()>) -> bool {
    |input: Seq<Option<ValueOrRef>>, outcome: MergeOutcome<ColumnarEngineDiagnostic, ()>|
        if input.len() == 3 {
            merge_slice(functions, expression, input, outcome)
        } else {
            outcome == (Ok::<Option<ValueOrRef>, ()>(None), None::<ColumnarEngineDiagnostic>)
        }
}

fn slice_rows<F: ExpressionFunctions>(
    functions: &F,
    slice: &SliceScalarExpression,
    inner: Dictionary,
    start: Dictionary,
    length: Dictionary,
) -> (r: (Dictionary, Vec<ColumnarEngineDiagnostic>))
    requires
        inner.wf(),
        start.wf(),
        length.wf(),
    ensures
        r.0.wf(),
        exists|rows: SliceRows| #[trigger]
            slices_dictionaries(*functions, *slice, inner, start, length, rows) && rows.merged == r.0
                && r.1@ == rows.notes(),
{
    let ghost source_inner = inner;
    let ghost source_start = start;
    let ghost source_length = length;
    let mut notes: Vec<ColumnarEngineDiagnostic> = Vec::new();
    let start_read = read_rows(
        functions,
        RangePart::Start,
        get_part_info(slice, &slice.range_start),
        start,
        &mut notes,
    );
    let ghost start_notes = notes@;
    proof {
        let added = choose|added: Seq<ColumnarEngineDiagnostic>| {
            &&& notes@ == Seq::<ColumnarEngineDiagnostic>::empty() + added
            &&& #[trigger] source_start.maps_into(
                range_relation(
                    *functions,
                    RangePart::Start,
                    part_info(*slice, slice.range_start),
                ),
                start_read,
                added,
            )
        };
        assert(notes@ =~= added);
    }
    let length_read = read_rows(
        functions,
        RangePart::Length,
        get_part_info(slice, &slice.range_length),
        length,
        &mut notes,
    );
    let ghost length_notes = choose|added: Seq<ColumnarEngineDiagnostic>| {
        &&& notes@ == start_notes + added
        &&& #[trigger] source_length.maps_into(
            range_relation(*functions, RangePart::Length, part_info(*slice, slice.range_length)),
            length_read,
            added,
        )
    };
    let ghost read_start = start_read;
    let ghost read_length = length_read;
    let ghost before = notes@;
    let combine = |input: Vec<Option<ValueOrRef>>| -> (outcome: MergeOutcome<
        ColumnarEngineDiagnostic,
        (),
    >)
        ensures
            merge_relation(*functions, slice.info)(input@, outcome),
        {
            if input.len() == 3 {
                merge_values(functions, &slice.info, &input)
            } else {
                (Ok(None), None)
            }
        };
    let mut dictionaries: Vec<Dictionary> = Vec::new();
    dictionaries.push(inner);
    dictionaries.push(start_read);
    dictionaries.push(length_read);
    let ghost parts = seq![source_inner, read_start, read_length];
    assert(dictionaries@ =~= parts);
    let merged = merge(&dictionaries, &combine, &mut notes);
    let ghost calls = choose|calls: MergeCalls<ColumnarEngineDiagnostic, ()>| {
        &&& #[trigger] crate::dictionary_merge::merged_by(
            crate::dictionary_merge::answers_of(combine),
            parts,
            calls,
            merged,
        )
        &&& notes@ == before + crate::dictionary_values::notes_of(calls.outcomes)
    };
    proof {
        assert forall|
            input: Seq<Option<ValueOrRef>>,
            outcome: MergeOutcome<ColumnarEngineDiagnostic, ()>,
        |
            #[trigger] crate::dictionary_merge::answers_of(combine)(
                input,
                outcome,
            ) implies merge_relation(*functions, slice.info)(input, outcome) by {
            let values = choose|values: Vec<Option<ValueOrRef>>|
                values@ == input && #[trigger] call_ensures(combine, (values,), outcome);
        }
        lemma_merged_by(
            crate::dictionary_merge::answers_of(combine),
            merge_relation(*functions, slice.info),
            parts,
            calls,
            merged,
        );
    }
    match merged {
        Ok(merged) => {
            proof {
                let rows = SliceRows {
                    start_read: read_start,
                    start_notes,
                    length_read: read_length,
                    length_notes,
                    calls,
                    merged,
                };
                assert(slices_dictionaries(
                    *functions,
                    *slice,
                    source_inner,
                    source_start,
                    source_length,
                    rows,
                ));
                assert(notes@ =~= rows.notes());
            }
            (merged, notes)
        },
        Err(()) => {
            proof {
                let last = calls.outcomes.len() - 1;
                assert(calls.rows[last] == calls.rows.last());
                assert(merge_relation(*functions, slice.info)(
                    crate::dictionary_merge::merge_input(parts, calls.rows[last]),
                    calls.outcomes[last],
                ));
                assert(false);
            }
            (Dictionary::new_null_with_data_type(0, KeyDataType::UInt16), notes)
        },
    }
}

/// Slices what the parts of a slice expression evaluated to.
pub fn slice_resolved<F: ExpressionFunctions>(
    functions: &F,
    slice: &SliceScalarExpression,
    inner: ResolvedScalarValue,
    start: ResolvedScalarValue,
    length: ResolvedScalarValue,
) -> (r: (ResolvedScalarValue, Vec<ColumnarEngineDiagnostic>))
    requires
        inner.wf(),
        start.wf(),
        length.wf(),
    ensures
        r.0.wf(),
        slices(
            *functions,
            *slice,
            inner,
            start,
            length,
            (Evaluation { value: r.0, notes: r.1@ }),
        ),
{
    match (&start, &length) {
        (
            ResolvedScalarValue::Single(start_value),
            ResolvedScalarValue::Single(length_value),
        ) => {
            let start_read: (Option<usize>, Option<ColumnarEngineDiagnostic>) =
                match &slice.range_start {
                Some(expression) => read_range(
                    functions,
                    RangePart::Start,
                    &expression.info,
                    start_value,
                ),
                None => (None, None),
            };
            let length_read: (Option<usize>, Option<ColumnarEngineDiagnostic>) =
                match &slice.range_length {
                Some(expression) => read_range(
                    functions,
                    RangePart::Length,
                    &expression.info,
                    length_value,
                ),
                None => (None, None),
            };
            let ghost start_outcome = start_read;
            let ghost length_outcome = length_read;
            let mut notes: Vec<ColumnarEngineDiagnostic> = Vec::new();
            push_optional(&mut notes, start_read.1);
            push_optional(&mut notes, length_read.1);
            let start_index: usize = match start_read.0 {
                Some(n) => n,
                None => 0,
            };
            let (value, mut sliced_notes) = slice_by(
                functions,
                &slice.info,
                start_index,
                length_read.0,
                inner,
            );
            proof {
                let steps = SliceSingle {
                    start: start_outcome,
                    length: length_outcome,
                    sliced: Evaluation { value, notes: sliced_notes@ },
                };
                assert(notes@ + sliced_notes@ =~= optional(steps.start.1) + optional(steps.length.1)
                    + steps.sliced.notes);
                assert(slices_single(
                    *functions,
                    *slice,
                    inner,
                    *start_value,
                    *length_value,
                    steps,
                    Evaluation { value, notes: notes@ + sliced_notes@ },
                ));
            }
            notes.append(&mut sliced_notes);
            return (value, notes);
        },
        _ => {},
    }
    let (key_count, key_type) = match ResolvedScalarValue::try_get_key_info(
        &inner,
        &start,
        &length,
    ) {
        Ok(info) => info,
        Err(()) => {
            return null_with_warning(&slice.info, DiagnosticMessage::SliceOfTable);
        },
    };
    let ghost inner_value = inner;
    let ghost start_value = start;
    let ghost length_value = length;
    let inner = match inner.try_into_dictionary(key_type, key_count) {
        Ok(d) => d,
        Err(()) => {
            return null_with_warning(&slice.source.info, DiagnosticMessage::SliceOfTable);
        },
    };
    let start = match start.try_into_dictionary(key_type, key_count) {
        Ok(d) => d,
        Err(()) => {
            return null_with_warning(
                get_part_info(slice, &slice.range_start),
                DiagnosticMessage::RangeStartNotInteger,
            );
        },
    };
    let length = match length.try_into_dictionary(key_type, key_count) {
        Ok(d) => d,
        Err(()) => {
            return null_with_warning(
                get_part_info(slice, &slice.range_length),
                DiagnosticMessage::RangeEndNotInteger,
            );
        },
    };
    let ghost inner_rows = inner;
    let ghost start_rows = start;
    let ghost length_rows = length;
    let (merged, notes) = slice_rows(functions, slice, inner, start, length);
    proof {
        let rows = choose|rows: SliceRows| #[trigger]
            slices_dictionaries(*functions, *slice, inner_rows, start_rows, length_rows, rows)
                && rows.merged == merged && notes@ == rows.notes();
        let parts = SliceParts { inner: inner_rows, start: start_rows, length: length_rows, rows };
        assert(slices_rows(
            *functions,
            *slice,
            inner_value,
            start_value,
            length_value,
            (key_count as nat, key_type),
            parts,
            Evaluation { value: ResolvedScalarValue::Dictionary(merged), notes: notes@ },
        ));
    }
    (ResolvedScalarValue::Dictionary(merged), notes)
}

}
