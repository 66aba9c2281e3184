//! Evaluation of logical expressions.

use std::rc::Rc;

use arrow::array::BooleanArray;
use vstd::prelude::*;

use crate::boolean_array::{
    all_entries_are, boolean_and, boolean_array_len, boolean_not, boolean_or,
    iter_into_boolean_array,
};
use crate::columnar_records::ColumnarRecords;
use crate::dictionary::Dictionary;
use crate::dictionary_keys::{DictionaryKeyArray, KeyDataType};
use crate::dictionary_merge::{lemma_merged_by, merge, MergeCalls, MergeOutcome};
use crate::engine_diagnostic::{ColumnarEngineDiagnostic, DiagnosticMessage};
use crate::execution_context::ExecutionContext;
use crate::expressions::{
    ExpressionFunctions, ExpressionInfo, LogicalExpression, LogicalExpressionKind, ScalarExpression,
};
use crate::resolved_value::{ResolvedLogicalValue, ResolvedScalarValue};
use crate::scalars::{execute_scalar_expression, new_verbose};
use crate::selection::new_warning;
use crate::slice_expression::{push_optional, Evaluation};
use crate::value::ValueOrRef;

verus! {

/// What a logical expression evaluated to, and the diagnostics of the evaluation.
pub struct LogicalEvaluation {
    pub value: ResolvedLogicalValue,
    pub notes: Seq<ColumnarEngineDiagnostic>,
}

/// The outcome of a comparison, and what there is to say of it.
pub type Compared = (bool, Option<ColumnarEngineDiagnostic>);

/// How two values are compared.
#[derive(Debug, Clone, Copy, PartialEq, Eq, Structural)]
pub enum Comparison {
    EqualTo { case_insensitive: bool },
    GreaterThan,
    GreaterThanOrEqualTo,
    Contains { case_insensitive: bool },
    Matches,
}

/// What becomes of the answer to a comparison: an error is a warning, and the comparison false.
pub open spec fn settled(expression: ExpressionInfo, answer: Result<bool, String>) -> Compared {
    match answer {
        Ok(b) => (b, None),
        Err(text) => (
            false,
            Some(crate::selection::warning(expression, DiagnosticMessage::Text(Rc::new(text)))),
        ),
    }
}

/// What becomes of the answer to an ordering.
pub open spec fn settled_order(
    expression: ExpressionInfo,
    answer: Result<i64, String>,
    or_equal: bool,
) -> Compared {
    settled(
        expression,
        match answer {
            Ok(order) => Ok(order > 0 || (or_equal && order == 0)),
            Err(text) => Err(text),
        },
    )
}

/// Whether two values may compare so. In an ordering null is below nothing and above nothing; it is
/// at least as great as null.
pub open spec fn compares<F: ExpressionFunctions>(
    functions: F,
    expression: ExpressionInfo,
    comparison: Comparison,
    left: ValueOrRef,
    right: ValueOrRef,
    outcome: Compared,
) -> bool {
    match comparison {
        Comparison::EqualTo { case_insensitive } => exists|answer: Result<bool, String>|
            #[trigger] call_ensures(
                F::are_values_equal,
                (&functions, &left, &right, case_insensitive),
                answer,
            ) && outcome == settled(expression, answer),
        Comparison::GreaterThan => if left is Null || right is Null {
            outcome == (false, None::<ColumnarEngineDiagnostic>)
        } else {
            exists|answer: Result<i64, String>|
                #[trigger] call_ensures(F::compare_values, (&functions, &left, &right), answer)
                    && outcome == settled_order(expression, answer, false)
        },
        Comparison::GreaterThanOrEqualTo => if left is Null || right is Null {
            outcome == (left is Null && right is Null, None::<ColumnarEngineDiagnostic>)
        } else {
            exists|answer: Result<i64, String>|
                #[trigger] call_ensures(F::compare_values, (&functions, &left, &right), answer)
                    && outcome == settled_order(expression, answer, true)
        },
        Comparison::Contains { case_insensitive } => exists|answer: Result<bool, String>|
            #[trigger] call_ensures(
                F::contains,
                (&functions, &left, &right, case_insensitive),
                answer,
            ) && outcome == settled(expression, answer),
        Comparison::Matches => exists|answer: Result<bool, String>|
            #[trigger] call_ensures(F::matches, (&functions, &left, &right), answer) && outcome
                == settled(expression, answer),
    }
}

fn settle(expression: &ExpressionInfo, answer: Result<bool, String>) -> (r: Compared)
    ensures
        r == settled(*expression, answer),
{
    match answer {
        Ok(b) => (b, None),
        Err(text) => (
            false,
            Some(new_warning(expression, DiagnosticMessage::Text(Rc::new(text)))),
        ),
    }
}

/// Compares two values.
pub fn compare_values<F: ExpressionFunctions>(
    functions: &F,
    expression: &ExpressionInfo,
    comparison: Comparison,
    left: &ValueOrRef,
    right: &ValueOrRef,
) -> (r: Compared)
    ensures
        compares(*functions, *expression, comparison, *left, *right, r),
{
    match comparison {
        Comparison::EqualTo { case_insensitive } => {
            let answer = functions.are_values_equal(left, right, case_insensitive);
            assert(call_ensures(
                F::are_values_equal,
                (functions, left, right, case_insensitive),
                answer,
            ));
            settle(expression, answer)
        },
        Comparison::GreaterThan => {
            if left.is_null() || right.is_null() {
                (false, None)
            } else {
                let answer = functions.compare_values(left, right);
                assert(call_ensures(F::compare_values, (functions, left, right), answer));
                match answer {
                    Ok(order) => settle(expression, Ok(order > 0)),
                    Err(text) => settle(expression, Err(text)),
                }
            }
        },
        Comparison::GreaterThanOrEqualTo => {
            if left.is_null() || right.is_null() {
                (left.is_null() && right.is_null(), None)
            } else {
                let answer = functions.compare_values(left, right);
                assert(call_ensures(F::compare_values, (functions, left, right), answer));
                match answer {
                    Ok(order) => settle(expression, Ok(order >= 0)),
                    Err(text) => settle(expression, Err(text)),
                }
            }
        },
        Comparison::Contains { case_insensitive } => {
            let answer = functions.contains(left, right, case_insensitive);
            assert(call_ensures(
                F::contains,
                (functions, left, right, case_insensitive),
                answer,
            ));
            settle(expression, answer)
        },
        Comparison::Matches => {
            let answer = functions.matches(left, right);
            assert(call_ensures(F::matches, (functions, left, right), answer));
            settle(expression, answer)
        },
    }
}

/// The comparison of a value of a dictionary with a single value, as a relation.
pub open spec fn compares_single<F: ExpressionFunctions>(
    functions: F,
    expression: ExpressionInfo,
    comparison: Comparison,
    single: ValueOrRef,
    single_is_left: bool,
) -> spec_fn(ValueOrRef, (Option<bool>, Option<ColumnarEngineDiagnostic>)) -> bool {
    |value: ValueOrRef, outcome: (Option<bool>, Option<ColumnarEngineDiagnostic>)|
        {
            &&& outcome.0 is Some
            &&& compares(
                functions,
                expression,
                comparison,
                if single_is_left {
                    single
                } else {
                    value
                },
                if single_is_left {
                    value
                } else {
                    single
                },
                (outcome.0->0, outcome.1),
            )
        }
}

/// The comparison of the two values of a record, as a relation.
pub open spec fn compares_pair<F: ExpressionFunctions>(
    functions: F,
    expression: ExpressionInfo,
    comparison: Comparison,
) -> spec_fn(Seq<Option<ValueOrRef>>, MergeOutcome<ColumnarEngineDiagnostic, ()>) -> bool {
    |input: Seq<Option<ValueOrRef>>, outcome: MergeOutcome<ColumnarEngineDiagnostic, ()>|
        {
            &&& outcome.0 matches Ok(Some(ValueOrRef::Boolean(b)))
            &&& input.len() == 2 ==> compares(
                functions,
                expression,
                comparison,
                crate::slice_expression::value_or_null(input[0]),
                crate::slice_expression::value_or_null(input[1]),
                (b, outcome.1),
            )
        }
}

/// The truth of a record that was merged to a boolean.
pub open spec fn merged_truth(value: ValueOrRef) -> Option<bool> {
    Some(value == ValueOrRef::Boolean(true))
}

/// The two dictionaries.
pub open spec fn pair(left: Dictionary, right: Dictionary) -> Seq<Dictionary> {
    seq![left, right]
}

/// Whether two dictionaries may compare so, record by record.
pub open spec fn compares_rows<F: ExpressionFunctions>(
    functions: F,
    expression: ExpressionInfo,
    comparison: Comparison,
    left: Dictionary,
    right: Dictionary,
    entries: Seq<Option<bool>>,
    notes: Seq<ColumnarEngineDiagnostic>,
) -> bool {
    exists|calls: MergeCalls<ColumnarEngineDiagnostic, ()>| {
        &&& #[trigger] calls.covers(
            compares_pair(functions, expression, comparison),
            pair(left, right),
            left.rows().len() as int,
        )
        &&& entries == Seq::new(
            left.rows().len(),
            |i: int| merged_truth(calls.merged_row(pair(left, right), i)),
        )
        &&& notes == crate::dictionary_values::notes_of(calls.outcomes)
    }
}

/// Whether the entries of a comparison are told so: as one truth where all have it.
pub open spec fn collapses(
    data_type: KeyDataType,
    entries: Seq<Option<bool>>,
    value: ResolvedLogicalValue,
) -> bool {
    if forall|i: int| 0 <= i < entries.len() ==> #[trigger] entries[i] == Some(true) {
        value == ResolvedLogicalValue::Single(true)
    } else if forall|i: int| 0 <= i < entries.len() ==> #[trigger] entries[i] == Some(false) {
        value == ResolvedLogicalValue::Single(false)
    } else {
        &&& value matches ResolvedLogicalValue::Array { data_type: key_type, values }
        &&& key_type == data_type
        &&& crate::boolean_array::boolean_values(*values) == entries
    }
}

/// The single value that a table counts as: null.
pub open spec fn table_as_null(value: ResolvedScalarValue) -> ResolvedScalarValue {
    match value {
        ResolvedScalarValue::Table(_) => ResolvedScalarValue::Single(ValueOrRef::Null),
        _ => value,
    }
}

/// Whether two values, of which at least one is a dictionary, may compare so, record by record.
pub open spec fn compares_entries<F: ExpressionFunctions>(
    functions: F,
    expression: ExpressionInfo,
    comparison: Comparison,
    left: ResolvedScalarValue,
    right: ResolvedScalarValue,
    entries: Seq<Option<bool>>,
    notes: Seq<ColumnarEngineDiagnostic>,
) -> bool {
    match (left, right) {
        (ResolvedScalarValue::Single(l), ResolvedScalarValue::Dictionary(r)) => r.booleans_into(
            compares_single(functions, expression, comparison, l, true),
            entries,
            notes,
        ),
        (ResolvedScalarValue::Dictionary(l), ResolvedScalarValue::Single(r)) => l.booleans_into(
            compares_single(functions, expression, comparison, r, false),
            entries,
            notes,
        ),
        (ResolvedScalarValue::Dictionary(l), ResolvedScalarValue::Dictionary(r)) => compares_rows(
            functions,
            expression,
            comparison,
            l,
            r,
            entries,
            notes,
        ),
        _ => false,
    }
}

/// The key type of the left dictionary, or else of the right one.
pub open spec fn compared_key_type(
    left: ResolvedScalarValue,
    right: ResolvedScalarValue,
) -> KeyDataType {
    match (left, right) {
        (ResolvedScalarValue::Dictionary(l), _) => l.keys.key_type(),
        (_, ResolvedScalarValue::Dictionary(r)) => r.keys.key_type(),
        _ => KeyDataType::UInt16,
    }
}

/// Whether two evaluated values may compare so.
pub open spec fn compares_resolved<F: ExpressionFunctions>(
    functions: F,
    expression: ExpressionInfo,
    comparison: Comparison,
    left: ResolvedScalarValue,
    right: ResolvedScalarValue,
    result: LogicalEvaluation,
) -> bool {
    match (table_as_null(left), table_as_null(right)) {
        (ResolvedScalarValue::Single(l), ResolvedScalarValue::Single(r)) => exists|
            outcome: Compared,
        | {
            &&& #[trigger] compares(functions, expression, comparison, l, r, outcome)
            &&& result.value == ResolvedLogicalValue::Single(outcome.0)
            &&& result.notes == crate::slice_expression::optional(outcome.1)
        },
        _ => exists|entries: Seq<Option<bool>>| {
            &&& #[trigger] compares_entries(
                functions,
                expression,
                comparison,
                table_as_null(left),
                table_as_null(right),
                entries,
                result.notes,
            )
            &&& collapses(
                compared_key_type(table_as_null(left), table_as_null(right)),
                entries,
                result.value,
            )
        },
    }
}

fn collapse(data_type: KeyDataType, array: BooleanArray) -> (r: ResolvedLogicalValue)
    ensures
        collapses(data_type, crate::boolean_array::boolean_values(array), r),
{
    if all_entries_are(&array, true) {
        ResolvedLogicalValue::Single(true)
    } else if all_entries_are(&array, false) {
        ResolvedLogicalValue::Single(false)
    } else {
        ResolvedLogicalValue::Array { data_type, values: Rc::new(array) }
    }
}

fn compare_some<F: ExpressionFunctions>(
    functions: &F,
    expression: &ExpressionInfo,
    comparison: Comparison,
    single: &ValueOrRef,
    single_is_left: bool,
    value: &ValueOrRef,
) -> (r: (Option<bool>, Option<ColumnarEngineDiagnostic>))
    ensures
        compares_single(*functions, *expression, comparison, *single, single_is_left)(*value, r),
{
    let compared = if single_is_left {
        compare_values(functions, expression, comparison, single, value)
    } else {
        compare_values(functions, expression, comparison, value, single)
    };
    (Some(compared.0), compared.1)
}

fn compare_dictionary_to_single<F: ExpressionFunctions>(
    functions: &F,
    expression: &ExpressionInfo,
    comparison: Comparison,
    dictionary: &Dictionary,
    single: &ValueOrRef,
    single_is_left: bool,
) -> (r: (BooleanArray, Vec<ColumnarEngineDiagnostic>))
    requires
        dictionary.wf(),
    ensures
        dictionary.booleans_into(
            compares_single(*functions, *expression, comparison, *single, single_is_left),
            crate::boolean_array::boolean_values(r.0),
            r.1@,
        ),
{
    let mut notes: Vec<ColumnarEngineDiagnostic> = Vec::new();
    let transform = |value: ValueOrRef| -> (outcome: (
        Option<bool>,
        Option<ColumnarEngineDiagnostic>,
    ))
        ensures
            compares_single(*functions, *expression, comparison, *single, single_is_left)(
                value,
                outcome,
            ),
        { compare_some(functions, expression, comparison, single, single_is_left, &value) };
    let array = dictionary.transform_into_boolean(&transform, &mut notes);
    proof {
        let added = choose|added: Seq<ColumnarEngineDiagnostic>| {
            &&& notes@ == Seq::<ColumnarEngineDiagnostic>::empty() + added
            &&& #[trigger] dictionary.booleans_into(
                crate::dictionary_transform::boolean_answers_of(transform),
                crate::boolean_array::boolean_values(array),
                added,
            )
        };
        assert(notes@ =~= added);
        dictionary.lemma_booleans_into(
            crate::dictionary_transform::boolean_answers_of(transform),
            compares_single(*functions, *expression, comparison, *single, single_is_left),
            crate::boolean_array::boolean_values(array),
            added,
        );
    }
    (array, notes)
}

fn compare_pair<F: ExpressionFunctions>(
    functions: &F,
    expression: &ExpressionInfo,
    comparison: Comparison,
    input: &Vec<Option<ValueOrRef>>,
) -> (r: MergeOutcome<ColumnarEngineDiagnostic, ()>)
    ensures
        compares_pair(*functions, *expression, comparison)(input@, r),
{
    if input.len() != 2 {
        return (Ok(Some(ValueOrRef::Boolean(false))), None);
    }
    let null = ValueOrRef::Null;
    let left: &ValueOrRef = match &input[0] {
        Some(value) => value,
        None => &null,
    };
    let right: &ValueOrRef = match &input[1] {
        Some(value) => value,
        None => &null,
    };
    let compared = compare_values(functions, expression, comparison, left, right);
    (Ok(Some(ValueOrRef::Boolean(compared.0))), compared.1)
}

fn compare_dictionary_to_dictionary<F: ExpressionFunctions>(
    functions: &F,
    expression: &ExpressionInfo,
    comparison: Comparison,
    left: Dictionary,
    right: Dictionary,
) -> (r: (BooleanArray, Vec<ColumnarEngineDiagnostic>))
    ensures
        compares_rows(
            *functions,
            *expression,
            comparison,
            left,
            right,
            crate::boolean_array::boolean_values(r.0),
            r.1@,
        ),
{
    let ghost parts = pair(left, right);
    let mut notes: Vec<ColumnarEngineDiagnostic> = Vec::new();
    let combine = |input: Vec<Option<ValueOrRef>>| -> (outcome: MergeOutcome<
        ColumnarEngineDiagnostic,
        (),
    >)
        ensures
            compares_pair(*functions, *expression, comparison)(input@, outcome),
        { compare_pair(functions, expression, comparison, &input) };
    let mut dictionaries: Vec<Dictionary> = Vec::new();
    dictionaries.push(left);
    dictionaries.push(right);
    assert(dictionaries@ =~= parts);
    let merged = merge(&dictionaries, &combine, &mut notes);
    let ghost calls = choose|calls: MergeCalls<ColumnarEngineDiagnostic, ()>| {
        &&& #[trigger] crate::dictionary_merge::merged_by(
            crate::dictionary_merge::answers_of(combine),
            parts,
            calls,
            merged,
        )
        &&& notes@ == Seq::<ColumnarEngineDiagnostic>::empty()
            + crate::dictionary_values::notes_of(calls.outcomes)
    };
    proof {
        assert(notes@ =~= crate::dictionary_values::notes_of(calls.outcomes));
        assert forall|
            input: Seq<Option<ValueOrRef>>,
            outcome: MergeOutcome<ColumnarEngineDiagnostic, ()>,
        |
            #[trigger] crate::dictionary_merge::answers_of(combine)(
                input,
                outcome,
            ) implies compares_pair(*functions, *expression, comparison)(input, outcome) by {
            let values = choose|values: Vec<Option<ValueOrRef>>|
                values@ == input && #[trigger] call_ensures(combine, (values,), outcome);
        }
        lemma_merged_by(
            crate::dictionary_merge::answers_of(combine),
            compares_pair(*functions, *expression, comparison),
            parts,
            calls,
            merged,
        );
    }
    match merged {
        Ok(merged) => {
            let length: usize = merged.len();
            proof {
                assert forall|j: int| 0 <= j < length implies #[trigger] calls.merged_row(
                    parts,
                    j,
                ) is Boolean by {
                    assert(calls.has_call(parts, j));
                    let k = calls.call_for(parts, j);
                    assert(0 <= k < calls.rows.len());
                    assert(compares_pair(*functions, *expression, comparison)(
                        crate::dictionary_merge::merge_input(parts, calls.rows[k]),
                        calls.outcomes[k],
                    ));
                }
            }
            let mut entries: Vec<Option<bool>> = Vec::new();
            let mut i: usize = 0;
            while i < length
                invariant
                    i <= length == merged.rows().len(),
                    merged.rows().len() == parts[0].rows().len(),
                    forall|j: int|
                        0 <= j < merged.rows().len() ==> crate::dictionary::held_for(
                            #[trigger] merged.rows()[j],
                            calls.merged_row(parts, j),
                        ),
                    forall|j: int|
                        0 <= j < length ==> #[trigger] calls.merged_row(parts, j) is Boolean,
                    entries@ == Seq::new(
                        i as nat,
                        |j: int| merged_truth(calls.merged_row(parts, j)),
                    ),
                decreases length - i,
            {
                let truth: bool = match merged.get_value(i) {
                    ValueOrRef::Boolean(b) => b,
                    _ => false,
                };
                proof {
                    assert(calls.merged_row(parts, i as int) is Boolean);
                    assert(crate::dictionary::held_for(
                        merged.rows()[i as int],
                        calls.merged_row(parts, i as int),
                    ));
                }
                entries.push(Some(truth));
                i = i + 1;
                assert(entries@ =~= Seq::new(
                    i as nat,
                    |j: int| merged_truth(calls.merged_row(parts, j)),
                ));
            }
            (iter_into_boolean_array(&entries), notes)
        },
        Err(()) => {
            proof {
                let last = calls.outcomes.len() - 1;
                assert(calls.rows[last] == calls.rows.last());
                assert(compares_pair(*functions, *expression, comparison)(
                    crate::dictionary_merge::merge_input(parts, calls.rows[last]),
                    calls.outcomes[last],
                ));
                assert(false);
            }
            (iter_into_boolean_array(&Vec::new()), notes)
        },
    }
}

/// Compares two evaluated values.
pub fn compare<F: ExpressionFunctions>(
    functions: &F,
    expression: &ExpressionInfo,
    comparison: Comparison,
    left: ResolvedScalarValue,
    right: ResolvedScalarValue,
) -> (r: (ResolvedLogicalValue, Vec<ColumnarEngineDiagnostic>))
    requires
        left.wf(),
        right.wf(),
    ensures
        compares_resolved(
            *functions,
            *expression,
            comparison,
            left,
            right,
            (LogicalEvaluation { value: r.0, notes: r.1@ }),
        ),
{
    let ghost left_value = left;
    let ghost right_value = right;
    let left = match left {
        ResolvedScalarValue::Table(_) => ResolvedScalarValue::new_null(),
        other => other,
    };
    let right = match right {
        ResolvedScalarValue::Table(_) => ResolvedScalarValue::new_null(),
        other => other,
    };
    let (data_type, array, notes) = match (left, right) {
        (ResolvedScalarValue::Single(l), ResolvedScalarValue::Single(r)) => {
            let compared = compare_values(functions, expression, comparison, &l, &r);
            let ghost outcome = compared;
            let mut notes: Vec<ColumnarEngineDiagnostic> = Vec::new();
            push_optional(&mut notes, compared.1);
            proof {
                assert(notes@ =~= crate::slice_expression::optional(outcome.1));
                assert(compares(*functions, *expression, comparison, l, r, outcome));
            }
            return (ResolvedLogicalValue::Single(compared.0), notes);
        },
        (ResolvedScalarValue::Single(l), ResolvedScalarValue::Dictionary(r)) => {
            let data_type: KeyDataType = r.keys.data_type();
            let (array, notes) = compare_dictionary_to_single(
                functions,
                expression,
                comparison,
                &r,
                &l,
                true,
            );
            (data_type, array, notes)
        },
        (ResolvedScalarValue::Dictionary(l), ResolvedScalarValue::Single(r)) => {
            let data_type: KeyDataType = l.keys.data_type();
            let (array, notes) = compare_dictionary_to_single(
                functions,
                expression,
                comparison,
                &l,
                &r,
                false,
            );
            (data_type, array, notes)
        },
        (ResolvedScalarValue::Dictionary(l), ResolvedScalarValue::Dictionary(r)) => {
            let data_type: KeyDataType = l.keys.data_type();
            let (array, notes) = compare_dictionary_to_dictionary(
                functions,
                expression,
                comparison,
                l,
                r,
            );
            (data_type, array, notes)
        },
        _ => {
            assert(false);
            return (ResolvedLogicalValue::Single(false), Vec::new());
        },
    };
    let ghost entries = crate::boolean_array::boolean_values(array);
    let value = collapse(data_type, array);
    let ghost result = LogicalEvaluation { value, notes: notes@ };
    assert(compares_entries(
        *functions,
        *expression,
        comparison,
        table_as_null(left_value),
        table_as_null(right_value),
        entries,
        result.notes,
    ));
    (value, notes)
}

/// Whether a value may be taken for a truth so: a boolean is one, and any other value is converted.
/// One that cannot be converted has none, with a warning.
pub open spec fn converts<F: ExpressionFunctions>(
    functions: F,
    expression: ExpressionInfo,
    value: ValueOrRef,
    outcome: (Option<bool>, Option<ColumnarEngineDiagnostic>),
) -> bool {
    match value {
        ValueOrRef::Boolean(b) => outcome == (Some(b), None::<ColumnarEngineDiagnostic>),
        _ => exists|truth: Option<bool>| {
            &&& #[trigger] call_ensures(F::convert_to_bool, (&functions, &value), truth)
            &&& outcome.0 == truth
            &&& outcome.1 == (if truth is Some {
                None
            } else {
                Some(
                    crate::selection::warning(
                        expression,
                        DiagnosticMessage::TypeNotBoolean(value.value_type()),
                    ),
                )
            })
        },
    }
}

/// The truth of a value of a dictionary, as a relation. Null has none.
pub open spec fn converts_entry<F: ExpressionFunctions>(
    functions: F,
    expression: ExpressionInfo,
) -> spec_fn(ValueOrRef, (Option<bool>, Option<ColumnarEngineDiagnostic>)) -> bool {
    |value: ValueOrRef, outcome: (Option<bool>, Option<ColumnarEngineDiagnostic>)|
        if value is Null {
            outcome == (None::<bool>, None::<ColumnarEngineDiagnostic>)
        } else {
            converts(functions, expression, value, outcome)
        }
}

/// Whether an evaluated value may be taken for a truth so. A column of booleans is taken as it is; a
/// single value that cannot be converted, and a table, are false.
pub open spec fn truths<F: ExpressionFunctions>(
    functions: F,
    expression: ExpressionInfo,
    value: ResolvedScalarValue,
    result: LogicalEvaluation,
) -> bool {
    match value {
        ResolvedScalarValue::Single(single) => exists|
            outcome: (Option<bool>, Option<ColumnarEngineDiagnostic>),
        | {
            &&& #[trigger] converts(functions, expression, single, outcome)
            &&& result.value == ResolvedLogicalValue::Single(outcome.0 == Some(true))
            &&& result.notes == crate::slice_expression::optional(outcome.1)
        },
        ResolvedScalarValue::Dictionary(d) => match d.keys {
            DictionaryKeyArray::BooleanArray { data_type, values } => {
                &&& result.value == (ResolvedLogicalValue::Array { data_type, values })
                &&& result.notes == Seq::<ColumnarEngineDiagnostic>::empty()
            },
            _ => {
                &&& result.value matches ResolvedLogicalValue::Array { data_type, values }
                &&& data_type == d.keys.key_type()
                &&& d.booleans_into(
                    converts_entry(functions, expression),
                    crate::boolean_array::boolean_values(*values),
                    result.notes,
                )
            },
        },
        ResolvedScalarValue::Table(_) => {
            &&& result.value == ResolvedLogicalValue::Single(false)
            &&& result.notes == seq![
                crate::selection::warning(expression, DiagnosticMessage::TableNotBoolean),
            ]
        },
    }
}

fn convert<F: ExpressionFunctions>(
    functions: &F,
    expression: &ExpressionInfo,
    value: &ValueOrRef,
) -> (r: (Option<bool>, Option<ColumnarEngineDiagnostic>))
    ensures
        converts(*functions, *expression, *value, r),
{
    match value {
        ValueOrRef::Boolean(b) => (Some(*b), None),
        _ => {
            let truth = functions.convert_to_bool(value);
            assert(call_ensures(F::convert_to_bool, (functions, value), truth));
            let note = if truth.is_some() {
                None
            } else {
                Some(
                    new_warning(
                        expression,
                        DiagnosticMessage::TypeNotBoolean(value.get_value_type()),
                    ),
                )
            };
            (truth, note)
        },
    }
}

fn convert_entry<F: ExpressionFunctions>(
    functions: &F,
    expression: &ExpressionInfo,
    value: &ValueOrRef,
) -> (r: (Option<bool>, Option<ColumnarEngineDiagnostic>))
    ensures
        converts_entry(*functions, *expression)(*value, r),
{
    if value.is_null() {
        (None, None)
    } else {
        convert(functions, expression, value)
    }
}

/// Takes an evaluated value for a truth.
pub fn truth_resolved<F: ExpressionFunctions>(
    functions: &F,
    expression: &ExpressionInfo,
    value: ResolvedScalarValue,
) -> (r: (ResolvedLogicalValue, Vec<ColumnarEngineDiagnostic>))
    requires
        value.wf(),
    ensures
        truths(*functions, *expression, value, (LogicalEvaluation { value: r.0, notes: r.1@ })),
{
    let mut notes: Vec<ColumnarEngineDiagnostic> = Vec::new();
    match value {
        ResolvedScalarValue::Single(single) => {
            let converted = convert(functions, expression, &single);
            let ghost outcome = converted;
            push_optional(&mut notes, converted.1);
            proof {
                assert(notes@ =~= crate::slice_expression::optional(outcome.1));
                assert(converts(*functions, *expression, single, outcome));
            }
            let truth: bool = match converted.0 {
                Some(b) => b,
                None => false,
            };
            (ResolvedLogicalValue::Single(truth), notes)
        },
        ResolvedScalarValue::Dictionary(d) => {
            if let DictionaryKeyArray::BooleanArray { data_type, values } = &d.keys {
                return (
                    ResolvedLogicalValue::Array { data_type: *data_type, values: values.clone() },
                    notes,
                );
            }
            let transform = |value: ValueOrRef| -> (outcome: (
                Option<bool>,
                Option<ColumnarEngineDiagnostic>,
            ))
                ensures
                    converts_entry(*functions, *expression)(value, outcome),
                { convert_entry(functions, expression, &value) };
            let array = d.transform_into_boolean(&transform, &mut notes);
            proof {
                let added = choose|added: Seq<ColumnarEngineDiagnostic>| {
                    &&& notes@ == Seq::<ColumnarEngineDiagnostic>::empty() + added
                    &&& #[trigger] d.booleans_into(
                        crate::dictionary_transform::boolean_answers_of(transform),
                        crate::boolean_array::boolean_values(array),
                        added,
                    )
                };
                assert(notes@ =~= added);
                d.lemma_booleans_into(
                    crate::dictionary_transform::boolean_answers_of(transform),
                    converts_entry(*functions, *expression),
                    crate::boolean_array::boolean_values(array),
                    added,
                );
            }
            (
                ResolvedLogicalValue::Array {
                    data_type: d.keys.data_type(),
                    values: Rc::new(array),
                },
                notes,
            )
        },
        ResolvedScalarValue::Table(_) => {
            notes.push(new_warning(expression, DiagnosticMessage::TableNotBoolean));
            assert(notes@ =~= seq![
                crate::selection::warning(*expression, DiagnosticMessage::TableNotBoolean),
            ]);
            (ResolvedLogicalValue::Single(false), notes)
        },
    }
}

/// Whether the value is the negation of another.
pub open spec fn negates(inner: ResolvedLogicalValue, value: ResolvedLogicalValue) -> bool {
    match inner {
        ResolvedLogicalValue::Single(b) => value == ResolvedLogicalValue::Single(!b),
        ResolvedLogicalValue::Array { data_type, values } => {
            &&& value matches ResolvedLogicalValue::Array { data_type: key_type, values: negated }
            &&& key_type == data_type
            &&& crate::boolean_array::boolean_values(*negated) == crate::boolean_array::entries_not(
                crate::boolean_array::boolean_values(*values),
            )
        },
    }
}

/// Whether a value has the truth for all records, told as one or entry by entry.
pub open spec fn is_all(value: ResolvedLogicalValue, truth: bool) -> bool {
    match value {
        ResolvedLogicalValue::Single(b) => b == truth,
        ResolvedLogicalValue::Array { values, .. } => {
            let entries = crate::boolean_array::boolean_values(*values);
            forall|i: int| 0 <= i < entries.len() ==> #[trigger] entries[i] == Some(truth)
        },
    }
}

/// Whether two values join so, in a conjunction or, if `or` holds, in a disjunction. The right value
/// is not evaluated where the left one decides. Columns of unlike lengths join to false.
pub open spec fn joins(
    or: bool,
    left: ResolvedLogicalValue,
    right: Option<ResolvedLogicalValue>,
    value: ResolvedLogicalValue,
) -> bool {
    if is_all(left, or) {
        &&& right is None
        &&& value == ResolvedLogicalValue::Single(or)
    } else {
        &&& right matches Some(right)
        &&& match (left, right) {
            (ResolvedLogicalValue::Single(_), _) => value == right,
            (_, ResolvedLogicalValue::Single(b)) => if b == or {
                value == ResolvedLogicalValue::Single(or)
            } else {
                value == left
            },
            (
                ResolvedLogicalValue::Array { values: l, .. },
                ResolvedLogicalValue::Array { data_type, values: r },
            ) => {
                let left_entries = crate::boolean_array::boolean_values(*l);
                let right_entries = crate::boolean_array::boolean_values(*r);
                if left_entries.len() != right_entries.len() {
                    value == ResolvedLogicalValue::Single(false)
                } else {
                    &&& value matches ResolvedLogicalValue::Array {
                        data_type: key_type,
                        values: joined,
                    }
                    &&& key_type == data_type
                    &&& crate::boolean_array::boolean_values(*joined) == (if or {
                        crate::boolean_array::entries_or(left_entries, right_entries)
                    } else {
                        crate::boolean_array::entries_and(left_entries, right_entries)
                    })
                }
            },
        }
    }
}

fn all_are(value: &ResolvedLogicalValue, truth: bool) -> (r: bool)
    ensures
        r == is_all(*value, truth),
{
    match value {
        ResolvedLogicalValue::Single(b) => *b == truth,
        ResolvedLogicalValue::Array { values, .. } => {
            all_entries_are(values, truth)
        },
    }
}

fn negate(inner: ResolvedLogicalValue) -> (r: ResolvedLogicalValue)
    ensures
        negates(inner, r),
{
    match inner {
        ResolvedLogicalValue::Single(b) => ResolvedLogicalValue::Single(!b),
        ResolvedLogicalValue::Array { data_type, values } => ResolvedLogicalValue::Array {
            data_type,
            values: Rc::new(boolean_not(&values)),
        },
    }
}

fn join(or: bool, left: ResolvedLogicalValue, right: ResolvedLogicalValue) -> (r:
    ResolvedLogicalValue)
    requires
        !is_all(left, or),
    ensures
        joins(or, left, Some(right), r),
{
    match left {
        ResolvedLogicalValue::Single(_) => right,
        ResolvedLogicalValue::Array { data_type: left_type, values: l } => match right {
            ResolvedLogicalValue::Single(b) => {
                if b == or {
                    ResolvedLogicalValue::Single(or)
                } else {
                    ResolvedLogicalValue::Array { data_type: left_type, values: l }
                }
            },
            ResolvedLogicalValue::Array { data_type, values: r } => {
                if boolean_array_len(&l) != boolean_array_len(&r) {
                    ResolvedLogicalValue::Single(false)
                } else if or {
                    ResolvedLogicalValue::Array { data_type, values: Rc::new(boolean_or(&l, &r)) }
                } else {
                    ResolvedLogicalValue::Array { data_type, values: Rc::new(boolean_and(&l, &r)) }
                }
            },
        },
    }
}

/// The parts of a logical expression of a scalar one, evaluated.
pub struct TruthEvaluations {
    pub scalar: Evaluation,
    pub truth: LogicalEvaluation,
}

/// The parts of a comparison, evaluated.
pub struct CompareEvaluations {
    pub left: Evaluation,
    pub right: Evaluation,
    pub compared: LogicalEvaluation,
}

/// The parts of a conjunction or disjunction, evaluated as far as they were.
pub struct JoinEvaluations {
    pub left: LogicalEvaluation,
    pub right: Option<LogicalEvaluation>,
}

impl JoinEvaluations {
    /// The value of the right part.
    pub open spec fn right_value(self) -> Option<ResolvedLogicalValue> {
        match self.right {
            Some(right) => Some(right.value),
            None => None,
        }
    }

    /// The diagnostics of the parts.
    pub open spec fn notes(self) -> Seq<ColumnarEngineDiagnostic> {
        match self.right {
            Some(right) => self.left.notes + right.notes,
            None => self.left.notes,
        }
    }
}

/// Whether a logical expression may evaluate so. Its value is told last.
pub open spec fn logical_evaluates<F: ExpressionFunctions, R: ColumnarRecords>(
    context: ExecutionContext<'_, F, R>,
    expression: LogicalExpression,
    result: LogicalEvaluation,
) -> bool
    decreases expression,
{
    &&& result.notes.len() > 0
    &&& result.notes.last() == crate::scalars::verbose(
        expression.info,
        DiagnosticMessage::EvaluatedLogical(result.value),
    )
    &&& logical_kind_evaluates(
        context,
        expression.kind,
        LogicalEvaluation { value: result.value, notes: result.notes.drop_last() },
    )
}

/// Whether the comparison of two expressions may evaluate so.
pub open spec fn comparison_evaluates<F: ExpressionFunctions, R: ColumnarRecords>(
    context: ExecutionContext<'_, F, R>,
    info: ExpressionInfo,
    comparison: Comparison,
    left: ScalarExpression,
    right: ScalarExpression,
    result: LogicalEvaluation,
) -> bool {
    exists|parts: CompareEvaluations| {
        &&& crate::scalars::evaluates(context, left, parts.left)
        &&& crate::scalars::evaluates(context, right, parts.right)
        &&& #[trigger] compares_evaluated(*context.functions, info, comparison, parts)
        &&& result.value == parts.compared.value
        &&& result.notes == parts.left.notes + parts.right.notes + parts.compared.notes
    }
}

/// Whether two evaluated expressions compare so.
pub open spec fn compares_evaluated<F: ExpressionFunctions>(
    functions: F,
    info: ExpressionInfo,
    comparison: Comparison,
    parts: CompareEvaluations,
) -> bool {
    compares_resolved(
        functions,
        info,
        comparison,
        parts.left.value,
        parts.right.value,
        parts.compared,
    )
}

/// Whether an evaluated expression has this truth.
pub open spec fn truths_evaluated<F: ExpressionFunctions>(
    functions: F,
    info: ExpressionInfo,
    parts: TruthEvaluations,
) -> bool {
    truths(functions, info, parts.scalar.value, parts.truth)
}

/// Whether two evaluated expressions join so.
pub open spec fn joins_evaluated(
    or: bool,
    parts: JoinEvaluations,
    value: ResolvedLogicalValue,
) -> bool {
    joins(or, parts.left.value, parts.right_value(), value)
}

/// Whether a kind of logical expression may evaluate so.
pub open spec fn logical_kind_evaluates<F: ExpressionFunctions, R: ColumnarRecords>(
    context: ExecutionContext<'_, F, R>,
    kind: LogicalExpressionKind,
    result: LogicalEvaluation,
) -> bool
    decreases kind,
{
    match kind {
        LogicalExpressionKind::Scalar(scalar) => exists|parts: TruthEvaluations| {
            &&& crate::scalars::evaluates(context, scalar, parts.scalar)
            &&& #[trigger] truths_evaluated(*context.functions, scalar.info, parts)
            &&& result.value == parts.truth.value
            &&& result.notes == parts.scalar.notes + parts.truth.notes
        },
        LogicalExpressionKind::EqualTo { info, left, right, case_insensitive } =>
            comparison_evaluates(
            context,
            info,
            Comparison::EqualTo { case_insensitive },
            left,
            right,
            result,
        ),
        LogicalExpressionKind::GreaterThan { info, left, right } => comparison_evaluates(
            context,
            info,
            Comparison::GreaterThan,
            left,
            right,
            result,
        ),
        LogicalExpressionKind::GreaterThanOrEqualTo { info, left, right } => comparison_evaluates(
            context,
            info,
            Comparison::GreaterThanOrEqualTo,
            left,
            right,
            result,
        ),
        LogicalExpressionKind::Contains { info, haystack, needle, case_insensitive } =>
            comparison_evaluates(
            context,
            info,
            Comparison::Contains { case_insensitive },
            haystack,
            needle,
            result,
        ),
        LogicalExpressionKind::Matches { info, haystack, pattern } => comparison_evaluates(
            context,
            info,
            Comparison::Matches,
            haystack,
            pattern,
            result,
        ),
        LogicalExpressionKind::Not(inner) => exists|evaluated: LogicalEvaluation| {
            &&& logical_evaluates(context, *inner, evaluated)
            &&& #[trigger] negates(evaluated.value, result.value)
            &&& result.notes == evaluated.notes
        },
        LogicalExpressionKind::And(left, right) => exists|parts: JoinEvaluations| {
            &&& logical_evaluates(context, *left, parts.left)
            &&& parts.right matches Some(evaluated) ==> logical_evaluates(
                context,
                *right,
                evaluated,
            )
            &&& #[trigger] joins_evaluated(false, parts, result.value)
            &&& result.notes == parts.notes()
        },
        LogicalExpressionKind::Or(left, right) => exists|parts: JoinEvaluations| {
            &&& logical_evaluates(context, *left, parts.left)
            &&& parts.right matches Some(evaluated) ==> logical_evaluates(
                context,
                *right,
                evaluated,
            )
            &&& #[trigger] joins_evaluated(true, parts, result.value)
            &&& result.notes == parts.notes()
        },
    }
}

fn execute_comparison<F: ExpressionFunctions, R: ColumnarRecords>(
    context: &ExecutionContext<'_, F, R>,
    info: &ExpressionInfo,
    comparison: Comparison,
    left: &ScalarExpression,
    right: &ScalarExpression,
) -> (r: (ResolvedLogicalValue, Vec<ColumnarEngineDiagnostic>))
    requires
        context.variables.wf(),
    ensures
        comparison_evaluates(
            *context,
            *info,
            comparison,
            *left,
            *right,
            (LogicalEvaluation { value: r.0, notes: r.1@ }),
        ),
{
    let (left_value, mut notes) = execute_scalar_expression(context, left);
    let ghost left_evaluation = Evaluation { value: left_value, notes: notes@ };
    let (right_value, mut right_notes) = execute_scalar_expression(context, right);
    let ghost right_evaluation = Evaluation { value: right_value, notes: right_notes@ };
    let (value, mut compared_notes) = compare(
        context.functions,
        info,
        comparison,
        left_value,
        right_value,
    );
    let ghost parts = CompareEvaluations {
        left: left_evaluation,
        right: right_evaluation,
        compared: LogicalEvaluation { value, notes: compared_notes@ },
    };
    assert(compares_evaluated(*context.functions, *info, comparison, parts));
    notes.append(&mut right_notes);
    notes.append(&mut compared_notes);
    (value, notes)
}

/// Evaluates a logical expression.
pub fn execute_logical_expression<F: ExpressionFunctions, R: ColumnarRecords>(
    context: &ExecutionContext<'_, F, R>,
    expression: &LogicalExpression,
) -> (r: (ResolvedLogicalValue, Vec<ColumnarEngineDiagnostic>))
    requires
        context.variables.wf(),
    ensures
        logical_evaluates(
            *context,
            *expression,
            (LogicalEvaluation { value: r.0, notes: r.1@ }),
        ),
    decreases *expression,
{
    let (value, mut notes) = match &expression.kind {
        LogicalExpressionKind::Scalar(scalar) => {
            let (evaluated, mut notes) = execute_scalar_expression(context, scalar);
            let ghost evaluation = Evaluation { value: evaluated, notes: notes@ };
            let (value, mut truth_notes) = truth_resolved(
                context.functions,
                &scalar.info,
                evaluated,
            );
            let ghost parts = TruthEvaluations {
                scalar: evaluation,
                truth: LogicalEvaluation { value, notes: truth_notes@ },
            };
            assert(truths_evaluated(*context.functions, scalar.info, parts));
            notes.append(&mut truth_notes);
            (value, notes)
        },
        LogicalExpressionKind::EqualTo { info, left, right, case_insensitive } =>
            execute_comparison(
            context,
            info,
            Comparison::EqualTo { case_insensitive: *case_insensitive },
            left,
            right,
        ),
        LogicalExpressionKind::GreaterThan { info, left, right } => execute_comparison(
            context,
            info,
            Comparison::GreaterThan,
            left,
            right,
        ),
        LogicalExpressionKind::GreaterThanOrEqualTo { info, left, right } => execute_comparison(
            context,
            info,
            Comparison::GreaterThanOrEqualTo,
            left,
            right,
        ),
        LogicalExpressionKind::Contains { info, haystack, needle, case_insensitive } =>
            execute_comparison(
            context,
            info,
            Comparison::Contains { case_insensitive: *case_insensitive },
            haystack,
            needle,
        ),
        LogicalExpressionKind::Matches { info, haystack, pattern } => execute_comparison(
            context,
            info,
            Comparison::Matches,
            haystack,
            pattern,
        ),
        LogicalExpressionKind::Not(inner) => {
            let (evaluated, notes) = execute_logical_expression(context, inner);
            let ghost evaluation = LogicalEvaluation { value: evaluated, notes: notes@ };
            let value = negate(evaluated);
            let ghost result = LogicalEvaluation { value, notes: notes@ };
            assert(negates(evaluation.value, result.value));
            (value, notes)
        },
        LogicalExpressionKind::And(..) => execute_join(context, &expression.kind),
        LogicalExpressionKind::Or(..) => execute_join(context, &expression.kind),
    };
    let ghost own = notes@;
    assert(logical_kind_evaluates(
        *context,
        expression.kind,
        LogicalEvaluation { value, notes: own },
    ));
    notes.push(
        new_verbose(&expression.info, DiagnosticMessage::EvaluatedLogical(value.clone())),
    );
    assert(notes@.drop_last() =~= own);
    (value, notes)
}

/// Evaluates a conjunction or a disjunction.
fn execute_join<F: ExpressionFunctions, R: ColumnarRecords>(
    context: &ExecutionContext<'_, F, R>,
    kind: &LogicalExpressionKind,
) -> (r: (ResolvedLogicalValue, Vec<ColumnarEngineDiagnostic>))
    requires
        context.variables.wf(),
        kind is And || kind is Or,
    ensures
        logical_kind_evaluates(
            *context,
            *kind,
            (LogicalEvaluation { value: r.0, notes: r.1@ }),
        ),
    decreases *kind,
{
    let (or, left, right) = match kind {
        LogicalExpressionKind::And(left, right) => (false, left, right),
        LogicalExpressionKind::Or(left, right) => (true, left, right),
        _ => {
            assert(false);
            return (ResolvedLogicalValue::Single(false), Vec::new());
        },
    };
    let (left_value, mut notes) = execute_logical_expression(context, left);
    let ghost left_evaluation = LogicalEvaluation { value: left_value, notes: notes@ };
    if all_are(&left_value, or) {
        let value = ResolvedLogicalValue::Single(or);
        let ghost parts = JoinEvaluations { left: left_evaluation, right: None };
        let ghost result = LogicalEvaluation { value, notes: notes@ };
        assert(joins_evaluated(or, parts, result.value));
        return (value, notes);
    }
    let (right_value, mut right_notes) = execute_logical_expression(context, right);
    let ghost right_evaluation = LogicalEvaluation { value: right_value, notes: right_notes@ };
    let value = join(or, left_value, right_value);
    let ghost parts = JoinEvaluations { left: left_evaluation, right: Some(right_evaluation) };
    notes.append(&mut right_notes);
    let ghost result = LogicalEvaluation { value, notes: notes@ };
    assert(joins_evaluated(or, parts, result.value));
    (value, notes)
}

/// The truth of a record.
pub open spec fn truth_of(value: ResolvedLogicalValue, record: int) -> Option<bool> {
    match value {
        ResolvedLogicalValue::Single(b) => Some(b),
        ResolvedLogicalValue::Array { values, .. } => crate::boolean_array::boolean_values(
            *values,
        )[record],
    }
}

/// Whether a value tells the truth of that many records, or one of all.
pub open spec fn tells(value: ResolvedLogicalValue, count: nat) -> bool {
    match value {
        ResolvedLogicalValue::Single(_) => true,
        ResolvedLogicalValue::Array { values, .. } => crate::boolean_array::boolean_values(
            *values,
        ).len() == count,
    }
}

/// A conjunction is true of a record exactly if both parts are, and a disjunction if either is,
/// wherever both are true or false of it.
pub proof fn lemma_joined_truth(
    or: bool,
    left: ResolvedLogicalValue,
    right: ResolvedLogicalValue,
    value: ResolvedLogicalValue,
    count: nat,
    record: int,
)
    requires
        joins(or, left, Some(right), value),
        tells(left, count),
        tells(right, count),
        0 <= record < count,
        truth_of(left, record) is Some,
        truth_of(right, record) is Some,
    ensures
        truth_of(value, record) == Some(
            if or {
                truth_of(left, record)->0 || truth_of(right, record)->0
            } else {
                truth_of(left, record)->0 && truth_of(right, record)->0
            },
        ),
{
}

/// A left part that decides for every record makes the right part needless.
pub proof fn lemma_left_decides(
    or: bool,
    left: ResolvedLogicalValue,
    right: Option<ResolvedLogicalValue>,
    value: ResolvedLogicalValue,
    record: int,
)
    requires
        joins(or, left, right, value),
        is_all(left, or),
    ensures
        right is None,
        truth_of(value, record) == Some(or),
{
}

/// Negating a value twice gives the truths that it had.
pub proof fn lemma_negated_twice(
    value: ResolvedLogicalValue,
    once: ResolvedLogicalValue,
    twice: ResolvedLogicalValue,
    count: nat,
    record: int,
)
    requires
        negates(value, once),
        negates(once, twice),
        tells(value, count),
        0 <= record < count,
    ensures
        tells(twice, count),
        truth_of(twice, record) == truth_of(value, record),
{
}

}
