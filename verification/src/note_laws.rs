//! What is told of values that cannot be used, and of records that go.

use std::rc::Rc;

use vstd::prelude::*;

use crate::columnar_records::ColumnarRecords;
use crate::engine::{ColumnarRecordsFactory, DataExpression};
use crate::engine_diagnostic::{ColumnarEngineDiagnostic, DiagnosticMessage};
use crate::expressions::{ExpressionFunctions, ExpressionInfo, PipelineConstant};
use crate::logical_expressions::{Compared, Comparison};
use crate::selection::Outcome;
use crate::value::ValueOrRef;

verus! {

/// Whether a note, if there is one, is a warning about the expression.
pub open spec fn warns(note: Option<ColumnarEngineDiagnostic>, expression: ExpressionInfo) -> bool {
    note matches Some(told) ==> told.diagnostic_level is Warn && told.expression == expression
}

/// There is a warning exactly if a key is used on what is no map, and if an index is used on what is
/// no array or has no such element.
pub proof fn lemma_selecting_warns(
    selector: ExpressionInfo,
    key: Rc<String>,
    index: i64,
    value: ValueOrRef,
)
    ensures
        (crate::selection::key_outcome(selector, key, value).1 is Some) == !(value is MapValue),
        warns(crate::selection::key_outcome(selector, key, value).1, selector),
        (crate::selection::index_outcome(selector, index, value).1 is None) == (value is Array && (
        if index < 0 {
            index + crate::scalar_laws::size(value->Array_0) >= 0
        } else {
            index < crate::scalar_laws::size(value->Array_0)
        })),
        warns(crate::selection::index_outcome(selector, index, value).1, selector),
{
    if let ValueOrRef::Array(array) = value {
        assert(array.elements().len() == crate::scalar_laws::size(array));
    }
}

/// There is a warning exactly if the length is asked for of what is no text, no array and no map.
pub proof fn lemma_length_warns(expression: ExpressionInfo, value: ValueOrRef)
    ensures
        (crate::scalars::length_of(expression, value).1 is None) == (value is String
            || value is Array || value is MapValue),
        warns(crate::scalars::length_of(expression, value).1, expression),
{
}

/// A comparison that fails is false, with a warning; one that does not has none.
pub proof fn lemma_failed_comparison_warns<F: ExpressionFunctions>(
    functions: F,
    expression: ExpressionInfo,
    comparison: Comparison,
    left: ValueOrRef,
    right: ValueOrRef,
    outcome: Compared,
)
    requires
        crate::logical_expressions::compares(
            functions,
            expression,
            comparison,
            left,
            right,
            outcome,
        ),
    ensures
        outcome.1 is Some ==> !outcome.0,
        warns(outcome.1, expression),
        (comparison is GreaterThan || comparison is GreaterThanOrEqualTo) && (left is Null
            || right is Null) ==> outcome.1 is None,
{
}

/// A slice is null exactly if something is told of why: an error if the range is refused, and a
/// warning if the value can have no slice.
pub proof fn lemma_missing_slice_is_told<F: ExpressionFunctions>(
    functions: F,
    expression: ExpressionInfo,
    start: usize,
    length: Option<usize>,
    value: ValueOrRef,
    outcome: Outcome,
)
    requires
        crate::slice_expression::slices_value(
            functions,
            expression,
            start,
            length,
            value,
            outcome,
        ),
    ensures
        (outcome.1 is Some) == (outcome.0 is Null),
        outcome.1 matches Some(told) ==> told.expression == expression && (if value is String
            || value is Array {
            told.diagnostic_level is Error
        } else {
            told.diagnostic_level is Warn
        }),
{
}

/// A value that converts to no truth is told of in a warning, and only such a value is.
pub proof fn lemma_failed_conversion_warns<F: ExpressionFunctions>(
    functions: F,
    expression: ExpressionInfo,
    value: ValueOrRef,
    outcome: (Option<bool>, Option<ColumnarEngineDiagnostic>),
)
    requires
        crate::logical_expressions::converts(functions, expression, value, outcome),
    ensures
        (outcome.1 is Some) == (outcome.0 is None),
        warns(outcome.1, expression),
        value is Boolean ==> outcome.1 is None,
{
}

/// A step adds to what has been told. One that drops records tells last how many; one that keeps all of
/// them tells last that it does, for those who look closely.
pub proof fn lemma_step_tells<F: ExpressionFunctions, T: ColumnarRecordsFactory>(
    functions: F,
    constants: Seq<PipelineConstant>,
    factory: &T,
    expression: DataExpression,
    before: crate::engine::RunState<T::Batches, T::Records>,
    after: crate::engine::RunState<T::Batches, T::Records>,
)
    requires
        crate::engine::continues(functions, constants, factory, expression, before, after),
    ensures
        before.notes.is_prefix_of(after.notes),
        expression is Discard ==> after.notes.len() > 0 && after.notes.last().expression
            == expression->Discard_info && {
            ||| after.notes.last().diagnostic_level is Verbose
                && after.notes.last().message is AllRecordsIncluded && after.dropped
                == before.dropped && after.count == before.count
            ||| after.notes.last().diagnostic_level is Info && (
            after.notes.last().message matches DiagnosticMessage::RecordsDropped(gone)
                && after.dropped == before.dropped + gone && after.count == before.count - gone && (
            after.records.record_count() <= before.count ==> gone == before.count
                - after.records.record_count()))
        },
{
    match expression {
        DataExpression::Discard { info, predicate: Some(predicate) } => {
            let evaluation = choose|evaluation: crate::logical_expressions::LogicalEvaluation|
                #[trigger] crate::engine::predicate_evaluates(
                    functions,
                    constants,
                    before.records,
                    *predicate,
                    evaluation,
                ) && match evaluation.value {
                    crate::resolved_value::ResolvedLogicalValue::Single(stay) => stay && after.notes
                        == (before.notes + evaluation.notes).push(
                        crate::engine::all_included(info),
                    ),
                    crate::resolved_value::ResolvedLogicalValue::Array { .. } => after.notes == (
                    before.notes + evaluation.notes).push(
                        crate::engine::some_dropped(
                            info,
                            crate::engine::gone(before.count, after.records.record_count()),
                        ),
                    ),
                };
            assert(before.notes.is_prefix_of(after.notes));
        },
        DataExpression::Discard { predicate: None, .. } => {},
        DataExpression::Transform { transform, .. } => {
            assert(before.notes.is_prefix_of(after.notes));
        },
    }
}

}
