//! What logical expressions say of each record.

use vstd::prelude::*;

use crate::columnar_records::ColumnarRecords;
use crate::dictionary::Dictionary;
use crate::dictionary_keys::DictionaryKeyArray;
use crate::engine_diagnostic::ColumnarEngineDiagnostic;
use crate::execution_context::ExecutionContext;
use crate::expressions::{
    ExpressionFunctions, ExpressionInfo, LogicalExpression, LogicalExpressionKind, ScalarExpression,
};
use crate::logical_expressions::{
    CompareEvaluations, Comparison, JoinEvaluations, LogicalEvaluation, TruthEvaluations,
};
use crate::resolved_value::{ResolvedLogicalValue, ResolvedScalarValue};
use crate::slice_expression::Evaluation;
use crate::value::ValueOrRef;

verus! {

/// The entries of a value that has one for each record.
spec fn entries_of(value: ResolvedLogicalValue) -> Seq<Option<bool>> {
    match value {
        ResolvedLogicalValue::Single(_) => Seq::empty(),
        ResolvedLogicalValue::Array { values, .. } => crate::boolean_array::boolean_values(*values),
    }
}

/// A conjunction is true of a record exactly if both parts are, and a disjunction if either is. The
/// right part is left out only if the left one decides for each record: it is true of all of them in a
/// disjunction, and false of all of them in a conjunction. A record of which a part is neither true
/// nor false is left so, unless the right part decides for it.
pub proof fn lemma_joins_by_record(
    or: bool,
    left: ResolvedLogicalValue,
    right: Option<ResolvedLogicalValue>,
    value: ResolvedLogicalValue,
    count: nat,
    record: int,
)
    requires
        crate::logical_expressions::joins(or, left, right, value),
        crate::logical_expressions::tells(left, count),
        right matches Some(r) ==> crate::logical_expressions::tells(r, count),
        0 <= record < count,
    ensures
        crate::logical_expressions::tells(value, count),
        joined_so(or, left, right, value, record),
        right is Some ==> exists|other: int|
            0 <= other < count && #[trigger] crate::logical_expressions::truth_of(left, other)
                != Some(or),
{
    if right is Some {
        match left {
            ResolvedLogicalValue::Single(b) => {
                assert(crate::logical_expressions::truth_of(left, record) != Some(or));
            },
            ResolvedLogicalValue::Array { .. } => {
                let entries = entries_of(left);
                let other = choose|i: int| 0 <= i < entries.len() && #[trigger] entries[i] != Some(or);
                assert(crate::logical_expressions::truth_of(left, other) != Some(or));
            },
        }
    } else if left is Array {
        assert(entries_of(left)[record] == Some(or));
    }
}

/// Whether the truth of a record is that of a conjunction, or of a disjunction if `or` holds, of the
/// truths that the parts have of it. A missing right part is one that the left part makes needless.
pub open spec fn joined_so(
    or: bool,
    left: ResolvedLogicalValue,
    right: Option<ResolvedLogicalValue>,
    value: ResolvedLogicalValue,
    record: int,
) -> bool {
    let first = crate::logical_expressions::truth_of(left, record);
    let both = crate::logical_expressions::truth_of(value, record);
    match right {
        None => first == Some(or) && both == Some(or),
        Some(right) => {
            let second = crate::logical_expressions::truth_of(right, record);
            if first is Some && second is Some {
                both == Some(
                    if or {
                        first->0 || second->0
                    } else {
                        first->0 && second->0
                    },
                )
            } else {
                both is None || (second == Some(or) && both == Some(or))
            }
        },
    }
}

/// Columns that tell of unlike numbers of records join to false.
pub proof fn lemma_unlike_columns_join_to_false(
    or: bool,
    left: ResolvedLogicalValue,
    right: ResolvedLogicalValue,
    value: ResolvedLogicalValue,
    left_count: nat,
    right_count: nat,
    record: int,
)
    requires
        crate::logical_expressions::joins(or, left, Some(right), value),
        left is Array,
        right is Array,
        crate::logical_expressions::tells(left, left_count),
        crate::logical_expressions::tells(right, right_count),
        left_count != right_count,
    ensures
        crate::logical_expressions::truth_of(value, record) == Some(false),
{
}

/// A negation is true of the records of which its part is false, and false of those of which it is
/// true; of the others it is neither.
pub proof fn lemma_negates_by_record(
    inner: ResolvedLogicalValue,
    value: ResolvedLogicalValue,
    count: nat,
    record: int,
)
    requires
        crate::logical_expressions::negates(inner, value),
        crate::logical_expressions::tells(inner, count),
        0 <= record < count,
    ensures
        crate::logical_expressions::tells(value, count),
        negated_so(inner, value, record),
{
}

/// Whether the truth of a record is the negation of the one that the part has of it.
pub open spec fn negated_so(
    inner: ResolvedLogicalValue,
    value: ResolvedLogicalValue,
    record: int,
) -> bool {
    match crate::logical_expressions::truth_of(inner, record) {
        Some(truth) => crate::logical_expressions::truth_of(value, record) == Some(!truth),
        None => crate::logical_expressions::truth_of(value, record) is None,
    }
}

/// The value that a record has in what an expression evaluated to. A table is none.
pub open spec fn value_of(value: ResolvedScalarValue, record: int) -> ValueOrRef {
    match value {
        ResolvedScalarValue::Single(single) => single,
        ResolvedScalarValue::Dictionary(dictionary) => dictionary.rows()[record],
        ResolvedScalarValue::Table(_) => ValueOrRef::Null,
    }
}

/// Whether what an expression evaluated to has a value for each of so many records.
pub open spec fn has_records(value: ResolvedScalarValue, count: nat) -> bool {
    value matches ResolvedScalarValue::Dictionary(dictionary) ==> dictionary.wf()
        && dictionary.rows().len() == count && count <= usize::MAX
}

/// Whether `truth` is what a comparison says of two values, going by the functions of the query
/// language. Where these fail the comparison is false. Null is equal to what the functions say; it is
/// neither above nor below anything, and at least as great as itself alone.
pub open spec fn is_so<F: ExpressionFunctions>(
    functions: F,
    comparison: Comparison,
    left: ValueOrRef,
    right: ValueOrRef,
    truth: bool,
) -> bool {
    match comparison {
        Comparison::EqualTo { case_insensitive } => exists|answer: Result<bool, String>|
            #[trigger] call_ensures(
                F::are_values_equal,
                (&functions, &left, &right, case_insensitive),
                answer,
            ) && truth == (answer == Ok::<bool, String>(true)),
        Comparison::GreaterThan => if left is Null || right is Null {
            !truth
        } else {
            exists|answer: Result<i64, String>|
                #[trigger] call_ensures(F::compare_values, (&functions, &left, &right), answer)
                    && truth == (answer is Ok && answer->Ok_0 > 0)
        },
        Comparison::GreaterThanOrEqualTo => if left is Null && right is Null {
            truth
        } else if left is Null || right is Null {
            !truth
        } else {
            exists|answer: Result<i64, String>|
                #[trigger] call_ensures(F::compare_values, (&functions, &left, &right), answer)
                    && truth == (answer is Ok && answer->Ok_0 >= 0)
        },
        Comparison::Contains { case_insensitive } => exists|answer: Result<bool, String>|
            #[trigger] call_ensures(
                F::contains,
                (&functions, &left, &right, case_insensitive),
                answer,
            ) && truth == (answer == Ok::<bool, String>(true)),
        Comparison::Matches => exists|answer: Result<bool, String>|
            #[trigger] call_ensures(F::matches, (&functions, &left, &right), answer) && truth == (
            answer == Ok::<bool, String>(true)),
    }
}

/// Whether the dictionary is a boolean column.
pub open spec fn is_boolean_column(value: ResolvedScalarValue) -> bool {
    value matches ResolvedScalarValue::Dictionary(dictionary)
        && dictionary.keys is BooleanArray
}

/// Whether the dictionary says by its keys that no record has a value.
pub open spec fn is_empty_column(value: ResolvedScalarValue) -> bool {
    value matches ResolvedScalarValue::Dictionary(dictionary)
        && dictionary.keys matches DictionaryKeyArray::SingleValue { value_index: None, .. }
}

/// Whether the truth of a record is what the comparison says of its two values. Beside a value that
/// all records share, a boolean column stands for itself, and of a column without any value nothing
/// is said.
pub open spec fn compared_so<F: ExpressionFunctions>(
    functions: F,
    comparison: Comparison,
    left: ResolvedScalarValue,
    right: ResolvedScalarValue,
    value: ResolvedLogicalValue,
    record: int,
) -> bool {
    let truth = crate::logical_expressions::truth_of(value, record);
    let columns = left is Dictionary && right is Dictionary;
    if !columns && (is_boolean_column(left) || is_boolean_column(right)) {
        truth == boolean_entry(
            if is_boolean_column(left) {
                left
            } else {
                right
            },
            record,
        )
    } else if !columns && (is_empty_column(left) || is_empty_column(right)) {
        truth is None
    } else {
        &&& truth is Some
        &&& is_so(functions, comparison, value_of(left, record), value_of(right, record), truth->0)
    }
}

/// The entry that a boolean column has for a record.
pub open spec fn boolean_entry(value: ResolvedScalarValue, record: int) -> Option<bool> {
    match value {
        ResolvedScalarValue::Dictionary(dictionary) => match dictionary.keys {
            DictionaryKeyArray::BooleanArray { values, .. } =>
                crate::boolean_array::boolean_values(*values)[record],
            _ => None,
        },
        _ => None,
    }
}

proof fn lemma_compares<F: ExpressionFunctions>(
    functions: F,
    expression: ExpressionInfo,
    comparison: Comparison,
    left: ValueOrRef,
    right: ValueOrRef,
    outcome: crate::logical_expressions::Compared,
)
    requires
        crate::logical_expressions::compares(
            functions,
            expression,
            comparison,
            left,
            right,
            outcome,
        ),
    ensures
        is_so(functions, comparison, left, right, outcome.0),
{
}

proof fn lemma_collapsed(
    data_type: crate::dictionary_keys::KeyDataType,
    entries: Seq<Option<bool>>,
    value: ResolvedLogicalValue,
    record: int,
)
    requires
        crate::logical_expressions::collapses(data_type, entries, value),
        0 <= record < entries.len(),
    ensures
        crate::logical_expressions::truth_of(value, record) == entries[record],
        crate::logical_expressions::tells(value, entries.len()),
{
}

/// What a relation of a value and an outcome makes of a column, it makes of the value of each record.
proof fn lemma_booleans<N>(
    dictionary: Dictionary,
    relation: spec_fn(ValueOrRef, (Option<bool>, Option<N>)) -> bool,
    entries: Seq<Option<bool>>,
    added: Seq<N>,
    record: int,
) -> (outcome: (Option<bool>, Option<N>))
    requires
        dictionary.booleans_into(relation, entries, added),
        dictionary.wf(),
        0 <= record < dictionary.rows().len(),
    ensures
        entries.len() == dictionary.rows().len(),
        match dictionary.keys {
            DictionaryKeyArray::BooleanArray { values, .. } => entries[record]
                == crate::boolean_array::boolean_values(*values)[record],
            DictionaryKeyArray::SingleValue { value_index: None, .. } => entries[record] is None,
            _ => relation(dictionary.rows()[record], outcome) && entries[record] == outcome.0,
        },
{
    match dictionary.keys {
        DictionaryKeyArray::BooleanArray { values, .. } => (None, None),
        DictionaryKeyArray::SingleValue { value_index: None, .. } => (None, None),
        DictionaryKeyArray::SingleValue { value_index: Some(position), .. } => {
            assert(dictionary.keys.position(record) == Some(position));
            choose|outcome: (Option<bool>, Option<N>)| {
                &&& #[trigger] relation(dictionary.values.value_at(position), outcome)
                &&& entries == Seq::new(dictionary.rows().len(), |i: int| outcome.0)
                &&& added == crate::dictionary_values::notes_of(seq![outcome])
            }
        },
        _ => {
            let calls = choose|calls: crate::dictionary_transform::TransformCalls<Option<bool>, N>| {
                &&& #[trigger] crate::dictionary_transform::boolean_calls_related(
                    relation,
                    dictionary.values.values(),
                    calls,
                )
                &&& calls.late is Some == (exists|i: int|
                    0 <= i < dictionary.rows().len() && #[trigger] dictionary.keys.position(i) is None)
                &&& entries == Seq::new(
                    dictionary.rows().len(),
                    |i: int| dictionary.boolean_row(calls, i),
                )
                &&& added == calls.notes()
            };
            match dictionary.keys.position(record) {
                Some(position) => {
                    let outcome = calls.outcomes[position as int];
                    assert(relation(dictionary.values.values()[position as int], outcome));
                    if dictionary.values is Boolean {
                        assert(dictionary.values.values()[position as int]
                            == dictionary.values.value_at(position));
                    }
                    outcome
                },
                None => calls.late->0,
            }
        },
    }
}

proof fn lemma_rows_compared<F: ExpressionFunctions>(
    functions: F,
    expression: ExpressionInfo,
    comparison: Comparison,
    left: Dictionary,
    right: Dictionary,
    entries: Seq<Option<bool>>,
    notes: Seq<crate::engine_diagnostic::ColumnarEngineDiagnostic>,
    record: int,
)
    requires
        crate::logical_expressions::compares_rows(
            functions,
            expression,
            comparison,
            left,
            right,
            entries,
            notes,
        ),
        left.rows().len() == right.rows().len(),
        left.rows().len() <= usize::MAX,
        0 <= record < left.rows().len(),
    ensures
        entries.len() == left.rows().len(),
        entries[record] is Some,
        is_so(
            functions,
            comparison,
            left.rows()[record],
            right.rows()[record],
            entries[record]->0,
        ),
{
    let parts = crate::logical_expressions::pair(left, right);
    let relation = crate::logical_expressions::compares_pair(functions, expression, comparison);
    let calls = choose|
        calls: crate::dictionary_merge::MergeCalls<
            crate::engine_diagnostic::ColumnarEngineDiagnostic,
            (),
        >,
    | {
        &&& #[trigger] calls.covers(relation, parts, left.rows().len() as int)
        &&& entries == Seq::new(
            left.rows().len(),
            |i: int| crate::logical_expressions::merged_truth(calls.merged_row(parts, i)),
        )
        &&& notes == crate::dictionary_values::notes_of(calls.outcomes)
    };
    assert(calls.has_call(parts, record));
    let k = calls.call_for(parts, record);
    let row = calls.rows[k];
    let input = crate::dictionary_merge::merge_input(parts, row);
    assert(relation(input, calls.outcomes[k]));
    let here = crate::dictionary_merge::merge_positions(parts, record);
    let there = crate::dictionary_merge::merge_positions(parts, row);
    assert(here == there);
    assert(here[0] == there[0] && here[1] == there[1]);
    assert(left.row_for(record as usize) == left.row_for(row as usize));
    assert(right.row_for(record as usize) == right.row_for(row as usize));
    assert(left.row_for(record as usize) == left.rows()[record]);
    assert(right.row_for(record as usize) == right.rows()[record]);
    assert(input[0] == crate::dictionary_values::non_null(left.rows()[record]));
    assert(input[1] == crate::dictionary_values::non_null(right.rows()[record]));
    let outcome = calls.outcomes[k];
    lemma_compares(
        functions,
        expression,
        comparison,
        left.rows()[record],
        right.rows()[record],
        (outcome.0->Ok_0->0->Boolean_0, outcome.1),
    );
}

/// A comparison of two evaluated expressions says of each record what it says of the two values that
/// the record has.
pub proof fn lemma_compares_by_record<F: ExpressionFunctions>(
    functions: F,
    expression: ExpressionInfo,
    comparison: Comparison,
    left: ResolvedScalarValue,
    right: ResolvedScalarValue,
    result: LogicalEvaluation,
    count: nat,
    record: int,
)
    requires
        crate::logical_expressions::compares_resolved(
            functions,
            expression,
            comparison,
            left,
            right,
            result,
        ),
        has_records(left, count),
        has_records(right, count),
        0 <= record < count,
    ensures
        crate::logical_expressions::tells(result.value, count),
        compared_so(functions, comparison, left, right, result.value, record),
{
    let l = crate::logical_expressions::table_as_null(left);
    let r = crate::logical_expressions::table_as_null(right);
    if l is Single && r is Single {
        let outcome = choose|outcome: crate::logical_expressions::Compared| {
            &&& #[trigger] crate::logical_expressions::compares(
                functions,
                expression,
                comparison,
                l->Single_0,
                r->Single_0,
                outcome,
            )
            &&& result.value == ResolvedLogicalValue::Single(outcome.0)
            &&& result.notes == crate::slice_expression::optional(outcome.1)
        };
        lemma_compares(functions, expression, comparison, l->Single_0, r->Single_0, outcome);
    } else {
        let data_type = crate::logical_expressions::compared_key_type(l, r);
        let entries = choose|entries: Seq<Option<bool>>| {
            &&& #[trigger] crate::logical_expressions::compares_entries(
                functions,
                expression,
                comparison,
                l,
                r,
                entries,
                result.notes,
            )
            &&& crate::logical_expressions::collapses(data_type, entries, result.value)
        };
        match (l, r) {
            (ResolvedScalarValue::Single(single), ResolvedScalarValue::Dictionary(d)) => {
                let relation = crate::logical_expressions::compares_single(
                    functions,
                    expression,
                    comparison,
                    single,
                    true,
                );
                let outcome = lemma_booleans(d, relation, entries, result.notes, record);
                if !is_boolean_column(r) && !is_empty_column(r) {
                    lemma_compares(
                        functions,
                        expression,
                        comparison,
                        single,
                        d.rows()[record],
                        (outcome.0->0, outcome.1),
                    );
                }
            },
            (ResolvedScalarValue::Dictionary(d), ResolvedScalarValue::Single(single)) => {
                let relation = crate::logical_expressions::compares_single(
                    functions,
                    expression,
                    comparison,
                    single,
                    false,
                );
                let outcome = lemma_booleans(d, relation, entries, result.notes, record);
                if !is_boolean_column(l) && !is_empty_column(l) {
                    lemma_compares(
                        functions,
                        expression,
                        comparison,
                        d.rows()[record],
                        single,
                        (outcome.0->0, outcome.1),
                    );
                }
            },
            (ResolvedScalarValue::Dictionary(first), ResolvedScalarValue::Dictionary(second)) => {
                lemma_rows_compared(
                    functions,
                    expression,
                    comparison,
                    first,
                    second,
                    entries,
                    result.notes,
                    record,
                );
            },
            _ => {},
        }
        lemma_collapsed(data_type, entries, result.value, record);
    }
}

/// Whether the query language may convert a value to this truth.
pub open spec fn may_convert<F: ExpressionFunctions>(
    functions: F,
    value: ValueOrRef,
    answer: Option<bool>,
) -> bool {
    call_ensures(F::convert_to_bool, (&functions, &value), answer)
}

/// Whether the truth of a record is the one that its value converts to. A boolean is its own. A value
/// that does not convert has none where each record has its own value, and is false where all share
/// one; so is a table.
pub open spec fn taken_so<F: ExpressionFunctions>(
    functions: F,
    scalar: ResolvedScalarValue,
    value: ResolvedLogicalValue,
    record: int,
) -> bool {
    let truth = crate::logical_expressions::truth_of(value, record);
    let taken = value_of(scalar, record);
    if is_boolean_column(scalar) {
        truth == boolean_entry(scalar, record)
    } else if scalar is Table {
        truth == Some(false)
    } else if taken is Boolean {
        truth == Some(taken->Boolean_0)
    } else if scalar is Dictionary && taken is Null {
        truth is None
    } else {
        exists|answer: Option<bool>|
            #[trigger] may_convert(functions, taken, answer) && truth == (if answer is None
                && scalar is Single {
                Some(false)
            } else {
                answer
            })
    }
}

/// A scalar expression that is taken for a truth says of each record what the value of the record
/// converts to.
pub proof fn lemma_taken_by_record<F: ExpressionFunctions>(
    functions: F,
    expression: ExpressionInfo,
    scalar: ResolvedScalarValue,
    result: LogicalEvaluation,
    count: nat,
    record: int,
)
    requires
        crate::logical_expressions::truths(functions, expression, scalar, result),
        has_records(scalar, count),
        0 <= record < count,
    ensures
        crate::logical_expressions::tells(result.value, count),
        taken_so(functions, scalar, result.value, record),
{
    match scalar {
        ResolvedScalarValue::Dictionary(d) => {
            if !(d.keys is BooleanArray) {
                let entries = entries_of(result.value);
                let relation = crate::logical_expressions::converts_entry(functions, expression);
                let outcome = lemma_booleans(d, relation, entries, result.notes, record);
                let taken = d.rows()[record];
                assert(value_of(scalar, record) == taken);
                assert(crate::logical_expressions::truth_of(result.value, record)
                    == entries[record]);
                if is_empty_column(scalar) {
                    assert(d.keys.position(record) is None);
                } else {
                    assert(relation(taken, outcome));
                    if !(taken is Null) && !(taken is Boolean) {
                        let answer = choose|truth: Option<bool>|
                            #[trigger] call_ensures(F::convert_to_bool, (&functions, &taken), truth)
                                && outcome.0 == truth;
                        let own = value_of(scalar, record);
                        assert(may_convert(functions, own, answer));
                    }
                }
            }
        },
        ResolvedScalarValue::Single(single) => {
            if !(single is Boolean) {
                let answer = choose|truth: Option<bool>|
                    #[trigger] call_ensures(F::convert_to_bool, (&functions, &single), truth)
                        && result.value == ResolvedLogicalValue::Single(truth == Some(true));
                let own = value_of(scalar, record);
                assert(may_convert(functions, own, answer));
                let truth = crate::logical_expressions::truth_of(result.value, record);
                assert(truth == Some(answer == Some(true)));
                assert(truth == (if answer is None {
                    Some(false)
                } else {
                    answer
                }));
            }
        },
        ResolvedScalarValue::Table(_) => {},
    }
}

/// Whether each of the records is compared so, if both values have that many.
pub open spec fn compares_all<F: ExpressionFunctions>(
    functions: F,
    comparison: Comparison,
    parts: CompareEvaluations,
    value: ResolvedLogicalValue,
    count: nat,
) -> bool {
    has_records(parts.left.value, count) && has_records(parts.right.value, count) ==> forall|
        record: int,
    |
        0 <= record < count ==> #[trigger] compared_so(
            functions,
            comparison,
            parts.left.value,
            parts.right.value,
            value,
            record,
        )
}

/// Whether this is what the comparison says of the values that the two expressions evaluate to.
pub open spec fn says_of<F: ExpressionFunctions, R: ColumnarRecords>(
    context: ExecutionContext<'_, F, R>,
    comparison: Comparison,
    left: ScalarExpression,
    right: ScalarExpression,
    value: ResolvedLogicalValue,
    notes: Seq<ColumnarEngineDiagnostic>,
    count: nat,
) -> bool {
    exists|parts: CompareEvaluations| {
        &&& crate::scalars::evaluates(context, left, parts.left)
        &&& crate::scalars::evaluates(context, right, parts.right)
        &&& #[trigger] compares_all(*context.functions, comparison, parts, value, count)
        &&& notes == parts.left.notes + parts.right.notes + parts.compared.notes
    }
}

/// Whether each of the records has the truth of its value, if the value tells of that many.
pub open spec fn takes_all<F: ExpressionFunctions>(
    functions: F,
    scalar: ResolvedScalarValue,
    value: ResolvedLogicalValue,
    count: nat,
) -> bool {
    has_records(scalar, count) ==> forall|record: int|
        0 <= record < count ==> #[trigger] taken_so(functions, scalar, value, record)
}

/// Whether each of the records has the negated truth, if the part tells of that many.
pub open spec fn negates_all(
    inner: ResolvedLogicalValue,
    value: ResolvedLogicalValue,
    count: nat,
) -> bool {
    crate::logical_expressions::tells(inner, count) ==> forall|record: int|
        0 <= record < count ==> #[trigger] negated_so(inner, value, record)
}

/// Whether each of the records has the joined truth, if the parts tell of that many.
pub open spec fn joins_all(
    or: bool,
    parts: JoinEvaluations,
    value: ResolvedLogicalValue,
    count: nat,
) -> bool {
    crate::logical_expressions::tells(parts.left.value, count) && (parts.right matches Some(right)
        ==> crate::logical_expressions::tells(right.value, count)) ==> forall|record: int|
        0 <= record < count ==> #[trigger] joined_so(
            or,
            parts.left.value,
            parts.right_value(),
            value,
            record,
        )
}

/// Whether this is what a conjunction, or a disjunction if `or` holds, of the two expressions says.
pub open spec fn says_both<F: ExpressionFunctions, R: ColumnarRecords>(
    context: ExecutionContext<'_, F, R>,
    or: bool,
    left: LogicalExpression,
    right: LogicalExpression,
    value: ResolvedLogicalValue,
    notes: Seq<ColumnarEngineDiagnostic>,
    count: nat,
) -> bool {
    exists|parts: JoinEvaluations| {
        &&& crate::logical_expressions::logical_evaluates(context, left, parts.left)
        &&& parts.right matches Some(evaluated) ==> crate::logical_expressions::logical_evaluates(
            context,
            right,
            evaluated,
        )
        &&& #[trigger] joins_all(or, parts, value, count)
        &&& match parts.right {
            Some(evaluated) => notes == parts.left.notes + evaluated.notes,
            None => notes == parts.left.notes,
        }
    }
}

/// Whether this is what an expression says of each of so many records, going by what its parts say. The
/// diagnostics are those of the parts, in their order, and then its own.
pub open spec fn says<F: ExpressionFunctions, R: ColumnarRecords>(
    context: ExecutionContext<'_, F, R>,
    kind: LogicalExpressionKind,
    value: ResolvedLogicalValue,
    notes: Seq<ColumnarEngineDiagnostic>,
    count: nat,
) -> bool {
    match kind {
        LogicalExpressionKind::Scalar(scalar) => exists|evaluated: Evaluation|
            crate::scalars::evaluates(context, scalar, evaluated) && #[trigger] takes_all(
                *context.functions,
                evaluated.value,
                value,
                count,
            ) && evaluated.notes.is_prefix_of(notes),
        LogicalExpressionKind::EqualTo { left, right, case_insensitive, .. } => says_of(
            context,
            Comparison::EqualTo { case_insensitive },
            left,
            right,
            value,
            notes,
            count,
        ),
        LogicalExpressionKind::GreaterThan { left, right, .. } => says_of(
            context,
            Comparison::GreaterThan,
            left,
            right,
            value,
            notes,
            count,
        ),
        LogicalExpressionKind::GreaterThanOrEqualTo { left, right, .. } => says_of(
            context,
            Comparison::GreaterThanOrEqualTo,
            left,
            right,
            value,
            notes,
            count,
        ),
        LogicalExpressionKind::Contains { haystack, needle, case_insensitive, .. } => says_of(
            context,
            Comparison::Contains { case_insensitive },
            haystack,
            needle,
            value,
            notes,
            count,
        ),
        LogicalExpressionKind::Matches { haystack, pattern, .. } => says_of(
            context,
            Comparison::Matches,
            haystack,
            pattern,
            value,
            notes,
            count,
        ),
        LogicalExpressionKind::Not(inner) => exists|evaluated: LogicalEvaluation|
            crate::logical_expressions::logical_evaluates(context, *inner, evaluated)
                && #[trigger] negates_all(evaluated.value, value, count) && notes == evaluated.notes,
        LogicalExpressionKind::And(left, right) => says_both(
            context,
            false,
            *left,
            *right,
            value,
            notes,
            count,
        ),
        LogicalExpressionKind::Or(left, right) => says_both(
            context,
            true,
            *left,
            *right,
            value,
            notes,
            count,
        ),
    }
}

proof fn lemma_comparison_says<F: ExpressionFunctions, R: ColumnarRecords>(
    context: ExecutionContext<'_, F, R>,
    info: ExpressionInfo,
    comparison: Comparison,
    left: ScalarExpression,
    right: ScalarExpression,
    result: LogicalEvaluation,
    count: nat,
)
    requires
        crate::logical_expressions::comparison_evaluates(
            context,
            info,
            comparison,
            left,
            right,
            result,
        ),
    ensures
        says_of(context, comparison, left, right, result.value, result.notes, count),
{
    let parts = choose|parts: CompareEvaluations| {
        &&& crate::scalars::evaluates(context, left, parts.left)
        &&& crate::scalars::evaluates(context, right, parts.right)
        &&& #[trigger] crate::logical_expressions::compares_evaluated(
            *context.functions,
            info,
            comparison,
            parts,
        )
        &&& result.value == parts.compared.value
        &&& result.notes == parts.left.notes + parts.right.notes + parts.compared.notes
    };
    if has_records(parts.left.value, count) && has_records(parts.right.value, count) {
        assert forall|record: int| 0 <= record < count implies #[trigger] compared_so(
            *context.functions,
            comparison,
            parts.left.value,
            parts.right.value,
            result.value,
            record,
        ) by {
            lemma_compares_by_record(
                *context.functions,
                info,
                comparison,
                parts.left.value,
                parts.right.value,
                parts.compared,
                count,
                record,
            );
        }
    }
    assert(compares_all(*context.functions, comparison, parts, result.value, count));
}

proof fn lemma_join_says<F: ExpressionFunctions, R: ColumnarRecords>(
    context: ExecutionContext<'_, F, R>,
    or: bool,
    left: LogicalExpression,
    right: LogicalExpression,
    parts: JoinEvaluations,
    value: ResolvedLogicalValue,
    count: nat,
)
    requires
        crate::logical_expressions::logical_evaluates(context, left, parts.left),
        parts.right matches Some(evaluated) ==> crate::logical_expressions::logical_evaluates(
            context,
            right,
            evaluated,
        ),
        crate::logical_expressions::joins_evaluated(or, parts, value),
    ensures
        says_both(context, or, left, right, value, parts.notes(), count),
{
    if crate::logical_expressions::tells(parts.left.value, count) && (parts.right matches Some(r)
        ==> crate::logical_expressions::tells(r.value, count)) {
        assert forall|record: int| 0 <= record < count implies #[trigger] joined_so(
            or,
            parts.left.value,
            parts.right_value(),
            value,
            record,
        ) by {
            lemma_joins_by_record(
                or,
                parts.left.value,
                parts.right_value(),
                value,
                count,
                record,
            );
        }
    }
    assert(joins_all(or, parts, value, count));
}

/// An expression says of each record what its parts, joined, negated, compared or taken for truths,
/// say of that record.
pub proof fn lemma_expression_says<F: ExpressionFunctions, R: ColumnarRecords>(
    context: ExecutionContext<'_, F, R>,
    expression: LogicalExpression,
    result: LogicalEvaluation,
    count: nat,
)
    requires
        crate::logical_expressions::logical_evaluates(context, expression, result),
    ensures
        says(context, expression.kind, result.value, result.notes.drop_last(), count),
        result.notes.len() > 0,
        result.notes.last().diagnostic_level is Verbose,
        result.notes.last().expression == expression.info,
{
    let value = result.value;
    let own = LogicalEvaluation { value, notes: result.notes.drop_last() };
    let kind = expression.kind;
    assert(crate::logical_expressions::logical_kind_evaluates(context, kind, own));
    match kind {
        LogicalExpressionKind::Scalar(scalar) => {
            let parts = choose|parts: TruthEvaluations| {
                &&& crate::scalars::evaluates(context, scalar, parts.scalar)
                &&& #[trigger] crate::logical_expressions::truths_evaluated(
                    *context.functions,
                    scalar.info,
                    parts,
                )
                &&& own.value == parts.truth.value
                &&& own.notes == parts.scalar.notes + parts.truth.notes
            };
            if has_records(parts.scalar.value, count) {
                assert forall|record: int| 0 <= record < count implies #[trigger] taken_so(
                    *context.functions,
                    parts.scalar.value,
                    value,
                    record,
                ) by {
                    lemma_taken_by_record(
                        *context.functions,
                        scalar.info,
                        parts.scalar.value,
                        parts.truth,
                        count,
                        record,
                    );
                }
            }
            assert(takes_all(*context.functions, parts.scalar.value, value, count));
            assert(parts.scalar.notes.is_prefix_of(own.notes));
        },
        LogicalExpressionKind::EqualTo { info, left, right, case_insensitive } => {
            let comparison = Comparison::EqualTo { case_insensitive };
            lemma_comparison_says(context, info, comparison, left, right, own, count);
        },
        LogicalExpressionKind::GreaterThan { info, left, right } => {
            lemma_comparison_says(
                context,
                info,
                Comparison::GreaterThan,
                left,
                right,
                own,
                count,
            );
        },
        LogicalExpressionKind::GreaterThanOrEqualTo { info, left, right } => {
            lemma_comparison_says(
                context,
                info,
                Comparison::GreaterThanOrEqualTo,
                left,
                right,
                own,
                count,
            );
        },
        LogicalExpressionKind::Contains { info, haystack, needle, case_insensitive } => {
            let comparison = Comparison::Contains { case_insensitive };
            lemma_comparison_says(context, info, comparison, haystack, needle, own, count);
        },
        LogicalExpressionKind::Matches { info, haystack, pattern } => {
            lemma_comparison_says(
                context,
                info,
                Comparison::Matches,
                haystack,
                pattern,
                own,
                count,
            );
        },
        LogicalExpressionKind::Not(inner) => {
            let evaluated = choose|evaluated: LogicalEvaluation| {
                &&& crate::logical_expressions::logical_evaluates(context, *inner, evaluated)
                &&& #[trigger] crate::logical_expressions::negates(evaluated.value, own.value)
                &&& own.notes == evaluated.notes
            };
            if crate::logical_expressions::tells(evaluated.value, count) {
                assert forall|record: int| 0 <= record < count implies #[trigger] negated_so(
                    evaluated.value,
                    value,
                    record,
                ) by {
                    lemma_negates_by_record(evaluated.value, value, count, record);
                }
            }
            assert(negates_all(evaluated.value, value, count));
        },
        LogicalExpressionKind::And(left, right) => {
            let parts = choose|parts: JoinEvaluations| {
                &&& crate::logical_expressions::logical_evaluates(context, *left, parts.left)
                &&& parts.right matches Some(evaluated)
                    ==> crate::logical_expressions::logical_evaluates(context, *right, evaluated)
                &&& #[trigger] crate::logical_expressions::joins_evaluated(false, parts, own.value)
                &&& own.notes == parts.notes()
            };
            lemma_join_says(context, false, *left, *right, parts, value, count);
        },
        LogicalExpressionKind::Or(left, right) => {
            let parts = choose|parts: JoinEvaluations| {
                &&& crate::logical_expressions::logical_evaluates(context, *left, parts.left)
                &&& parts.right matches Some(evaluated)
                    ==> crate::logical_expressions::logical_evaluates(context, *right, evaluated)
                &&& #[trigger] crate::logical_expressions::joins_evaluated(true, parts, own.value)
                &&& own.notes == parts.notes()
            };
            lemma_join_says(context, true, *left, *right, parts, value, count);
        },
    }
}

}
