//! What a run of a pipeline does, step by step.

use vstd::prelude::*;

use crate::columnar_records::ColumnarRecords;
use crate::engine::{ColumnarRecordsFactory, DataExpression, PipelineExpression, RunOutcome};
use crate::expressions::{ExpressionFunctions, PipelineConstant};
use crate::resolved_value::ResolvedLogicalValue;

verus! {

/// Whether a step that is not the end of a run leads from columns and records to others. A transform is
/// done, whatever came before it. A predicate that is true of all records leaves them; one that decides
/// record by record leaves what the factory leaves of the columns, and the records made of that.
pub open spec fn step_leads<F: ExpressionFunctions, T: ColumnarRecordsFactory>(
    functions: F,
    constants: Seq<PipelineConstant>,
    factory: &T,
    expression: DataExpression,
    before: (T::Batches, T::Records),
    after: (T::Batches, T::Records),
) -> bool {
    match expression {
        DataExpression::Transform { transform, .. } => exists|
            notes: Vec<crate::engine_diagnostic::ColumnarEngineDiagnostic>,
        | #[trigger]
            call_ensures(
                T::set,
                (factory, transform, before.0, before.1),
                (after.0, Ok(after.1), notes),
            ),
        DataExpression::Discard { predicate: Some(predicate), .. } => exists|
            evaluation: crate::logical_expressions::LogicalEvaluation,
        | #[trigger]
            crate::engine::predicate_evaluates(
                functions,
                constants,
                before.1,
                *predicate,
                evaluation,
            ) && match evaluation.value {
                ResolvedLogicalValue::Single(stays) => stays && after == before,
                ResolvedLogicalValue::Array { values, .. } => {
                    &&& call_ensures(T::filter, (factory, before.0, &*values), after.0)
                    &&& call_ensures(T::create, (factory, &after.0), after.1)
                },
            },
        DataExpression::Discard { predicate: None, .. } => false,
    }
}

/// Whether a step ends a run with those columns: with none if no record stays, and with those of a
/// transform that went wrong.
pub open spec fn step_ends<F: ExpressionFunctions, T: ColumnarRecordsFactory>(
    functions: F,
    constants: Seq<PipelineConstant>,
    factory: &T,
    expression: DataExpression,
    before: (T::Batches, T::Records),
    left: Option<T::Batches>,
) -> bool {
    match expression {
        DataExpression::Transform { transform, .. } => left is Some && exists|
            text: String,
            notes: Vec<crate::engine_diagnostic::ColumnarEngineDiagnostic>,
        | #[trigger]
            call_ensures(
                T::set,
                (factory, transform, before.0, before.1),
                (left->0, Err(text), notes),
            ),
        DataExpression::Discard { predicate: Some(predicate), .. } => left is None && exists|
            evaluation: crate::logical_expressions::LogicalEvaluation,
        | #[trigger]
            crate::engine::predicate_evaluates(
                functions,
                constants,
                before.1,
                *predicate,
                evaluation,
            ) && evaluation.value == ResolvedLogicalValue::Single(false),
        DataExpression::Discard { predicate: None, .. } => left is None,
    }
}

/// Whether the steps, one after another, lead through those columns and records and leave `left`.
pub open spec fn steps_lead<F: ExpressionFunctions, T: ColumnarRecordsFactory>(
    functions: F,
    constants: Seq<PipelineConstant>,
    factory: &T,
    steps: Seq<DataExpression>,
    trace: Seq<(T::Batches, T::Records)>,
    left: Option<T::Batches>,
) -> bool {
    &&& 0 < trace.len() <= steps.len() + 1
    &&& forall|k: int|
        0 <= k < trace.len() - 1 ==> step_leads(
            functions,
            constants,
            factory,
            steps[k],
            #[trigger] trace[k],
            trace[k + 1],
        )
    &&& if trace.len() == steps.len() + 1 {
        left == Some(trace.last().0)
    } else {
        step_ends(functions, constants, factory, steps[trace.len() - 1], trace.last(), left)
    }
}

/// Whether running steps on columns and records may leave those columns.
pub open spec fn steps_leave<F: ExpressionFunctions, T: ColumnarRecordsFactory>(
    functions: F,
    constants: Seq<PipelineConstant>,
    factory: &T,
    steps: Seq<DataExpression>,
    from: (T::Batches, T::Records),
    left: Option<T::Batches>,
) -> bool {
    exists|trace: Seq<(T::Batches, T::Records)>| #[trigger]
        steps_lead(functions, constants, factory, steps, trace, left) && trace[0] == from
}

/// Every step of a pipeline is done in turn, on what the step before it left: each predicate is asked of
/// the records that are left, and each transform is done to them. The columns that a run leaves are those
/// that its last step left.
pub proof fn lemma_run_does_each_step<F: ExpressionFunctions, T: ColumnarRecordsFactory>(
    functions: F,
    pipeline: PipelineExpression,
    factory: &T,
    batches: T::Batches,
    records: T::Records,
    outcome: RunOutcome<T::Batches>,
)
    requires
        crate::engine::run(functions, pipeline, factory, batches, records, outcome),
    ensures
        steps_leave(
            functions,
            pipeline.constants@,
            factory,
            pipeline.expressions@,
            (batches, records),
            outcome.batches,
        ),
{
    let constants = pipeline.constants@;
    let steps = pipeline.expressions@;
    let states = choose|states: Seq<crate::engine::RunState<T::Batches, T::Records>>| #[trigger]
        crate::engine::run_through(functions, pipeline, factory, batches, records, states) && {
            let n = states.len() - 1;
            if n == steps.len() {
                crate::engine::includes(states[n], outcome) && outcome.notes@ == states[n].notes
            } else {
                crate::engine::stops(functions, constants, factory, steps[n], states[n], outcome)
            }
        };
    let trace = Seq::new(states.len(), |k: int| (states[k].batches, states[k].records));
    assert forall|k: int| 0 <= k < trace.len() - 1 implies step_leads(
        functions,
        constants,
        factory,
        steps[k],
        #[trigger] trace[k],
        trace[k + 1],
    ) by {
        assert(crate::engine::continues(
            functions,
            constants,
            factory,
            steps[k],
            states[k],
            states[k + 1],
        ));
        match steps[k] {
            DataExpression::Transform { transform, .. } => {
                let added = choose|added: Seq<crate::engine_diagnostic::ColumnarEngineDiagnostic>|
                    #[trigger]
                    crate::engine::transforms(
                        factory,
                        transform,
                        states[k].batches,
                        states[k].records,
                        states[k + 1].batches,
                        Ok(states[k + 1].records),
                        added,
                    );
                assert(crate::engine::transforms(
                    factory,
                    transform,
                    states[k].batches,
                    states[k].records,
                    states[k + 1].batches,
                    Ok(states[k + 1].records),
                    added,
                ));
            },
            _ => {},
        }
    }
    let n = states.len() - 1;
    if n < steps.len() {
        match steps[n] {
            DataExpression::Transform { transform, .. } => {
                let (text, added) = choose|
                    text: String,
                    added: Seq<crate::engine_diagnostic::ColumnarEngineDiagnostic>,
                | #[trigger]
                    crate::engine::transforms(
                        factory,
                        transform,
                        states[n].batches,
                        states[n].records,
                        outcome.batches->0,
                        Err(text),
                        added,
                    );
                assert(crate::engine::transforms(
                    factory,
                    transform,
                    states[n].batches,
                    states[n].records,
                    outcome.batches->0,
                    Err(text),
                    added,
                ));
            },
            _ => {},
        }
    }
    assert(steps_lead(functions, constants, factory, steps, trace, outcome.batches));
}

/// Running some steps and then others is running the first, and then the others on what the first left,
/// unless the first end the run.
pub proof fn lemma_steps_follow_steps<F: ExpressionFunctions, T: ColumnarRecordsFactory>(
    functions: F,
    constants: Seq<PipelineConstant>,
    factory: &T,
    first: Seq<DataExpression>,
    second: Seq<DataExpression>,
    from: (T::Batches, T::Records),
    left: Option<T::Batches>,
)
    requires
        steps_leave(functions, constants, factory, first + second, from, left),
    ensures
        steps_leave(functions, constants, factory, first, from, left) || exists|
            mid: (T::Batches, T::Records),
        | #[trigger]
            steps_leave(functions, constants, factory, second, mid, left) && steps_leave(
                functions,
                constants,
                factory,
                first,
                from,
                Some(mid.0),
            ),
{
    let whole = first + second;
    let trace = choose|trace: Seq<(T::Batches, T::Records)>| #[trigger]
        steps_lead(functions, constants, factory, whole, trace, left) && trace[0] == from;
    let n = first.len() as int;
    assert forall|k: int| 0 <= k < n implies whole[k] == first[k] by {}
    if trace.len() <= n {
        assert forall|k: int| 0 <= k < trace.len() - 1 implies step_leads(
            functions,
            constants,
            factory,
            first[k],
            #[trigger] trace[k],
            trace[k + 1],
        ) by {
            assert(whole[k] == first[k]);
        }
        assert(steps_lead(functions, constants, factory, first, trace, left));
    } else {
        let mid = trace[n];
        let early = trace.subrange(0, n + 1);
        let late = trace.subrange(n, trace.len() as int);
        assert forall|k: int| 0 <= k < early.len() - 1 implies step_leads(
            functions,
            constants,
            factory,
            first[k],
            #[trigger] early[k],
            early[k + 1],
        ) by {
            assert(early[k] == trace[k]);
            assert(whole[k] == first[k]);
        }
        assert(steps_lead(functions, constants, factory, first, early, Some(mid.0)));
        assert(early[0] == from);
        assert forall|k: int| 0 <= k < late.len() - 1 implies step_leads(
            functions,
            constants,
            factory,
            second[k],
            #[trigger] late[k],
            late[k + 1],
        ) by {
            assert(late[k] == trace[n + k]);
            assert(late[k + 1] == trace[n + k + 1]);
            assert(whole[n + k] == second[k]);
        }
        assert(late.last() == trace.last());
        if trace.len() < whole.len() + 1 {
            assert(whole[trace.len() - 1] == second[late.len() - 1]);
        }
        assert(steps_lead(functions, constants, factory, second, late, left));
        assert(late[0] == mid);
        assert(steps_leave(functions, constants, factory, first, from, Some(mid.0)));
        assert(steps_leave(functions, constants, factory, second, mid, left));
    }
}

/// What a step does goes by the records that are left, and not by how many have been dropped or what has
/// been said before it.
pub proof fn lemma_step_goes_by_records<F: ExpressionFunctions, T: ColumnarRecordsFactory>(
    functions: F,
    constants: Seq<PipelineConstant>,
    factory: &T,
    expression: DataExpression,
    before: crate::engine::RunState<T::Batches, T::Records>,
    after: crate::engine::RunState<T::Batches, T::Records>,
    dropped: nat,
)
    requires
        crate::engine::continues(functions, constants, factory, expression, before, after),
    ensures
        before.dropped <= after.dropped,
        before.notes.is_prefix_of(after.notes),
        crate::engine::continues(
            functions,
            constants,
            factory,
            expression,
            (crate::engine::RunState { dropped, ..before }),
            (crate::engine::RunState {
                dropped: (dropped + after.dropped - before.dropped) as nat,
                ..after
            }),
        ),
{
    let other = crate::engine::RunState { dropped, ..before };
    let next = crate::engine::RunState {
        dropped: (dropped + after.dropped - before.dropped) as nat,
        ..after
    };
    match expression {
        DataExpression::Transform { transform, .. } => {
            let added = choose|added: Seq<crate::engine_diagnostic::ColumnarEngineDiagnostic>|
                #[trigger]
                crate::engine::transforms(
                    factory,
                    transform,
                    before.batches,
                    before.records,
                    after.batches,
                    Ok(after.records),
                    added,
                ) && after.notes == before.notes + added;
            assert(crate::engine::transforms(
                factory,
                transform,
                other.batches,
                other.records,
                next.batches,
                Ok(next.records),
                added,
            ));
        },
        _ => {},
    }
}

/// Whether a factory tells the number of records by their columns: records have as many as their columns,
/// a filter leaves no more, and a transform as many.
pub open spec fn counts<T: ColumnarRecordsFactory>(
    factory: &T,
    size: spec_fn(T::Batches) -> nat,
) -> bool {
    &&& forall|batches: T::Batches, records: T::Records| #[trigger]
        crate::engine::creates(factory, batches, records) ==> records.record_count() == size(
            batches,
        )
    &&& forall|
        batches: T::Batches,
        filter: std::rc::Rc<arrow::array::BooleanArray>,
        after: T::Batches,
    | #[trigger]
        crate::engine::filters(factory, batches, filter, after) ==> size(after) <= size(batches)
    &&& forall|
        transform: usize,
        batches: T::Batches,
        records: T::Records,
        after: T::Batches,
        answer: Result<T::Records, String>,
        added: Seq<crate::engine_diagnostic::ColumnarEngineDiagnostic>,
    | #[trigger]
        crate::engine::transforms(factory, transform, batches, records, after, answer, added)
            ==> size(after) == size(batches)
}

/// A run includes as many records as are in the columns that it leaves, and drops the others.
pub proof fn lemma_run_counts_what_is_left<F: ExpressionFunctions, T: ColumnarRecordsFactory>(
    functions: F,
    pipeline: PipelineExpression,
    factory: &T,
    batches: T::Batches,
    records: T::Records,
    outcome: RunOutcome<T::Batches>,
    size: spec_fn(T::Batches) -> nat,
)
    requires
        counts(factory, size),
        records.record_count() == size(batches),
        crate::engine::run(functions, pipeline, factory, batches, records, outcome),
    ensures
        outcome.included == (match outcome.batches {
            Some(left) => size(left),
            None => 0,
        }),
        outcome.included + outcome.dropped == size(batches),
{
    let constants = pipeline.constants@;
    let steps = pipeline.expressions@;
    let states = choose|states: Seq<crate::engine::RunState<T::Batches, T::Records>>| #[trigger]
        crate::engine::run_through(functions, pipeline, factory, batches, records, states) && {
            let n = states.len() - 1;
            if n == steps.len() {
                crate::engine::includes(states[n], outcome) && outcome.notes@ == states[n].notes
            } else {
                crate::engine::stops(functions, constants, factory, steps[n], states[n], outcome)
            }
        };
    let n = states.len() - 1;
    lemma_states_count(functions, pipeline, factory, batches, records, states, size, n);
    if n < steps.len() {
        match steps[n] {
            DataExpression::Transform { transform, .. } => {
                let (text, added) = choose|
                    text: String,
                    added: Seq<crate::engine_diagnostic::ColumnarEngineDiagnostic>,
                | #[trigger]
                    crate::engine::transforms(
                        factory,
                        transform,
                        states[n].batches,
                        states[n].records,
                        outcome.batches->0,
                        Err(text),
                        added,
                    );
                assert(crate::engine::transforms(
                    factory,
                    transform,
                    states[n].batches,
                    states[n].records,
                    outcome.batches->0,
                    Err(text),
                    added,
                ));
            },
            _ => {},
        }
    }
}

proof fn lemma_states_count<F: ExpressionFunctions, T: ColumnarRecordsFactory>(
    functions: F,
    pipeline: PipelineExpression,
    factory: &T,
    batches: T::Batches,
    records: T::Records,
    states: Seq<crate::engine::RunState<T::Batches, T::Records>>,
    size: spec_fn(T::Batches) -> nat,
    k: int,
)
    requires
        counts(factory, size),
        records.record_count() == size(batches),
        crate::engine::run_through(functions, pipeline, factory, batches, records, states),
        0 <= k < states.len(),
    ensures
        states[k].count == size(states[k].batches),
        states[k].count + states[k].dropped == size(batches),
    decreases k,
{
    if k > 0 {
        lemma_states_count(functions, pipeline, factory, batches, records, states, size, k - 1);
        let before = states[k - 1];
        let after = states[k];
        assert(crate::engine::continues(
            functions,
            pipeline.constants@,
            factory,
            pipeline.expressions@[k - 1],
            before,
            states[k - 1 + 1],
        ));
        match pipeline.expressions@[k - 1] {
            DataExpression::Transform { transform, .. } => {
                let added = choose|added: Seq<crate::engine_diagnostic::ColumnarEngineDiagnostic>|
                    #[trigger]
                    crate::engine::transforms(
                        factory,
                        transform,
                        before.batches,
                        before.records,
                        after.batches,
                        Ok(after.records),
                        added,
                    );
                assert(crate::engine::transforms(
                    factory,
                    transform,
                    before.batches,
                    before.records,
                    after.batches,
                    Ok(after.records),
                    added,
                ));
            },
            _ => {},
        }
    }
}

} // verus!
