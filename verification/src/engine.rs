//! The engine: a pipeline of expressions that records are pushed through.

use std::rc::Rc;

use arrow::array::BooleanArray;
use vstd::prelude::*;

use crate::columnar_records::ColumnarRecords;
use crate::engine_diagnostic::{
    ColumnarEngineDiagnostic, ColumnarEngineDiagnosticLevel, ColumnarEngineDiagnosticReceiver,
    DiagnosticMessage,
};
use crate::execution_context::{ExecutionContext, ExecutionContextVariables};
use crate::expressions::{
    ExpressionFunctions, ExpressionInfo, LogicalExpression, LogicalExpressionKind, PipelineConstant,
};
use crate::log_columns::new_note;
use crate::log_updates::new_remark;
use crate::logical_expressions::{execute_logical_expression, LogicalEvaluation};
use crate::named_values::NamedValues;
use crate::resolved_value::{ResolvedLogicalValue, ResolvedSingleOrDictionaryValue};

verus! {

/// A step of a pipeline.
#[derive(Debug)]
pub enum DataExpression {
    /// Drops records: those that the predicate is true of, or all if there is none.
    Discard { info: ExpressionInfo, predicate: Option<Rc<LogicalExpression>> },
    /// Writes to the records what their factory makes of the transform of a number.
    Transform { info: ExpressionInfo, transform: usize },
}

/// A query: its text, its constants and its steps, and the name that a negation goes by in
/// diagnostics.
#[derive(Debug)]
pub struct PipelineExpression {
    pub query: Rc<String>,
    pub constants: Vec<PipelineConstant>,
    pub expressions: Vec<DataExpression>,
    pub not_name: Rc<String>,
}

/// How an engine works.
#[derive(Debug, Clone, Copy, PartialEq, Eq, Structural)]
pub struct ColumnarEngineOptions {
    pub diagnostic_level: ColumnarEngineDiagnosticLevel,
    pub summary_cardinality_limit: usize,
}

impl ColumnarEngineOptions {
    /// Warnings are told, and a summary has at most 8192 groups.
    pub fn new() -> (r: ColumnarEngineOptions)
        ensures
            r.diagnostic_level == ColumnarEngineDiagnosticLevel::Warn,
            r.summary_cardinality_limit == 8192,
    {
        ColumnarEngineOptions {
            diagnostic_level: ColumnarEngineDiagnosticLevel::Warn,
            summary_cardinality_limit: 8192,
        }
    }

    pub fn with_diagnostic_level(self, diagnostic_level: ColumnarEngineDiagnosticLevel) -> (r:
        ColumnarEngineOptions)
        ensures
            r == (ColumnarEngineOptions { diagnostic_level, ..self }),
    {
        ColumnarEngineOptions {
            diagnostic_level,
            summary_cardinality_limit: self.summary_cardinality_limit,
        }
    }

    pub fn with_summary_cardinality_limit(self, summary_cardinality_limit: usize) -> (r:
        ColumnarEngineOptions)
        ensures
            r == (ColumnarEngineOptions { summary_cardinality_limit, ..self }),
    {
        ColumnarEngineOptions { diagnostic_level: self.diagnostic_level, summary_cardinality_limit }
    }
}

impl Default for ColumnarEngineOptions {
    fn default() -> (r: Self)
        ensures
            r.diagnostic_level == ColumnarEngineDiagnosticLevel::Warn,
            r.summary_cardinality_limit == 8192,
    {
        ColumnarEngineOptions::new()
    }
}

/// Records are dropped where a predicate is true, and filtered so that those stay of which something
/// is true. So this is what has to be true of the records that stay: the opposite of the predicate.
pub open spec fn kept_predicate(predicate: Rc<LogicalExpression>, not_name: Rc<String>) -> Rc<
    LogicalExpression,
> {
    match predicate.kind {
        LogicalExpressionKind::Not(inner) => inner,
        _ => Rc::new(
            LogicalExpression {
                info: ExpressionInfo {
                    name: not_name,
                    line: predicate.info.line,
                    column: predicate.info.column,
                },
                kind: LogicalExpressionKind::Not(predicate),
            },
        ),
    }
}

/// The step, turned from what is dropped to what stays.
pub open spec fn kept_expression(expression: DataExpression, not_name: Rc<String>) -> DataExpression {
    match expression {
        DataExpression::Discard { info, predicate: Some(predicate) } => DataExpression::Discard {
            info,
            predicate: Some(kept_predicate(predicate, not_name)),
        },
        _ => expression,
    }
}

/// What has to be true of the records that stay.
fn invert(predicate: Rc<LogicalExpression>, not_name: &Rc<String>) -> (r: Rc<LogicalExpression>)
    ensures
        r == kept_predicate(predicate, *not_name),
{
    if let LogicalExpressionKind::Not(inner) = &predicate.kind {
        return inner.clone();
    }
    let info = ExpressionInfo {
        name: not_name.clone(),
        line: predicate.info.line,
        column: predicate.info.column,
    };
    Rc::new(LogicalExpression { info, kind: LogicalExpressionKind::Not(predicate) })
}

/// An engine runs a pipeline on records.
#[derive(Debug)]
pub struct ColumnarEngine {
    pub diagnostic_level: ColumnarEngineDiagnosticLevel,
    pub summary_cardinality_limit: usize,
    pub pipeline: PipelineExpression,
}

impl ColumnarEngine {
    /// Whether this is the engine of a pipeline: its steps are turned from what is dropped to what
    /// stays.
    pub open spec fn runs(self, pipeline: PipelineExpression, options: ColumnarEngineOptions) -> bool {
        &&& self.diagnostic_level == options.diagnostic_level
        &&& self.summary_cardinality_limit == options.summary_cardinality_limit
        &&& self.pipeline.query == pipeline.query
        &&& self.pipeline.constants == pipeline.constants
        &&& self.pipeline.not_name == pipeline.not_name
        &&& self.pipeline.expressions@ == Seq::new(
            pipeline.expressions@.len(),
            |i: int| kept_expression(pipeline.expressions@[i], pipeline.not_name),
        )
    }

    /// An engine with the usual options.
    pub fn new(pipeline: PipelineExpression) -> (r: ColumnarEngine)
        ensures
            r.runs(
                pipeline,
                (ColumnarEngineOptions {
                    diagnostic_level: ColumnarEngineDiagnosticLevel::Warn,
                    summary_cardinality_limit: 8192,
                }),
            ),
    {
        ColumnarEngine::new_with_options(pipeline, ColumnarEngineOptions::new())
    }

    /// An engine for a pipeline.
    pub fn new_with_options(pipeline: PipelineExpression, options: ColumnarEngineOptions) -> (r:
        ColumnarEngine)
        ensures
            r.runs(pipeline, options),
    {
        let ghost given = pipeline.expressions@;
        let PipelineExpression { query, constants, expressions, not_name } = pipeline;
        let mut rest = expressions;
        let mut reversed: Vec<DataExpression> = Vec::new();
        while rest.len() > 0
            invariant
                rest@.len() <= given.len(),
                rest@ == given.subrange(0, rest@.len() as int),
                reversed@.len() == given.len() - rest@.len(),
                forall|i: int|
                    0 <= i < reversed@.len() ==> #[trigger] reversed@[i] == kept_expression(
                        given[given.len() - 1 - i],
                        not_name,
                    ),
            decreases rest@.len(),
        {
            let last = rest.pop().unwrap();
            let turned = match last {
                DataExpression::Discard { info, predicate: Some(predicate) } =>
                    DataExpression::Discard { info, predicate: Some(invert(predicate, &not_name)) },
                other => other,
            };
            reversed.push(turned);
            assert(rest@ =~= given.subrange(0, rest@.len() as int));
        }
        let mut turned: Vec<DataExpression> = Vec::new();
        while reversed.len() > 0
            invariant
                reversed@.len() + turned@.len() == given.len(),
                forall|i: int|
                    0 <= i < reversed@.len() ==> #[trigger] reversed@[i] == kept_expression(
                        given[given.len() - 1 - i],
                        not_name,
                    ),
                forall|i: int|
                    0 <= i < turned@.len() ==> #[trigger] turned@[i] == kept_expression(
                        given[i],
                        not_name,
                    ),
            decreases reversed@.len(),
        {
            let next = reversed.pop().unwrap();
            turned.push(next);
        }
        let expressions: Vec<DataExpression> = turned;
        assert(expressions@ =~= Seq::new(
            given.len(),
            |i: int| kept_expression(given[i], not_name),
        ));
        ColumnarEngine {
            diagnostic_level: options.diagnostic_level,
            summary_cardinality_limit: options.summary_cardinality_limit,
            pipeline: PipelineExpression { query, constants, expressions, not_name },
        }
    }

    pub fn get_pipeline(&self) -> (r: &PipelineExpression)
        ensures
            *r == self.pipeline,
    {
        &self.pipeline
    }

    /// Begins with a batch of records.
    pub fn begin_batch<'a, B>(&'a self) -> (r: ColumnarEngineBatch<'a, B>)
        ensures
            *r.engine == *self,
            r.included_batches@.len() == 0,
            r.included_record_count == 0,
            r.dropped_record_count == 0,
            r.diagnostics@.len() == 0,
    {
        ColumnarEngineBatch {
            engine: self,
            included_batches: Vec::new(),
            included_record_count: 0,
            dropped_record_count: 0,
            diagnostics: Vec::new(),
        }
    }
}

/// Where records come from, and how those are told apart that stay.
pub trait ColumnarRecordsFactory {
    /// The columns of records.
    type Batches;

    /// Records.
    type Records: ColumnarRecords;

    /// The records that columns hold.
    fn create(&self, batches: &Self::Batches) -> Self::Records;

    /// The columns of the records that the filter is true of.
    fn filter(&self, batches: Self::Batches, filter: &BooleanArray) -> Self::Batches;

    /// The columns and the records after a transform, or what went wrong, and what there is to say of
    /// it.
    fn set(&self, transform: usize, batches: Self::Batches, records: Self::Records) -> (
        Self::Batches,
        Result<Self::Records, String>,
        Vec<ColumnarEngineDiagnostic>,
    );
}

/// Whether the factory may make the records of the columns.
pub open spec fn creates<T: ColumnarRecordsFactory>(
    factory: &T,
    batches: T::Batches,
    records: T::Records,
) -> bool {
    call_ensures(T::create, (factory, &batches), records)
}

/// Whether the factory may leave those columns.
pub open spec fn filters<T: ColumnarRecordsFactory>(
    factory: &T,
    batches: T::Batches,
    filter: Rc<BooleanArray>,
    after: T::Batches,
) -> bool {
    call_ensures(T::filter, (factory, batches, &*filter), after)
}

/// Whether a transform may come out so.
pub open spec fn transforms<T: ColumnarRecordsFactory>(
    factory: &T,
    transform: usize,
    batches: T::Batches,
    records: T::Records,
    after: T::Batches,
    answer: Result<T::Records, String>,
    added: Seq<ColumnarEngineDiagnostic>,
) -> bool {
    exists|notes: Vec<ColumnarEngineDiagnostic>|
        notes@ == added && #[trigger] call_ensures(
            T::set,
            (factory, transform, batches, records),
            (after, answer, notes),
        )
}

/// What there is of pushed records after some steps.
#[verifier::reject_recursive_types(B)]
#[verifier::reject_recursive_types(R)]
pub ghost struct RunState<B, R> {
    pub batches: B,
    pub records: R,
    /// How many records there are.
    pub count: usize,
    /// How many records have been dropped.
    pub dropped: nat,
    pub notes: Seq<ColumnarEngineDiagnostic>,
}

/// Whether a predicate may evaluate so on records: without any variables yet.
pub open spec fn predicate_evaluates<F: ExpressionFunctions, R: ColumnarRecords>(
    functions: F,
    constants: Seq<PipelineConstant>,
    records: R,
    predicate: LogicalExpression,
    evaluation: LogicalEvaluation,
) -> bool {
    exists|context: ExecutionContext<'_, F, R>| {
        &&& *context.functions == functions
        &&& context.constants@ == constants
        &&& context.records == Some(&records)
        &&& forall|name: Seq<char>| #[trigger] context.variables.variable(name) is None
        &&& #[trigger] crate::logical_expressions::logical_evaluates(
            context,
            predicate,
            evaluation,
        )
    }
}

/// A note on a step that matters least of all.
pub open spec fn all_included(info: ExpressionInfo) -> ColumnarEngineDiagnostic {
    crate::log_updates::remark(info, DiagnosticMessage::AllRecordsIncluded)
}

/// A note that no record stays.
pub open spec fn all_dropped(info: ExpressionInfo) -> ColumnarEngineDiagnostic {
    crate::log_columns::note(info, DiagnosticMessage::AllRecordsDropped)
}

/// A note on how many records did not stay.
pub open spec fn some_dropped(info: ExpressionInfo, count: usize) -> ColumnarEngineDiagnostic {
    crate::log_columns::note(info, DiagnosticMessage::RecordsDropped(count))
}

/// A note that a transform went wrong.
pub open spec fn failed(info: ExpressionInfo, text: String) -> ColumnarEngineDiagnostic {
    ColumnarEngineDiagnostic {
        diagnostic_level: ColumnarEngineDiagnosticLevel::Error,
        expression: info,
        message: DiagnosticMessage::Text(Rc::new(text)),
    }
}

/// How many of `count` records have gone where `left` are left.
pub open spec fn gone(count: usize, left: usize) -> usize {
    if left <= count {
        (count - left) as usize
    } else {
        0
    }
}

/// Whether a step leads on from one state to another.
pub open spec fn continues<F: ExpressionFunctions, T: ColumnarRecordsFactory>(
    functions: F,
    constants: Seq<PipelineConstant>,
    factory: &T,
    expression: DataExpression,
    before: RunState<T::Batches, T::Records>,
    after: RunState<T::Batches, T::Records>,
) -> bool {
    match expression {
        DataExpression::Discard { info, predicate: Some(predicate) } => exists|
            evaluation: LogicalEvaluation,
        | #[trigger]
            predicate_evaluates(functions, constants, before.records, *predicate, evaluation)
                && match evaluation.value {
                ResolvedLogicalValue::Single(stay) => {
                    &&& stay
                    &&& after == RunState {
                        notes: (before.notes + evaluation.notes).push(all_included(info)),
                        ..before
                    }
                },
                ResolvedLogicalValue::Array { values, .. } => {
                    &&& filters(factory, before.batches, values, after.batches)
                    &&& creates(factory, after.batches, after.records)
                    &&& after.count == before.count - gone(
                        before.count,
                        after.records.record_count(),
                    )
                    &&& after.dropped == before.dropped + gone(
                        before.count,
                        after.records.record_count(),
                    )
                    &&& after.notes == (before.notes + evaluation.notes).push(
                        some_dropped(info, gone(before.count, after.records.record_count())),
                    )
                },
            },
        DataExpression::Discard { predicate: None, .. } => false,
        DataExpression::Transform { transform, .. } => exists|
            added: Seq<ColumnarEngineDiagnostic>,
        | {
            &&& #[trigger] transforms(
                factory,
                transform,
                before.batches,
                before.records,
                after.batches,
                Ok(after.records),
                added,
            )
            &&& after == RunState {
                batches: after.batches,
                records: after.records,
                notes: before.notes + added,
                ..before
            }
        },
    }
}

/// What comes of pushing records through a pipeline: their columns if any are to stay, and how many
/// records have stayed and gone.
#[verifier::reject_recursive_types(B)]
pub struct RunOutcome<B> {
    pub batches: Option<B>,
    pub included: usize,
    pub dropped: usize,
    pub notes: Vec<ColumnarEngineDiagnostic>,
}

/// Whether a step ends the run in a state with that outcome: no record stays, or a transform went
/// wrong.
pub open spec fn stops<F: ExpressionFunctions, T: ColumnarRecordsFactory>(
    functions: F,
    constants: Seq<PipelineConstant>,
    factory: &T,
    expression: DataExpression,
    state: RunState<T::Batches, T::Records>,
    outcome: RunOutcome<T::Batches>,
) -> bool {
    match expression {
        DataExpression::Discard { info, predicate: Some(predicate) } => {
            &&& drops_all(state, outcome)
            &&& exists|evaluation: LogicalEvaluation| #[trigger]
                predicate_evaluates(functions, constants, state.records, *predicate, evaluation)
                    && evaluation.value == ResolvedLogicalValue::Single(false)
                    && outcome.notes@ == (state.notes + evaluation.notes).push(all_dropped(info))
        },
        DataExpression::Discard { info, predicate: None } => {
            &&& drops_all(state, outcome)
            &&& outcome.notes@ == state.notes.push(all_dropped(info))
        },
        DataExpression::Transform { info, transform } => {
            &&& outcome.batches is Some
            &&& includes(RunState { batches: outcome.batches->0, ..state }, outcome)
            &&& exists|text: String, added: Seq<ColumnarEngineDiagnostic>| #[trigger]
                transforms(
                    factory,
                    transform,
                    state.batches,
                    state.records,
                    outcome.batches->0,
                    Err(text),
                    added,
                ) && outcome.notes@ == (state.notes + added).push(failed(info, text))
        },
    }
}

/// Whether no record stays.
pub open spec fn drops_all<B, R>(state: RunState<B, R>, outcome: RunOutcome<B>) -> bool {
    &&& outcome.batches is None
    &&& outcome.included == 0
    &&& outcome.dropped == state.dropped + state.count
}

/// Whether all records that are left stay.
pub open spec fn includes<B, R>(state: RunState<B, R>, outcome: RunOutcome<B>) -> bool {
    &&& outcome.batches == Some(state.batches)
    &&& outcome.included == state.count
    &&& outcome.dropped == state.dropped
}

/// Whether the states are those of a run up to its last step.
pub open spec fn run_through<F: ExpressionFunctions, T: ColumnarRecordsFactory>(
    functions: F,
    pipeline: PipelineExpression,
    factory: &T,
    batches: T::Batches,
    records: T::Records,
    states: Seq<RunState<T::Batches, T::Records>>,
) -> bool {
    &&& 0 < states.len() <= pipeline.expressions@.len() + 1
    &&& states[0] == (RunState {
        batches,
        records,
        count: records.record_count(),
        dropped: 0,
        notes: Seq::empty(),
    })
    &&& forall|k: int|
        0 <= k < states.len() - 1 ==> continues(
            functions,
            pipeline.constants@,
            factory,
            pipeline.expressions@[k],
            #[trigger] states[k],
            states[k + 1],
        )
}

/// Whether pushing records through a pipeline may come out so.
pub open spec fn run<F: ExpressionFunctions, T: ColumnarRecordsFactory>(
    functions: F,
    pipeline: PipelineExpression,
    factory: &T,
    batches: T::Batches,
    records: T::Records,
    outcome: RunOutcome<T::Batches>,
) -> bool {
    exists|states: Seq<RunState<T::Batches, T::Records>>| #[trigger]
        run_through(functions, pipeline, factory, batches, records, states) && {
            let n = states.len() - 1;
            if n == pipeline.expressions@.len() {
                includes(states[n], outcome) && outcome.notes@ == states[n].notes
            } else {
                stops(
                    functions,
                    pipeline.constants@,
                    factory,
                    pipeline.expressions@[n],
                    states[n],
                    outcome,
                )
            }
        }
}

/// Evaluates a predicate on records.
fn evaluate_predicate<F: ExpressionFunctions, R: ColumnarRecords>(
    functions: &F,
    constants: &Vec<PipelineConstant>,
    records: &R,
    predicate: &LogicalExpression,
) -> (r: (ResolvedLogicalValue, Vec<ColumnarEngineDiagnostic>))
    ensures
        predicate_evaluates(
            *functions,
            constants@,
            *records,
            *predicate,
            (LogicalEvaluation { value: r.0, notes: r.1@ }),
        ),
{
    let global_variables: NamedValues<ResolvedSingleOrDictionaryValue> = NamedValues::new();
    let context = ExecutionContext {
        functions,
        constants,
        variables: ExecutionContextVariables::new(&global_variables),
        records: Some(records),
    };
    let r = execute_logical_expression(&context, predicate);
    assert(crate::logical_expressions::logical_evaluates(
        context,
        *predicate,
        LogicalEvaluation { value: r.0, notes: r.1@ },
    ));
    r
}

/// Pushes records through a pipeline. Every record either stays or goes.
pub fn run_pipeline<F: ExpressionFunctions, T: ColumnarRecordsFactory>(
    functions: &F,
    pipeline: &PipelineExpression,
    factory: &T,
    batches: T::Batches,
    records: T::Records,
) -> (outcome: RunOutcome<T::Batches>)
    ensures
        run(*functions, *pipeline, factory, batches, records, outcome),
        outcome.included + outcome.dropped == records.record_count(),
{
    let ghost given = batches;
    let ghost made = records;
    let mut left_batches = batches;
    let mut left_records = records;
    let mut count: usize = left_records.len();
    let total: usize = count;
    let mut dropped: usize = 0;
    let mut notes: Vec<ColumnarEngineDiagnostic> = Vec::new();
    let ghost mut states: Seq<RunState<T::Batches, T::Records>> = seq![
        RunState { batches: left_batches, records: left_records, count, dropped: 0, notes: Seq::empty() },
    ];
    let mut k: usize = 0;
    while k < pipeline.expressions.len()
        invariant
            k <= pipeline.expressions@.len(),
            states.len() == k + 1,
            given == batches,
            made == records,
            total == made.record_count(),
            count + dropped == total,
            states[k as int] == (RunState {
                batches: left_batches,
                records: left_records,
                count,
                dropped: dropped as nat,
                notes: notes@,
            }),
            run_through(*functions, *pipeline, factory, given, made, states),
        decreases pipeline.expressions@.len() - k,
    {
        let ghost before = states;
        let ghost state = states[k as int];
        match &pipeline.expressions[k] {
            DataExpression::Discard { info, predicate } => {
                match predicate {
                    None => {
                        notes.push(new_note(info, DiagnosticMessage::AllRecordsDropped));
                        let outcome = RunOutcome {
                            batches: None,
                            included: 0,
                            dropped: total,
                            notes,
                        };
                        assert(drops_all(state, outcome));
                        return outcome;
                    },
                    Some(predicate) => {
                        let (value, mut more) = evaluate_predicate(
                            functions,
                            &pipeline.constants,
                            &left_records,
                            &**predicate,
                        );
                        let ghost evaluation = LogicalEvaluation { value, notes: more@ };
                        assert(predicate_evaluates(
                            *functions,
                            pipeline.constants@,
                            state.records,
                            **predicate,
                            evaluation,
                        ));
                        notes.append(&mut more);
                        assert(notes@ =~= state.notes + evaluation.notes);
                        match value {
                            ResolvedLogicalValue::Single(stay) => {
                                if !stay {
                                    notes.push(
                                        new_note(info, DiagnosticMessage::AllRecordsDropped),
                                    );
                                    let outcome = RunOutcome {
                                        batches: None,
                                        included: 0,
                                        dropped: total,
                                        notes,
                                    };
                                    assert(drops_all(state, outcome));
                                    assert(stops(
                                        *functions,
                                        pipeline.constants@,
                                        factory,
                                        pipeline.expressions@[k as int],
                                        state,
                                        outcome,
                                    ));
                                    return outcome;
                                }
                                notes.push(new_remark(info, DiagnosticMessage::AllRecordsIncluded));
                            },
                            ResolvedLogicalValue::Array { data_type: _, values } => {
                                left_batches = factory.filter(left_batches, &*values);
                                assert(filters(factory, state.batches, values, left_batches));
                                left_records = factory.create(&left_batches);
                                assert(creates(factory, left_batches, left_records));
                                let left: usize = left_records.len();
                                let dropped_count: usize = if left <= count {
                                    count - left
                                } else {
                                    0
                                };
                                count = count - dropped_count;
                                dropped = dropped + dropped_count;
                                notes.push(
                                    new_note(
                                        info,
                                        DiagnosticMessage::RecordsDropped(dropped_count),
                                    ),
                                );
                            },
                        }
                    },
                }
            },
            DataExpression::Transform { info, transform } => {
                let (after_batches, answer, added) = factory.set(
                    *transform,
                    left_batches,
                    left_records,
                );
                let ghost given_notes = added;
                let ghost answered = answer;
                assert(call_ensures(
                    T::set,
                    (factory, *transform, state.batches, state.records),
                    (after_batches, answered, given_notes),
                ));
                left_batches = after_batches;
                let mut added = added;
                notes.append(&mut added);
                assert(notes@ =~= state.notes + given_notes@);
                match answer {
                    Ok(after) => {
                        left_records = after;
                        assert(transforms(
                            factory,
                            *transform,
                            state.batches,
                            state.records,
                            left_batches,
                            Ok(left_records),
                            given_notes@,
                        ));
                    },
                    Err(text) => {
                        assert(transforms(
                            factory,
                            *transform,
                            state.batches,
                            state.records,
                            left_batches,
                            Err(text),
                            given_notes@,
                        ));
                        let ghost said = failed(*info, text);
                        notes.push(
                            ColumnarEngineDiagnostic::new(
                                ColumnarEngineDiagnosticLevel::Error,
                                info.clone(),
                                DiagnosticMessage::Text(Rc::new(text)),
                            ),
                        );
                        let outcome = RunOutcome {
                            batches: Some(left_batches),
                            included: count,
                            dropped,
                            notes,
                        };
                        assert(includes(
                            RunState { batches: outcome.batches->0, ..state },
                            outcome,
                        ));
                        assert(outcome.notes@ == (state.notes + given_notes@).push(said));
                        return outcome;
                    },
                }
            },
        }
        proof {
            let next = RunState {
                batches: left_batches,
                records: left_records,
                count,
                dropped: dropped as nat,
                notes: notes@,
            };
            assert(continues(
                *functions,
                pipeline.constants@,
                factory,
                pipeline.expressions@[k as int],
                state,
                next,
            ));
            states = states.push(next);
            assert forall|j: int| 0 <= j < states.len() - 1 implies continues(
                *functions,
                pipeline.constants@,
                factory,
                pipeline.expressions@[j],
                #[trigger] states[j],
                states[j + 1],
            ) by {
                if j < k {
                    assert(states[j] == before[j]);
                    assert(states[j + 1] == before[j + 1]);
                }
            }
        }
        k = k + 1;
    }
    let ghost state = states[k as int];
    let outcome = RunOutcome { batches: Some(left_batches), included: count, dropped, notes };
    assert(includes(state, outcome));
    outcome
}

/// The records that have been pushed through a pipeline so far.
#[verifier::reject_recursive_types(B)]
pub struct ColumnarEngineBatch<'a, B> {
    pub engine: &'a ColumnarEngine,
    pub included_batches: Vec<B>,
    pub included_record_count: usize,
    pub dropped_record_count: usize,
    pub diagnostics: Vec<ColumnarEngineDiagnostic>,
}

/// A count after some more: no more than can be counted.
pub open spec fn counted(count: usize, more: usize) -> usize {
    if count + more <= usize::MAX {
        (count + more) as usize
    } else {
        usize::MAX
    }
}

/// A count after some more: no more than can be counted.
fn count_more(count: usize, more: usize) -> (r: usize)
    ensures
        r == counted(count, more),
{
    match count.checked_add(more) {
        Some(sum) => sum,
        None => usize::MAX,
    }
}

impl<'a, B> ColumnarEngineBatch<'a, B> {
    /// Whether this is what there was before, and what came of one more push, of which only those
    /// diagnostics are kept that the records or else the engine ask for.
    pub open spec fn pushed(
        self,
        before: Self,
        level: Option<ColumnarEngineDiagnosticLevel>,
        outcome: RunOutcome<B>,
    ) -> bool {
        &&& self.engine == before.engine
        &&& self.included_record_count == counted(before.included_record_count, outcome.included)
        &&& self.dropped_record_count == counted(before.dropped_record_count, outcome.dropped)
        &&& self.included_batches@ == (match outcome.batches {
            Some(batches) => before.included_batches@.push(batches),
            None => before.included_batches@,
        })
        &&& self.diagnostics@ == before.diagnostics@ + crate::engine_diagnostic::enabled(
            match level {
                Some(level) => level,
                None => before.engine.diagnostic_level,
            },
            outcome.notes@,
        )
    }

    /// Pushes records through the pipeline.
    pub fn push_records<F: ExpressionFunctions, T: ColumnarRecordsFactory<Batches = B>>(
        &mut self,
        functions: &F,
        factory: &T,
        batches: B,
    )
        ensures
            exists|records: T::Records, outcome: RunOutcome<B>| #[trigger]
                run(
                    *functions,
                    old(self).engine.pipeline,
                    factory,
                    batches,
                    records,
                    outcome,
                ) && creates(factory, batches, records) && final(self).pushed(
                    *old(self),
                    records.level(),
                    outcome,
                ) && outcome.included + outcome.dropped == records.record_count(),
    {
        let ghost given = batches;
        let records = factory.create(&batches);
        let ghost made = records;
        assert(creates(factory, given, made));
        let diagnostic_level: ColumnarEngineDiagnosticLevel = match records.get_diagnostic_level() {
            Some(level) => level,
            None => self.engine.diagnostic_level,
        };
        let outcome = run_pipeline(functions, &self.engine.pipeline, factory, batches, records);
        let ghost came = outcome;
        assert(run(*functions, old(self).engine.pipeline, factory, given, made, came));
        let RunOutcome { batches: left, included, dropped, notes } = outcome;
        let mut receiver = ColumnarEngineDiagnosticReceiver::new(diagnostic_level);
        receiver.add_all(notes);
        let mut kept = receiver.diagnostics;
        let ghost told = kept@;
        self.diagnostics.append(&mut kept);
        self.included_record_count = count_more(self.included_record_count, included);
        self.dropped_record_count = count_more(self.dropped_record_count, dropped);
        if let Some(left) = left {
            self.included_batches.push(left);
        }
        proof {
            assert(told =~= crate::engine_diagnostic::enabled(diagnostic_level, came.notes@));
            assert(self.pushed(*old(self), made.level(), came));
        }
    }

    /// Ends the batch.
    pub fn flush(self) -> (r: ColumnarEngineResults<'a, B>)
        ensures
            *r.pipeline == self.engine.pipeline,
            r.included_batches == self.included_batches,
            r.included_record_count == self.included_record_count,
            r.dropped_record_count == self.dropped_record_count,
            r.diagnostics == self.diagnostics,
    {
        ColumnarEngineResults {
            pipeline: &self.engine.pipeline,
            included_batches: self.included_batches,
            included_record_count: self.included_record_count,
            dropped_record_count: self.dropped_record_count,
            diagnostics: self.diagnostics,
        }
    }
}

/// What came of the records that were pushed through a pipeline.
#[verifier::reject_recursive_types(B)]
pub struct ColumnarEngineResults<'a, B> {
    pub pipeline: &'a PipelineExpression,
    pub included_batches: Vec<B>,
    pub included_record_count: usize,
    pub dropped_record_count: usize,
    pub diagnostics: Vec<ColumnarEngineDiagnostic>,
}

/// Turning a predicate round twice gives it back, unless it is a negation, whose inside is turned
/// round instead.
pub proof fn lemma_kept_twice(predicate: Rc<LogicalExpression>, not_name: Rc<String>)
    requires
        !(predicate.kind is Not),
    ensures
        kept_predicate(kept_predicate(predicate, not_name), not_name) == predicate,
{
}

/// What has to be true of the records that stay evaluates to the opposite of the predicate, for each
/// record of which the predicate is true or false.
pub proof fn lemma_kept_is_opposite<F: ExpressionFunctions, R: ColumnarRecords>(
    context: ExecutionContext<'_, F, R>,
    predicate: Rc<LogicalExpression>,
    not_name: Rc<String>,
    evaluation: LogicalEvaluation,
)
    requires
        !(predicate.kind is Not),
        crate::logical_expressions::logical_evaluates(
            context,
            *kept_predicate(predicate, not_name),
            evaluation,
        ),
    ensures
        exists|inner: LogicalEvaluation|
            crate::logical_expressions::logical_evaluates(context, *predicate, inner)
                && #[trigger] crate::logical_expressions::negates(inner.value, evaluation.value),
{
    reveal_with_fuel(crate::logical_expressions::logical_evaluates, 2);
    reveal_with_fuel(crate::logical_expressions::logical_kind_evaluates, 2);
}

/// A record stays exactly if the predicate is false of it. One of which it is neither true nor false
/// goes, as one of which it is true.
pub proof fn lemma_stays_where_false(
    predicate: ResolvedLogicalValue,
    kept: ResolvedLogicalValue,
    record: int,
)
    requires
        predicate is Array,
        crate::logical_expressions::negates(predicate, kept),
        0 <= record < crate::boolean_array::boolean_values(*predicate->values).len(),
    ensures
        kept is Array,
        crate::boolean_array::boolean_values(*kept->values).len()
            == crate::boolean_array::boolean_values(*predicate->values).len(),
        (crate::boolean_array::boolean_values(*kept->values)[record] == Some(true)) == (
        crate::boolean_array::boolean_values(*predicate->values)[record] == Some(false)),
{
}

/// A negation that is dropped where it is true keeps the records of which its inside is true: it
/// evaluates to the opposite of what has to be true of the records that stay.
pub proof fn lemma_kept_of_negation<F: ExpressionFunctions, R: ColumnarRecords>(
    context: ExecutionContext<'_, F, R>,
    predicate: Rc<LogicalExpression>,
    not_name: Rc<String>,
    evaluation: LogicalEvaluation,
)
    requires
        predicate.kind is Not,
        crate::logical_expressions::logical_evaluates(context, *predicate, evaluation),
    ensures
        exists|inner: LogicalEvaluation|
            crate::logical_expressions::logical_evaluates(
                context,
                *kept_predicate(predicate, not_name),
                inner,
            ) && #[trigger] crate::logical_expressions::negates(inner.value, evaluation.value),
{
    reveal_with_fuel(crate::logical_expressions::logical_evaluates, 2);
    reveal_with_fuel(crate::logical_expressions::logical_kind_evaluates, 2);
}

} // verus!
