//! What an engine does with a pipeline and with the records that are pushed through it.

use std::rc::Rc;

use vstd::prelude::*;

use crate::columnar_records::ColumnarRecords;
use crate::engine::{
    ColumnarEngine, ColumnarEngineBatch, ColumnarEngineOptions, DataExpression, PipelineExpression,
    RunOutcome,
};
use crate::engine_diagnostic::{ColumnarEngineDiagnostic, ColumnarEngineDiagnosticLevel};
use crate::execution_context::ExecutionContext;
use crate::expressions::{
    ExpressionFunctions, LogicalExpression, LogicalExpressionKind, PipelineConstant,
};
use crate::logical_expressions::LogicalEvaluation;

verus! {

/// Whether a level matters at least as much as another: an error most, then a warning, information
/// and the rest.
pub open spec fn matters(
    level: ColumnarEngineDiagnosticLevel,
    least: ColumnarEngineDiagnosticLevel,
) -> bool {
    match least {
        ColumnarEngineDiagnosticLevel::Verbose => true,
        ColumnarEngineDiagnosticLevel::Info => !(level is Verbose),
        ColumnarEngineDiagnosticLevel::Warn => level is Warn || level is Error,
        ColumnarEngineDiagnosticLevel::Error => level is Error,
    }
}

/// Whether `kept` are those of the diagnostics that matter enough, at these places, in order.
pub open spec fn kept_at(
    level: ColumnarEngineDiagnosticLevel,
    diagnostics: Seq<ColumnarEngineDiagnostic>,
    kept: Seq<ColumnarEngineDiagnostic>,
    places: Seq<int>,
) -> bool {
    &&& places.len() == kept.len()
    &&& forall|k: int|
        0 <= k < places.len() ==> 0 <= #[trigger] places[k] < diagnostics.len() && kept[k]
            == diagnostics[places[k]] && matters(diagnostics[places[k]].diagnostic_level, level)
    &&& forall|j: int, k: int|
        0 <= j < k < places.len() ==> #[trigger] places[j] < #[trigger] places[k]
    &&& forall|i: int|
        0 <= i < diagnostics.len() && matters((#[trigger] diagnostics[i]).diagnostic_level, level)
            ==> places.contains(i)
}

/// Of diagnostics those are kept that matter at least as much as the level, all of them and in
/// order.
pub proof fn lemma_enabled_are_kept(
    level: ColumnarEngineDiagnosticLevel,
    diagnostics: Seq<ColumnarEngineDiagnostic>,
) -> (places: Seq<int>)
    ensures
        kept_at(
            level,
            diagnostics,
            crate::engine_diagnostic::enabled(level, diagnostics),
            places,
        ),
    decreases diagnostics.len(),
{
    let kept = crate::engine_diagnostic::enabled(level, diagnostics);
    if diagnostics.len() == 0 {
        Seq::empty()
    } else {
        let fewer = diagnostics.drop_last();
        let last = diagnostics.len() - 1;
        let before = lemma_enabled_are_kept(level, fewer);
        let places = if matters(diagnostics[last].diagnostic_level, level) {
            before.push(last)
        } else {
            before
        };
        assert forall|i: int|
            0 <= i < diagnostics.len() && matters(
                (#[trigger] diagnostics[i]).diagnostic_level,
                level,
            ) implies places.contains(i) by {
            if i < last {
                assert(fewer[i] == diagnostics[i]);
                let k = choose|k: int| 0 <= k < before.len() && before[k] == i;
                assert(places[k] == i);
            } else {
                assert(places[before.len() as int] == i);
            }
        }
        assert forall|k: int| 0 <= k < places.len() implies 0 <= #[trigger] places[k]
            < diagnostics.len() && kept[k] == diagnostics[places[k]] && matters(
            diagnostics[places[k]].diagnostic_level,
            level,
        ) by {
            if k < before.len() {
                assert(places[k] == before[k]);
                assert(fewer[before[k]] == diagnostics[before[k]]);
            }
        }
        places
    }
}

/// The level that a text asks for is the one that it names, in either case; the text for information
/// asks for the verbose one.
pub proof fn lemma_level_names()
    ensures
        ColumnarEngineDiagnosticLevel::named("Verbose"@) == Some(
            ColumnarEngineDiagnosticLevel::Verbose,
        ),
        ColumnarEngineDiagnosticLevel::named("verbose"@) == Some(
            ColumnarEngineDiagnosticLevel::Verbose,
        ),
        ColumnarEngineDiagnosticLevel::named("Info"@) == Some(
            ColumnarEngineDiagnosticLevel::Verbose,
        ),
        ColumnarEngineDiagnosticLevel::named("info"@) == Some(
            ColumnarEngineDiagnosticLevel::Verbose,
        ),
        ColumnarEngineDiagnosticLevel::named("Warn"@) == Some(ColumnarEngineDiagnosticLevel::Warn),
        ColumnarEngineDiagnosticLevel::named("warn"@) == Some(ColumnarEngineDiagnosticLevel::Warn),
        ColumnarEngineDiagnosticLevel::named("Error"@) == Some(
            ColumnarEngineDiagnosticLevel::Error,
        ),
        ColumnarEngineDiagnosticLevel::named("error"@) == Some(
            ColumnarEngineDiagnosticLevel::Error,
        ),
{
    reveal_strlit("Verbose");
    reveal_strlit("verbose");
    reveal_strlit("Info");
    reveal_strlit("info");
    reveal_strlit("Warn");
    reveal_strlit("warn");
    reveal_strlit("Error");
    reveal_strlit("error");
    assert("Verbose"@.len() == 7 && "verbose"@.len() == 7);
    assert("Info"@.len() == 4 && "Info"@[0] == 'I');
    assert("info"@.len() == 4 && "info"@[0] == 'i');
    assert("Warn"@.len() == 4 && "Warn"@[0] == 'W');
    assert("warn"@.len() == 4 && "warn"@[0] == 'w');
    assert("Error"@.len() == 5 && "error"@.len() == 5);
}

/// A push adds the records that it keeps and those that it drops to the counts, its columns, if any are
/// left, behind those of earlier pushes, and its diagnostics that matter enough behind the earlier ones.
/// Nothing that was there is changed.
pub proof fn lemma_push_adds<'a, B>(
    before: ColumnarEngineBatch<'a, B>,
    after: ColumnarEngineBatch<'a, B>,
    level: Option<ColumnarEngineDiagnosticLevel>,
    outcome: RunOutcome<B>,
    pushed: usize,
) -> (places: Seq<int>)
    requires
        after.pushed(before, level, outcome),
        outcome.included + outcome.dropped == pushed,
    ensures
        before.included_record_count + before.dropped_record_count + pushed <= usize::MAX
            ==> after.included_record_count + after.dropped_record_count
            == before.included_record_count + before.dropped_record_count + pushed,
        before.included_record_count + pushed <= usize::MAX ==> after.included_record_count
            == before.included_record_count + outcome.included,
        before.dropped_record_count + pushed <= usize::MAX ==> after.dropped_record_count
            == before.dropped_record_count + outcome.dropped,
        before.included_batches@.is_prefix_of(after.included_batches@),
        after.included_batches@.len() == before.included_batches@.len() + (
        if outcome.batches is Some {
            1int
        } else {
            0
        }),
        outcome.batches matches Some(left) ==> after.included_batches@.last() == left,
        before.diagnostics@.is_prefix_of(after.diagnostics@),
        kept_at(
            if level is Some {
                level->0
            } else {
                before.engine.diagnostic_level
            },
            outcome.notes@,
            after.diagnostics@.skip(before.diagnostics@.len() as int),
            places,
        ),
{
    let asked = if level is Some {
        level->0
    } else {
        before.engine.diagnostic_level
    };
    let told = crate::engine_diagnostic::enabled(asked, outcome.notes@);
    let count = before.diagnostics@.len() as int;
    assert(after.diagnostics@ == before.diagnostics@ + told);
    assert(after.diagnostics@.skip(count) =~= told);
    lemma_enabled_are_kept(asked, outcome.notes@)
}

/// Whether a step of an engine is the one of its pipeline, with the predicate for what is dropped
/// turned into one for what stays: the inside of a negation, or else the negation.
pub open spec fn turned(given: DataExpression, step: DataExpression) -> bool {
    match (given, step) {
        (
            DataExpression::Discard { info, predicate: Some(drop) },
            DataExpression::Discard { info: own, predicate: Some(stay) },
        ) => own == info && (drop.kind == LogicalExpressionKind::Not(stay) || (!(drop.kind is Not)
            && stay.kind == LogicalExpressionKind::Not(drop))),
        (
            DataExpression::Discard { info, predicate: None },
            DataExpression::Discard { info: own, predicate },
        ) => own == info && predicate is None,
        (
            DataExpression::Transform { info, transform },
            DataExpression::Transform { info: own, transform: done },
        ) => own == info && done == transform,
        _ => false,
    }
}

/// An engine has all steps of its pipeline, in their order, each turned to what stays.
pub proof fn lemma_engine_has_each_step(
    engine: ColumnarEngine,
    pipeline: PipelineExpression,
    options: ColumnarEngineOptions,
    k: int,
)
    requires
        engine.runs(pipeline, options),
    ensures
        engine.pipeline.expressions@.len() == pipeline.expressions@.len(),
        0 <= k < pipeline.expressions@.len() ==> turned(
            pipeline.expressions@[k],
            engine.pipeline.expressions@[k],
        ),
        engine.diagnostic_level == options.diagnostic_level,
        engine.pipeline.constants@ == pipeline.constants@,
        engine.pipeline.query@ == pipeline.query@,
{
}

/// What has to be true of the records that stay is true of a record exactly if the predicate for what is
/// dropped is false of it.
pub proof fn lemma_stays_if_not_dropped<F: ExpressionFunctions, R: ColumnarRecords>(
    context: ExecutionContext<'_, F, R>,
    drop: Rc<LogicalExpression>,
    stay: LogicalExpression,
    evaluation: LogicalEvaluation,
    count: nat,
) -> (dropped: LogicalEvaluation)
    requires
        !(drop.kind is Not),
        stay.kind == LogicalExpressionKind::Not(drop),
        crate::logical_expressions::logical_evaluates(context, stay, evaluation),
    ensures
        crate::logical_expressions::logical_evaluates(context, *drop, dropped),
        crate::logical_expressions::tells(dropped.value, count) ==> forall|record: int|
            0 <= record < count ==> (crate::logical_expressions::truth_of(
                evaluation.value,
                record,
            ) == Some(true)) == (#[trigger] crate::logical_expressions::truth_of(
                dropped.value,
                record,
            ) == Some(false)),
{
    crate::logical_laws::lemma_expression_says(context, stay, evaluation, count);
    let dropped = choose|dropped: LogicalEvaluation|
        crate::logical_expressions::logical_evaluates(context, *drop, dropped)
            && #[trigger] crate::logical_laws::negates_all(dropped.value, evaluation.value, count);
    if crate::logical_expressions::tells(dropped.value, count) {
        assert forall|record: int| 0 <= record < count implies (
        crate::logical_expressions::truth_of(evaluation.value, record) == Some(true)) == (
        #[trigger] crate::logical_expressions::truth_of(dropped.value, record) == Some(false)) by {
            assert(crate::logical_laws::negated_so(dropped.value, evaluation.value, record));
        }
    }
    dropped
}

/// A warning, an error, a note and a remark have the level that they go by.
pub proof fn lemma_levels_of_notes(
    info: crate::expressions::ExpressionInfo,
    message: crate::engine_diagnostic::DiagnosticMessage,
    text: String,
)
    ensures
        crate::selection::warning(info, message).diagnostic_level is Warn,
        crate::slice_expression::error(info, text).diagnostic_level is Error,
        crate::engine::failed(info, text).diagnostic_level is Error,
        crate::log_columns::note(info, message).diagnostic_level is Info,
        crate::log_updates::remark(info, message).diagnostic_level is Verbose,
        crate::scalars::verbose(info, message).diagnostic_level is Verbose,
        crate::selection::warning(info, message).message == message,
        crate::selection::warning(info, message).expression == info,
        crate::log_columns::note(info, message).message == message,
        crate::log_columns::note(info, message).expression == info,
        crate::log_updates::remark(info, message).message == message,
        crate::log_updates::remark(info, message).expression == info,
        crate::scalars::verbose(info, message).message == message,
        crate::scalars::verbose(info, message).expression == info,
{
}

/// Whether this is what a predicate says of records: it is evaluated on these records, with these
/// constants and functions, and without any variable.
pub open spec fn asked<F: ExpressionFunctions, R: ColumnarRecords>(
    functions: F,
    constants: Seq<PipelineConstant>,
    records: R,
    predicate: LogicalExpression,
    evaluation: LogicalEvaluation,
) -> bool {
    exists|context: ExecutionContext<'_, F, R>| {
        &&& #[trigger] crate::logical_expressions::logical_evaluates(
            context,
            predicate,
            evaluation,
        )
        &&& context.records matches Some(own) && *own == records
        &&& *context.functions == functions
        &&& context.constants@ == constants
        &&& forall|name: Seq<char>|
            !(#[trigger] context.variables.local_variables@.contains_key(name))
        &&& forall|name: Seq<char>|
            !(#[trigger] context.variables.global_variables@.contains_key(name))
    }
}

/// A predicate of a pipeline is asked of the records that are there, with the constants of the pipeline.
pub proof fn lemma_predicate_is_asked<F: ExpressionFunctions, R: ColumnarRecords>(
    functions: F,
    constants: Seq<PipelineConstant>,
    records: R,
    predicate: LogicalExpression,
    evaluation: LogicalEvaluation,
)
    requires
        crate::engine::predicate_evaluates(functions, constants, records, predicate, evaluation),
    ensures
        asked(functions, constants, records, predicate, evaluation),
{
    let context = choose|context: ExecutionContext<'_, F, R>| {
        &&& *context.functions == functions
        &&& context.constants@ == constants
        &&& context.records == Some(&records)
        &&& forall|name: Seq<char>| #[trigger] context.variables.variable(name) is None
        &&& #[trigger] crate::logical_expressions::logical_evaluates(
            context,
            predicate,
            evaluation,
        )
    };
    assert forall|name: Seq<char>|
        !(#[trigger] context.variables.local_variables@.contains_key(name)) by {
        assert(context.variables.variable(name) is None);
    }
    assert forall|name: Seq<char>|
        !(#[trigger] context.variables.global_variables@.contains_key(name)) by {
        assert(context.variables.variable(name) is None);
    }
    assert(crate::logical_expressions::logical_evaluates(context, predicate, evaluation));
}

}
