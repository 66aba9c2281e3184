//! Running the pipeline of a query on log records.

use std::rc::Rc;

use vstd::prelude::*;

use crate::columnar_records::ColumnarRecords;
use crate::engine::{
    ColumnarEngine, ColumnarRecordsFactory, PipelineExpression, RunOutcome,
};
use crate::engine_diagnostic::ColumnarEngineDiagnostic;
use crate::expressions::ExpressionFunctions;
use crate::format_diagnostics::{format_diagnostics, INDENT};
use crate::log_record_schema::MapSchema;

verus! {

/// The pipeline of a query, and what is known of the attributes of the records that it is for.
pub struct BridgePipeline {
    pub attributes_schema: Option<Rc<MapSchema>>,
    pub engine: ColumnarEngine,
}

impl BridgePipeline {
    pub fn get_pipeline(&self) -> (r: &PipelineExpression)
        ensures
            *r == self.engine.pipeline,
    {
        self.engine.get_pipeline()
    }
}

/// What a pipeline has to say.
pub struct BridgeDiagnostics<'a> {
    pub pipeline: &'a BridgePipeline,
    pub diagnostics: Vec<ColumnarEngineDiagnostic>,
}

impl<'a> BridgeDiagnostics<'a> {
    pub fn is_empty(&self) -> (r: bool)
        ensures
            r == (self.diagnostics@.len() == 0),
    {
        self.diagnostics.len() == 0
    }

    pub fn get_pipeline(&self) -> (r: &'a BridgePipeline)
        ensures
            *r == *self.pipeline,
    {
        self.pipeline
    }

    pub fn get_diagnostics(&self) -> (r: &Vec<ColumnarEngineDiagnostic>)
        ensures
            r@ == self.diagnostics@,
    {
        &self.diagnostics
    }

    /// Writes the query out, with its diagnostics.
    pub fn to_text<F: ExpressionFunctions>(&self, functions: &F, tables: &Vec<String>) -> (r: String)
        requires
            forall|j: int|
                0 <= j < self.diagnostics@.len() ==> (
                #[trigger] self.diagnostics@[j]).expression.column + INDENT <= usize::MAX,
        ensures
            exists|lines: Seq<crate::format_diagnostics::DiagnosticLine>| #[trigger]
                crate::format_diagnostics::diagnostics_say(
                    functions,
                    tables@,
                    self.diagnostics@,
                    lines,
                ) && crate::format_diagnostics::writes(
                    self.pipeline.engine.pipeline.query@,
                    lines,
                    true,
                    r@,
                ),
    {
        format_diagnostics(
            functions,
            tables,
            self.pipeline.engine.pipeline.query.as_str(),
            &self.diagnostics,
        )
    }
}

/// What came of records: those that stay, how many stay and have gone, and what there is to say.
#[verifier::reject_recursive_types(B)]
pub struct BridgeResponse<'a, B> {
    pub included_records: Option<B>,
    pub included_record_count: usize,
    pub dropped_record_count: usize,
    pub diagnostics: BridgeDiagnostics<'a>,
}

/// Runs a pipeline on records. Every record either stays or goes.
pub fn process_otap_logs_using_pipeline<'a, F: ExpressionFunctions, T: ColumnarRecordsFactory>(
    pipeline: &'a BridgePipeline,
    functions: &F,
    factory: &T,
    batches: T::Batches,
) -> (r: BridgeResponse<'a, T::Batches>)
    ensures
        *r.diagnostics.pipeline == *pipeline,
        exists|records: T::Records, outcome: RunOutcome<T::Batches>| #[trigger]
            crate::engine::run(
                *functions,
                pipeline.engine.pipeline,
                factory,
                batches,
                records,
                outcome,
            ) && crate::engine::creates(factory, batches, records) && {
                &&& r.included_records == outcome.batches
                &&& r.included_record_count == outcome.included
                &&& r.dropped_record_count == outcome.dropped
                &&& r.included_record_count + r.dropped_record_count == records.record_count()
                &&& r.diagnostics.diagnostics@ == crate::engine_diagnostic::enabled(
                    match records.level() {
                        Some(level) => level,
                        None => pipeline.engine.diagnostic_level,
                    },
                    outcome.notes@,
                )
            },
{
    let mut batch = pipeline.engine.begin_batch::<T::Batches>();
    let ghost before = batch;
    batch.push_records(functions, factory, batches);
    let ghost (records, outcome) = choose|records: T::Records, outcome: RunOutcome<T::Batches>|
        #[trigger]
        crate::engine::run(
            *functions,
            pipeline.engine.pipeline,
            factory,
            batches,
            records,
            outcome,
        ) && crate::engine::creates(factory, batches, records) && batch.pushed(
            before,
            records.level(),
            outcome,
        ) && outcome.included + outcome.dropped == records.record_count();
    let results = batch.flush();
    let mut included = results.included_batches;
    let included_records: Option<T::Batches> = included.pop();
    let r = BridgeResponse {
        included_records,
        included_record_count: results.included_record_count,
        dropped_record_count: results.dropped_record_count,
        diagnostics: BridgeDiagnostics { pipeline, diagnostics: results.diagnostics },
    };
    proof {
        assert(before.diagnostics@ =~= Seq::<ColumnarEngineDiagnostic>::empty());
        assert(r.diagnostics.diagnostics@ =~= crate::engine_diagnostic::enabled(
            match records.level() {
                Some(level) => level,
                None => pipeline.engine.diagnostic_level,
            },
            outcome.notes@,
        ));
    }
    r
}

} // verus!
