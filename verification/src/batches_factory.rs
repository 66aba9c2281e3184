//! Log records of record batches, and what is left of the batches as a pipeline runs on them.

use arrow::array::BooleanArray;
use vstd::prelude::*;

use crate::boolean_array::{boolean_array_len, boolean_true_count};
use crate::columnar_records::ColumnarRecords;
use crate::engine::{ColumnarRecordsFactory, PipelineExpression, RunOutcome};
use crate::engine_diagnostic::ColumnarEngineDiagnostic;
use crate::expressions::ExpressionFunctions;
use crate::log_records::OtapLogRecordBatch;
use crate::record_batches::{
    filter_batches, record_batch_ids, record_batch_rows, ColumnBatch, DecodedParentIds, LogBatches,
};
use crate::resolved_value::ResolvedLogicalValue;

verus! {

/// How batches of log records are read and written.
pub trait LogBatchFormat {
    /// The records that the batches hold.
    fn read(&self, batches: &LogBatches) -> OtapLogRecordBatch;

    /// The batches with plain ids in the batch of records, and the ids that attributes belong to, as
    /// far as the batches have them in encoded form.
    fn decode(&self, batches: LogBatches) -> (LogBatches, DecodedParentIds);

    /// The batches and the records after a transform, or what went wrong, and what there is to say of
    /// it.
    fn transform(&self, transform: usize, batches: LogBatches, records: OtapLogRecordBatch) -> (
        LogBatches,
        Result<OtapLogRecordBatch, String>,
        Vec<ColumnarEngineDiagnostic>,
    );

    /// What becomes of batches that cannot be filtered.
    fn refuse(&self) -> LogBatches;
}

/// Whether the batches can be filtered: it is known what the attributes belong to, the filter has an
/// entry for each record, and no batch is refused.
pub open spec fn filterable(
    batches: LogBatches,
    parent_ids: DecodedParentIds,
    filter: Seq<Option<bool>>,
) -> bool {
    &&& crate::record_batches::batches_wf(batches, parent_ids)
    &&& batches.logs matches Some(logs) ==> filter.len() == crate::record_batches::batch_rows(logs)
    &&& crate::record_batches::batches_left(batches, parent_ids, filter) is Ok
}

/// Whether the ids that attributes belong to are at hand.
fn parents_at_hand(parent_ids: &Option<Vec<Option<u16>>>, batch: &Option<ColumnBatch>) -> (r: bool)
    ensures
        r == (*batch matches Some(batch) ==> crate::record_batches::parents_known(
            crate::record_batches::optional_ids(*parent_ids),
            batch,
        )),
{
    match batch {
        Some(batch) => match parent_ids {
            Some(ids) => ids.len() == record_batch_rows(batch),
            None => record_batch_ids(batch, "parent_id").is_some(),
        },
        None => true,
    }
}

/// What is left of the batches when only the records that the filter marks as true are, or an error if
/// they cannot be filtered.
pub fn filter_checked(batches: LogBatches, parent_ids: DecodedParentIds, filter: &BooleanArray) -> (r:
    Result<LogBatches, ()>)
    ensures
        r is Ok == filterable(batches, parent_ids, crate::boolean_array::boolean_values(*filter)),
        r is Ok ==> r == crate::record_batches::batches_left(
            batches,
            parent_ids,
            crate::boolean_array::boolean_values(*filter),
        ),
        r matches Ok(after) ==> crate::record_batches::batches_filtered(
            batches,
            parent_ids,
            crate::boolean_array::boolean_values(*filter),
            after,
        ),
        r matches Ok(after) ==> crate::filter_laws::left_by(
            batches,
            parent_ids,
            crate::boolean_array::boolean_values(*filter),
            after,
        ),
{
    let entries_suffice: bool = match &batches.logs {
        Some(logs) => boolean_array_len(filter) == record_batch_rows(logs),
        None => true,
    };
    if entries_suffice && parents_at_hand(&parent_ids.log_attributes, &batches.log_attributes)
        && parents_at_hand(&parent_ids.resource_attributes, &batches.resource_attributes)
        && parents_at_hand(&parent_ids.scope_attributes, &batches.scope_attributes) {
        let r = filter_batches(batches, parent_ids, filter);
        proof {
            if r is Ok {
                crate::filter_laws::lemma_filter_leaves_what_belongs(
                    batches,
                    parent_ids,
                    crate::boolean_array::boolean_values(*filter),
                    r->Ok_0,
                );
            }
        }
        r
    } else {
        Err(())
    }
}

/// Whether the format may decode the ids so.
pub open spec fn decodes<S: LogBatchFormat>(
    format: &S,
    batches: LogBatches,
    decoded: LogBatches,
    parent_ids: DecodedParentIds,
) -> bool {
    call_ensures(S::decode, (format, batches), (decoded, parent_ids))
}

/// Whether the format may read the batches so.
pub open spec fn reads<S: LogBatchFormat>(
    format: &S,
    batches: LogBatches,
    records: OtapLogRecordBatch,
) -> bool {
    call_ensures(S::read, (format, &batches), records)
}

/// The number of records in the batches.
pub open spec fn batch_records(batches: LogBatches) -> nat {
    match batches.logs {
        Some(logs) => crate::record_batches::batch_rows(logs),
        None => 0,
    }
}

/// Whether the format reads a record from each row.
pub open spec fn reads_rows<S: LogBatchFormat>(format: &S) -> bool {
    forall|batches: LogBatches, records: OtapLogRecordBatch| #[trigger]
        reads(format, batches, records) ==> records.record_count() == batch_records(batches)
}

/// Whether `after` may be what is left of the batches. They stay as they are if every record does,
/// and nothing of them stays if none does. Else it is what is left of the decoded ones, if these can
/// be filtered.
pub open spec fn leaves<S: LogBatchFormat>(
    format: &S,
    batches: LogBatches,
    filter: Seq<Option<bool>>,
    after: LogBatches,
) -> bool {
    let kept = crate::boolean_array::count_entries(filter, true);
    if batches.logs is None || kept == 0 {
        &&& after.logs is None
        &&& after.log_attributes is None
        &&& after.resource_attributes is None
        &&& after.scope_attributes is None
    } else if kept == batch_records(batches) {
        after == batches
    } else {
        exists|decoded: LogBatches, parent_ids: DecodedParentIds| #[trigger]
            decodes(format, batches, decoded, parent_ids) && if filterable(
                decoded,
                parent_ids,
                filter,
            ) {
                &&& Ok::<LogBatches, ()>(after) == crate::record_batches::batches_left(
                    decoded,
                    parent_ids,
                    filter,
                )
                &&& crate::record_batches::batches_filtered(decoded, parent_ids, filter, after)
                &&& crate::filter_laws::left_by(decoded, parent_ids, filter, after)
            } else {
                call_ensures(S::refuse, (format,), after)
            }
    }
}

/// Makes log records of record batches.
pub struct LogBatchesFactory<S> {
    pub format: S,
}

impl<S: LogBatchFormat> ColumnarRecordsFactory for LogBatchesFactory<S> {
    type Batches = LogBatches;

    type Records = OtapLogRecordBatch;

    fn create(&self, batches: &LogBatches) -> (r: OtapLogRecordBatch)
        ensures
            reads(&self.format, *batches, r),
    {
        self.format.read(batches)
    }

    fn filter(&self, batches: LogBatches, filter: &BooleanArray) -> (r: LogBatches)
        ensures
            leaves(&self.format, batches, crate::boolean_array::boolean_values(*filter), r),
    {
        let kept: usize = boolean_true_count(filter);
        let rows: Option<usize> = match &batches.logs {
            Some(logs) => Some(record_batch_rows(logs)),
            None => None,
        };
        if rows.is_none() || kept == 0 {
            return LogBatches {
                logs: None,
                log_attributes: None,
                resource_attributes: None,
                scope_attributes: None,
            };
        }
        if rows == Some(kept) {
            return batches;
        }
        let (decoded, parent_ids) = self.format.decode(batches);
        assert(decodes(&self.format, batches, decoded, parent_ids));
        match filter_checked(decoded, parent_ids, filter) {
            Ok(after) => after,
            Err(_) => self.format.refuse(),
        }
    }

    fn set(&self, transform: usize, batches: LogBatches, records: OtapLogRecordBatch) -> (r: (
        LogBatches,
        Result<OtapLogRecordBatch, String>,
        Vec<ColumnarEngineDiagnostic>,
    ))
        ensures
            call_ensures(S::transform, (&self.format, transform, batches, records), r),
    {
        self.format.transform(transform, batches, records)
    }
}

/// What is left of batches that can be filtered has as many records as the filter marks as true.
pub proof fn lemma_filtered_records(
    batches: LogBatches,
    parent_ids: DecodedParentIds,
    filter: Seq<Option<bool>>,
    after: LogBatches,
)
    requires
        crate::record_batches::batches_filtered(batches, parent_ids, filter, after),
        batches.logs is Some,
    ensures
        batch_records(after) == crate::boolean_array::count_entries(filter, true),
{
}

/// Whether a pipeline of one predicate comes out so where the predicate has decided.
pub open spec fn discards<S: LogBatchFormat>(
    format: &S,
    batches: LogBatches,
    decision: ResolvedLogicalValue,
    outcome: RunOutcome<LogBatches>,
) -> bool {
    let count = batch_records(batches);
    match decision {
        ResolvedLogicalValue::Single(true) => {
            &&& outcome.batches == Some(batches)
            &&& outcome.included == count
            &&& outcome.dropped == 0
        },
        ResolvedLogicalValue::Single(false) => {
            &&& outcome.batches is None
            &&& outcome.included == 0
            &&& outcome.dropped == count
        },
        ResolvedLogicalValue::Array { values, .. } => {
            &&& outcome.batches matches Some(after)
            &&& leaves(format, batches, crate::boolean_array::boolean_values(*values), after)
            &&& outcome.included + outcome.dropped == count
            &&& batch_records(after) <= count ==> outcome.included == batch_records(after)
        },
    }
}

/// A pipeline that keeps the records of which a predicate is true leaves the batches that filtering
/// them by the predicate leaves, and counts the records in them. If the predicate has one answer for
/// all records, all of them stay or none.
pub proof fn lemma_pipeline_filters<F: ExpressionFunctions, S: LogBatchFormat>(
    functions: F,
    pipeline: PipelineExpression,
    factory: &LogBatchesFactory<S>,
    batches: LogBatches,
    records: OtapLogRecordBatch,
    outcome: RunOutcome<LogBatches>,
)
    requires
        pipeline.expressions@.len() == 1,
        pipeline.expressions@[0] is Discard,
        pipeline.expressions@[0]->predicate is Some,
        reads_rows(&factory.format),
        crate::engine::creates(factory, batches, records),
        crate::engine::run(functions, pipeline, factory, batches, records, outcome),
    ensures
        exists|evaluation: crate::logical_expressions::LogicalEvaluation| #[trigger]
            crate::engine::predicate_evaluates(
                functions,
                pipeline.constants@,
                records,
                *pipeline.expressions@[0]->predicate->0,
                evaluation,
            ) && discards(&factory.format, batches, evaluation.value, outcome),
{
    let predicate = pipeline.expressions@[0]->predicate->0;
    let states = choose|states: Seq<crate::engine::RunState<LogBatches, OtapLogRecordBatch>>| #[trigger]
        crate::engine::run_through(functions, pipeline, factory, batches, records, states) && {
            let n = states.len() - 1;
            if n == pipeline.expressions@.len() {
                crate::engine::includes(states[n], outcome) && outcome.notes@ == states[n].notes
            } else {
                crate::engine::stops(
                    functions,
                    pipeline.constants@,
                    factory,
                    pipeline.expressions@[n],
                    states[n],
                    outcome,
                )
            }
        };
    assert(reads(&factory.format, batches, records));
    let first = states[0];
    if states.len() == 2 {
        let last = states[1];
        assert(crate::engine::continues(
            functions,
            pipeline.constants@,
            factory,
            pipeline.expressions@[0],
            first,
            last,
        ));
        let evaluation = choose|evaluation: crate::logical_expressions::LogicalEvaluation| #[trigger]
            crate::engine::predicate_evaluates(
                functions,
                pipeline.constants@,
                records,
                *predicate,
                evaluation,
            ) && match evaluation.value {
                ResolvedLogicalValue::Single(stay) => stay && last.batches == first.batches
                    && last.count == first.count && last.dropped == first.dropped,
                ResolvedLogicalValue::Array { values, .. } => {
                    &&& crate::engine::filters(factory, first.batches, values, last.batches)
                    &&& crate::engine::creates(factory, last.batches, last.records)
                    &&& last.count == first.count - crate::engine::gone(
                        first.count,
                        last.records.record_count(),
                    )
                    &&& last.dropped == first.dropped + crate::engine::gone(
                        first.count,
                        last.records.record_count(),
                    )
                },
            };
        if let ResolvedLogicalValue::Array { values, .. } = evaluation.value {
            assert(leaves(
                &factory.format,
                batches,
                crate::boolean_array::boolean_values(*values),
                last.batches,
            ));
            assert(reads(&factory.format, last.batches, last.records));
        }
        assert(discards(&factory.format, batches, evaluation.value, outcome));
    } else {
        let evaluation = choose|evaluation: crate::logical_expressions::LogicalEvaluation| #[trigger]
            crate::engine::predicate_evaluates(
                functions,
                pipeline.constants@,
                records,
                *predicate,
                evaluation,
            ) && evaluation.value == ResolvedLogicalValue::Single(false);
        assert(discards(&factory.format, batches, evaluation.value, outcome));
    }
}

/// What a predicate that decides record by record says of each.
pub open spec fn decided(decision: ResolvedLogicalValue) -> Seq<Option<bool>> {
    crate::boolean_array::boolean_values(*decision->values)
}

/// Where the predicate decides record by record, on batches that can be filtered, as many records stay
/// as it is true of, and the others go.
pub proof fn lemma_pipeline_counts<S: LogBatchFormat>(
    format: &S,
    batches: LogBatches,
    decision: ResolvedLogicalValue,
    outcome: RunOutcome<LogBatches>,
)
    requires
        decision is Array,
        discards(format, batches, decision, outcome),
        batches.logs is Some,
        decided(decision).len() == batch_records(batches),
        forall|decoded: LogBatches, parent_ids: DecodedParentIds| #[trigger]
            decodes(format, batches, decoded, parent_ids) ==> decoded.logs is Some && filterable(
                decoded,
                parent_ids,
                decided(decision),
            ),
    ensures
        outcome.included == crate::boolean_array::count_entries(decided(decision), true),
        outcome.included + outcome.dropped == batch_records(batches),
{
    let filter = decided(decision);
    let after = outcome.batches->0;
    crate::boolean_array::lemma_count_all(filter, true);
    if crate::boolean_array::count_entries(filter, true) != batch_records(batches)
        && crate::boolean_array::count_entries(filter, true) != 0 {
        let (decoded, parent_ids) = choose|decoded: LogBatches, parent_ids: DecodedParentIds|
            #[trigger]
            decodes(format, batches, decoded, parent_ids)
                && crate::record_batches::batches_filtered(decoded, parent_ids, filter, after);
        lemma_filtered_records(decoded, parent_ids, filter, after);
    }
}

} // verus!
