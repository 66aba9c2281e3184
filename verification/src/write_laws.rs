//! What writing by a key of its own gives each record.

use roaring::RoaringBitmap;
use vstd::prelude::*;

use crate::columnar_records::{ColumnarEngineSelectionPath, ColumnarRecordsWriteResult};
use crate::dictionary::Dictionary;
use crate::engine_diagnostic::ColumnarEngineDiagnostic;
use crate::expressions::ExpressionInfo;
use crate::log_fields::{LogsTable, OtapLogRecordFields};
use crate::log_schema::{LogRecordKey, OtapLogRecordField};
use crate::log_updates::KeyPlan;
use crate::otap_attributes::OtapAttributes;
use crate::otap_value::OtapValue;
use crate::value::ValueOrRef;

verus! {

/// Whether a record has the text for its key.
pub open spec fn keyed_by(keys: Dictionary, record: int, name: Seq<char>) -> bool {
    keys.rows()[record] matches ValueOrRef::String(text) && text@ == name
}

/// The value that a record has, null if none is known.
pub open spec fn reads_as(value: OtapValue, record: int) -> ValueOrRef {
    match value {
        OtapValue::Read(values) => values.rows()[record],
        OtapValue::Written(values) => values.rows()[record],
        _ => ValueOrRef::Null,
    }
}

/// Whether the records that have the key are those of the records that have it.
proof fn lemma_with_key(keys: Dictionary, records: Seq<u32>, name: Seq<char>, n: int, record: int)
    requires
        0 <= n <= records.len(),
        0 <= record < keys.rows().len(),
        keys.rows().len() <= usize::MAX,
    ensures
        (exists|k: int|
            0 <= k < crate::log_updates::records_with_key(keys, records, name, n).len()
                && #[trigger] crate::log_updates::records_with_key(keys, records, name, n)[k]
                == record) == (keyed_by(keys, record, name) && exists|i: int|
            0 <= i < n && #[trigger] records[i] == record),
    decreases n,
{
    if n > 0 {
        lemma_with_key(keys, records, name, n - 1, record);
        let all = crate::log_updates::records_with_key(keys, records, name, n);
        let fewer = crate::log_updates::records_with_key(keys, records, name, n - 1);
        let last = records[n - 1];
        assert(keys.row_for(record as usize) == keys.rows()[record]);
        let added = crate::log_updates::text_of(keys.row_for(last as usize)) == Some(name);
        if exists|k: int| 0 <= k < all.len() && #[trigger] all[k] == record {
            let k = choose|k: int| 0 <= k < all.len() && #[trigger] all[k] == record;
            if k < fewer.len() {
                assert(fewer[k] == record);
                let i = choose|i: int| 0 <= i < n - 1 && #[trigger] records[i] == record;
                assert(records[i] == record);
            } else {
                assert(records[n - 1] == record);
            }
        }
        if keyed_by(keys, record, name) && exists|i: int|
            0 <= i < n && #[trigger] records[i] == record {
            let i = choose|i: int| 0 <= i < n && #[trigger] records[i] == record;
            if i < n - 1 {
                assert(exists|j: int| 0 <= j < n - 1 && #[trigger] records[j] == record);
                let k = choose|k: int| 0 <= k < fewer.len() && #[trigger] fewer[k] == record;
                assert(all[k] == record);
            } else {
                assert(added);
                assert(all[fewer.len() as int] == record);
            }
        }
    }
}

proof fn lemma_filter_rows(key_filter: Option<&RoaringBitmap>, rows: Seq<u32>, record: int)
    requires
        key_filter matches Some(filter) && rows == crate::row_bitmap::bitmap_values(*filter),
    ensures
        crate::path_laws::let_through(key_filter, record) == (exists|j: int|
            0 <= j < rows.len() && #[trigger] rows[j] == record),
{
    if let Some(filter) = key_filter {
        if exists|j: int| 0 <= j < rows.len() && #[trigger] rows[j] == record {
            let j = choose|j: int| 0 <= j < rows.len() && #[trigger] rows[j] == record;
            assert(crate::row_bitmap::bitmap_values(*filter)[j] == record);
        }
    }
}

/// A plan gives each key the records that have it and that the filter lets through.
pub proof fn lemma_plan_by_record(
    plan: KeyPlan,
    keys: Dictionary,
    key_filter: Option<&RoaringBitmap>,
    k: int,
    record: int,
)
    requires
        ({
            let records = crate::log_updates::filtered_records(key_filter, keys.rows().len());
            plan.covers(keys, records, records.len() as int)
        }),
        0 <= k < plan.keys@.len(),
        0 <= record < keys.rows().len(),
        keys.rows().len() <= 0x1_0000_0000,
        keys.rows().len() <= usize::MAX,
    ensures
        crate::path_laws::let_through(Some(&plan.filters@[k]), record) == (
        crate::path_laws::let_through(key_filter, record) && keyed_by(
            keys,
            record,
            plan.keys@[k]@,
        )),
{
    let records = crate::log_updates::filtered_records(key_filter, keys.rows().len());
    let n = records.len() as int;
    let name = plan.keys@[k]@;
    lemma_with_key(keys, records, name, n, record);
    let own = crate::row_bitmap::bitmap_values(plan.filters@[k]);
    assert(own == crate::log_updates::records_with_key(keys, records, name, n));
    if key_filter is None {
        assert(records[record] == record as u32);
    }
    lemma_filter_rows(Some(&plan.filters@[k]), own, record);
    if key_filter is Some {
        lemma_filter_rows(key_filter, records, record);
    }
    assert((exists|i: int| 0 <= i < n && #[trigger] records[i] == record)
        == crate::path_laws::let_through(key_filter, record));
}

/// Every key that a record has, if the filter lets the record through, is in the plan.
proof fn lemma_plan_has_key(
    plan: KeyPlan,
    keys: Dictionary,
    key_filter: Option<&RoaringBitmap>,
    record: int,
    name: Seq<char>,
) -> (k: int)
    requires
        ({
            let records = crate::log_updates::filtered_records(key_filter, keys.rows().len());
            plan.covers(keys, records, records.len() as int)
        }),
        0 <= record < keys.rows().len(),
        keys.rows().len() <= 0x1_0000_0000,
        keys.rows().len() <= usize::MAX,
        crate::path_laws::let_through(key_filter, record),
        keyed_by(keys, record, name),
    ensures
        0 <= k < plan.keys@.len(),
        plan.keys@[k]@ == name,
{
    let records = crate::log_updates::filtered_records(key_filter, keys.rows().len());
    let i = match key_filter {
        Some(filter) => choose|i: int|
            0 <= i < crate::row_bitmap::bitmap_values(*filter).len()
                && #[trigger] crate::row_bitmap::bitmap_values(*filter)[i] == record,
        None => record,
    };
    assert(records[i] == record);
    assert(keys.row_for(records[i] as usize) == keys.rows()[record]);
    assert(plan.has_key(name));
    choose|k: int| 0 <= k < plan.keys@.len() && (#[trigger] plan.keys@[k])@ == name
}

proof fn lemma_nothing_is_null(values: Dictionary, record: int)
    requires
        values.nothing(),
        0 <= record < values.rows().len(),
    ensures
        values.rows()[record] is Null,
{
    if let Some(position) = values.keys.position(record) {
        assert(!values.keys.spec_is_null());
        if values.values is Boolean {
            assert(values.values.values()[0] is Boolean);
        }
    }
}

/// A replacement gives the records that the filter lets through their new value, and leaves the others
/// theirs.
pub proof fn lemma_replaced_by_record(
    existing: Dictionary,
    key_filter: &RoaringBitmap,
    values: Dictionary,
    after: Dictionary,
    record: int,
)
    requires
        existing.replaced(Some(key_filter), values, after),
        0 <= record < existing.rows().len(),
        values.rows().len() == existing.rows().len(),
        existing.rows().len() <= usize::MAX,
    ensures
        after.rows().len() == existing.rows().len(),
        crate::scalar_laws::stands_for(
            after.rows()[record],
            if crate::path_laws::let_through(Some(key_filter), record) {
                values.rows()[record]
            } else {
                existing.rows()[record]
            },
        ),
{
    crate::path_laws::lemma_selected(Some(key_filter), record);
    assert(values.row_for(record as usize) == values.rows()[record]);
    assert(crate::dictionary::held_for(
        after.rows()[record],
        if Dictionary::selected(Some(key_filter), record) {
            crate::dictionary::replacement(values, record)
        } else {
            existing.rows()[record]
        },
    ));
}

proof fn lemma_written_reads(column: Dictionary, record: int)
    requires
        0 <= record < column.rows().len(),
    ensures
        reads_as(crate::log_updates::written(column), record) == column.rows()[record],
{
    if column.nothing() {
        lemma_nothing_is_null(column, record);
    }
}

/// Where each record has a key of its own, the value of a record is written under that key for this
/// record alone: every other record has under the key what it had, and so has every record that the
/// filter holds back.
pub proof fn lemma_attributes_written_by_own_key(
    expression: ExpressionInfo,
    path: Seq<ColumnarEngineSelectionPath>,
    key_filter: Option<&RoaringBitmap>,
    keys: Dictionary,
    values: Dictionary,
    before: OtapAttributes,
    after: OtapAttributes,
    noted: Seq<ColumnarEngineDiagnostic>,
    notes: Seq<ColumnarEngineDiagnostic>,
    r: ColumnarRecordsWriteResult,
    record: int,
    name: Seq<char>,
)
    requires
        path.len() == 1,
        path[0] matches ColumnarEngineSelectionPath::Dictionary { values: own, .. } && own == keys,
        crate::otap_attributes::attributes_updated(
            expression,
            path,
            key_filter,
            values,
            before,
            after,
            noted,
            notes,
            r,
        ),
        keys.rows().len() == values.rows().len(),
        keys.rows().len() <= 0x1_0000_0000,
        keys.rows().len() <= usize::MAX,
        before.wf(values.rows().len()),
        0 <= record < values.rows().len(),
    ensures
        r == ColumnarRecordsWriteResult::Success,
        crate::scalar_laws::stands_for(
            reads_as(after.value(name), record),
            if crate::path_laws::let_through(key_filter, record) && keyed_by(keys, record, name) {
                values.rows()[record]
            } else {
                reads_as(before.value(name), record)
            },
        ),
{
    let selector = match path[0] {
        ColumnarEngineSelectionPath::Dictionary { expression, .. } => expression,
        _ => expression,
    };
    let (plan, writes) = choose|plan: KeyPlan, writes: crate::otap_attributes::PlanWrites|
        #[trigger] crate::otap_attributes::plan_written(
            expression,
            selector,
            path,
            key_filter,
            keys,
            values,
            before,
            after,
            noted,
            notes,
            plan,
            writes,
        );
    if exists|k: int| 0 <= k < plan.keys@.len() && (#[trigger] plan.keys@[k])@ == name {
        let k = choose|k: int| 0 <= k < plan.keys@.len() && (#[trigger] plan.keys@[k])@ == name;
        lemma_plan_by_record(plan, keys, key_filter, k, record);
        let column = writes.afters[k];
        let held = before.value(name);
        assert(after.value(plan.keys@[k]@) == crate::log_updates::written(column));
        let existing = choose|existing: Dictionary|
            #[trigger] crate::log_updates::existing_values(held, values.rows().len(), existing)
                && existing.replaced(Some(&plan.filters@[k]), values, column);
        if before.values@.contains_key(name) {
            assert(crate::log_fields::value_wf(before.values@[name], values.rows().len()));
        }
        assert(existing.rows().len() == values.rows().len());
        assert(existing.rows()[record] == reads_as(held, record));
        lemma_replaced_by_record(existing, &plan.filters@[k], values, column, record);
        lemma_written_reads(column, record);
    } else {
        if crate::path_laws::let_through(key_filter, record) && keyed_by(keys, record, name) {
            let k = lemma_plan_has_key(plan, keys, key_filter, record, name);
            assert(plan.keys@[k]@ == name);
        }
        assert(after.value(name) == before.value(name));
    }
}

/// Whether a column holds `kept` for what came of a value after so many writes to other records.
pub open spec fn comes_of(kept: ValueOrRef, value: ValueOrRef, writes: nat) -> bool
    decreases writes,
{
    kept == value || (writes > 0 && exists|between: ValueOrRef| #[trigger]
        crate::scalar_laws::stands_for(kept, between) && comes_of(
            between,
            value,
            (writes - 1) as nat,
        ))
}

/// Whether each field that is known has a value for each record.
pub open spec fn fields_cover(fields: OtapLogRecordFields, logs: LogsTable) -> bool {
    &&& fields.cells@.len() == crate::log_schema::FIELD_COUNT
    &&& forall|field: OtapLogRecordField|
        (#[trigger] fields.value(field, logs)).values() matches Some(column)
            ==> column.rows().len() == logs.record_count
}

proof fn lemma_key_step(
    expression: ExpressionInfo,
    selector: ExpressionInfo,
    key: std::rc::Rc<String>,
    filter: &RoaringBitmap,
    values: Dictionary,
    logs: LogsTable,
    before: crate::log_records::LogState,
    after: crate::log_records::LogState,
    noted: Seq<ColumnarEngineDiagnostic>,
    notes: Seq<ColumnarEngineDiagnostic>,
    r: ColumnarRecordsWriteResult,
    field: OtapLogRecordField,
    record: int,
)
    requires
        crate::log_records::key_written(
            expression,
            selector,
            key,
            Seq::empty(),
            Some(filter),
            values,
            logs,
            before,
            after,
            noted,
            notes,
            r,
        ),
        fields_cover(before.fields, logs),
        values.rows().len() == logs.record_count,
        0 <= record < logs.record_count,
    ensures
        fields_cover(after.fields, logs),
        crate::scalar_laws::stands_for(
            reads_as(after.fields.value(field, logs), record),
            if crate::path_laws::let_through(Some(filter), record)
                && crate::log_schema::log_record_key(key@) == LogRecordKey::Field(field) {
                values.rows()[record]
            } else {
                reads_as(before.fields.value(field, logs), record)
            },
        ),
{
    if let LogRecordKey::Field(own) = crate::log_schema::log_record_key(key@) {
        let held = before.fields.value(own, logs);
        let (column, added) = choose|column: Dictionary, added: Seq<ColumnarEngineDiagnostic>|
            #[trigger]
            crate::log_updates::field_after(
                held,
                logs.record_count as nat,
                Seq::empty(),
                Some(filter),
                values,
                column,
                added,
            ) && after.fields.cells@ == before.fields.cells@.update(
                own.place(),
                Some(crate::log_updates::written(column)),
            ) && notes == (noted + added).push(
                crate::log_updates::field_remark(expression, own, column),
            );
        let existing = choose|existing: Dictionary|
            #[trigger] crate::log_updates::existing_values(
                held,
                logs.record_count as nat,
                existing,
            ) && existing.replaced(Some(filter), values, column);
        assert(existing.rows().len() == logs.record_count);
        assert(existing.rows()[record] == reads_as(held, record));
        lemma_replaced_by_record(existing, filter, values, column, record);
        lemma_written_reads(column, record);
        let made = crate::log_updates::written(column);
        assert forall|other: OtapLogRecordField|
            (#[trigger] after.fields.value(other, logs)).values() is Some implies
            after.fields.value(other, logs).values()->0.rows().len() == logs.record_count by {
            crate::log_fields::lemma_set_then_get(
                before.fields,
                after.fields,
                own,
                other,
                made,
                logs,
            );
            let kept = before.fields.value(other, logs);
        }
        crate::log_fields::lemma_set_then_get(before.fields, after.fields, own, field, made, logs);
    }
}

proof fn lemma_key_steps(
    expression: ExpressionInfo,
    selector: ExpressionInfo,
    plan: KeyPlan,
    values: Dictionary,
    logs: LogsTable,
    writes: crate::log_records::RootWrites,
    field: OtapLogRecordField,
    record: int,
    n: int,
    total: int,
)
    requires
        0 <= n <= total <= plan.keys@.len(),
        writes.done(expression, selector, plan, Seq::empty(), values, logs, total),
        fields_cover(writes.states[0].fields, logs),
        values.rows().len() == logs.record_count,
        0 <= record < logs.record_count,
        forall|j: int, k: int|
            0 <= j < plan.keys@.len() && 0 <= k < plan.keys@.len()
                && crate::path_laws::let_through(
                Some(&#[trigger] plan.filters@[j]),
                record,
            ) && crate::path_laws::let_through(Some(&#[trigger] plan.filters@[k]), record) ==> j
                == k,
    ensures
        fields_cover(writes.states[n].fields, logs),
        comes_of(
            reads_as(writes.states[n].fields.value(field, logs), record),
            if written_before(plan, field, record, n) {
                values.rows()[record]
            } else {
                reads_as(writes.states[0].fields.value(field, logs), record)
            },
            n as nat,
        ),
    decreases n,
{
    if n > 0 {
        lemma_key_steps(
            expression,
            selector,
            plan,
            values,
            logs,
            writes,
            field,
            record,
            n - 1,
            total,
        );
        let k = n - 1;
        assert(writes.step(expression, selector, plan, Seq::empty(), values, logs, k));
        lemma_key_step(
            expression,
            selector,
            plan.keys@[k],
            &plan.filters@[k],
            values,
            logs,
            writes.states[k],
            writes.states[k + 1],
            writes.notes[k],
            writes.notes[k + 1],
            writes.results[k],
            field,
            record,
        );
        let kept = reads_as(writes.states[n].fields.value(field, logs), record);
        let here = crate::path_laws::let_through(Some(&plan.filters@[k]), record)
            && crate::log_schema::log_record_key(plan.keys@[k]@) == LogRecordKey::Field(field);
        if here {
            assert(comes_of(values.rows()[record], values.rows()[record], (n - 1) as nat));
            assert(written_before(plan, field, record, n)) by {
                assert(writes_to(plan, field, record, k));
            }
            assert(crate::scalar_laws::stands_for(kept, values.rows()[record]) && comes_of(
                values.rows()[record],
                values.rows()[record],
                (n - 1) as nat,
            ));
        } else {
            let between = reads_as(writes.states[k].fields.value(field, logs), record);
            let first = if written_before(plan, field, record, n - 1) {
                values.rows()[record]
            } else {
                reads_as(writes.states[0].fields.value(field, logs), record)
            };
            assert(written_before(plan, field, record, n) == written_before(
                plan,
                field,
                record,
                n - 1,
            )) by {
                if written_before(plan, field, record, n) {
                    let j = choose|j: int|
                        0 <= j < n && #[trigger] writes_to(plan, field, record, j);
                    assert(j != k);
                }
                if written_before(plan, field, record, n - 1) {
                    let j = choose|j: int|
                        0 <= j < n - 1 && #[trigger] writes_to(plan, field, record, j);
                    assert(writes_to(plan, field, record, j));
                }
            }
            assert(crate::scalar_laws::stands_for(kept, between) && comes_of(
                between,
                first,
                (n - 1) as nat,
            ));
        }
    }
}

/// Whether the write under the key at `k` is to the field, for the record.
pub open spec fn writes_to(plan: KeyPlan, field: OtapLogRecordField, record: int, k: int) -> bool {
    &&& crate::path_laws::let_through(Some(&plan.filters@[k]), record)
    &&& crate::log_schema::log_record_key(plan.keys@[k]@) == LogRecordKey::Field(field)
}

/// Whether one of the first `n` writes is to the field, for the record.
pub open spec fn written_before(
    plan: KeyPlan,
    field: OtapLogRecordField,
    record: int,
    n: int,
) -> bool {
    exists|k: int| 0 <= k < n && #[trigger] writes_to(plan, field, record, k)
}

/// Whether the key of a record names the field.
pub open spec fn names_own_field(
    keys: Dictionary,
    record: int,
    field: OtapLogRecordField,
) -> bool {
    keys.rows()[record] matches ValueOrRef::String(text) && crate::log_schema::log_record_key(text@)
        == LogRecordKey::Field(field)
}

/// Where each record has a key of its own, the value of a record is written to the field that its key
/// names, for this record alone. Every other field of the record, and all fields of the records that
/// the filter holds back, come of what they were.
pub proof fn lemma_fields_written_by_own_key(
    expression: ExpressionInfo,
    selector: ExpressionInfo,
    keys: Dictionary,
    key_filter: Option<&RoaringBitmap>,
    values: Dictionary,
    logs: LogsTable,
    before: crate::log_records::LogState,
    after: crate::log_records::LogState,
    noted: Seq<ColumnarEngineDiagnostic>,
    notes: Seq<ColumnarEngineDiagnostic>,
    r: ColumnarRecordsWriteResult,
    field: OtapLogRecordField,
    record: int,
) -> (count: nat)
    requires
        crate::log_records::values_written(
            expression,
            (ColumnarEngineSelectionPath::Dictionary { expression: selector, values: keys }),
            Seq::empty(),
            key_filter,
            values,
            logs,
            before,
            after,
            noted,
            notes,
            r,
        ),
        fields_cover(before.fields, logs),
        values.rows().len() == logs.record_count,
        keys.rows().len() == logs.record_count,
        logs.record_count <= 0x1_0000_0000,
        0 <= record < logs.record_count,
    ensures
        comes_of(
            reads_as(after.fields.value(field, logs), record),
            if crate::path_laws::let_through(key_filter, record) && names_own_field(
                keys,
                record,
                field,
            ) {
                values.rows()[record]
            } else {
                reads_as(before.fields.value(field, logs), record)
            },
            count,
        ),
{
    if key_filter is Some && crate::row_bitmap::bitmap_values(*key_filter->0).len() == 0 {
        crate::path_laws::lemma_selected(key_filter, record);
        assert(!crate::path_laws::let_through(key_filter, record));
        0
    } else {
        let (plan, writes) = choose|plan: KeyPlan, writes: crate::log_records::RootWrites|
            #[trigger] crate::log_records::root_written(
                expression,
                selector,
                keys,
                Seq::empty(),
                key_filter,
                values,
                logs,
                before,
                after,
                noted,
                notes,
                r,
                plan,
                writes,
            );
        let n = plan.keys@.len() as int;
        assert forall|j: int, k: int|
            0 <= j < plan.keys@.len() && 0 <= k < plan.keys@.len()
                && crate::path_laws::let_through(
                Some(&#[trigger] plan.filters@[j]),
                record,
            ) && crate::path_laws::let_through(
                Some(&#[trigger] plan.filters@[k]),
                record,
            ) implies j == k by {
            lemma_plan_by_record(plan, keys, key_filter, j, record);
            lemma_plan_by_record(plan, keys, key_filter, k, record);
            assert(plan.keys@[j]@ == plan.keys@[k]@);
            if j < k {
                assert(plan.keys@[j]@ != plan.keys@[k]@);
            }
            if k < j {
                assert(plan.keys@[k]@ != plan.keys@[j]@);
            }
        }
        lemma_key_steps(expression, selector, plan, values, logs, writes, field, record, n, n);
        let own = crate::path_laws::let_through(key_filter, record) && names_own_field(
            keys,
            record,
            field,
        );
        assert(own == written_before(plan, field, record, n)) by {
            if own {
                let name = keys.rows()[record]->String_0@;
                let k = lemma_plan_has_key(plan, keys, key_filter, record, name);
                lemma_plan_by_record(plan, keys, key_filter, k, record);
                assert(writes_to(plan, field, record, k));
            }
            if written_before(plan, field, record, n) {
                let k = choose|k: int| 0 <= k < n && #[trigger] writes_to(plan, field, record, k);
                lemma_plan_by_record(plan, keys, key_filter, k, record);
            }
        }
        n as nat
    }
}

/// Writes under several keys find nothing if none of them does, succeed if each finds what it is to
/// write to, and else succeed in part.
pub proof fn lemma_writes_combine(results: Seq<ColumnarRecordsWriteResult>)
    ensures
        (crate::log_records::combined(results) is NotFound) == (forall|k: int|
            0 <= k < results.len() ==> #[trigger] results[k] is NotFound),
        results.len() > 0 ==> (crate::log_records::combined(results) is Success) == (forall|k: int|
            0 <= k < results.len() ==> !(#[trigger] results[k] is NotFound)),
{
    lemma_found(results, results.len() as int);
}

proof fn lemma_found(results: Seq<ColumnarRecordsWriteResult>, n: int)
    requires
        0 <= n <= results.len(),
    ensures
        crate::log_records::count_found(results, n) <= n,
        (crate::log_records::count_found(results, n) == 0) == (forall|k: int|
            0 <= k < n ==> #[trigger] results[k] is NotFound),
        (crate::log_records::count_found(results, n) == n) == (forall|k: int|
            0 <= k < n ==> !(#[trigger] results[k] is NotFound)),
    decreases n,
{
    if n > 0 {
        lemma_found(results, n - 1);
        if crate::log_records::count_found(results, n) == 0 {
            assert(results[n - 1] is NotFound);
        }
        if results[n - 1] is NotFound {
            assert(crate::log_records::count_found(results, n) < n);
        }
    }
}

/// A write inside the bodies of records, at the end of a path, leaves the records that the filter holds
/// back, and those without a body, as they are; every other record has its body with what was written
/// for it at the end of the path. Only bodies are written inside of, and only where there are some.
pub proof fn lemma_body_written_inside(
    expression: ExpressionInfo,
    field: OtapLogRecordField,
    before: OtapLogRecordFields,
    logs: LogsTable,
    root_expression: ExpressionInfo,
    path: Seq<ColumnarEngineSelectionPath>,
    key_filter: Option<&RoaringBitmap>,
    values: Dictionary,
    after: OtapLogRecordFields,
    noted: Seq<ColumnarEngineDiagnostic>,
    notes: Seq<ColumnarEngineDiagnostic>,
    r: ColumnarRecordsWriteResult,
    record: int,
)
    requires
        crate::log_updates::field_updated(
            expression,
            field,
            before,
            logs,
            root_expression,
            path,
            key_filter,
            values,
            after,
            noted,
            notes,
            r,
        ),
        path.len() > 0,
        fields_cover(before, logs),
        values.rows().len() == logs.record_count,
        crate::path_laws::path_covers(path, logs.record_count as nat),
        0 <= record < logs.record_count,
    ensures
        !(field is Body) ==> r is NotFound && after.cells@ == before.cells@,
        field is Body ==> match before.value(field, logs).values() {
            None => r is NotFound,
            Some(source) => r is Success && exists|column: Dictionary| #[trigger]
                body_written_so(
                    source,
                    key_filter,
                    path,
                    values,
                    column,
                    after.value(field, logs),
                    record,
                ),
        },
{
    if field is Body {
        if let Some(source) = before.value(field, logs).values() {
            let (column, added) = choose|column: Dictionary, added: Seq<ColumnarEngineDiagnostic>|
                #[trigger]
                crate::log_updates::field_after(
                    before.value(field, logs),
                    logs.record_count as nat,
                    path,
                    key_filter,
                    values,
                    column,
                    added,
                ) && after.cells@ == before.cells@.update(
                    field.place(),
                    Some(crate::log_updates::written(column)),
                );
            crate::log_fields::lemma_set_then_get(
                before,
                after,
                field,
                field,
                crate::log_updates::written(column),
                logs,
            );
            crate::path_laws::lemma_column_written_inside(
                source,
                key_filter,
                path,
                0,
                values,
                column,
                added,
                record,
            );
            lemma_written_reads(column, record);
            assert(body_written_so(
                source,
                key_filter,
                path,
                values,
                column,
                after.value(field, logs),
                record,
            ));
        }
    }
}

/// Whether a record has the body that a write inside it leaves.
pub open spec fn body_written_so(
    source: Dictionary,
    key_filter: Option<&RoaringBitmap>,
    path: Seq<ColumnarEngineSelectionPath>,
    values: Dictionary,
    column: Dictionary,
    after: OtapValue,
    record: int,
) -> bool {
    &&& reads_as(after, record) == column.rows()[record]
    &&& if crate::path_laws::let_through(key_filter, record) && !(source.rows()[record] is Null) {
        exists|donor: int, held: ValueOrRef, made: ValueOrRef| #[trigger]
            crate::path_laws::made_for(
                source,
                key_filter,
                path,
                0,
                values,
                column,
                record,
                donor,
                held,
                made,
            )
    } else {
        crate::scalar_laws::stands_for(column.rows()[record], source.rows()[record])
    }
}

/// A write under a key of attributes gives the records that the filter lets through the value that was
/// written, and leaves the others theirs, if the path has one part behind the key or none. With more parts
/// it goes inside the values: the records that the filter holds back, and those without a value, have
/// what they had, and every other record has its value with what was written for it at the end of the
/// path. Other keys are as they were.
pub proof fn lemma_attribute_written_along_path(
    expression: ExpressionInfo,
    path: Seq<ColumnarEngineSelectionPath>,
    key_filter: &RoaringBitmap,
    values: Dictionary,
    before: OtapAttributes,
    after: OtapAttributes,
    noted: Seq<ColumnarEngineDiagnostic>,
    notes: Seq<ColumnarEngineDiagnostic>,
    r: ColumnarRecordsWriteResult,
    name: Seq<char>,
    other: Seq<char>,
    record: int,
)
    requires
        path.len() > 0,
        path[0] matches ColumnarEngineSelectionPath::Key { key, .. } && key@ == name,
        crate::otap_attributes::attributes_updated(
            expression,
            path,
            Some(key_filter),
            values,
            before,
            after,
            noted,
            notes,
            r,
        ),
        before.wf(values.rows().len()),
        values.rows().len() <= usize::MAX,
        crate::path_laws::path_covers(path, values.rows().len()),
        0 <= record < values.rows().len(),
    ensures
        r is Success,
        other != name ==> after.value(other) == before.value(other),
        path.len() <= 2 ==> crate::scalar_laws::stands_for(
            reads_as(after.value(name), record),
            if crate::path_laws::let_through(Some(key_filter), record) {
                values.rows()[record]
            } else {
                reads_as(before.value(name), record)
            },
        ),
        path.len() > 2 ==> exists|source: Dictionary, column: Dictionary| #[trigger]
            attribute_written_so(
                source,
                key_filter,
                path,
                values,
                column,
                before.value(name),
                after.value(name),
                record,
            ),
{
    let held = before.value(name);
    let count = values.rows().len();
    if before.values@.contains_key(name) {
        assert(crate::log_fields::value_wf(before.values@[name], count));
    }
    let (column, added) = choose|column: Dictionary, added: Seq<ColumnarEngineDiagnostic>|
        #[trigger] crate::otap_attributes::attribute_after(
            held,
            path,
            Some(key_filter),
            values,
            column,
            added,
        ) && after.values@ == before.values@.insert(
            name,
            crate::log_updates::written(column),
        );
    assert(after.value(name) == crate::log_updates::written(column));
    let existing = choose|existing: Dictionary| #[trigger]
        crate::log_updates::existing_values(held, count, existing) && if path.len() > 2 {
            crate::path_update::written_inside(
                existing,
                Some(key_filter),
                path,
                1,
                values,
                column,
                added,
            )
        } else {
            existing.replaced(Some(key_filter), values, column)
        };
    assert(existing.rows().len() == count);
    assert(existing.rows()[record] == reads_as(held, record));
    if path.len() > 2 {
        crate::path_laws::lemma_column_written_inside(
            existing,
            Some(key_filter),
            path,
            1,
            values,
            column,
            added,
            record,
        );
        lemma_written_reads(column, record);
        assert(attribute_written_so(
            existing,
            key_filter,
            path,
            values,
            column,
            held,
            after.value(name),
            record,
        ));
    } else {
        lemma_replaced_by_record(existing, key_filter, values, column, record);
        lemma_written_reads(column, record);
    }
}

/// Whether a record has the attribute that a write inside it leaves.
pub open spec fn attribute_written_so(
    source: Dictionary,
    key_filter: &RoaringBitmap,
    path: Seq<ColumnarEngineSelectionPath>,
    values: Dictionary,
    column: Dictionary,
    before: OtapValue,
    after: OtapValue,
    record: int,
) -> bool {
    &&& source.rows()[record] == reads_as(before, record)
    &&& reads_as(after, record) == column.rows()[record]
    &&& if crate::path_laws::let_through(Some(key_filter), record) && !(source.rows()[record] is Null) {
        exists|donor: int, held: ValueOrRef, made: ValueOrRef| #[trigger]
            crate::path_laws::made_for(
                source,
                Some(key_filter),
                path,
                1,
                values,
                column,
                record,
                donor,
                held,
                made,
            )
    } else {
        crate::scalar_laws::stands_for(column.rows()[record], source.rows()[record])
    }
}

}
