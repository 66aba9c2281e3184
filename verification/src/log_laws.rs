//! What reading log records gives back of what was written to them.

use roaring::RoaringBitmap;
use vstd::prelude::*;

use crate::columnar_records::{
    ColumnarEngineSelectionPath, ColumnarRecordsWriteResult, RecordTableValue,
};
use crate::dictionary::Dictionary;
use crate::engine_diagnostic::ColumnarEngineDiagnostic;
use crate::expressions::ExpressionInfo;
use crate::log_records::LogRecords;
use crate::log_schema::{LogRecordKey, OtapLogRecordField};
use crate::otap_attributes::OtapAttributes;
use crate::otap_value::OtapValue;
use crate::value::ValueOrRef;

verus! {

/// The value that a record has, null if none is known.
pub open spec fn record_reads(value: OtapValue, record: int) -> ValueOrRef {
    match value.values() {
        Some(values) => values.rows()[record],
        None => ValueOrRef::Null,
    }
}

proof fn lemma_nothing_reads_null(values: Dictionary, record: int)
    requires
        values.nothing(),
        0 <= record < values.rows().len(),
    ensures
        values.rows()[record] is Null,
{
    match values.keys.position(record) {
        Some(position) => {
            assert(!values.keys.spec_is_null());
            if values.values is Boolean {
                assert(values.values.values()[0] is Boolean);
            }
        },
        None => {},
    }
}

proof fn lemma_replacement(values: Dictionary, record: int)
    requires
        values.wf(),
        0 <= record < values.rows().len(),
        values.rows().len() <= usize::MAX,
        values.values.values().len() <= usize::MAX,
    ensures
        crate::dictionary::replacement(values, record) == values.rows()[record],
{
    assert(values.keys.position_for(record as usize) == values.keys.position(record));
}

/// A field that has been written reads as what was written under each of its names, or as nothing if
/// that is null for every record. All other names, and all other tables, read as before.
pub proof fn lemma_written_field_reads_back(
    expression: ExpressionInfo,
    root: ColumnarEngineSelectionPath,
    field: OtapLogRecordField,
    values: Dictionary,
    before: LogRecords,
    after: LogRecords,
    noted: Seq<ColumnarEngineDiagnostic>,
    notes: Seq<ColumnarEngineDiagnostic>,
    r: ColumnarRecordsWriteResult,
    name: Seq<char>,
    table: usize,
)
    requires
        before.wf(),
        before.logs is Some,
        after.same_rest(before),
        root matches ColumnarEngineSelectionPath::Key { key, .. }
            && crate::log_schema::log_record_key(key@) == LogRecordKey::Field(field),
        crate::log_records::values_written(
            expression,
            root,
            Seq::empty(),
            None,
            values,
            before.logs->0,
            before.state(),
            after.state(),
            noted,
            notes,
            r,
        ),
    ensures
        r == ColumnarRecordsWriteResult::Success,
        crate::log_schema::log_record_key(name) == LogRecordKey::Field(field)
            ==> after.table_value(0, name) == (if values.nothing() {
            None
        } else {
            Some(RecordTableValue::Dictionary(values))
        }),
        table != 0 || crate::log_schema::log_record_key(name) != LogRecordKey::Field(field)
            ==> after.table_value(table, name) == before.table_value(table, name),
{
    let logs = before.logs->0;
    let (column, added) = choose|column: Dictionary, added: Seq<ColumnarEngineDiagnostic>|
        #[trigger]
        crate::log_updates::field_after(
            before.fields.value(field, logs),
            logs.record_count as nat,
            Seq::empty(),
            None,
            values,
            column,
            added,
        ) && after.fields.cells@ == before.fields.cells@.update(
            field.place(),
            Some(crate::log_updates::written(column)),
        ) && notes == (noted + added).push(
            crate::log_updates::field_remark(expression, field, column),
        );
    assert(column == values);
    match crate::log_schema::log_record_key(name) {
        LogRecordKey::Field(other) => {
            crate::log_fields::lemma_set_then_get(
                before.fields,
                after.fields,
                field,
                other,
                crate::log_updates::written(column),
                logs,
            );
        },
        _ => {},
    }
}

/// A write to some of the records gives those their new value, and leaves the others theirs.
pub proof fn lemma_filtered_field_reads_back(
    expression: ExpressionInfo,
    root: ColumnarEngineSelectionPath,
    field: OtapLogRecordField,
    key_filter: Option<&RoaringBitmap>,
    values: Dictionary,
    before: LogRecords,
    after: LogRecords,
    noted: Seq<ColumnarEngineDiagnostic>,
    notes: Seq<ColumnarEngineDiagnostic>,
    r: ColumnarRecordsWriteResult,
    record: int,
)
    requires
        before.wf(),
        after.wf(),
        before.logs is Some,
        after.same_rest(before),
        root matches ColumnarEngineSelectionPath::Key { key, .. }
            && crate::log_schema::log_record_key(key@) == LogRecordKey::Field(field),
        crate::log_updates::column_wf(values, before.count()),
        values.values.values().len() <= usize::MAX,
        crate::log_records::values_written(
            expression,
            root,
            Seq::empty(),
            key_filter,
            values,
            before.logs->0,
            before.state(),
            after.state(),
            noted,
            notes,
            r,
        ),
        0 <= record < before.count(),
    ensures
        r == ColumnarRecordsWriteResult::Success,
        crate::dictionary::held_for(
            record_reads(after.fields.value(field, after.logs->0), record),
            if Dictionary::selected(key_filter, record) {
                values.rows()[record]
            } else {
                record_reads(before.fields.value(field, before.logs->0), record)
            },
        ),
{
    let logs = before.logs->0;
    let held = before.fields.value(field, logs);
    if key_filter is Some && crate::row_bitmap::bitmap_values(*key_filter->0).len() == 0 {
        assert(!Dictionary::selected(key_filter, record));
        return ;
    }
    let (column, added) = choose|column: Dictionary, added: Seq<ColumnarEngineDiagnostic>|
        #[trigger]
        crate::log_updates::field_after(
            held,
            logs.record_count as nat,
            Seq::empty(),
            key_filter,
            values,
            column,
            added,
        ) && after.fields.cells@ == before.fields.cells@.update(
            field.place(),
            Some(crate::log_updates::written(column)),
        ) && notes == (noted + added).push(
            crate::log_updates::field_remark(expression, field, column),
        );
    let made = crate::log_updates::written(column);
    crate::log_fields::lemma_set_then_get(before.fields, after.fields, field, field, made, logs);
    if key_filter is Some {
        let existing = choose|existing: Dictionary| #[trigger]
            crate::log_updates::existing_values(held, logs.record_count as nat, existing)
                && existing.replaced(key_filter, values, column);
        assert(existing.rows()[record] == record_reads(held, record));
        lemma_replacement(values, record);
    }
    if column.nothing() {
        lemma_nothing_reads_null(column, record);
    }
}

/// An attribute that has been written reads as what was written for the records that the filter lets
/// through, and as before for the others. All other keys read as before.
pub proof fn lemma_written_attribute_reads_back(
    expression: ExpressionInfo,
    path: Seq<ColumnarEngineSelectionPath>,
    key_filter: Option<&RoaringBitmap>,
    values: Dictionary,
    before: OtapAttributes,
    after: OtapAttributes,
    noted: Seq<ColumnarEngineDiagnostic>,
    notes: Seq<ColumnarEngineDiagnostic>,
    r: ColumnarRecordsWriteResult,
    record: int,
    other: Seq<char>,
)
    requires
        before.wf(values.rows().len()),
        after.wf(values.rows().len()),
        path.len() == 1,
        path[0] is Key,
        crate::log_updates::column_wf(values, values.rows().len()),
        values.rows().len() <= usize::MAX,
        values.values.values().len() <= usize::MAX,
        crate::otap_attributes::attributes_updated(
            expression,
            path,
            key_filter,
            values,
            before,
            after,
            noted,
            notes,
            r,
        ),
        0 <= record < values.rows().len(),
    ensures
        r == ColumnarRecordsWriteResult::Success,
        after.modified,
        path[0] matches ColumnarEngineSelectionPath::Key { key, .. } && {
            &&& crate::dictionary::held_for(
                record_reads(after.value(key@), record),
                if Dictionary::selected(key_filter, record) {
                    values.rows()[record]
                } else {
                    record_reads(before.value(key@), record)
                },
            )
            &&& other != key@ ==> after.value(other) == before.value(other)
        },
{
    match path[0] {
        ColumnarEngineSelectionPath::Key { key, .. } => {
            let held = before.value(key@);
            let (column, added) = choose|column: Dictionary, added: Seq<ColumnarEngineDiagnostic>|
                #[trigger]
                crate::otap_attributes::attribute_after(
                    held,
                    path,
                    key_filter,
                    values,
                    column,
                    added,
                ) && after.values@ == before.values@.insert(
                    key@,
                    crate::log_updates::written(column),
                ) && notes == (noted + added).push(
                    crate::otap_attributes::attribute_remark(expression, key, column),
                );
            let existing = choose|existing: Dictionary|
                #[trigger] crate::log_updates::existing_values(
                    held,
                    values.rows().len(),
                    existing,
                ) && if key_filter is None && values.nothing() {
                    column.nothing() && column.rows() == Seq::new(
                        values.rows().len(),
                        |i: int| ValueOrRef::Null,
                    )
                } else {
                    existing.replaced(key_filter, values, column)
                };
            assert(existing.rows()[record] == record_reads(held, record));
            lemma_replacement(values, record);
            if values.nothing() {
                lemma_nothing_reads_null(values, record);
            }
            if column.nothing() {
                lemma_nothing_reads_null(column, record);
            }
        },
        _ => {},
    }
}

} // verus!
