//! Writing values to the fields and the attributes of log records.

use std::rc::Rc;

use roaring::RoaringBitmap;
use vstd::prelude::*;

use crate::collections::{
    text_position_map_get, text_position_map_insert, text_position_map_new, TextPositionMap,
};
use crate::columnar_records::{ColumnarEngineSelectionPath, ColumnarRecordsWriteResult};
use crate::dictionary::Dictionary;
use crate::dictionary_keys::KeyDataType;
use crate::engine_diagnostic::{
    ColumnarEngineDiagnostic, ColumnarEngineDiagnosticLevel, DiagnosticMessage,
};
use crate::expressions::ExpressionInfo;
use crate::log_fields::{LogsTable, OtapLogRecordFields};
use crate::log_schema::OtapLogRecordField;
use crate::otap_value::OtapValue;
use crate::path_update::update_dictionary_values_for_path;
use crate::row_bitmap::{bitmap_new, bitmap_to_vec, bitmap_try_push};
use crate::selection::new_warning;
use crate::value::ValueOrRef;

verus! {

/// A remark about an expression that is of use only while looking closely.
pub open spec fn remark(
    expression: ExpressionInfo,
    message: DiagnosticMessage,
) -> ColumnarEngineDiagnostic {
    ColumnarEngineDiagnostic {
        diagnostic_level: ColumnarEngineDiagnosticLevel::Verbose,
        expression,
        message,
    }
}

/// A remark about an expression that is of use only while looking closely.
pub fn new_remark(expression: &ExpressionInfo, message: DiagnosticMessage) -> (r:
    ColumnarEngineDiagnostic)
    ensures
        r == remark(*expression, message),
{
    ColumnarEngineDiagnostic::new(
        ColumnarEngineDiagnosticLevel::Verbose,
        expression.clone(),
        message,
    )
}

/// Whether the filter lets only records through that there are.
pub open spec fn filter_wf(key_filter: Option<&RoaringBitmap>, record_count: nat) -> bool {
    key_filter matches Some(filter) ==> forall|k: int|
        0 <= k < crate::row_bitmap::bitmap_values(*filter).len()
            ==> #[trigger] crate::row_bitmap::bitmap_values(*filter)[k] < record_count
}

/// Whether a dictionary has a value for each record.
pub open spec fn column_wf(values: Dictionary, record_count: nat) -> bool {
    values.wf() && values.rows().len() == record_count
}

/// What is known of values that have been written: none are left if they are all null.
pub open spec fn written(values: Dictionary) -> OtapValue {
    if values.nothing() {
        OtapValue::Removed
    } else {
        OtapValue::Written(values)
    }
}

/// Whether `after` is what a field holds once `values` have been written to it, with the
/// diagnostics that this has given: inside its values if there is a path, else in place of those of
/// the records that the filter lets through.
pub open spec fn field_after(
    before: OtapValue,
    record_count: nat,
    path: Seq<ColumnarEngineSelectionPath>,
    key_filter: Option<&RoaringBitmap>,
    values: Dictionary,
    after: Dictionary,
    added: Seq<ColumnarEngineDiagnostic>,
) -> bool {
    if path.len() > 0 {
        crate::path_update::written_inside(
            before.values()->0,
            key_filter,
            path,
            0,
            values,
            after,
            added,
        )
    } else {
        &&& added.len() == 0
        &&& if key_filter is None {
            after == values
        } else {
            exists|existing: Dictionary| #[trigger]
                existing_values(before, record_count, existing) && existing.replaced(
                    key_filter,
                    values,
                    after,
                )
        }
    }
}

/// Whether `existing` is what is there already: the values that are known, or a null for each
/// record.
pub open spec fn existing_values(
    before: OtapValue,
    record_count: nat,
    existing: Dictionary,
) -> bool {
    match before.values() {
        Some(values) => existing == values,
        None => {
            &&& existing.wf()
            &&& existing.is_scalar(KeyDataType::UInt16, record_count, ValueOrRef::Null)
            &&& existing.rows() == Seq::new(record_count, |i: int| ValueOrRef::Null)
        },
    }
}

/// What is there already.
fn take_existing_values(before: OtapValue, record_count: usize) -> (existing: Dictionary)
    requires
        crate::log_fields::value_wf(before, record_count as nat),
    ensures
        existing_values(before, record_count as nat, existing),
        column_wf(existing, record_count as nat),
{
    match before {
        OtapValue::Read(values) => values,
        OtapValue::Written(values) => values,
        _ => Dictionary::new_null_with_data_type(record_count, KeyDataType::UInt16),
    }
}

/// Writes values to a field.
pub fn process_log_record_field_update(
    notes: &mut Vec<ColumnarEngineDiagnostic>,
    expression: &ExpressionInfo,
    field: OtapLogRecordField,
    fields: &mut OtapLogRecordFields,
    logs: &LogsTable,
    root_expression: &ExpressionInfo,
    path: &Vec<ColumnarEngineSelectionPath>,
    key_filter: Option<&RoaringBitmap>,
    values: &Dictionary,
) -> (r: ColumnarRecordsWriteResult)
    requires
        logs.wf(),
        logs.record_count <= 0x1_0000_0000,
        old(fields).wf(logs.record_count as nat),
        filter_wf(key_filter, logs.record_count as nat),
        column_wf(*values, logs.record_count as nat),
    ensures
        final(fields).wf(logs.record_count as nat),
        field_updated(
            *expression,
            field,
            *old(fields),
            *logs,
            *root_expression,
            path@,
            key_filter,
            *values,
            *final(fields),
            old(notes)@,
            final(notes)@,
            r,
        ),
{
    let ghost before = fields.value(field, *logs);
    let ghost noted = notes@;
    let value: Dictionary = if path.len() > 0 {
        if !field.supports_access_by_path() {
            notes.push(
                new_warning(root_expression, DiagnosticMessage::FieldHasNoInside(field)),
            );
            return ColumnarRecordsWriteResult::NotFound;
        }
        let taken = fields.take(field, logs);
        match taken.get_values() {
            None => {
                notes.push(new_warning(root_expression, DiagnosticMessage::FieldIsEmpty(field)));
                return ColumnarRecordsWriteResult::NotFound;
            },
            Some(existing) => update_dictionary_values_for_path(
                notes,
                existing,
                key_filter,
                path,
                0,
                values,
            ),
        }
    } else {
        match key_filter {
            Some(filter) => {
                let taken = fields.take(field, logs);
                let existing = take_existing_values(taken, logs.record_count);
                let ghost held = existing;
                let r = existing.with_values(Some(filter), values);
                proof {
                    assert(existing_values(before, logs.record_count as nat, held));
                }
                r
            },
            None => values.clone(),
        }
    };
    let ghost after = value;
    let ghost added = if path@.len() > 0 {
        choose|added: Seq<ColumnarEngineDiagnostic>| #[trigger]
            crate::path_update::written_inside(
                before.values()->0,
                key_filter,
                path@,
                0,
                *values,
                after,
                added,
            ) && notes@ == noted + added
    } else {
        Seq::empty()
    };
    proof {
        assert(notes@ =~= noted + added);
        assert(field_after(
            before,
            logs.record_count as nat,
            path@,
            key_filter,
            *values,
            after,
            added,
        ));
    }
    if value.is_null() {
        notes.push(new_remark(expression, DiagnosticMessage::FieldRemoved(field)));
        fields.set(field, OtapValue::Removed);
    } else {
        notes.push(
            new_remark(
                expression,
                DiagnosticMessage::FieldWritten { field, values: value.clone() },
            ),
        );
        fields.set(field, OtapValue::Written(value));
    }
    proof {
        assert(fields.cells@ =~= old(fields).cells@.update(field.place(), Some(written(after))));
        assert(notes@ =~= (noted + added).push(field_remark(*expression, field, after)));
    }
    ColumnarRecordsWriteResult::Success
}

/// What is said of a field that has been written.
pub open spec fn field_remark(
    expression: ExpressionInfo,
    field: OtapLogRecordField,
    after: Dictionary,
) -> ColumnarEngineDiagnostic {
    remark(
        expression,
        if after.nothing() {
            DiagnosticMessage::FieldRemoved(field)
        } else {
            DiagnosticMessage::FieldWritten { field, values: after }
        },
    )
}

/// Whether values have been written to a field. Only bodies can be written inside of, and only where
/// there are some; else there is a warning, and a body that was looked for is known no longer.
pub open spec fn field_updated(
    expression: ExpressionInfo,
    field: OtapLogRecordField,
    before: OtapLogRecordFields,
    logs: LogsTable,
    root_expression: ExpressionInfo,
    path: Seq<ColumnarEngineSelectionPath>,
    key_filter: Option<&RoaringBitmap>,
    values: Dictionary,
    after: OtapLogRecordFields,
    noted: Seq<ColumnarEngineDiagnostic>,
    notes: Seq<ColumnarEngineDiagnostic>,
    r: ColumnarRecordsWriteResult,
) -> bool {
    if path.len() > 0 && field != OtapLogRecordField::Body {
        &&& r == ColumnarRecordsWriteResult::NotFound
        &&& after.cells@ == before.cells@
        &&& notes == noted.push(
            crate::selection::warning(root_expression, DiagnosticMessage::FieldHasNoInside(field)),
        )
    } else if path.len() > 0 && before.value(field, logs).values() is None {
        &&& r == ColumnarRecordsWriteResult::NotFound
        &&& after.cells@ == before.cells@.update(field.place(), None)
        &&& notes == noted.push(
            crate::selection::warning(root_expression, DiagnosticMessage::FieldIsEmpty(field)),
        )
    } else {
        &&& r == ColumnarRecordsWriteResult::Success
        &&& exists|column: Dictionary, added: Seq<ColumnarEngineDiagnostic>| #[trigger]
            field_after(
                before.value(field, logs),
                logs.record_count as nat,
                path,
                key_filter,
                values,
                column,
                added,
            ) && after.cells@ == before.cells@.update(field.place(), Some(written(column)))
                && notes == (noted + added).push(field_remark(expression, field, column))
    }
}

/// The text that a value is.
pub open spec fn text_of(value: ValueOrRef) -> Option<Seq<char>> {
    match value {
        ValueOrRef::String(text) => Some(text@),
        _ => None,
    }
}

/// Those of the first `n` records that have the key.
pub open spec fn records_with_key(
    keys: Dictionary,
    records: Seq<u32>,
    key: Seq<char>,
    n: int,
) -> Seq<u32>
    decreases n,
{
    if n <= 0 {
        Seq::empty()
    } else if text_of(keys.row_for(records[n - 1] as usize)) == Some(key) {
        records_with_key(keys, records, key, n - 1).push(records[n - 1])
    } else {
        records_with_key(keys, records, key, n - 1)
    }
}

/// For each key that some of the records have, those that have it.
pub struct KeyPlan {
    pub keys: Vec<Rc<String>>,
    pub filters: Vec<RoaringBitmap>,
}

impl KeyPlan {
    /// Whether the plan is that of the first `n` records.
    pub open spec fn covers(&self, keys: Dictionary, records: Seq<u32>, n: int) -> bool {
        &&& self.keys@.len() == self.filters@.len()
        &&& forall|k: int|
            0 <= k < self.keys@.len() ==> crate::row_bitmap::bitmap_values(
                #[trigger] self.filters@[k],
            ) == records_with_key(keys, records, self.keys@[k]@, n)
        &&& forall|j: int, k: int|
            0 <= j < k < self.keys@.len() ==> (#[trigger] self.keys@[j])@ != (
            #[trigger] self.keys@[k])@
        &&& forall|i: int|
            0 <= i < n ==> (text_of(keys.row_for(#[trigger] records[i] as usize)) matches Some(key)
                ==> self.has_key(key))
        &&& forall|k: int|
            0 <= k < self.keys@.len() ==> records_with_key(
                keys,
                records,
                (#[trigger] self.keys@[k])@,
                n,
            ).len() > 0
    }

    /// Whether the plan has a key.
    pub open spec fn has_key(&self, key: Seq<char>) -> bool {
        exists|k: int| 0 <= k < self.keys@.len() && (#[trigger] self.keys@[k])@ == key
    }
}

/// The records that have a key are among the records, in order.
pub proof fn lemma_records_with_key(keys: Dictionary, records: Seq<u32>, key: Seq<char>, n: int)
    requires
        0 <= n <= records.len(),
    ensures
        forall|k: int|
            0 <= k < records_with_key(keys, records, key, n).len() ==> records.subrange(
                0,
                n,
            ).contains(#[trigger] records_with_key(keys, records, key, n)[k]),
    decreases n,
{
    if n > 0 {
        lemma_records_with_key(keys, records, key, n - 1);
        let found = records_with_key(keys, records, key, n);
        assert forall|k: int| 0 <= k < found.len() implies records.subrange(0, n).contains(
            #[trigger] found[k],
        ) by {
            let shorter = records_with_key(keys, records, key, n - 1);
            if k < shorter.len() {
                let j = records.subrange(0, n - 1).index_of(shorter[k]);
                assert(records.subrange(0, n)[j] == shorter[k]);
            } else {
                assert(records.subrange(0, n)[n - 1] == found[k]);
            }
        }
    }
}

/// Whether any of the first `n` records has a key that is not text.
pub open spec fn any_not_text(keys: Dictionary, records: Seq<u32>, n: int) -> bool {
    exists|i: int|
        0 <= i < n && text_of(keys.row_for(#[trigger] records[i] as usize)) is None
}

/// Sorts the records by key. Keys that are not text are left out, with a warning.
pub fn build_plan(
    notes: &mut Vec<ColumnarEngineDiagnostic>,
    expression: &ExpressionInfo,
    root_keys: &Dictionary,
    records: &Vec<u32>,
) -> (plan: KeyPlan)
    requires
        forall|i: int, j: int| 0 <= i < j < records@.len() ==> records@[i] < records@[j],
    ensures
        plan.covers(*root_keys, records@, records@.len() as int),
        final(notes)@ == (if any_not_text(*root_keys, records@, records@.len() as int) {
            old(notes)@.push(
                crate::selection::warning(*expression, DiagnosticMessage::LogRecordKeyNotText),
            )
        } else {
            old(notes)@
        }),
{
    let mut keys: Vec<Rc<String>> = Vec::new();
    let mut filters: Vec<RoaringBitmap> = Vec::new();
    let mut positions: TextPositionMap = text_position_map_new();
    let mut log_error: bool = false;
    let mut i: usize = 0;
    while i < records.len()
        invariant
            i <= records@.len(),
            forall|a: int, b: int| 0 <= a < b < records@.len() ==> records@[a] < records@[b],
            keys@.len() == filters@.len(),
            (KeyPlan { keys, filters }).covers(*root_keys, records@, i as int),
            log_error == any_not_text(*root_keys, records@, i as int),
            forall|key: Seq<char>|
                #[trigger] crate::collections::text_position_entries(positions).contains_key(key)
                    ==> crate::collections::text_position_entries(positions)[key] < keys@.len()
                    && keys@[crate::collections::text_position_entries(positions)[key] as int]@
                    == key,
            forall|k: int|
                0 <= k < keys@.len() ==> crate::collections::text_position_entries(
                    positions,
                ).contains_key((#[trigger] keys@[k])@),
        decreases records@.len() - i,
    {
        let ghost before = KeyPlan { keys, filters };
        let ghost old_keys = keys@;
        let ghost old_filters = filters@;
        let record: u32 = records[i];
        let value = root_keys.get_value(record as usize);
        assert(value == root_keys.row_for(records@[i as int] as usize));
        match &value {
            ValueOrRef::String(key) => {
                match text_position_map_get(&positions, key.as_str()) {
                    Some(position) => {
                        proof {
                            let held = records_with_key(
                                *root_keys,
                                records@,
                                old_keys[position as int]@,
                                i as int,
                            );
                            assert(crate::row_bitmap::bitmap_values(old_filters[position as int])
                                == held);
                            lemma_records_with_key(
                                *root_keys,
                                records@,
                                old_keys[position as int]@,
                                i as int,
                            );
                            if held.len() > 0 {
                                assert(records@.subrange(0, i as int).contains(
                                    held[held.len() - 1],
                                ));
                                let j = records@.subrange(0, i as int).index_of(held.last());
                                assert(records@[j] == held.last());
                            }
                        }
                        let pushed: bool = bitmap_try_push(&mut filters[position], record);
                        assert(pushed);
                    },
                    None => {
                        let position: usize = keys.len();
                        let mut filter: RoaringBitmap = bitmap_new();
                        let pushed: bool = bitmap_try_push(&mut filter, record);
                        proof {
                            assert(pushed);
                            assert forall|k: int| 0 <= k < old_keys.len() implies (
                            #[trigger] old_keys[k])@ != key@ by {}
                            lemma_no_records(*root_keys, records@, key@, i as int, before);
                        }
                        let name: String = key.as_str().to_owned();
                        text_position_map_insert(&mut positions, name, position);
                        keys.push(key.clone());
                        filters.push(filter);
                    },
                }
                proof {
                    let after = KeyPlan { keys, filters };
                    assert forall|k: int| 0 <= k < keys@.len() implies crate::row_bitmap::bitmap_values(
                        #[trigger] after.filters@[k],
                    ) == records_with_key(*root_keys, records@, after.keys@[k]@, i + 1) by {
                        if k < old_keys.len() {
                            assert(crate::row_bitmap::bitmap_values(old_filters[k])
                                == records_with_key(
                                *root_keys,
                                records@,
                                old_keys[k]@,
                                i as int,
                            ));
                        }
                    }
                    assert forall|j: int| 0 <= j < i + 1 implies (text_of(
                        root_keys.row_for(#[trigger] records@[j] as usize),
                    ) matches Some(key) ==> after.has_key(key)) by {
                        if j < i && text_of(root_keys.row_for(records@[j] as usize)) is Some {
                            let text = text_of(root_keys.row_for(records@[j] as usize))->0;
                            assert(before.has_key(text));
                            let k = choose|k: int|
                                0 <= k < before.keys@.len() && (#[trigger] before.keys@[k])@
                                    == text;
                            assert(after.keys@[k]@ == text);
                        } else if j == i {
                            let p = crate::collections::text_position_entries(positions)[key@];
                            assert(after.keys@[p as int]@ == key@);
                        }
                    }
                    assert forall|k: int| 0 <= k < after.keys@.len() implies records_with_key(
                        *root_keys,
                        records@,
                        (#[trigger] after.keys@[k])@,
                        i + 1,
                    ).len() > 0 by {
                        if k < old_keys.len() {
                            assert(records_with_key(
                                *root_keys,
                                records@,
                                old_keys[k]@,
                                i as int,
                            ).len() > 0);
                        }
                    }
                }
            },
            _ => {
                log_error = true;
                proof {
                    assert(text_of(root_keys.row_for(records@[i as int] as usize)) is None);
                    let after = KeyPlan { keys, filters };
                    assert forall|j: int| 0 <= j < i + 1 implies (text_of(
                        root_keys.row_for(#[trigger] records@[j] as usize),
                    ) matches Some(key) ==> after.has_key(key)) by {
                        if j < i && text_of(root_keys.row_for(records@[j] as usize)) is Some {
                            assert(before.has_key(
                                text_of(root_keys.row_for(records@[j] as usize))->0,
                            ));
                        }
                    }
                }
            },
        }
        i = i + 1;
    }
    if log_error {
        notes.push(new_warning(expression, DiagnosticMessage::LogRecordKeyNotText));
    }
    KeyPlan { keys, filters }
}

proof fn lemma_no_records(
    keys: Dictionary,
    records: Seq<u32>,
    key: Seq<char>,
    n: int,
    plan: KeyPlan,
)
    requires
        0 <= n <= records.len(),
        forall|i: int|
            0 <= i < n ==> (text_of(keys.row_for(#[trigger] records[i] as usize)) matches Some(key)
                ==> plan.has_key(key)),
        !plan.has_key(key),
    ensures
        records_with_key(keys, records, key, n).len() == 0,
    decreases n,
{
    if n > 0 {
        lemma_no_records(keys, records, key, n - 1, plan);
        assert(text_of(keys.row_for(records[n - 1] as usize)) != Some(key));
    }
}

/// The records that a filter lets through: all of them if there is none.
pub open spec fn filtered_records(key_filter: Option<&RoaringBitmap>, count: nat) -> Seq<u32> {
    match key_filter {
        Some(filter) => crate::row_bitmap::bitmap_values(*filter),
        None => Seq::new(count, |i: int| i as u32),
    }
}

/// The records that a filter lets through.
pub fn list_records(key_filter: Option<&RoaringBitmap>, count: usize) -> (r: Vec<u32>)
    requires
        count <= 0x1_0000_0000,
    ensures
        r@ == filtered_records(key_filter, count as nat),
        forall|i: int, j: int| 0 <= i < j < r@.len() ==> r@[i] < r@[j],
{
    match key_filter {
        Some(filter) => bitmap_to_vec(filter),
        None => {
            let mut r: Vec<u32> = Vec::new();
            let mut i: usize = 0;
            while i < count
                invariant
                    i <= count <= 0x1_0000_0000,
                    r@.len() == i,
                    forall|j: int| 0 <= j < i ==> #[trigger] r@[j] == j,
                decreases count - i,
            {
                r.push(i as u32);
                i = i + 1;
            }
            assert(r@ =~= filtered_records(None, count as nat));
            r
        },
    }
}

} // verus!
