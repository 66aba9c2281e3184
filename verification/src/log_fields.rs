//! The fields of log records, as they are read and written.

use vstd::prelude::*;

use crate::dictionary::Dictionary;
use crate::log_schema::{OtapLogRecordField, FIELD_COUNT};
use crate::otap_value::OtapValue;

verus! {

/// The columns that log records come with, one for each field.
pub struct LogsTable {
    pub record_count: usize,
    pub columns: Vec<Option<Dictionary>>,
}

impl LogsTable {
    /// Whether each column has a value for each record.
    pub open spec fn wf(&self) -> bool {
        &&& self.columns@.len() == FIELD_COUNT
        &&& forall|k: int|
            0 <= k < FIELD_COUNT ==> (#[trigger] self.columns@[k] matches Some(column)
                ==> column.wf() && column.rows().len() == self.record_count)
    }

    /// What the column of a field holds.
    pub open spec fn read(&self, field: OtapLogRecordField) -> OtapValue {
        match self.columns@[field.place()] {
            Some(column) => OtapValue::Read(column),
            None => OtapValue::NotFound,
        }
    }

    /// What the column of a field holds.
    pub fn init(&self, field: OtapLogRecordField) -> (r: OtapValue)
        requires
            self.wf(),
        ensures
            r == self.read(field),
    {
        match &self.columns[field.index()] {
            Some(column) => OtapValue::Read(column.clone()),
            None => OtapValue::NotFound,
        }
    }
}

/// A field that has been written or taken away.
pub enum OtapLogRecordModifiedField {
    Removed,
    Written(Dictionary),
}

/// What is known of the fields of log records. What is not known yet is what their columns hold.
pub struct OtapLogRecordFields {
    pub cells: Vec<Option<OtapValue>>,
}

impl OtapLogRecordFields {
    /// Whether there is a cell for each field, and each column in one has a value for each record.
    pub open spec fn wf(&self, record_count: nat) -> bool {
        &&& self.cells@.len() == FIELD_COUNT
        &&& forall|k: int|
            0 <= k < FIELD_COUNT ==> (#[trigger] self.cells@[k] matches Some(value)
                ==> crate::log_fields::value_wf(value, record_count))
    }

    /// What a field holds.
    pub open spec fn value(&self, field: OtapLogRecordField, logs: LogsTable) -> OtapValue {
        match self.cells@[field.place()] {
            Some(value) => value,
            None => logs.read(field),
        }
    }

    /// Nothing is known yet.
    pub fn new() -> (r: Self)
        ensures
            r.cells@.len() == FIELD_COUNT,
            forall|k: int| 0 <= k < FIELD_COUNT ==> #[trigger] r.cells@[k] is None,
            forall|n: nat| r.wf(n),
    {
        let mut cells: Vec<Option<OtapValue>> = Vec::new();
        let mut k: usize = 0;
        while k < FIELD_COUNT
            invariant
                k <= FIELD_COUNT,
                cells@.len() == k,
                forall|j: int| 0 <= j < k ==> #[trigger] cells@[j] is None,
            decreases FIELD_COUNT - k,
        {
            cells.push(None);
            k = k + 1;
        }
        OtapLogRecordFields { cells }
    }

    /// What a field holds.
    pub fn get(&self, field: OtapLogRecordField, logs: &LogsTable) -> (r: OtapValue)
        requires
            self.cells@.len() == FIELD_COUNT,
            logs.wf(),
        ensures
            r == self.value(field, *logs),
    {
        match &self.cells[field.index()] {
            Some(value) => value.clone(),
            None => logs.init(field),
        }
    }

    /// Writes a field.
    pub fn set(&mut self, field: OtapLogRecordField, value: OtapValue)
        requires
            old(self).cells@.len() == FIELD_COUNT,
        ensures
            final(self).cells@ == old(self).cells@.update(field.place(), Some(value)),
    {
        let index: usize = field.index();
        self.cells.set(index, Some(value));
    }

    /// What a field holds; afterwards nothing is known of it.
    pub fn take(&mut self, field: OtapLogRecordField, logs: &LogsTable) -> (r: OtapValue)
        requires
            old(self).cells@.len() == FIELD_COUNT,
            logs.wf(),
        ensures
            r == old(self).value(field, *logs),
            final(self).cells@ == old(self).cells@.update(field.place(), None),
    {
        let r = self.get(field, logs);
        let index: usize = field.index();
        self.cells.set(index, None);
        r
    }

    /// What has been done to a field, if anything; afterwards nothing is known of it then.
    pub fn take_if_modified(&mut self, field: OtapLogRecordField) -> (r: Option<
        OtapLogRecordModifiedField,
    >)
        requires
            old(self).cells@.len() == FIELD_COUNT,
        ensures
            r == (match old(self).cells@[field.place()] {
                Some(OtapValue::Removed) => Some(OtapLogRecordModifiedField::Removed),
                Some(OtapValue::Written(values)) => Some(
                    OtapLogRecordModifiedField::Written(values),
                ),
                _ => None,
            }),
            final(self).cells@ == (if r is Some {
                old(self).cells@.update(field.place(), None)
            } else {
                old(self).cells@
            }),
    {
        let index: usize = field.index();
        let r: Option<OtapLogRecordModifiedField> = match &self.cells[index] {
            Some(OtapValue::Removed) => Some(OtapLogRecordModifiedField::Removed),
            Some(OtapValue::Written(values)) => Some(
                OtapLogRecordModifiedField::Written(values.clone()),
            ),
            _ => None,
        };
        if r.is_some() {
            self.cells.set(index, None);
        }
        r
    }
}

/// Whether what is known is a column with a value for each record, or none.
pub open spec fn value_wf(value: OtapValue, record_count: nat) -> bool {
    value.values() matches Some(column) ==> column.wf() && column.rows().len() == record_count
}

/// Reading a field that has been written gives what was written, and leaves the other fields be.
pub proof fn lemma_set_then_get(
    before: OtapLogRecordFields,
    after: OtapLogRecordFields,
    field: OtapLogRecordField,
    other: OtapLogRecordField,
    value: OtapValue,
    logs: LogsTable,
)
    requires
        before.cells@.len() == FIELD_COUNT,
        after.cells@ == before.cells@.update(field.place(), Some(value)),
    ensures
        after.value(field, logs) == value,
        other != field ==> after.value(other, logs) == before.value(other, logs),
{
}

/// Taking a field makes it read as its column again, and leaves the other fields be.
pub proof fn lemma_take_then_get(
    before: OtapLogRecordFields,
    after: OtapLogRecordFields,
    field: OtapLogRecordField,
    other: OtapLogRecordField,
    logs: LogsTable,
)
    requires
        before.cells@.len() == FIELD_COUNT,
        after.cells@ == before.cells@.update(field.place(), None),
    ensures
        after.value(field, logs) == logs.read(field),
        other != field ==> after.value(other, logs) == before.value(other, logs),
{
}

} // verus!
