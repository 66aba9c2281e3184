//! Log records, with their resource, their scope and their attributes.

use std::rc::Rc;

use roaring::RoaringBitmap;
use vstd::prelude::*;

use crate::columnar_records::{
    ColumnarEngineSelectionPath, ColumnarRecords, ColumnarRecordsWriteResult, RecordTableValue,
};
use crate::dictionary::Dictionary;
use crate::dictionary_keys::KeyDataType;
use crate::engine_diagnostic::{
    ColumnarEngineDiagnostic, ColumnarEngineDiagnosticLevel, DiagnosticMessage,
};
use crate::expressions::ExpressionInfo;
use crate::log_fields::{LogsTable, OtapLogRecordFields};
use crate::log_schema::{normalize_key, LogRecordKey};
use crate::log_updates::{
    build_plan, list_records, process_log_record_field_update, KeyPlan,
};
use crate::otap_attributes::{process_attributes_update, OtapAttributes};
use crate::otap_value::OtapValue;
use crate::selection::new_warning;
use crate::text::{decimal_text, str_equal, surround};

verus! {

/// The number of the table of the attributes of log records.
pub const ATTRIBUTES_TABLE: usize = 1;

/// The number of the table of resources.
pub const RESOURCE_TABLE: usize = 2;

/// The number of the table of the attributes of resources.
pub const RESOURCE_ATTRIBUTES_TABLE: usize = 3;

/// The number of the table of scopes.
pub const SCOPE_TABLE: usize = 4;

/// The number of the table of the attributes of scopes.
pub const SCOPE_ATTRIBUTES_TABLE: usize = 5;

/// The resources that log records come from.
pub struct OtapResource {
    pub attributes: Option<OtapAttributes>,
}

/// The scopes that log records come from.
pub struct OtapScope {
    pub name: Option<Dictionary>,
    pub version: Option<Dictionary>,
    pub attributes: Option<OtapAttributes>,
}

/// What `key` leads to among attributes that may be missing.
pub open spec fn attribute_value(
    attributes: Option<OtapAttributes>,
    key: Seq<char>,
) -> Option<RecordTableValue> {
    match attributes {
        Some(attributes) => match attributes.value(key).values() {
            Some(values) => Some(RecordTableValue::Dictionary(values)),
            None => None,
        },
        None => None,
    }
}

/// A table, if the attributes are there.
pub open spec fn attributes_table(
    attributes: Option<OtapAttributes>,
    table: usize,
) -> Option<RecordTableValue> {
    if attributes is Some {
        Some(RecordTableValue::Table(table))
    } else {
        None
    }
}

/// A column, if it is there.
pub open spec fn column_value(column: Option<Dictionary>) -> Option<RecordTableValue> {
    match column {
        Some(column) => Some(RecordTableValue::Dictionary(column)),
        None => None,
    }
}

/// Whether the attributes, if they are there, have a value for each record under each key.
pub open spec fn attributes_wf(attributes: Option<OtapAttributes>, record_count: nat) -> bool {
    attributes matches Some(attributes) ==> attributes.wf(record_count)
}

impl OtapResource {
    /// What `key` leads to.
    pub open spec fn value(&self, key: Seq<char>) -> Option<RecordTableValue> {
        if key == "attributes"@ || key == "Attributes"@ {
            attributes_table(self.attributes, RESOURCE_ATTRIBUTES_TABLE)
        } else {
            None
        }
    }

    /// What `key` leads to.
    pub fn get_values(&self, key: &str) -> (r: Option<RecordTableValue>)
        ensures
            r == self.value(key@),
    {
        if (str_equal(key, "attributes") || str_equal(key, "Attributes"))
            && self.attributes.is_some() {
            Some(RecordTableValue::Table(RESOURCE_ATTRIBUTES_TABLE))
        } else {
            None
        }
    }
}

impl OtapScope {
    /// What `key` leads to.
    pub open spec fn value(&self, key: Seq<char>) -> Option<RecordTableValue> {
        if key == "attributes"@ || key == "Attributes"@ {
            attributes_table(self.attributes, SCOPE_ATTRIBUTES_TABLE)
        } else if key == "name"@ || key == "Name"@ {
            column_value(self.name)
        } else if key == "version"@ || key == "Version"@ {
            column_value(self.version)
        } else {
            None
        }
    }

    /// What `key` leads to.
    pub fn get_values(&self, key: &str) -> (r: Option<RecordTableValue>)
        ensures
            r == self.value(key@),
    {
        if str_equal(key, "attributes") || str_equal(key, "Attributes") {
            if self.attributes.is_some() {
                Some(RecordTableValue::Table(SCOPE_ATTRIBUTES_TABLE))
            } else {
                None
            }
        } else if str_equal(key, "name") || str_equal(key, "Name") {
            copy_column(&self.name)
        } else if str_equal(key, "version") || str_equal(key, "Version") {
            copy_column(&self.version)
        } else {
            None
        }
    }
}

/// A column, if it is there.
fn copy_column(column: &Option<Dictionary>) -> (r: Option<RecordTableValue>)
    ensures
        r == column_value(*column),
{
    match column {
        Some(column) => Some(RecordTableValue::Dictionary(column.clone())),
        None => None,
    }
}

/// What `key` leads to among attributes that may be missing.
fn get_attribute(attributes: &Option<OtapAttributes>, key: &str) -> (r: Option<RecordTableValue>)
    ensures
        r == attribute_value(*attributes, key@),
{
    match attributes {
        Some(attributes) => {
            let value = attributes.get_values(key);
            match value.get_values() {
                Some(values) => Some(RecordTableValue::Dictionary(values.clone())),
                None => None,
            }
        },
        None => None,
    }
}

/// What a table is written as: its name and the number of records.
pub open spec fn counted_text(name: Seq<char>, count: nat) -> Seq<char> {
    name + "(RecordCount="@ + crate::text::decimal(count) + ")"@
}

/// What the table of a number is called.
pub open spec fn table_name(table: int) -> Seq<char> {
    if table == 0 {
        "Logs"@
    } else if table == RESOURCE_TABLE {
        "Resource"@
    } else if table == SCOPE_TABLE {
        "Scope"@
    } else {
        "Attributes"@
    }
}

/// Writes a table.
fn write_table(name: &str, count: usize) -> (r: String)
    ensures
        r@ == counted_text(name@, count as nat),
{
    let mut r: String = name.to_owned();
    r.append(surround("(RecordCount=", decimal_text(count as u64).as_str(), ")").as_str());
    assert(r@ =~= counted_text(name@, count as nat));
    r
}

/// The number of rows that attributes come in.
pub open spec fn attribute_rows(attributes: Option<OtapAttributes>) -> nat {
    match attributes {
        Some(attributes) => match attributes.batch {
            Some(batch) => batch.columns.types@.len(),
            None => 0,
        },
        None => 0,
    }
}

/// The number of rows that attributes come in.
fn count_attribute_rows(attributes: &Option<OtapAttributes>) -> (r: usize)
    ensures
        r == attribute_rows(*attributes),
{
    match attributes {
        Some(attributes) => match &attributes.batch {
            Some(batch) => batch.columns.types.len(),
            None => 0,
        },
        None => 0,
    }
}

/// The parts of log records.
pub struct LogRecords {
    pub diagnostic_level: Option<ColumnarEngineDiagnosticLevel>,
    pub logs: Option<LogsTable>,
    pub attributes: Option<OtapAttributes>,
    pub resource: Option<OtapResource>,
    pub scope: Option<OtapScope>,
    pub fields: OtapLogRecordFields,
}

impl LogRecords {
    /// The number of records.
    pub open spec fn count(&self) -> nat {
        match self.logs {
            Some(logs) => logs.record_count as nat,
            None => 0,
        }
    }

    /// Whether every column has a value for each record.
    pub open spec fn wf(&self) -> bool {
        &&& self.logs matches Some(logs) ==> logs.wf() && logs.record_count <= 0x1_0000_0000
        &&& self.fields.wf(self.count())
        &&& attributes_wf(self.attributes, self.count())
        &&& self.resource matches Some(resource) ==> attributes_wf(
            resource.attributes,
            self.count(),
        )
        &&& self.scope matches Some(scope) ==> {
            &&& attributes_wf(scope.attributes, self.count())
            &&& scope.name matches Some(column) ==> column.wf()
            &&& scope.version matches Some(column) ==> column.wf()
        }
    }

    /// What `key` leads to on the records themselves.
    pub open spec fn record_value(&self, key: Seq<char>) -> Option<RecordTableValue> {
        match crate::log_schema::log_record_key(key) {
            LogRecordKey::Attributes => attributes_table(self.attributes, ATTRIBUTES_TABLE),
            LogRecordKey::Field(field) => match self.logs {
                Some(logs) => column_value(self.fields.value(field, logs).values()),
                None => None,
            },
            LogRecordKey::Unknown => None,
        }
    }

    /// What `key` leads to in a table.
    pub open spec fn table_value(&self, table: usize, key: Seq<char>) -> Option<RecordTableValue> {
        if table == 0 {
            self.record_value(key)
        } else if table == ATTRIBUTES_TABLE {
            attribute_value(self.attributes, key)
        } else if table == RESOURCE_TABLE {
            match self.resource {
                Some(resource) => resource.value(key),
                None => None,
            }
        } else if table == RESOURCE_ATTRIBUTES_TABLE {
            match self.resource {
                Some(resource) => attribute_value(resource.attributes, key),
                None => None,
            }
        } else if table == SCOPE_TABLE {
            match self.scope {
                Some(scope) => scope.value(key),
                None => None,
            }
        } else if table == SCOPE_ATTRIBUTES_TABLE {
            match self.scope {
                Some(scope) => attribute_value(scope.attributes, key),
                None => None,
            }
        } else {
            None
        }
    }

    /// The table that is attached under a name.
    pub open spec fn attached_table(&self, name: Seq<char>) -> Option<usize> {
        if (name == "resource"@ || name == "Resource"@) && self.resource is Some {
            Some(RESOURCE_TABLE)
        } else if (name == "scope"@ || name == "Scope"@ || name == "instrumentation_scope"@ || name
            == "InstrumentationScope"@ || name == "instrumentationScope"@) && self.scope is Some
            && !(name == "resource"@ || name == "Resource"@) {
            Some(SCOPE_TABLE)
        } else {
            None
        }
    }

    /// What `key` leads to on the records themselves.
    fn get_record_value(&self, key: &str) -> (r: Option<RecordTableValue>)
        requires
            self.wf(),
        ensures
            r == self.record_value(key@),
    {
        match normalize_key(key) {
            LogRecordKey::Attributes => if self.attributes.is_some() {
                Some(RecordTableValue::Table(ATTRIBUTES_TABLE))
            } else {
                None
            },
            LogRecordKey::Field(field) => match &self.logs {
                Some(logs) => {
                    let value = self.fields.get(field, logs);
                    match value.get_values() {
                        Some(values) => Some(RecordTableValue::Dictionary(values.clone())),
                        None => None,
                    }
                },
                None => None,
            },
            LogRecordKey::Unknown => None,
        }
    }

    /// What `key` leads to in a table.
    pub fn get_values(&self, table: usize, key: &str) -> (r: Option<RecordTableValue>)
        requires
            self.wf(),
        ensures
            r == self.table_value(table, key@),
            r matches Some(RecordTableValue::Dictionary(d)) ==> d.wf(),
    {
        match table {
            0 => self.get_record_value(key),
            ATTRIBUTES_TABLE => get_attribute(&self.attributes, key),
            RESOURCE_TABLE => match &self.resource {
                Some(resource) => resource.get_values(key),
                None => None,
            },
            RESOURCE_ATTRIBUTES_TABLE => match &self.resource {
                Some(resource) => get_attribute(&resource.attributes, key),
                None => None,
            },
            SCOPE_TABLE => match &self.scope {
                Some(scope) => scope.get_values(key),
                None => None,
            },
            SCOPE_ATTRIBUTES_TABLE => match &self.scope {
                Some(scope) => get_attribute(&scope.attributes, key),
                None => None,
            },
            _ => None,
        }
    }

    /// The table that is attached under a name.
    pub fn get_attached_records(&self, name: &str) -> (r: Option<usize>)
        ensures
            r == self.attached_table(name@),
    {
        if str_equal(name, "resource") || str_equal(name, "Resource") {
            if self.resource.is_some() {
                Some(RESOURCE_TABLE)
            } else {
                None
            }
        } else if str_equal(name, "scope") || str_equal(name, "Scope") || str_equal(
            name,
            "instrumentation_scope",
        ) || str_equal(name, "InstrumentationScope") || str_equal(name, "instrumentationScope") {
            if self.scope.is_some() {
                Some(SCOPE_TABLE)
            } else {
                None
            }
        } else {
            None
        }
    }
}

impl LogRecords {
    /// The number of records in a table.
    pub open spec fn table_count(&self, table: int) -> nat {
        if table == ATTRIBUTES_TABLE {
            attribute_rows(self.attributes)
        } else if table == RESOURCE_ATTRIBUTES_TABLE {
            match self.resource {
                Some(resource) => attribute_rows(resource.attributes),
                None => 0,
            }
        } else if table == SCOPE_ATTRIBUTES_TABLE {
            match self.scope {
                Some(scope) => attribute_rows(scope.attributes),
                None => 0,
            }
        } else {
            self.count()
        }
    }

    /// What the tables are written as, by their numbers.
    pub fn table_texts(&self) -> (r: Vec<String>)
        ensures
            r@.len() == SCOPE_ATTRIBUTES_TABLE + 1,
            forall|table: int|
                0 <= table < r@.len() ==> (#[trigger] r@[table])@ == counted_text(
                    table_name(table),
                    self.table_count(table),
                ),
    {
        let count: usize = match &self.logs {
            Some(logs) => logs.record_count,
            None => 0,
        };
        let resource_rows: usize = match &self.resource {
            Some(resource) => count_attribute_rows(&resource.attributes),
            None => 0,
        };
        let scope_rows: usize = match &self.scope {
            Some(scope) => count_attribute_rows(&scope.attributes),
            None => 0,
        };
        let mut r: Vec<String> = Vec::new();
        r.push(write_table("Logs", count));
        r.push(write_table("Attributes", count_attribute_rows(&self.attributes)));
        r.push(write_table("Resource", count));
        r.push(write_table("Attributes", resource_rows));
        r.push(write_table("Scope", count));
        r.push(write_table("Attributes", scope_rows));
        r
    }
}

/// The parts of log records that writing may change.
pub ghost struct LogState {
    pub fields: OtapLogRecordFields,
    pub attributes: Option<OtapAttributes>,
}

/// Whether `start` are the attributes, or none if they are missing.
pub open spec fn attributes_or_empty(
    attributes: Option<OtapAttributes>,
    start: OtapAttributes,
) -> bool {
    match attributes {
        Some(attributes) => start == attributes,
        None => {
            &&& start.values@ == Map::<Seq<char>, OtapValue>::empty()
            &&& start.batch is None
            &&& !start.modified
        },
    }
}

/// Whether values have been written under a key of log records: to their attributes or to one of
/// their fields. Any other key leads nowhere, with a warning.
pub open spec fn key_written(
    expression: ExpressionInfo,
    selector: ExpressionInfo,
    key: Rc<String>,
    path: Seq<ColumnarEngineSelectionPath>,
    key_filter: Option<&RoaringBitmap>,
    values: Dictionary,
    logs: LogsTable,
    before: LogState,
    after: LogState,
    noted: Seq<ColumnarEngineDiagnostic>,
    notes: Seq<ColumnarEngineDiagnostic>,
    r: ColumnarRecordsWriteResult,
) -> bool {
    match crate::log_schema::log_record_key(key@) {
        LogRecordKey::Attributes => {
            &&& after.fields == before.fields
            &&& after.attributes is Some
            &&& exists|start: OtapAttributes| #[trigger]
                attributes_or_empty(before.attributes, start)
                    && crate::otap_attributes::attributes_updated(
                    expression,
                    path,
                    key_filter,
                    values,
                    start,
                    after.attributes->0,
                    noted,
                    notes,
                    r,
                )
        },
        LogRecordKey::Field(field) => {
            &&& after.attributes == before.attributes
            &&& crate::log_updates::field_updated(
                expression,
                field,
                before.fields,
                logs,
                selector,
                path,
                key_filter,
                values,
                after.fields,
                noted,
                notes,
                r,
            )
        },
        LogRecordKey::Unknown => {
            &&& after == before
            &&& r == ColumnarRecordsWriteResult::NotFound
            &&& notes == noted.push(
                crate::selection::warning(selector, DiagnosticMessage::FieldNotFound(key)),
            )
        },
    }
}

/// The states that log records went through while values were written under one key after the other,
/// with the diagnostics up to each and what came of each write.
pub ghost struct RootWrites {
    pub states: Seq<LogState>,
    pub notes: Seq<Seq<ColumnarEngineDiagnostic>>,
    pub results: Seq<ColumnarRecordsWriteResult>,
}

impl RootWrites {
    /// Whether the first `n` keys have been written under.
    pub open spec fn done(
        self,
        expression: ExpressionInfo,
        selector: ExpressionInfo,
        plan: KeyPlan,
        path: Seq<ColumnarEngineSelectionPath>,
        values: Dictionary,
        logs: LogsTable,
        n: int,
    ) -> bool {
        &&& self.states.len() == n + 1
        &&& self.notes.len() == n + 1
        &&& self.results.len() == n
        &&& forall|k: int|
            0 <= k < n ==> self.step(expression, selector, plan, path, values, logs, k)
    }

    /// Whether values have been written under the key at `k`.
    pub open spec fn step(
        self,
        expression: ExpressionInfo,
        selector: ExpressionInfo,
        plan: KeyPlan,
        path: Seq<ColumnarEngineSelectionPath>,
        values: Dictionary,
        logs: LogsTable,
        k: int,
    ) -> bool {
        key_written(
            expression,
            selector,
            plan.keys@[k],
            path,
            Some(&plan.filters@[k]),
            values,
            logs,
            self.states[k],
            self.states[k + 1],
            self.notes[k],
            self.notes[k + 1],
            self.results[k],
        )
    }

    spec fn with(
        self,
        state: LogState,
        notes: Seq<ColumnarEngineDiagnostic>,
        result: ColumnarRecordsWriteResult,
    ) -> RootWrites {
        RootWrites {
            states: self.states.push(state),
            notes: self.notes.push(notes),
            results: self.results.push(result),
        }
    }
}

/// How many of the first `n` writes found what they were to write to.
pub open spec fn count_found(results: Seq<ColumnarRecordsWriteResult>, n: int) -> nat
    decreases n,
{
    if n <= 0 {
        0
    } else if results[n - 1] != ColumnarRecordsWriteResult::NotFound {
        count_found(results, n - 1) + 1
    } else {
        count_found(results, n - 1)
    }
}

/// What comes of a number of writes: a success if all found what they were to write to, and there
/// were any.
pub open spec fn combined(results: Seq<ColumnarRecordsWriteResult>) -> ColumnarRecordsWriteResult {
    let found = count_found(results, results.len() as int);
    if found == 0 {
        ColumnarRecordsWriteResult::NotFound
    } else if found == results.len() {
        ColumnarRecordsWriteResult::Success
    } else {
        ColumnarRecordsWriteResult::PartialSuccess
    }
}

/// Whether values have been written under each key of a plan of the records.
pub open spec fn root_written(
    expression: ExpressionInfo,
    selector: ExpressionInfo,
    keys: Dictionary,
    path: Seq<ColumnarEngineSelectionPath>,
    key_filter: Option<&RoaringBitmap>,
    values: Dictionary,
    logs: LogsTable,
    before: LogState,
    after: LogState,
    noted: Seq<ColumnarEngineDiagnostic>,
    notes: Seq<ColumnarEngineDiagnostic>,
    r: ColumnarRecordsWriteResult,
    plan: KeyPlan,
    writes: RootWrites,
) -> bool {
    let records = crate::log_updates::filtered_records(key_filter, keys.rows().len());
    let planned = if crate::log_updates::any_not_text(keys, records, records.len() as int) {
        noted.push(crate::selection::warning(selector, DiagnosticMessage::LogRecordKeyNotText))
    } else {
        noted
    };
    let n = plan.keys@.len() as int;
    &&& plan.covers(keys, records, records.len() as int)
    &&& writes.done(expression, selector, plan, path, values, logs, n)
    &&& writes.states[0] == before
    &&& writes.states[n] == after
    &&& writes.notes[0] == planned
    &&& writes.notes[n] == notes
    &&& r == combined(writes.results)
}

/// Whether values have been written to log records.
///
/// A filter that lets no record through makes every write a success. An index leads nowhere, with a
/// warning.
pub open spec fn values_written(
    expression: ExpressionInfo,
    root: ColumnarEngineSelectionPath,
    path: Seq<ColumnarEngineSelectionPath>,
    key_filter: Option<&RoaringBitmap>,
    values: Dictionary,
    logs: LogsTable,
    before: LogState,
    after: LogState,
    noted: Seq<ColumnarEngineDiagnostic>,
    notes: Seq<ColumnarEngineDiagnostic>,
    r: ColumnarRecordsWriteResult,
) -> bool {
    if key_filter matches Some(filter) && crate::row_bitmap::bitmap_values(*filter).len() == 0 {
        &&& r == ColumnarRecordsWriteResult::Success
        &&& after == before
        &&& notes == noted
    } else {
        match root {
            ColumnarEngineSelectionPath::Key { expression: selector, key } => key_written(
                expression,
                selector,
                key,
                path,
                key_filter,
                values,
                logs,
                before,
                after,
                noted,
                notes,
                r,
            ),
            ColumnarEngineSelectionPath::Index { expression: selector, .. } => {
                &&& r == ColumnarRecordsWriteResult::NotFound
                &&& after == before
                &&& notes == noted.push(
                    crate::selection::warning(selector, DiagnosticMessage::LogRecordByIndex),
                )
            },
            ColumnarEngineSelectionPath::Dictionary { expression: selector, values: keys } => {
                exists|plan: KeyPlan, writes: RootWrites| #[trigger]
                    root_written(
                        expression,
                        selector,
                        keys,
                        path,
                        key_filter,
                        values,
                        logs,
                        before,
                        after,
                        noted,
                        notes,
                        r,
                        plan,
                        writes,
                    )
            },
        }
    }
}

/// Whether a write can be made: it has a value for each record, keys for no more records than there
/// are, and a path if it may be to attributes.
pub open spec fn write_wf(
    root: ColumnarEngineSelectionPath,
    path: Seq<ColumnarEngineSelectionPath>,
    key_filter: Option<&RoaringBitmap>,
    values: Dictionary,
    record_count: nat,
) -> bool {
    &&& crate::log_updates::column_wf(values, record_count)
    &&& crate::log_updates::filter_wf(key_filter, record_count)
    &&& root matches ColumnarEngineSelectionPath::Dictionary { values: keys, .. }
        ==> keys.rows().len() <= record_count
    &&& path.len() > 0 ==> (path[0] matches ColumnarEngineSelectionPath::Dictionary {
        values: keys,
        ..
    } ==> keys.rows().len() <= record_count)
    &&& path.len() == 0 ==> !may_be_attributes(root)
}

/// Whether a root may lead to attributes.
pub open spec fn may_be_attributes(root: ColumnarEngineSelectionPath) -> bool {
    match root {
        ColumnarEngineSelectionPath::Key { key, .. } => crate::log_schema::log_record_key(key@)
            == LogRecordKey::Attributes,
        ColumnarEngineSelectionPath::Index { .. } => false,
        ColumnarEngineSelectionPath::Dictionary { values, .. } => exists|record: usize|
            (#[trigger] crate::log_updates::text_of(values.row_for(record)) matches Some(key)
                && crate::log_schema::log_record_key(key) == LogRecordKey::Attributes),
    }
}

impl LogRecords {
    /// The parts that writing may change.
    pub open spec fn state(&self) -> LogState {
        LogState { fields: self.fields, attributes: self.attributes }
    }

    /// Whether the parts that writing does not change are the same.
    pub open spec fn same_rest(&self, before: LogRecords) -> bool {
        &&& self.diagnostic_level == before.diagnostic_level
        &&& self.logs == before.logs
        &&& self.resource == before.resource
        &&& self.scope == before.scope
    }

    /// Writes values under a key.
    fn write_key(
        &mut self,
        notes: &mut Vec<ColumnarEngineDiagnostic>,
        expression: &ExpressionInfo,
        selector: &ExpressionInfo,
        key: &Rc<String>,
        path: &Vec<ColumnarEngineSelectionPath>,
        key_filter: Option<&RoaringBitmap>,
        values: &Dictionary,
    ) -> (r: ColumnarRecordsWriteResult)
        requires
            old(self).wf(),
            old(self).logs is Some,
            crate::log_updates::column_wf(*values, old(self).count()),
            crate::log_updates::filter_wf(key_filter, old(self).count()),
            path@.len() > 0 ==> (path@[0] matches ColumnarEngineSelectionPath::Dictionary {
                values: keys,
                ..
            } ==> keys.rows().len() <= old(self).count()),
            path@.len() == 0 ==> crate::log_schema::log_record_key(key@)
                != LogRecordKey::Attributes,
        ensures
            final(self).wf(),
            final(self).same_rest(*old(self)),
            key_written(
                *expression,
                *selector,
                *key,
                path@,
                key_filter,
                *values,
                old(self).logs->0,
                old(self).state(),
                final(self).state(),
                old(notes)@,
                final(notes)@,
                r,
            ),
    {
        let ghost before = *self;
        match normalize_key(key.as_str()) {
            LogRecordKey::Attributes => {
                let taken: Option<OtapAttributes> = self.attributes.take();
                let mut attributes: OtapAttributes = match taken {
                    Some(attributes) => attributes,
                    None => OtapAttributes::new_empty(),
                };
                let ghost start = attributes;
                assert(attributes_or_empty(before.attributes, start));
                let r = process_attributes_update(
                    notes,
                    expression,
                    path,
                    key_filter,
                    values,
                    &mut attributes,
                );
                self.attributes = Some(attributes);
                r
            },
            LogRecordKey::Field(field) => match &self.logs {
                Some(logs) => process_log_record_field_update(
                    notes,
                    expression,
                    field,
                    &mut self.fields,
                    logs,
                    selector,
                    path,
                    key_filter,
                    values,
                ),
                None => ColumnarRecordsWriteResult::NotFound,
            },
            LogRecordKey::Unknown => {
                notes.push(
                    new_warning(selector, DiagnosticMessage::FieldNotFound(key.clone())),
                );
                ColumnarRecordsWriteResult::NotFound
            },
        }
    }

    /// Writes values to the records.
    pub fn set_values(
        &mut self,
        notes: &mut Vec<ColumnarEngineDiagnostic>,
        expression: &ExpressionInfo,
        root: &ColumnarEngineSelectionPath,
        path: &Vec<ColumnarEngineSelectionPath>,
        key_filter: Option<&RoaringBitmap>,
        values: &Dictionary,
    ) -> (r: ColumnarRecordsWriteResult)
        requires
            old(self).wf(),
            old(self).logs is Some,
            write_wf(*root, path@, key_filter, *values, old(self).count()),
        ensures
            final(self).wf(),
            final(self).same_rest(*old(self)),
            values_written(
                *expression,
                *root,
                path@,
                key_filter,
                *values,
                old(self).logs->0,
                old(self).state(),
                final(self).state(),
                old(notes)@,
                final(notes)@,
                r,
            ),
    {
        if let Some(filter) = key_filter {
            let rows: Vec<u32> = crate::row_bitmap::bitmap_to_vec(filter);
            if rows.len() == 0 {
                return ColumnarRecordsWriteResult::Success;
            }
        }
        match root {
            ColumnarEngineSelectionPath::Key { expression: selector, key } => self.write_key(
                notes,
                expression,
                selector,
                key,
                path,
                key_filter,
                values,
            ),
            ColumnarEngineSelectionPath::Index { expression: selector, .. } => {
                notes.push(new_warning(selector, DiagnosticMessage::LogRecordByIndex));
                ColumnarRecordsWriteResult::NotFound
            },
            ColumnarEngineSelectionPath::Dictionary { expression: selector, values: keys } => {
                let ghost before = *self;
                let ghost noted = notes@;
                let records: Vec<u32> = list_records(key_filter, keys.len());
                let plan = build_plan(notes, selector, keys, &records);
                let mut found: usize = 0;
                let ghost mut writes = RootWrites {
                    states: seq![before.state()],
                    notes: seq![notes@],
                    results: Seq::empty(),
                };
                let ghost planned = notes@;
                let mut k: usize = 0;
                while k < plan.keys.len()
                    invariant
                        k <= plan.keys@.len(),
                        plan.keys@.len() == plan.filters@.len(),
                        plan.covers(*keys, records@, records@.len() as int),
                        records@ == crate::log_updates::filtered_records(
                            key_filter,
                            keys.rows().len(),
                        ),
                        *root == (ColumnarEngineSelectionPath::Dictionary {
                            expression: *selector,
                            values: *keys,
                        }),
                        write_wf(*root, path@, key_filter, *values, before.count()),
                        before.wf(),
                        before.logs is Some,
                        self.wf(),
                        self.same_rest(before),
                        writes.done(
                            *expression,
                            *selector,
                            plan,
                            path@,
                            *values,
                            before.logs->0,
                            k as int,
                        ),
                        writes.states[0] == before.state(),
                        writes.states[k as int] == self.state(),
                        writes.notes[0] == planned,
                        writes.notes[k as int] == notes@,
                        found == count_found(writes.results, k as int),
                        found <= k,
                    decreases plan.keys@.len() - k,
                {
                    let ghost old_writes = writes;
                    proof {
                        crate::otap_attributes::lemma_plan_filter(
                            plan,
                            *keys,
                            records@,
                            key_filter,
                            before.count(),
                            k as int,
                        );
                        lemma_plan_key(plan, *keys, records@, k as int);
                    }
                    let result = self.write_key(
                        notes,
                        expression,
                        selector,
                        &plan.keys[k],
                        path,
                        Some(&plan.filters[k]),
                        values,
                    );
                    if result != ColumnarRecordsWriteResult::NotFound {
                        found = found + 1;
                    }
                    proof {
                        writes = old_writes.with(self.state(), notes@, result);
                        assert forall|j: int| 0 <= j < k + 1 implies #[trigger] writes.step(
                            *expression,
                            *selector,
                            plan,
                            path@,
                            *values,
                            before.logs->0,
                            j,
                        ) by {
                            if j < k {
                                assert(old_writes.step(
                                    *expression,
                                    *selector,
                                    plan,
                                    path@,
                                    *values,
                                    before.logs->0,
                                    j,
                                ));
                                assert(writes.states[j] == old_writes.states[j]);
                                assert(writes.states[j + 1] == old_writes.states[j + 1]);
                                assert(writes.notes[j] == old_writes.notes[j]);
                                assert(writes.notes[j + 1] == old_writes.notes[j + 1]);
                                assert(writes.results[j] == old_writes.results[j]);
                            }
                        }
                        lemma_count_found(old_writes.results, result, k as int);
                    }
                    k = k + 1;
                }
                let r: ColumnarRecordsWriteResult = if found == 0 {
                    ColumnarRecordsWriteResult::NotFound
                } else if found == plan.keys.len() {
                    ColumnarRecordsWriteResult::Success
                } else {
                    ColumnarRecordsWriteResult::PartialSuccess
                };
                proof {
                    assert(root_written(
                        *expression,
                        *selector,
                        *keys,
                        path@,
                        key_filter,
                        *values,
                        before.logs->0,
                        before.state(),
                        self.state(),
                        noted,
                        notes@,
                        r,
                        plan,
                        writes,
                    ));
                }
                r
            },
        }
    }
}

proof fn lemma_count_found(
    results: Seq<ColumnarRecordsWriteResult>,
    result: ColumnarRecordsWriteResult,
    n: int,
)
    requires
        0 <= n <= results.len(),
    ensures
        count_found(results.push(result), n) == count_found(results, n),
    decreases n,
{
    if n > 0 {
        lemma_count_found(results, result, n - 1);
    }
}

/// A key of a plan is that of some record.
proof fn lemma_plan_key(plan: KeyPlan, keys: Dictionary, records: Seq<u32>, k: int)
    requires
        plan.covers(keys, records, records.len() as int),
        0 <= k < plan.keys@.len(),
    ensures
        exists|record: usize|
            #[trigger] crate::log_updates::text_of(keys.row_for(record)) == Some(plan.keys@[k]@),
{
    lemma_some_record(keys, records, plan.keys@[k]@, records.len() as int);
}

proof fn lemma_some_record(keys: Dictionary, records: Seq<u32>, key: Seq<char>, n: int)
    requires
        0 <= n <= records.len(),
        crate::log_updates::records_with_key(keys, records, key, n).len() > 0,
    ensures
        exists|record: usize|
            #[trigger] crate::log_updates::text_of(keys.row_for(record)) == Some(key),
    decreases n,
{
    if n > 0 {
        if crate::log_updates::text_of(keys.row_for(records[n - 1] as usize)) == Some(key) {
        } else {
            lemma_some_record(keys, records, key, n - 1);
        }
    }
}

/// Log records.
pub struct OtapLogRecordBatch {
    parts: LogRecords,
}

impl OtapLogRecordBatch {
    #[verifier::type_invariant]
    spec fn inv(self) -> bool {
        self.parts.wf()
    }

    /// The parts of the records.
    pub closed spec fn view(&self) -> LogRecords {
        self.parts
    }

    /// Log records of the given parts.
    pub fn new(parts: LogRecords) -> (r: Self)
        requires
            parts.wf(),
        ensures
            r@ == parts,
    {
        OtapLogRecordBatch { parts }
    }

    /// No log records.
    pub fn new_empty() -> (r: Self)
        ensures
            r@.logs is None,
            r@.attributes is None,
            r@.resource is None,
            r@.scope is None,
            r@.diagnostic_level is None,
            r@.count() == 0,
            r@.fields.cells@.len() == crate::log_schema::FIELD_COUNT,
            forall|k: int|
                0 <= k < crate::log_schema::FIELD_COUNT
                    ==> #[trigger] r@.fields.cells@[k] is None,
    {
        OtapLogRecordBatch {
            parts: LogRecords {
                diagnostic_level: None,
                logs: None,
                attributes: None,
                resource: None,
                scope: None,
                fields: OtapLogRecordFields::new(),
            },
        }
    }

    /// The parts of the records.
    pub fn into_parts(self) -> (r: LogRecords)
        ensures
            r == self@,
            r.wf(),
    {
        proof {
            use_type_invariant(&self);
        }
        self.parts
    }

    /// Writes values to the records.
    pub fn set_values(
        &mut self,
        notes: &mut Vec<ColumnarEngineDiagnostic>,
        expression: &ExpressionInfo,
        root: &ColumnarEngineSelectionPath,
        path: &Vec<ColumnarEngineSelectionPath>,
        key_filter: Option<&RoaringBitmap>,
        values: &Dictionary,
    ) -> (r: ColumnarRecordsWriteResult)
        requires
            old(self)@.logs is Some,
            write_wf(*root, path@, key_filter, *values, old(self)@.count()),
        ensures
            final(self)@.same_rest(old(self)@),
            values_written(
                *expression,
                *root,
                path@,
                key_filter,
                *values,
                old(self)@.logs->0,
                old(self)@.state(),
                final(self)@.state(),
                old(notes)@,
                final(notes)@,
                r,
            ),
    {
        let mut taken = OtapLogRecordBatch::new_empty();
        core::mem::swap(self, &mut taken);
        let mut parts = taken.into_parts();
        let r = parts.set_values(notes, expression, root, path, key_filter, values);
        *self = OtapLogRecordBatch { parts };
        r
    }
}

impl ColumnarRecords for OtapLogRecordBatch {
    open spec fn table_value(&self, table: usize, key: Seq<char>) -> Option<RecordTableValue> {
        self@.table_value(table, key)
    }

    open spec fn attached_table(&self, name: Seq<char>) -> Option<usize> {
        self@.attached_table(name)
    }

    open spec fn key_type(&self) -> KeyDataType {
        KeyDataType::UInt16
    }

    open spec fn record_count(&self) -> usize {
        self@.count() as usize
    }

    open spec fn level(&self) -> Option<ColumnarEngineDiagnosticLevel> {
        self@.diagnostic_level
    }

    fn get_diagnostic_level(&self) -> Option<ColumnarEngineDiagnosticLevel> {
        self.parts.diagnostic_level
    }

    fn get_key_data_type(&self) -> KeyDataType {
        KeyDataType::UInt16
    }

    fn len(&self) -> usize {
        match &self.parts.logs {
            Some(logs) => logs.record_count,
            None => 0,
        }
    }

    fn get_attached_records(&self, name: &str) -> Option<usize> {
        self.parts.get_attached_records(name)
    }

    fn get_values(&self, table: usize, key: &str) -> Option<RecordTableValue> {
        proof {
            use_type_invariant(self);
        }
        self.parts.get_values(table, key)
    }
}

} // verus!
