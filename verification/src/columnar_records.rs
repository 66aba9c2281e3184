//! What the engine asks of the records that it works on.

use std::rc::Rc;

use vstd::prelude::*;

use crate::dictionary::Dictionary;
use crate::dictionary_keys::KeyDataType;
use crate::engine_diagnostic::ColumnarEngineDiagnosticLevel;
use crate::expressions::ExpressionInfo;

verus! {

/// How far a write of values went.
#[derive(Debug, Clone, Copy, PartialEq, Eq, Structural)]
pub enum ColumnarRecordsWriteResult {
    Success,
    PartialSuccess,
    NotFound,
}

/// A step into the values of a record.
pub enum ColumnarEngineSelectionPath {
    Key { expression: ExpressionInfo, key: Rc<String> },
    Index { expression: ExpressionInfo, index: i64 },
    Dictionary { expression: ExpressionInfo, values: Dictionary },
}

/// What a key of a table of records leads to: a column, or another table, told by its number.
pub enum RecordTableValue {
    Dictionary(Dictionary),
    Table(usize),
}

/// Records, in columns that are reached by key. The records are themselves the table of number
/// [`ROOT_TABLE`]; other tables are reached through it, or are attached under a name.
pub trait ColumnarRecords {
    /// What `key` leads to in a table.
    spec fn table_value(&self, table: usize, key: Seq<char>) -> Option<RecordTableValue>;

    /// The table that is attached under a name.
    spec fn attached_table(&self, name: Seq<char>) -> Option<usize>;

    /// The integer type of the keys of the columns.
    spec fn key_type(&self) -> KeyDataType;

    /// The number of records.
    spec fn record_count(&self) -> usize;

    /// The level of diagnostics that is asked for these records.
    spec fn level(&self) -> Option<ColumnarEngineDiagnosticLevel>;

    fn get_diagnostic_level(&self) -> (r: Option<ColumnarEngineDiagnosticLevel>)
        ensures
            r == self.level(),
    ;

    fn get_key_data_type(&self) -> (r: KeyDataType)
        ensures
            r == self.key_type(),
    ;

    fn len(&self) -> (r: usize)
        ensures
            r == self.record_count(),
    ;

    /// Whether there is any record.
    fn is_empty(&self) -> (r: bool)
        ensures
            r == (self.record_count() > 0),
    {
        self.len() > 0
    }

    fn get_attached_records(&self, name: &str) -> (r: Option<usize>)
        ensures
            r == self.attached_table(name@),
    ;

    fn get_values(&self, table: usize, key: &str) -> (r: Option<RecordTableValue>)
        ensures
            r == self.table_value(table, key@),
            r matches Some(RecordTableValue::Dictionary(d)) ==> d.wf(),
    ;
}

/// The number of the table that the records themselves are.
pub const ROOT_TABLE: usize = 0;

}
