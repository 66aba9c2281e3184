//! Records whose tables are given column by column.

use vstd::prelude::*;

use crate::columnar_records::{ColumnarRecords, RecordTableValue};
use crate::dictionary::Dictionary;
use crate::dictionary_keys::KeyDataType;
use crate::engine_diagnostic::ColumnarEngineDiagnosticLevel;
use crate::named_values::NamedValues;

verus! {

/// What a name leads to in a table.
pub enum TableEntry {
    Column(Dictionary),
    Table(usize),
}

impl TableEntry {
    /// What the name leads to, as records tell it.
    pub open spec fn value(self) -> RecordTableValue {
        match self {
            TableEntry::Column(column) => RecordTableValue::Dictionary(column),
            TableEntry::Table(table) => RecordTableValue::Table(table),
        }
    }
}

/// Records whose tables are given column by column.
pub struct TableRecords {
    level: Option<ColumnarEngineDiagnosticLevel>,
    key_type: KeyDataType,
    count: usize,
    tables: Vec<NamedValues<TableEntry>>,
    attached: NamedValues<usize>,
}

impl TableRecords {
    #[verifier::type_invariant]
    spec fn inv(self) -> bool {
        forall|table: int, name: Seq<char>|
            0 <= table < self.tables@.len() && (#[trigger] self.tables@[table])@.contains_key(name)
                ==> (#[trigger] self.tables@[table]@[name] matches TableEntry::Column(column)
                ==> column.wf())
    }

    /// The tables.
    pub closed spec fn contents(&self) -> Seq<Map<Seq<char>, TableEntry>> {
        Seq::new(self.tables@.len(), |i: int| self.tables@[i]@)
    }

    /// The tables that are attached.
    pub closed spec fn attachments(&self) -> Map<Seq<char>, usize> {
        self.attached@
    }

    /// Records with one empty table, which they themselves are.
    pub fn new(
        level: Option<ColumnarEngineDiagnosticLevel>,
        key_type: KeyDataType,
        count: usize,
    ) -> (r: Self)
        ensures
            r.level() == level,
            r.key_type() == key_type,
            r.record_count() == count,
            r.contents() == seq![Map::<Seq<char>, TableEntry>::empty()],
            r.attachments() == (Map::<Seq<char>, usize>::empty()),
    {
        let mut tables: Vec<NamedValues<TableEntry>> = Vec::new();
        tables.push(NamedValues::new());
        let r = TableRecords { level, key_type, count, tables, attached: NamedValues::new() };
        assert(r.contents() =~= seq![Map::<Seq<char>, TableEntry>::empty()]);
        r
    }

    /// Adds an empty table and gives its number.
    pub fn add_table(&mut self) -> (table: usize)
        ensures
            table == old(self).contents().len(),
            final(self).contents() == old(self).contents().push(Map::empty()),
            final(self).attachments() == old(self).attachments(),
            final(self).same_shape(*old(self)),
    {
        proof {
            use_type_invariant(&*self);
        }
        let table: usize = self.tables.len();
        let mut taken: Vec<NamedValues<TableEntry>> = Vec::new();
        core::mem::swap(&mut self.tables, &mut taken);
        taken.push(NamedValues::new());
        self.tables = taken;
        assert(self.contents() =~= old(self).contents().push(Map::empty()));
        table
    }

    /// Whether the records are as many, and ask for the same.
    pub open spec fn same_shape(&self, before: Self) -> bool {
        &&& self.level() == before.level()
        &&& self.key_type() == before.key_type()
        &&& self.record_count() == before.record_count()
    }

    /// Lets a name lead somewhere in a table.
    pub fn set(&mut self, table: usize, name: String, entry: TableEntry)
        requires
            table < old(self).contents().len(),
            entry matches TableEntry::Column(column) ==> column.wf(),
        ensures
            final(self).contents() == old(self).contents().update(
                table as int,
                old(self).contents()[table as int].insert(name@, entry),
            ),
            final(self).attachments() == old(self).attachments(),
            final(self).same_shape(*old(self)),
    {
        proof {
            use_type_invariant(&*self);
        }
        let ghost text = name@;
        let ghost given = entry;
        let mut taken: Vec<NamedValues<TableEntry>> = Vec::new();
        core::mem::swap(&mut self.tables, &mut taken);
        let ghost before = taken@;
        let mut changed: NamedValues<TableEntry> = NamedValues::new();
        core::mem::swap(&mut changed, &mut taken[table]);
        changed.insert(name, entry);
        taken.set(table, changed);
        proof {
            assert forall|t: int, key: Seq<char>|
                0 <= t < taken@.len() && (#[trigger] taken@[t])@.contains_key(key) implies (
            #[trigger] taken@[t]@[key] matches TableEntry::Column(column) ==> column.wf()) by {
                if t != table {
                    assert(taken@[t] == before[t]);
                    assert(before[t]@.contains_key(key));
                } else if key != text {
                    assert(before[t]@.contains_key(key));
                    assert(before[t]@[key] == taken@[t]@[key]);
                }
            }
        }
        self.tables = taken;
        assert(self.contents() =~= old(self).contents().update(
            table as int,
            old(self).contents()[table as int].insert(text, given),
        ));
    }

    /// Attaches a table under a name.
    pub fn attach(&mut self, name: String, table: usize)
        ensures
            final(self).contents() == old(self).contents(),
            final(self).attachments() == old(self).attachments().insert(name@, table),
            final(self).same_shape(*old(self)),
    {
        proof {
            use_type_invariant(&*self);
        }
        let mut taken: NamedValues<usize> = NamedValues::new();
        core::mem::swap(&mut self.attached, &mut taken);
        taken.insert(name, table);
        self.attached = taken;
        assert(self.contents() =~= old(self).contents());
    }
}

impl ColumnarRecords for TableRecords {
    open spec fn table_value(&self, table: usize, key: Seq<char>) -> Option<RecordTableValue> {
        if table < self.contents().len() && self.contents()[table as int].contains_key(key) {
            Some(self.contents()[table as int][key].value())
        } else {
            None
        }
    }

    open spec fn attached_table(&self, name: Seq<char>) -> Option<usize> {
        if self.attachments().contains_key(name) {
            Some(self.attachments()[name])
        } else {
            None
        }
    }

    closed spec fn key_type(&self) -> KeyDataType {
        self.key_type
    }

    closed spec fn record_count(&self) -> usize {
        self.count
    }

    closed spec fn level(&self) -> Option<ColumnarEngineDiagnosticLevel> {
        self.level
    }

    fn get_diagnostic_level(&self) -> Option<ColumnarEngineDiagnosticLevel> {
        self.level
    }

    fn get_key_data_type(&self) -> KeyDataType {
        self.key_type
    }

    fn len(&self) -> usize {
        self.count
    }

    fn get_attached_records(&self, name: &str) -> Option<usize> {
        match self.attached.get(name) {
            Some(table) => Some(*table),
            None => None,
        }
    }

    fn get_values(&self, table: usize, key: &str) -> Option<RecordTableValue> {
        proof {
            use_type_invariant(self);
        }
        if table < self.tables.len() {
            assert(self.contents()[table as int] == self.tables@[table as int]@);
            match self.tables[table].get(key) {
                Some(TableEntry::Column(column)) => Some(
                    RecordTableValue::Dictionary(column.clone()),
                ),
                Some(TableEntry::Table(inner)) => Some(RecordTableValue::Table(*inner)),
                None => None,
            }
        } else {
            None
        }
    }
}

} // verus!
