//! Writing what has become of log records back to their columns.

use vstd::prelude::*;

use crate::attribute_columns::{AttributeColumns, ValueCodec};
use crate::attributes_batch::OtapAttributesBatch;
use crate::attributes_writer::attributes_writer;
use crate::column_writer::{
    adaptive_dictionary_writer, body_writer, primitive_array_writer, AdaptiveDictionary, BodyCell,
    ColumnLayout, ColumnTarget, ValueConversions,
};
use crate::dictionary::Dictionary;
use crate::engine_diagnostic::{
    ColumnarEngineDiagnostic, ColumnarEngineDiagnosticLevel, DiagnosticMessage,
};
use crate::expressions::ExpressionInfo;
use crate::log_fields::{OtapLogRecordFields, OtapLogRecordModifiedField};
use crate::log_schema::{OtapLogRecordField, FIELD_COUNT};
use crate::named_values::NamedValues;
use crate::otap_attributes::OtapAttributes;
use crate::otap_value::OtapValue;
use crate::text::str_equal;
use crate::value::ValueOrRef;

verus! {

/// A column of log records.
pub enum LogColumn {
    /// A column that came with the records, by its place among those.
    Held(usize),
    /// A value for each record.
    Plain { target: ColumnTarget, values: Vec<ValueOrRef> },
    /// A key for each record, and the values that the keys lead to.
    Keyed { target: ColumnTarget, column: AdaptiveDictionary },
    /// The bodies of the records.
    Bodies(Vec<BodyCell>),
    /// The ids of the records.
    Ids(Vec<Option<u16>>),
}

/// The columns of log records, in order.
pub struct LogColumns {
    pub names: Vec<String>,
    pub columns: Vec<LogColumn>,
}

/// How the bodies of records are put together.
pub trait BodyColumns {
    /// How many of the records have no body at all, if a column comes of the bodies.
    fn finish(&self, bodies: &Vec<BodyCell>) -> Option<usize>;
}

/// The place of the first column of a name, from a place on.
pub open spec fn place_from(
    columns: Seq<(Seq<char>, LogColumn)>,
    name: Seq<char>,
    from: int,
) -> Option<int>
    decreases columns.len() - from,
{
    if from >= columns.len() {
        None
    } else if columns[from].0 == name {
        Some(from)
    } else {
        place_from(columns, name, from + 1)
    }
}

/// The first column of a name.
pub open spec fn column_named(columns: Seq<(Seq<char>, LogColumn)>, name: Seq<char>) -> Option<
    LogColumn,
> {
    match place_from(columns, name, 0) {
        Some(place) => Some(columns[place].1),
        None => None,
    }
}

/// The columns without the first one of a name.
pub open spec fn without_column(columns: Seq<(Seq<char>, LogColumn)>, name: Seq<char>) -> Seq<
    (Seq<char>, LogColumn),
> {
    match place_from(columns, name, 0) {
        Some(place) => columns.remove(place),
        None => columns,
    }
}

/// The columns with a column of a name: in place of the first one of that name if there is one,
/// else after the others.
pub open spec fn with_column(
    columns: Seq<(Seq<char>, LogColumn)>,
    name: Seq<char>,
    column: LogColumn,
) -> Seq<(Seq<char>, LogColumn)> {
    match place_from(columns, name, 0) {
        Some(place) => columns.update(place, (name, column)),
        None => columns.push((name, column)),
    }
}

proof fn lemma_place_from(columns: Seq<(Seq<char>, LogColumn)>, name: Seq<char>, from: int)
    requires
        0 <= from,
    ensures
        match place_from(columns, name, from) {
            Some(place) => {
                &&& from <= place < columns.len()
                &&& columns[place].0 == name
                &&& forall|i: int| from <= i < place ==> (#[trigger] columns[i]).0 != name
            },
            None => forall|i: int| from <= i < columns.len() ==> (#[trigger] columns[i]).0 != name,
        },
    decreases columns.len() - from,
{
    if from < columns.len() && columns[from].0 != name {
        lemma_place_from(columns, name, from + 1);
    }
}

proof fn lemma_place_is(
    columns: Seq<(Seq<char>, LogColumn)>,
    name: Seq<char>,
    from: int,
    place: int,
)
    requires
        0 <= from <= place < columns.len(),
        columns[place].0 == name,
        forall|i: int| from <= i < place ==> (#[trigger] columns[i]).0 != name,
    ensures
        place_from(columns, name, from) == Some(place),
    decreases place - from,
{
    if from < place {
        assert(columns[from].0 != name);
        lemma_place_is(columns, name, from + 1, place);
    }
}

proof fn lemma_place_is_not(columns: Seq<(Seq<char>, LogColumn)>, name: Seq<char>, from: int)
    requires
        0 <= from,
        forall|i: int| from <= i < columns.len() ==> (#[trigger] columns[i]).0 != name,
    ensures
        place_from(columns, name, from) is None,
    decreases columns.len() - from,
{
    if from < columns.len() {
        lemma_place_is_not(columns, name, from + 1);
    }
}

/// A column that has been written is there, and the columns of other names are as they were.
pub proof fn lemma_with_column(
    columns: Seq<(Seq<char>, LogColumn)>,
    name: Seq<char>,
    column: LogColumn,
    other: Seq<char>,
)
    ensures
        column_named(with_column(columns, name, column), name) == Some(column),
        other != name ==> column_named(with_column(columns, name, column), other) == column_named(
            columns,
            other,
        ),
{
    let after = with_column(columns, name, column);
    lemma_place_from(columns, name, 0);
    lemma_place_from(columns, other, 0);
    match place_from(columns, name, 0) {
        Some(place) => {
            assert forall|i: int| 0 <= i < place implies (#[trigger] after[i]).0 != name by {
                assert(columns[i].0 != name);
            }
            lemma_place_is(after, name, 0, place);
        },
        None => {
            assert forall|i: int| 0 <= i < columns.len() implies (#[trigger] after[i]).0 != name by {
                assert(columns[i].0 != name);
            }
            lemma_place_is(after, name, 0, columns.len() as int);
        },
    }
    if other != name {
        match place_from(columns, other, 0) {
            Some(place) => {
                assert forall|i: int| 0 <= i < place implies (#[trigger] after[i]).0 != other by {
                    assert(columns[i].0 != other);
                }
                lemma_place_is(after, other, 0, place);
            },
            None => {
                assert forall|i: int| 0 <= i < after.len() implies (#[trigger] after[i]).0
                    != other by {
                    if i < columns.len() {
                        assert(columns[i].0 != other);
                    }
                }
                lemma_place_is_not(after, other, 0);
            },
        }
    }
}

/// Removing a column leaves the columns of other names as they were.
pub proof fn lemma_without_column(
    columns: Seq<(Seq<char>, LogColumn)>,
    name: Seq<char>,
    other: Seq<char>,
)
    requires
        other != name,
    ensures
        column_named(without_column(columns, name), other) == column_named(columns, other),
{
    let after = without_column(columns, name);
    lemma_place_from(columns, name, 0);
    lemma_place_from(columns, other, 0);
    if place_from(columns, name, 0) is Some {
        let gone = place_from(columns, name, 0)->0;
        match place_from(columns, other, 0) {
            Some(place) => {
                let moved: int = if place < gone {
                    place
                } else {
                    place - 1
                };
                assert forall|i: int| 0 <= i < moved implies (#[trigger] after[i]).0 != other by {
                    if i < gone {
                        assert(columns[i].0 != other);
                    } else {
                        assert(columns[i + 1].0 != other);
                    }
                }
                lemma_place_is(after, other, 0, moved);
            },
            None => {
                assert forall|i: int| 0 <= i < after.len() implies (#[trigger] after[i]).0
                    != other by {
                    if i < gone {
                        assert(columns[i].0 != other);
                    } else {
                        assert(columns[i + 1].0 != other);
                    }
                }
                lemma_place_is_not(after, other, 0);
            },
        }
    }
}

impl LogColumns {
    /// The columns and their names.
    pub open spec fn contents(&self) -> Seq<(Seq<char>, LogColumn)> {
        Seq::new(self.columns@.len(), |i: int| (self.names@[i]@, self.columns@[i]))
    }

    /// Whether each column has a name.
    pub open spec fn wf(&self) -> bool {
        self.names@.len() == self.columns@.len()
    }

    /// The place of the first column of a name.
    pub fn find(&self, name: &str) -> (r: Option<usize>)
        requires
            self.wf(),
        ensures
            match r {
                Some(place) => place_from(self.contents(), name@, 0) == Some(place as int) && place
                    < self.columns@.len(),
                None => place_from(self.contents(), name@, 0) is None,
            },
    {
        let mut i: usize = 0;
        while i < self.names.len()
            invariant
                self.wf(),
                i <= self.names@.len(),
                forall|j: int| 0 <= j < i ==> (#[trigger] self.contents()[j]).0 != name@,
            decreases self.names@.len() - i,
        {
            if str_equal(self.names[i].as_str(), name) {
                proof {
                    lemma_place_is(self.contents(), name@, 0, i as int);
                }
                return Some(i);
            }
            i = i + 1;
        }
        proof {
            lemma_place_is_not(self.contents(), name@, 0);
        }
        None
    }

    /// Removes the first column of a name, and says whether there was one.
    pub fn remove(&mut self, name: &str) -> (r: bool)
        requires
            old(self).wf(),
        ensures
            final(self).wf(),
            r == (place_from(old(self).contents(), name@, 0) is Some),
            final(self).contents() == without_column(old(self).contents(), name@),
    {
        match self.find(name) {
            Some(place) => {
                let _name = self.names.remove(place);
                let _column = self.columns.remove(place);
                assert(self.contents() =~= without_column(old(self).contents(), name@));
                true
            },
            None => false,
        }
    }

    /// Writes a column under a name.
    pub fn write(&mut self, name: &str, column: LogColumn)
        requires
            old(self).wf(),
        ensures
            final(self).wf(),
            final(self).contents() == with_column(old(self).contents(), name@, column),
    {
        match self.find(name) {
            Some(place) => {
                proof {
                    lemma_place_from(self.contents(), name@, 0);
                }
                self.columns.set(place, column);
            },
            None => {
                self.names.push(name.to_owned());
                self.columns.push(column);
            },
        }
        assert(self.contents() =~= with_column(old(self).contents(), name@, column));
    }
}

/// What becomes of a column.
pub enum ColumnChange {
    Unchanged,
    Removed,
    Written { column: LogColumn, valid: usize, nulls: usize },
}

/// How many of the values are null.
pub open spec fn count_null_values(values: Seq<ValueOrRef>) -> nat
    decreases values.len(),
{
    if values.len() == 0 {
        0
    } else {
        count_null_values(values.drop_last()) + if values.last() is Null {
            1nat
        } else {
            0nat
        }
    }
}

/// How many of the keys are missing.
pub open spec fn count_null_keys(keys: Seq<Option<usize>>) -> nat
    decreases keys.len(),
{
    if keys.len() == 0 {
        0
    } else {
        count_null_keys(keys.drop_last()) + if keys.last() is None {
            1nat
        } else {
            0nat
        }
    }
}

/// How many of the values are null.
fn null_values(values: &Vec<ValueOrRef>) -> (r: usize)
    ensures
        r == count_null_values(values@),
        r <= values@.len(),
{
    let mut count: usize = 0;
    let mut i: usize = 0;
    while i < values.len()
        invariant
            count <= i <= values@.len(),
            count == count_null_values(values@.subrange(0, i as int)),
        decreases values@.len() - i,
    {
        proof {
            assert(values@.subrange(0, i + 1).drop_last() =~= values@.subrange(0, i as int));
        }
        if values[i].is_null() {
            count = count + 1;
        }
        i = i + 1;
    }
    proof {
        assert(values@.subrange(0, i as int) =~= values@);
    }
    count
}

/// How many of the keys are missing.
fn null_keys(column: &AdaptiveDictionary) -> (r: usize)
    ensures
        r == count_null_keys(column.keys.positions()),
        r <= column.keys.spec_len(),
{
    let length: usize = column.keys.len();
    let ghost keys = column.keys.positions();
    let mut count: usize = 0;
    let mut i: usize = 0;
    while i < length
        invariant
            count <= i <= length,
            keys == column.keys.positions(),
            length == keys.len(),
            length == column.keys.spec_len(),
            count == count_null_keys(keys.subrange(0, i as int)),
        decreases length - i,
    {
        proof {
            assert(keys.subrange(0, i + 1).drop_last() =~= keys.subrange(0, i as int));
        }
        if column.keys.get_value_index_for_key_index(i).is_none() {
            count = count + 1;
        }
        i = i + 1;
    }
    proof {
        assert(keys.subrange(0, i as int) =~= keys);
    }
    count
}

/// Whether the bodies may have come together with that many records without one.
pub open spec fn bodies_finished<B: BodyColumns>(
    builder: &B,
    bodies: Vec<BodyCell>,
    answer: Option<usize>,
) -> bool {
    call_ensures(B::finish, (builder, &bodies), answer)
}

/// Whether `bodies` are what is written for the bodies of records.
pub open spec fn bodies_of<C: ValueCodec, V: ValueConversions>(
    codec: &C,
    conversions: &V,
    values: Dictionary,
    bodies: Seq<BodyCell>,
) -> bool {
    &&& bodies.len() == values.rows().len()
    &&& forall|i: int|
        0 <= i < bodies.len() ==> crate::column_writer::body_cell(
            codec,
            conversions,
            values.rows()[i],
            #[trigger] bodies[i],
        )
}

/// What becomes of the column of bodies.
pub open spec fn bodies_change(bodies: Vec<BodyCell>, answer: Option<usize>) -> ColumnChange {
    match answer {
        Some(nulls) => ColumnChange::Written {
            column: LogColumn::Bodies(bodies),
            valid: if nulls <= bodies@.len() {
                (bodies@.len() - nulls) as usize
            } else {
                0
            },
            nulls,
        },
        None => ColumnChange::Removed,
    }
}

/// Whether `change` is what becomes of the column of a field once values have been written to the
/// field.
pub open spec fn column_written<C: ValueCodec, V: ValueConversions, B: BodyColumns>(
    codec: &C,
    conversions: &V,
    builder: &B,
    field: OtapLogRecordField,
    written: Dictionary,
    change: ColumnChange,
) -> bool {
    match field.layout() {
        ColumnLayout::Plain(wanted) => {
            &&& change matches ColumnChange::Written {
                column: LogColumn::Plain { target, values },
                valid,
                nulls,
            }
            &&& target == wanted
            &&& crate::column_writer::plain(conversions, wanted, written, values@)
            &&& nulls == count_null_values(values@)
            &&& valid + nulls == values@.len()
        },
        ColumnLayout::Keyed(wanted) => {
            &&& change matches ColumnChange::Written {
                column: LogColumn::Keyed { target, column },
                valid,
                nulls,
            }
            &&& target == wanted
            &&& crate::column_writer::adaptive(conversions, wanted, written, column)
            &&& nulls == count_null_keys(column.keys.positions())
            &&& valid + nulls == column.keys.spec_len()
        },
        ColumnLayout::Body => exists|bodies: Vec<BodyCell>, answer: Option<usize>| #[trigger]
            bodies_finished(builder, bodies, answer) && bodies_of(
                codec,
                conversions,
                written,
                bodies@,
            ) && change == bodies_change(bodies, answer),
    }
}

/// What becomes of the column of a field once values have been written to the field.
fn set_column<C: ValueCodec, V: ValueConversions, B: BodyColumns>(
    codec: &C,
    conversions: &V,
    builder: &B,
    field: OtapLogRecordField,
    written: Dictionary,
) -> (change: ColumnChange)
    ensures
        column_written(codec, conversions, builder, field, written, change),
{
    match field.get_column_name_and_transform().1 {
        ColumnLayout::Plain(target) => {
            let values: Vec<ValueOrRef> = primitive_array_writer(conversions, target, &written);
            let nulls: usize = null_values(&values);
            let valid: usize = values.len() - nulls;
            ColumnChange::Written { column: LogColumn::Plain { target, values }, valid, nulls }
        },
        ColumnLayout::Keyed(target) => {
            let column = adaptive_dictionary_writer(conversions, target, written);
            let nulls: usize = null_keys(&column);
            let valid: usize = column.keys.len() - nulls;
            ColumnChange::Written { column: LogColumn::Keyed { target, column }, valid, nulls }
        },
        ColumnLayout::Body => {
            let bodies: Vec<BodyCell> = body_writer(codec, conversions, &written);
            let answer: Option<usize> = builder.finish(&bodies);
            assert(bodies_finished(builder, bodies, answer));
            match answer {
                Some(nulls) => {
                    let length: usize = bodies.len();
                    let valid: usize = if nulls <= length {
                        length - nulls
                    } else {
                        0
                    };
                    ColumnChange::Written { column: LogColumn::Bodies(bodies), valid, nulls }
                },
                None => ColumnChange::Removed,
            }
        },
    }
}

/// Whether `change` is what becomes of the column of a field.
pub open spec fn column_changed<C: ValueCodec, V: ValueConversions, B: BodyColumns>(
    codec: &C,
    conversions: &V,
    builder: &B,
    field: OtapLogRecordField,
    cell: Option<OtapValue>,
    change: ColumnChange,
) -> bool {
    match cell {
        Some(OtapValue::Removed) => change is Removed,
        Some(OtapValue::Written(written)) => column_written(
            codec,
            conversions,
            builder,
            field,
            written,
            change,
        ),
        _ => change is Unchanged,
    }
}

/// The columns after a change to the one of a name.
pub open spec fn changed(
    columns: Seq<(Seq<char>, LogColumn)>,
    name: Seq<char>,
    change: ColumnChange,
) -> Seq<(Seq<char>, LogColumn)> {
    match change {
        ColumnChange::Unchanged => columns,
        ColumnChange::Removed => without_column(columns, name),
        ColumnChange::Written { column, .. } => with_column(columns, name, column),
    }
}

/// A note about an expression.
pub open spec fn note(
    expression: ExpressionInfo,
    message: DiagnosticMessage,
) -> ColumnarEngineDiagnostic {
    ColumnarEngineDiagnostic {
        diagnostic_level: ColumnarEngineDiagnosticLevel::Info,
        expression,
        message,
    }
}

/// A note about an expression.
pub fn new_note(expression: &ExpressionInfo, message: DiagnosticMessage) -> (r:
    ColumnarEngineDiagnostic)
    ensures
        r == note(*expression, message),
{
    ColumnarEngineDiagnostic::new(
        ColumnarEngineDiagnosticLevel::Info,
        expression.clone(),
        message,
    )
}

/// What is noted of a change to the column of a field. That a column is removed is noted only if it
/// is there.
pub open spec fn change_notes(
    expression: ExpressionInfo,
    columns: Seq<(Seq<char>, LogColumn)>,
    field: OtapLogRecordField,
    change: ColumnChange,
) -> Seq<ColumnarEngineDiagnostic> {
    match change {
        ColumnChange::Unchanged => Seq::empty(),
        ColumnChange::Removed => if place_from(columns, field.column_name(), 0) is Some {
            seq![note(expression, DiagnosticMessage::ColumnRemoved(field))]
        } else {
            Seq::empty()
        },
        ColumnChange::Written { valid, nulls, .. } => seq![
            note(expression, DiagnosticMessage::ColumnWritten { field, valid, nulls }),
        ],
    }
}

/// The field at a place.
pub open spec fn field_at(place: int) -> OtapLogRecordField {
    choose|field: OtapLogRecordField| field.place() == place
}

/// The columns after the changes to the columns of the first `n` fields, in the order of the fields.
pub open spec fn columns_after(
    columns: Seq<(Seq<char>, LogColumn)>,
    changes: Seq<ColumnChange>,
    n: int,
) -> Seq<(Seq<char>, LogColumn)>
    decreases n,
{
    if n <= 0 {
        columns
    } else {
        changed(
            columns_after(columns, changes, n - 1),
            field_at(n - 1).column_name(),
            changes[n - 1],
        )
    }
}

/// What is noted of the changes to the columns of the first `n` fields.
pub open spec fn notes_after(
    expression: ExpressionInfo,
    columns: Seq<(Seq<char>, LogColumn)>,
    changes: Seq<ColumnChange>,
    n: int,
) -> Seq<ColumnarEngineDiagnostic>
    decreases n,
{
    if n <= 0 {
        Seq::empty()
    } else {
        notes_after(expression, columns, changes, n - 1) + change_notes(
            expression,
            columns_after(columns, changes, n - 1),
            field_at(n - 1),
            changes[n - 1],
        )
    }
}

/// The field at the place of a field is that field.
pub proof fn lemma_field_at(field: OtapLogRecordField)
    ensures
        field_at(field.place()) == field,
{
    let found = field_at(field.place());
    assert(field.place() == field.place());
    assert(found.place() == field.place());
}

proof fn lemma_columns_after(
    expression: ExpressionInfo,
    columns: Seq<(Seq<char>, LogColumn)>,
    changes: Seq<ColumnChange>,
    more: Seq<ColumnChange>,
    n: int,
)
    requires
        0 <= n <= changes.len() <= more.len(),
        forall|i: int| 0 <= i < n ==> #[trigger] changes[i] == more[i],
    ensures
        columns_after(columns, changes, n) == columns_after(columns, more, n),
        notes_after(expression, columns, changes, n) == notes_after(expression, columns, more, n),
    decreases n,
{
    if n > 0 {
        lemma_columns_after(expression, columns, changes, more, n - 1);
        assert(changes[n - 1] == more[n - 1]);
    }
}

/// Whether `changes` are what becomes of the columns of the fields.
pub open spec fn fields_changed<C: ValueCodec, V: ValueConversions, B: BodyColumns>(
    codec: &C,
    conversions: &V,
    builder: &B,
    cells: Seq<Option<OtapValue>>,
    changes: Seq<ColumnChange>,
) -> bool {
    &&& changes.len() == FIELD_COUNT
    &&& forall|k: int|
        0 <= k < FIELD_COUNT ==> column_changed(
            codec,
            conversions,
            builder,
            field_at(k),
            cells[k],
            #[trigger] changes[k],
        )
}

/// Whether a field has been written or removed.
pub open spec fn is_modified(cell: Option<OtapValue>) -> bool {
    cell matches Some(value) && (value is Removed || value is Written)
}

/// Whether `columns` and `notes` are what comes of writing the fields back to `before`.
pub open spec fn fields_applied<C: ValueCodec, V: ValueConversions, B: BodyColumns>(
    codec: &C,
    conversions: &V,
    builder: &B,
    expression: ExpressionInfo,
    cells: Seq<Option<OtapValue>>,
    before: Seq<(Seq<char>, LogColumn)>,
    columns: Seq<(Seq<char>, LogColumn)>,
    notes: Seq<ColumnarEngineDiagnostic>,
) -> bool {
    exists|changes: Seq<ColumnChange>| #[trigger]
        fields_changed(codec, conversions, builder, cells, changes) && columns == columns_after(
            before,
            changes,
            FIELD_COUNT as int,
        ) && notes == notes_after(expression, before, changes, FIELD_COUNT as int)
}

/// Writes the fields that have been written or removed back to their columns. Afterwards nothing is
/// known of those fields.
pub fn apply_fields<C: ValueCodec, V: ValueConversions, B: BodyColumns>(
    codec: &C,
    conversions: &V,
    builder: &B,
    expression: &ExpressionInfo,
    fields: &mut OtapLogRecordFields,
    columns: &mut LogColumns,
) -> (notes: Vec<ColumnarEngineDiagnostic>)
    requires
        old(columns).wf(),
        old(fields).cells@.len() == FIELD_COUNT,
    ensures
        final(columns).wf(),
        fields_applied(
            codec,
            conversions,
            builder,
            *expression,
            old(fields).cells@,
            old(columns).contents(),
            final(columns).contents(),
            notes@,
        ),
        final(fields).cells@.len() == FIELD_COUNT,
        forall|k: int|
            0 <= k < FIELD_COUNT ==> #[trigger] final(fields).cells@[k] == (if is_modified(
                old(fields).cells@[k],
            ) {
                None
            } else {
                old(fields).cells@[k]
            }),
{
    let ghost cells = fields.cells@;
    let ghost before = columns.contents();
    let ghost mut changes: Seq<ColumnChange> = Seq::empty();
    let mut notes: Vec<ColumnarEngineDiagnostic> = Vec::new();
    let mut k: usize = 0;
    while k < FIELD_COUNT
        invariant
            k <= FIELD_COUNT,
            cells.len() == FIELD_COUNT,
            columns.wf(),
            fields.cells@.len() == FIELD_COUNT,
            forall|j: int|
                0 <= j < FIELD_COUNT ==> #[trigger] fields.cells@[j] == (if j < k && is_modified(
                    cells[j],
                ) {
                    None
                } else {
                    cells[j]
                }),
            changes.len() == k,
            forall|j: int|
                0 <= j < k ==> column_changed(
                    codec,
                    conversions,
                    builder,
                    field_at(j),
                    cells[j],
                    #[trigger] changes[j],
                ),
            columns.contents() == columns_after(before, changes, k as int),
            notes@ == notes_after(*expression, before, changes, k as int),
        decreases FIELD_COUNT - k,
    {
        if let Some(field) = OtapLogRecordField::from_index(k) {
            proof {
                lemma_field_at(field);
            }
            let change: ColumnChange = match fields.take_if_modified(field) {
                Some(OtapLogRecordModifiedField::Removed) => ColumnChange::Removed,
                Some(OtapLogRecordModifiedField::Written(written)) => set_column(
                    codec,
                    conversions,
                    builder,
                    field,
                    written,
                ),
                None => ColumnChange::Unchanged,
            };
            let ghost made = change;
            write_column_values_to_batch(expression, field, change, columns, &mut notes);
            proof {
                let more = changes.push(made);
                lemma_columns_after(*expression, before, changes, more, k as int);
                assert(more[k as int] == made);
                changes = more;
            }
        }
        k = k + 1;
    }
    proof {
        assert(fields_changed(codec, conversions, builder, cells, changes));
    }
    notes
}

/// Makes a change to the column of a field, and notes it.
fn write_column_values_to_batch(
    expression: &ExpressionInfo,
    field: OtapLogRecordField,
    change: ColumnChange,
    columns: &mut LogColumns,
    notes: &mut Vec<ColumnarEngineDiagnostic>,
)
    requires
        old(columns).wf(),
    ensures
        final(columns).wf(),
        final(columns).contents() == changed(
            old(columns).contents(),
            field.column_name(),
            change,
        ),
        final(notes)@ == old(notes)@ + change_notes(
            *expression,
            old(columns).contents(),
            field,
            change,
        ),
{
    let name: &'static str = field.get_column_name();
    match change {
        ColumnChange::Unchanged => {},
        ColumnChange::Removed => {
            if columns.remove(name) {
                notes.push(new_note(expression, DiagnosticMessage::ColumnRemoved(field)));
            }
        },
        ColumnChange::Written { column, valid, nulls } => {
            notes.push(
                new_note(expression, DiagnosticMessage::ColumnWritten { field, valid, nulls }),
            );
            columns.write(name, column);
        },
    }
    proof {
        assert(notes@ =~= old(notes)@ + change_notes(
            *expression,
            old(columns).contents(),
            field,
            change,
        ));
    }
}

/// What becomes of the columns of attributes.
pub enum AttributesChange {
    Unchanged,
    Removed,
    Written(AttributeColumns),
}

/// Whether `ids` and `columns` are what attributes are written out as.
pub open spec fn attributes_written<C: ValueCodec>(
    codec: &C,
    record_count: nat,
    values: NamedValues<OtapValue>,
    batch: Option<OtapAttributesBatch>,
    ids: Seq<Option<u16>>,
    columns: AttributeColumns,
) -> bool {
    crate::attributes_writer::written_out(
        codec,
        record_count,
        values,
        match batch {
            Some(batch) => Some(&batch),
            None => None,
        },
        ids,
        columns,
    )
}

/// Whether anything is left to be written of attributes.
pub open spec fn any_attribute(
    values: NamedValues<OtapValue>,
    batch: Option<OtapAttributesBatch>,
) -> bool {
    ||| batch matches Some(batch) && crate::attributes_writer::keeps_any(values, batch)
    ||| crate::attributes_writer::count_written(values, values.names().len() as int) > 0
}

/// Whether attributes can be written out: there are ids for the records that need one.
pub open spec fn attributes_fit(attributes: OtapAttributes, record_count: usize) -> bool {
    &&& crate::attributes_writer::ids_last(
        record_count as nat,
        attributes.values,
        match attributes.batch {
            Some(batch) => Some(&batch),
            None => None,
        },
    )
    &&& crate::attributes_writer::values_wf(attributes.values, record_count as nat)
    &&& attributes.values.names().len() * record_count + (match attributes.batch {
        Some(batch) => batch.columns.types@.len(),
        None => 0,
    }) <= usize::MAX
    &&& attributes.values.names().len() + (match attributes.batch {
        Some(batch) => batch.columns.keys.values@.len(),
        None => 0,
    }) <= usize::MAX
    &&& attributes.batch matches Some(batch) ==> {
        &&& batch.wf()
        &&& record_count == batch.ids@.len()
    }
}

/// Whether `columns`, `change` and `notes` are what comes of writing attributes back to `before`: the
/// records get ids, or lose them if no attribute is left.
pub open spec fn attributes_applied<C: ValueCodec>(
    codec: &C,
    expression: ExpressionInfo,
    record_count: nat,
    attributes: Option<OtapAttributes>,
    before: Seq<(Seq<char>, LogColumn)>,
    columns: Seq<(Seq<char>, LogColumn)>,
    change: AttributesChange,
    notes: Seq<ColumnarEngineDiagnostic>,
) -> bool {
    if attributes is None || !attributes->0.modified {
        &&& columns == before
        &&& change is Unchanged
        &&& notes.len() == 0
    } else if any_attribute(attributes->0.values, attributes->0.batch) {
        &&& notes.len() == 0
        &&& change matches AttributesChange::Written(written)
        &&& exists|ids: Vec<Option<u16>>| #[trigger]
            attributes_written(
                codec,
                record_count,
                attributes->0.values,
                attributes->0.batch,
                ids@,
                written,
            ) && columns == with_column(before, "id"@, LogColumn::Ids(ids))
    } else {
        &&& change is Removed
        &&& columns == without_column(before, "id"@)
        &&& notes == (if place_from(before, "id"@, 0) is Some {
            seq![note(expression, DiagnosticMessage::IdsRemoved)]
        } else {
            Seq::empty()
        })
    }
}

/// Writes attributes that have been modified back to their columns.
pub fn apply_attributes<C: ValueCodec>(
    codec: &C,
    expression: &ExpressionInfo,
    record_count: usize,
    attributes: &Option<OtapAttributes>,
    columns: &mut LogColumns,
) -> (r: (AttributesChange, Vec<ColumnarEngineDiagnostic>))
    requires
        old(columns).wf(),
        *attributes matches Some(attributes) ==> attributes.modified ==> attributes_fit(
            attributes,
            record_count,
        ),
    ensures
        final(columns).wf(),
        attributes_applied(
            codec,
            *expression,
            record_count as nat,
            *attributes,
            old(columns).contents(),
            final(columns).contents(),
            r.0,
            r.1@,
        ),
{
    let mut notes: Vec<ColumnarEngineDiagnostic> = Vec::new();
    match attributes {
        Some(attributes) => {
            if !attributes.modified {
                return (AttributesChange::Unchanged, notes);
            }
            let batch: Option<&OtapAttributesBatch> = match &attributes.batch {
                Some(batch) => Some(batch),
                None => None,
            };
            match attributes_writer(codec, record_count, &attributes.values, batch) {
                Some((ids, written)) => {
                    proof {
                        assert(attributes_written(
                            codec,
                            record_count as nat,
                            attributes.values,
                            attributes.batch,
                            ids@,
                            written,
                        ));
                    }
                    columns.write("id", LogColumn::Ids(ids));
                    (AttributesChange::Written(written), notes)
                },
                None => {
                    if columns.remove("id") {
                        notes.push(new_note(expression, DiagnosticMessage::IdsRemoved));
                    }
                    (AttributesChange::Removed, notes)
                },
            }
        },
        None => (AttributesChange::Unchanged, notes),
    }
}

/// What writing back goes through: the columns once the fields have been written, and the notes of
/// each of the two steps.
pub ghost struct ApplySteps {
    pub between: Seq<(Seq<char>, LogColumn)>,
    pub first: Seq<ColumnarEngineDiagnostic>,
    pub second: Seq<ColumnarEngineDiagnostic>,
}

/// Whether `columns`, `change` and `notes` are what comes of writing records back to `before` by the
/// steps: the fields first, in their order, and then the attributes.
pub open spec fn applied<C: ValueCodec, V: ValueConversions, B: BodyColumns>(
    codec: &C,
    conversions: &V,
    builder: &B,
    expression: ExpressionInfo,
    record_count: nat,
    cells: Seq<Option<OtapValue>>,
    attributes: Option<OtapAttributes>,
    before: Seq<(Seq<char>, LogColumn)>,
    columns: Seq<(Seq<char>, LogColumn)>,
    change: AttributesChange,
    notes: Seq<ColumnarEngineDiagnostic>,
    steps: ApplySteps,
) -> bool {
    &&& fields_applied(
        codec,
        conversions,
        builder,
        expression,
        cells,
        before,
        steps.between,
        steps.first,
    )
    &&& attributes_applied(
        codec,
        expression,
        record_count,
        attributes,
        steps.between,
        columns,
        change,
        steps.second,
    )
    &&& notes == steps.first + steps.second
}

/// Writes what has become of log records back to their columns. Afterwards nothing is known of the
/// fields that had been written or removed.
pub fn apply<C: ValueCodec, V: ValueConversions, B: BodyColumns>(
    codec: &C,
    conversions: &V,
    builder: &B,
    expression: &ExpressionInfo,
    record_count: usize,
    fields: &mut OtapLogRecordFields,
    attributes: &Option<OtapAttributes>,
    columns: &mut LogColumns,
) -> (r: (AttributesChange, Vec<ColumnarEngineDiagnostic>))
    requires
        old(columns).wf(),
        old(fields).cells@.len() == FIELD_COUNT,
        *attributes matches Some(attributes) ==> attributes.modified ==> attributes_fit(
            attributes,
            record_count,
        ),
    ensures
        final(columns).wf(),
        final(fields).cells@.len() == FIELD_COUNT,
        forall|k: int|
            0 <= k < FIELD_COUNT ==> #[trigger] final(fields).cells@[k] == (if is_modified(
                old(fields).cells@[k],
            ) {
                None
            } else {
                old(fields).cells@[k]
            }),
        exists|steps: ApplySteps| #[trigger]
            applied(
                codec,
                conversions,
                builder,
                *expression,
                record_count as nat,
                old(fields).cells@,
                *attributes,
                old(columns).contents(),
                final(columns).contents(),
                r.0,
                r.1@,
                steps,
            ),
{
    let mut notes = apply_fields(codec, conversions, builder, expression, fields, columns);
    let ghost first = notes@;
    let ghost between = columns.contents();
    let (change, mut more) = apply_attributes(
        codec,
        expression,
        record_count,
        attributes,
        columns,
    );
    let ghost steps = ApplySteps { between, first, second: more@ };
    notes.append(&mut more);
    let r = (change, notes);
    assert(applied(
        codec,
        conversions,
        builder,
        *expression,
        record_count as nat,
        old(fields).cells@,
        *attributes,
        old(columns).contents(),
        columns.contents(),
        r.0,
        r.1@,
        steps,
    ));
    r
}

} // verus!
