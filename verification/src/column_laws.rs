//! What the columns hold once the fields of log records have been written back to them.

use vstd::prelude::*;

use crate::attribute_columns::ValueCodec;
use crate::column_array::ColumnArray;
use crate::column_writer::{AdaptiveDictionary, BodyCell, ColumnTarget, ValueConversions};
use crate::dictionary::Dictionary;
use crate::dictionary_values::DictionaryValueArray;
use crate::engine_diagnostic::ColumnarEngineDiagnostic;
use crate::expressions::ExpressionInfo;
use crate::log_columns::{AttributesChange, BodyColumns, ColumnChange, LogColumn};
use crate::otap_attributes::OtapAttributes;
use crate::otap_value::OtapValue;
use crate::value::{ArrayValueOrRef, ValueOrRef};

verus! {

/// Whether the query language may convert a value to this integer.
pub open spec fn may_be_integer<V: ValueConversions>(
    conversions: &V,
    value: ValueOrRef,
    answer: Option<i64>,
) -> bool {
    call_ensures(V::convert_to_integer, (conversions, &value), answer)
}

/// The integer that was converted to, if it is not below `least` and not above `most`.
pub open spec fn between(answer: Option<i64>, least: int, most: int) -> ValueOrRef {
    if answer is Some && least <= answer->0 && answer->0 <= most {
        ValueOrRef::Integer(answer->0)
    } else {
        ValueOrRef::Null
    }
}

/// Whether a column can hold `out` for a value: its text, its integer if it is in the range of the
/// column, its nanoseconds, or its bytes if there are as many as the column asks for. What it cannot hold
/// is null.
pub open spec fn fits<V: ValueConversions>(
    conversions: &V,
    target: ColumnTarget,
    value: ValueOrRef,
    out: ValueOrRef,
) -> bool {
    match target {
        ColumnTarget::Text => exists|text: String|
            #[trigger] call_ensures(V::convert_to_string, (conversions, &value), text) && (
            out matches ValueOrRef::String(held) && held@ == text@),
        ColumnTarget::Int32 => exists|answer: Option<i64>|
            #[trigger] may_be_integer(conversions, value, answer) && out == between(
                answer,
                -0x8000_0000,
                0x7FFF_FFFF,
            ),
        ColumnTarget::UInt32 => exists|answer: Option<i64>|
            #[trigger] may_be_integer(conversions, value, answer) && out == between(
                answer,
                0,
                0xFFFF_FFFF,
            ),
        ColumnTarget::TimestampNanoseconds => exists|answer: Option<i64>|
            #[trigger] call_ensures(V::convert_to_nanoseconds, (conversions, &value), answer)
                && out == between(answer, i64::MIN as int, i64::MAX as int),
        ColumnTarget::FixedSizeBinary { size } => match value {
            ValueOrRef::Array(ArrayValueOrRef::Buffer(bytes)) => out == (if bytes@.len() == size {
                value
            } else {
                ValueOrRef::Null
            }),
            ValueOrRef::Array(ArrayValueOrRef::List(_, items)) => {
                ||| out is Null && items@.len() != size
                ||| out is Null && exists|i: int, answer: Option<i64>|
                    0 <= i < items@.len() && #[trigger] may_be_integer(
                        conversions,
                        items@[i],
                        answer,
                    ) && (answer is None || answer->0 < 0 || answer->0 > 255)
                ||| {
                    &&& items@.len() == size
                    &&& out matches ValueOrRef::Array(ArrayValueOrRef::Buffer(bytes))
                    &&& bytes@.len() == size
                    &&& forall|i: int|
                        0 <= i < size ==> may_be_integer(
                            conversions,
                            items@[i],
                            Some(#[trigger] bytes@[i] as i64),
                        )
                }
            },
            _ => out is Null,
        },
    }
}

/// Whether values are held in the form of a column already.
pub open spec fn in_form(target: ColumnTarget, values: DictionaryValueArray) -> bool {
    values matches DictionaryValueArray::Array(column) && match (target, *column) {
        (ColumnTarget::Text, ColumnArray::Utf8(_)) => true,
        (ColumnTarget::Int32, ColumnArray::Int32(_)) => true,
        (ColumnTarget::UInt32, ColumnArray::UInt32(_)) => true,
        (ColumnTarget::TimestampNanoseconds, ColumnArray::Timestamp(times)) => times.spec_unit()
            is Nanosecond,
        (
            ColumnTarget::FixedSizeBinary { size },
            ColumnArray::FixedSizeBinary { size: held, .. },
        ) => size == held,
        _ => false,
    }
}

/// Whether a column holds `held` for a value: what it can hold for it, and where that is null, what
/// it can hold for null.
pub open spec fn holds_for<V: ValueConversions>(
    conversions: &V,
    target: ColumnTarget,
    value: ValueOrRef,
    held: ValueOrRef,
) -> bool {
    exists|out: ValueOrRef, instead: ValueOrRef| {
        &&& #[trigger] fits(conversions, target, value, out)
        &&& #[trigger] fits(conversions, target, ValueOrRef::Null, instead)
        &&& crate::scalar_laws::stands_for(
            held,
            if out is Null {
                instead
            } else {
                out
            },
        )
    }
}

/// Whether a column holds `held` for a record. A record without a value has none.
pub open spec fn holds_for_record<V: ValueConversions>(
    conversions: &V,
    target: ColumnTarget,
    dictionary: Dictionary,
    record: int,
    held: ValueOrRef,
) -> bool {
    if dictionary.keys.positions()[record] is None {
        held is Null
    } else if in_form(target, dictionary.values) {
        held == dictionary.rows()[record]
    } else {
        holds_for(conversions, target, dictionary.rows()[record], held)
    }
}

/// The value that keys and values give a record.
pub open spec fn keyed_value(column: AdaptiveDictionary, record: int) -> ValueOrRef {
    match column.keys.positions()[record] {
        Some(position) => column.values@[position as int],
        None => ValueOrRef::Null,
    }
}

/// Whether keys and values hold each of the records.
pub open spec fn keyed_holds<V: ValueConversions>(
    conversions: &V,
    target: ColumnTarget,
    dictionary: Dictionary,
    column: AdaptiveDictionary,
) -> bool {
    &&& column.keys.positions().len() == dictionary.rows().len()
    &&& forall|record: int|
        0 <= record < dictionary.rows().len() ==> #[trigger] holds_for_record(
            conversions,
            target,
            dictionary,
            record,
            keyed_value(column, record),
        )
}

/// Whether values hold each of the records, one for one. Nothing more is said where there are as many
/// distinct values as records.
pub open spec fn plain_holds<V: ValueConversions>(
    conversions: &V,
    target: ColumnTarget,
    dictionary: Dictionary,
    values: Seq<ValueOrRef>,
) -> bool {
    &&& values.len() == dictionary.rows().len()
    &&& dictionary.values.values().len() < dictionary.rows().len() ==> forall|record: int|
        0 <= record < dictionary.rows().len() ==> holds_for_record(
            conversions,
            target,
            dictionary,
            record,
            #[trigger] values[record],
        )
}

proof fn lemma_fits<V: ValueConversions>(
    conversions: &V,
    target: ColumnTarget,
    value: ValueOrRef,
    out: ValueOrRef,
)
    requires
        crate::column_writer::converts(conversions, target, value, out),
    ensures
        fits(conversions, target, value, out),
{
    match target {
        ColumnTarget::Int32 => {
            let answer = choose|answer: Option<i64>|
                #[trigger] crate::column_writer::to_integer(conversions, value, answer)
                    && crate::column_writer::in_range(
                    answer,
                    i32::MIN as int,
                    i32::MAX as int,
                    out,
                );
            assert(may_be_integer(conversions, value, answer));
        },
        ColumnTarget::UInt32 => {
            let answer = choose|answer: Option<i64>|
                #[trigger] crate::column_writer::to_integer(conversions, value, answer)
                    && crate::column_writer::in_range(answer, 0, u32::MAX as int, out);
            assert(may_be_integer(conversions, value, answer));
        },
        ColumnTarget::FixedSizeBinary { size } => {
            if let ValueOrRef::Array(ArrayValueOrRef::List(_, items)) = value {
                if items@.len() == size {
                    if out is Null {
                        let (i, answer) = choose|i: int, answer: Option<i64>|
                            0 <= i < items@.len() && #[trigger] crate::column_writer::to_integer(
                                conversions,
                                items@[i],
                                answer,
                            ) && !(answer matches Some(n) && 0 <= n <= 0xFF);
                        assert(may_be_integer(conversions, items@[i], answer));
                    } else {
                        let bytes = out->Array_0->Buffer_0;
                        assert forall|i: int| 0 <= i < size implies may_be_integer(
                            conversions,
                            items@[i],
                            Some(#[trigger] bytes@[i] as i64),
                        ) by {
                            assert(crate::column_writer::to_integer(
                                conversions,
                                items@[i],
                                Some(bytes@[i] as i64),
                            ));
                        }
                    }
                }
            }
        },
        _ => {},
    }
}

proof fn lemma_position_held<V: ValueConversions>(
    conversions: &V,
    target: ColumnTarget,
    values: DictionaryValueArray,
    column: Seq<ValueOrRef>,
    lookup: crate::interning::IndexLookup,
    position: usize,
)
    requires
        crate::column_writer::column_of(conversions, target, values, column, lookup),
        position < values.values().len(),
    ensures
        column.len() <= values.values().len(),
        crate::interning::lookup_position(lookup, position) matches Some(led) ==> led
            < column.len(),
        !in_form(target, values) ==> holds_for(
            conversions,
            target,
            values.values()[position as int],
            match crate::interning::lookup_position(lookup, position) {
                Some(led) => column[led as int],
                None => ValueOrRef::Null,
            },
        ),
        in_form(target, values) ==> column == values.values()
            && crate::interning::lookup_position(lookup, position) == Some(position),
{
    if !in_form(target, values) {
        let (outs, null_out) = choose|outs: Seq<ValueOrRef>, null_out: ValueOrRef| #[trigger]
            crate::column_writer::all_convert(conversions, target, values.values(), outs, null_out)
                && crate::interning::interning(
                crate::column_writer::present_values(outs),
                crate::dictionary_values::non_null(null_out),
                column,
                lookup,
            );
        let i = position as int;
        let present = crate::column_writer::present_values(outs);
        let stand_in = crate::dictionary_values::non_null(null_out);
        lemma_fits(conversions, target, ValueOrRef::Null, null_out);
        assert(crate::column_writer::converts(conversions, target, values.values()[i], outs[i]));
        lemma_fits(conversions, target, values.values()[i], outs[i]);
        assert(crate::interning::interned_at(present, stand_in, column, lookup, i));
        let held = match crate::interning::lookup_position(lookup, position) {
            Some(led) => column[led as int],
            None => ValueOrRef::Null,
        };
        let value = if outs[i] is Null {
            null_out
        } else {
            outs[i]
        };
        assert(present[i] == crate::dictionary_values::non_null(outs[i]));
        if !(value is Null) {
            assert(crate::interning::interned(held, value));
            assert(!(held is Null));
        }
        assert(crate::scalar_laws::stands_for(held, value));
        assert(fits(conversions, target, values.values()[i], outs[i]));
        assert(fits(conversions, target, ValueOrRef::Null, null_out));
    }
}

/// Keys and values that are written for records hold, for each of them, what the column can hold for
/// its value.
pub proof fn lemma_keyed_column_holds_records<V: ValueConversions>(
    conversions: &V,
    target: ColumnTarget,
    dictionary: Dictionary,
    column: AdaptiveDictionary,
)
    requires
        crate::column_writer::adaptive(conversions, target, dictionary, column),
        dictionary.wf(),
    ensures
        keyed_holds(conversions, target, dictionary, column),
{
    let lookup = choose|lookup: crate::interning::IndexLookup| #[trigger]
        crate::column_writer::column_of(
            conversions,
            target,
            dictionary.values,
            column.values@,
            lookup,
        ) && column.keys.positions() == dictionary.keys.remapped(lookup);
    assert forall|record: int| 0 <= record < dictionary.rows().len() implies
        #[trigger] holds_for_record(
        conversions,
        target,
        dictionary,
        record,
        keyed_value(column, record),
    ) by {
        assert(column.keys.positions()[record] == dictionary.keys.remapped(lookup)[record]);
        if let Some(position) = dictionary.keys.position(record) {
            lemma_position_held(
                conversions,
                target,
                dictionary.values,
                column.values@,
                lookup,
                position,
            );
            assert(dictionary.values.value_at(position)
                == dictionary.values.values()[position as int]);
        }
    }
}

/// Values that are written for records, one for one, hold for each of them what the column can hold
/// for its value, where there are fewer values than records.
pub proof fn lemma_plain_column_holds_records<V: ValueConversions>(
    conversions: &V,
    target: ColumnTarget,
    dictionary: Dictionary,
    values: Seq<ValueOrRef>,
)
    requires
        crate::column_writer::plain(conversions, target, dictionary, values),
        dictionary.wf(),
    ensures
        plain_holds(conversions, target, dictionary, values),
{
    let (column, lookup) = choose|column: Seq<ValueOrRef>, lookup: crate::interning::IndexLookup|
        #[trigger] crate::column_writer::column_of(
            conversions,
            target,
            dictionary.values,
            column,
            lookup,
        ) && if column.len() == dictionary.keys.spec_len() {
            values == column
        } else {
            &&& values.len() == dictionary.keys.spec_len()
            &&& forall|i: int|
                0 <= i < values.len() ==> #[trigger] values[i] == (
                match dictionary.keys.remapped(lookup)[i] {
                    Some(position) => if position < column.len() {
                        column[position as int]
                    } else {
                        ValueOrRef::Null
                    },
                    None => ValueOrRef::Null,
                })
        };
    if dictionary.values.values().len() < dictionary.rows().len() {
        assert forall|record: int| 0 <= record < dictionary.rows().len() implies holds_for_record(
            conversions,
            target,
            dictionary,
            record,
            #[trigger] values[record],
        ) by {
            if dictionary.values.values().len() > 0 {
                lemma_position_held(
                    conversions,
                    target,
                    dictionary.values,
                    column,
                    lookup,
                    0,
                );
            } else {
                lemma_no_values(conversions, target, dictionary.values, column, lookup);
            }
            assert(column.len() != dictionary.keys.spec_len());
            if let Some(position) = dictionary.keys.position(record) {
                lemma_position_held(
                    conversions,
                    target,
                    dictionary.values,
                    column,
                    lookup,
                    position,
                );
                assert(dictionary.values.value_at(position)
                    == dictionary.values.values()[position as int]);
            }
        }
    }
}

proof fn lemma_no_values<V: ValueConversions>(
    conversions: &V,
    target: ColumnTarget,
    values: DictionaryValueArray,
    column: Seq<ValueOrRef>,
    lookup: crate::interning::IndexLookup,
)
    requires
        crate::column_writer::column_of(conversions, target, values, column, lookup),
    ensures
        column.len() <= values.values().len(),
{
}

/// The name of the column of the field at a place.
pub open spec fn column_at(place: int) -> Seq<char> {
    if place == 0 {
        "time_unix_nano"@
    } else if place == 1 {
        "observed_time_unix_nano"@
    } else if place == 2 {
        "severity_number"@
    } else if place == 3 {
        "severity_text"@
    } else if place == 4 {
        "trace_id"@
    } else if place == 5 {
        "span_id"@
    } else if place == 6 {
        "flags"@
    } else if place == 7 {
        "event_name"@
    } else {
        "body"@
    }
}

/// The columns by their names.
pub type Columns = Seq<(Seq<char>, LogColumn)>;

/// Whether a column is the first of its name.
pub open spec fn first_column(columns: Columns, name: Seq<char>, column: LogColumn) -> bool {
    exists|i: int| {
        &&& 0 <= i < columns.len()
        &&& #[trigger] columns[i] == (name, column)
        &&& forall|j: int| 0 <= j < i ==> (#[trigger] columns[j]).0 != name
    }
}

/// Whether there is no column of a name.
pub open spec fn no_column(columns: Columns, name: Seq<char>) -> bool {
    forall|i: int| 0 <= i < columns.len() ==> (#[trigger] columns[i]).0 != name
}

/// Whether the columns have the same first column of a name, or none of it.
pub open spec fn same_column(before: Columns, after: Columns, name: Seq<char>) -> bool {
    &&& no_column(before, name) == no_column(after, name)
    &&& forall|column: LogColumn|
        #[trigger] first_column(before, name, column) == first_column(after, name, column)
}

/// Whether no two columns have the name.
pub open spec fn one_column(columns: Columns, name: Seq<char>) -> bool {
    forall|i: int, j: int|
        0 <= i < columns.len() && 0 <= j < columns.len() && (#[trigger] columns[i]).0 == name && (
        #[trigger] columns[j]).0 == name ==> i == j
}

/// Whether the column of the field at a place holds what was written to the field, in the form that
/// the field asks for.
pub open spec fn field_held<C: ValueCodec, V: ValueConversions>(
    codec: &C,
    conversions: &V,
    place: int,
    written: Dictionary,
    column: LogColumn,
) -> bool {
    let nanoseconds = ColumnTarget::TimestampNanoseconds;
    if place == 0 || place == 1 {
        column matches LogColumn::Plain { target, values } && target == nanoseconds && plain_holds(
            conversions,
            nanoseconds,
            written,
            values@,
        )
    } else if place == 6 {
        column matches LogColumn::Plain { target, values } && target is UInt32 && plain_holds(
            conversions,
            ColumnTarget::UInt32,
            written,
            values@,
        )
    } else if place == 8 {
        column matches LogColumn::Bodies(bodies) && bodies@.len() == written.rows().len()
            && forall|i: int|
            0 <= i < bodies@.len() ==> body_holds(
                codec,
                conversions,
                written.rows()[i],
                #[trigger] bodies@[i],
            )
    } else {
        let wanted = if place == 2 {
            ColumnTarget::Int32
        } else if place == 4 {
            ColumnTarget::FixedSizeBinary { size: 16 }
        } else if place == 5 {
            ColumnTarget::FixedSizeBinary { size: 8 }
        } else {
            ColumnTarget::Text
        };
        column matches LogColumn::Keyed { target, column } && target == wanted && keyed_holds(
            conversions,
            wanted,
            written,
            column,
        )
    }
}

/// Whether a body is written as this cell: in the column of its kind, a point in time or a span as an
/// integer, a pattern as text, and a list or a map in serialized form.
pub open spec fn body_holds<C: ValueCodec, V: ValueConversions>(
    codec: &C,
    conversions: &V,
    value: ValueOrRef,
    cell: BodyCell,
) -> bool {
    match cell {
        BodyCell::Null => {
            ||| value is Null
            ||| value is DateTime && may_be_integer(conversions, value, None)
            ||| value is TimeSpan && may_be_integer(conversions, value, None)
            ||| (value is Array || value is MapValue) && may_be_packed(codec, value, None)
        },
        BodyCell::Text(text) => value == ValueOrRef::String(text) || value == ValueOrRef::Regex(
            text,
        ),
        BodyCell::Boolean(b) => value == ValueOrRef::Boolean(b),
        BodyCell::Double(bits) => value == ValueOrRef::Double(bits),
        BodyCell::Integer(n) => {
            ||| value == ValueOrRef::Integer(n)
            ||| (value is DateTime || value is TimeSpan) && may_be_integer(
                conversions,
                value,
                Some(n),
            )
        },
        BodyCell::Bytes(bytes) => value == ValueOrRef::Array(ArrayValueOrRef::Buffer(bytes)),
        BodyCell::Slice(bytes) => (value matches ValueOrRef::Array(array) && array is List)
            && may_be_packed(codec, value, Some(bytes)),
        BodyCell::MapValue(bytes) => value is MapValue && may_be_packed(codec, value, Some(bytes)),
    }
}

/// Whether a list or a map may have this serialized form, or none.
pub open spec fn may_be_packed<C: ValueCodec>(
    codec: &C,
    value: ValueOrRef,
    answer: Option<Vec<u8>>,
) -> bool {
    call_ensures(C::to_slice, (codec, &value), answer)
}

/// Whether the column of the field at a place is as it should be: what was written to the field, gone
/// if the field was removed, and else as it was. A column of bodies may be left out if there is none.
pub open spec fn column_so<C: ValueCodec, V: ValueConversions>(
    codec: &C,
    conversions: &V,
    place: int,
    cell: Option<OtapValue>,
    before: Columns,
    after: Columns,
) -> bool {
    let name = column_at(place);
    match cell {
        Some(OtapValue::Written(written)) => written.wf() ==> {
            ||| exists|column: LogColumn| #[trigger]
                first_column(after, name, column) && field_held(
                    codec,
                    conversions,
                    place,
                    written,
                    column,
                )
            ||| place == 8 && (one_column(before, name) ==> no_column(after, name))
        },
        Some(OtapValue::Removed) => one_column(before, name) ==> no_column(after, name),
        _ => same_column(before, after, name),
    }
}

proof fn lemma_named(columns: Columns, name: Seq<char>)
    ensures
        match crate::log_columns::column_named(columns, name) {
            Some(column) => first_column(columns, name, column) && !no_column(columns, name),
            None => no_column(columns, name),
        },
        forall|column: LogColumn|
            #[trigger] first_column(columns, name, column) ==> crate::log_columns::column_named(
                columns,
                name,
            ) == Some(column),
{
    lemma_first_place(columns, name, 0);
    if let Some(place) = crate::log_columns::place_from(columns, name, 0) {
        assert(columns[place] == (name, columns[place].1));
    }
    assert forall|column: LogColumn| #[trigger] first_column(columns, name, column) implies
        crate::log_columns::column_named(columns, name) == Some(column) by {
        let i = choose|i: int| {
            &&& 0 <= i < columns.len()
            &&& #[trigger] columns[i] == (name, column)
            &&& forall|j: int| 0 <= j < i ==> (#[trigger] columns[j]).0 != name
        };
        match crate::log_columns::place_from(columns, name, 0) {
            Some(place) => {
                if place < i {
                    assert(columns[place].0 != name);
                }
                if i < place {
                    assert(columns[i].0 != name);
                }
            },
            None => {
                assert(columns[i].0 != name);
            },
        }
    }
}

proof fn lemma_first_place(columns: Columns, name: Seq<char>, from: int)
    requires
        0 <= from,
    ensures
        match crate::log_columns::place_from(columns, name, from) {
            Some(place) => {
                &&& from <= place < columns.len()
                &&& columns[place].0 == name
                &&& forall|i: int| from <= i < place ==> (#[trigger] columns[i]).0 != name
            },
            None => forall|i: int| from <= i < columns.len() ==> (#[trigger] columns[i]).0 != name,
        },
    decreases columns.len() - from,
{
    if from < columns.len() && columns[from].0 != name {
        lemma_first_place(columns, name, from + 1);
    }
}

proof fn lemma_other_changed(columns: Columns, name: Seq<char>, change: ColumnChange, other: Seq<char>)
    requires
        other != name,
    ensures
        crate::log_columns::column_named(
            crate::log_columns::changed(columns, name, change),
            other,
        ) == crate::log_columns::column_named(columns, other),
        one_column(columns, other) ==> one_column(
            crate::log_columns::changed(columns, name, change),
            other,
        ),
{
    lemma_first_place(columns, name, 0);
    let after = crate::log_columns::changed(columns, name, change);
    match change {
        ColumnChange::Unchanged => {},
        ColumnChange::Removed => {
            crate::log_columns::lemma_without_column(columns, name, other);
            if let Some(place) = crate::log_columns::place_from(columns, name, 0) {
                assert forall|i: int, j: int|
                    one_column(columns, other) && 0 <= i < after.len() && 0 <= j < after.len() && (
                    #[trigger] after[i]).0 == other && (#[trigger] after[j]).0 == other implies i
                    == j by {
                    let k: int = if i < place {
                        i
                    } else {
                        i + 1
                    };
                    let l: int = if j < place {
                        j
                    } else {
                        j + 1
                    };
                    assert(after[i] == columns[k] && after[j] == columns[l]);
                }
            }
        },
        ColumnChange::Written { column, .. } => {
            crate::log_columns::lemma_with_column(columns, name, column, other);
            assert forall|i: int, j: int|
                one_column(columns, other) && 0 <= i < after.len() && 0 <= j < after.len() && (
                #[trigger] after[i]).0 == other && (#[trigger] after[j]).0 == other implies i
                == j by {
                assert(after[i] == columns[i] && after[j] == columns[j]);
            }
        },
    }
}

proof fn lemma_others_changed(
    columns: Columns,
    changes: Seq<ColumnChange>,
    from: int,
    to: int,
    other: Seq<char>,
)
    requires
        0 <= from <= to,
        forall|j: int|
            from <= j < to ==> (#[trigger] crate::log_columns::field_at(j)).column_name() != other,
    ensures
        crate::log_columns::column_named(
            crate::log_columns::columns_after(columns, changes, to),
            other,
        ) == crate::log_columns::column_named(
            crate::log_columns::columns_after(columns, changes, from),
            other,
        ),
        one_column(crate::log_columns::columns_after(columns, changes, from), other)
            ==> one_column(crate::log_columns::columns_after(columns, changes, to), other),
    decreases to - from,
{
    if from < to {
        lemma_others_changed(columns, changes, from, to - 1, other);
        lemma_other_changed(
            crate::log_columns::columns_after(columns, changes, to - 1),
            crate::log_columns::field_at(to - 1).column_name(),
            changes[to - 1],
            other,
        );
    }
}

proof fn lemma_removed(columns: Columns, name: Seq<char>)
    requires
        one_column(columns, name),
    ensures
        no_column(crate::log_columns::without_column(columns, name), name),
{
    lemma_first_place(columns, name, 0);
    if let Some(place) = crate::log_columns::place_from(columns, name, 0) {
        let after = crate::log_columns::without_column(columns, name);
        assert forall|i: int| 0 <= i < after.len() implies (#[trigger] after[i]).0 != name by {
            let k: int = if i < place {
                i
            } else {
                i + 1
            };
            assert(after[i] == columns[k]);
            if columns[k].0 == name {
                assert(k == place);
            }
        }
    }
}

/// The columns of the fields have the names of the fields, and no two the same.
pub proof fn lemma_columns_apart()
    ensures
        forall|place: int|
            0 <= place < 9 ==> (#[trigger] crate::log_columns::field_at(place)).column_name()
                == column_at(place) && crate::log_columns::field_at(place).place() == place,
        forall|left: int, right: int|
            0 <= left < 9 && 0 <= right < 9 && left != right ==> #[trigger] column_at(left)
                != #[trigger] column_at(right),
{
    reveal_strlit("time_unix_nano");
    reveal_strlit("observed_time_unix_nano");
    reveal_strlit("severity_number");
    reveal_strlit("severity_text");
    reveal_strlit("trace_id");
    reveal_strlit("span_id");
    reveal_strlit("flags");
    reveal_strlit("event_name");
    reveal_strlit("body");
    assert("time_unix_nano"@.len() == 14);
    assert("observed_time_unix_nano"@.len() == 23);
    assert("severity_number"@.len() == 15);
    assert("severity_text"@.len() == 13);
    assert("trace_id"@.len() == 8);
    assert("span_id"@.len() == 7);
    assert("flags"@.len() == 5);
    assert("event_name"@.len() == 10);
    assert("body"@.len() == 4);
    crate::log_columns::lemma_field_at(crate::log_schema::OtapLogRecordField::TimeUnixNano);
    crate::log_columns::lemma_field_at(crate::log_schema::OtapLogRecordField::ObservedTimeUnixNano);
    crate::log_columns::lemma_field_at(crate::log_schema::OtapLogRecordField::SeverityNumber);
    crate::log_columns::lemma_field_at(crate::log_schema::OtapLogRecordField::SeverityText);
    crate::log_columns::lemma_field_at(crate::log_schema::OtapLogRecordField::TraceId);
    crate::log_columns::lemma_field_at(crate::log_schema::OtapLogRecordField::SpanId);
    crate::log_columns::lemma_field_at(crate::log_schema::OtapLogRecordField::Flags);
    crate::log_columns::lemma_field_at(crate::log_schema::OtapLogRecordField::EventName);
    crate::log_columns::lemma_field_at(crate::log_schema::OtapLogRecordField::Body);
    assert forall|place: int| 0 <= place < 9 implies (
    #[trigger] crate::log_columns::field_at(place)).column_name() == column_at(place)
        && crate::log_columns::field_at(place).place() == place by {
        assert(place == 0 || place == 1 || place == 2 || place == 3 || place == 4 || place == 5
            || place == 6 || place == 7 || place == 8);
    }
}

proof fn lemma_body_holds<C: ValueCodec, V: ValueConversions>(
    codec: &C,
    conversions: &V,
    value: ValueOrRef,
    cell: BodyCell,
)
    requires
        crate::column_writer::body_cell(codec, conversions, value, cell),
    ensures
        body_holds(codec, conversions, value, cell),
{
    match value {
        ValueOrRef::DateTime(_) => {
            let answer = choose|answer: Option<i64>|
                #[trigger] crate::column_writer::to_integer(conversions, value, answer)
                    && match answer {
                    Some(n) => cell == BodyCell::Integer(n),
                    None => cell is Null,
                };
            assert(may_be_integer(conversions, value, answer));
        },
        ValueOrRef::TimeSpan(_) => {
            let answer = choose|answer: Option<i64>|
                #[trigger] crate::column_writer::to_integer(conversions, value, answer)
                    && match answer {
                    Some(n) => cell == BodyCell::Integer(n),
                    None => cell is Null,
                };
            assert(may_be_integer(conversions, value, answer));
        },
        ValueOrRef::Array(ArrayValueOrRef::List(_, _)) => {
            let answer = choose|answer: Option<Vec<u8>>|
                #[trigger] call_ensures(C::to_slice, (codec, &value), answer) && match answer {
                    Some(bytes) => cell == BodyCell::Slice(bytes),
                    None => cell is Null,
                };
            assert(may_be_packed(codec, value, answer));
        },
        ValueOrRef::MapValue(_) => {
            let answer = choose|answer: Option<Vec<u8>>|
                #[trigger] call_ensures(C::to_slice, (codec, &value), answer) && match answer {
                    Some(bytes) => cell == BodyCell::MapValue(bytes),
                    None => cell is Null,
                };
            assert(may_be_packed(codec, value, answer));
        },
        _ => {},
    }
}

proof fn lemma_field_held<C: ValueCodec, V: ValueConversions, B: BodyColumns>(
    codec: &C,
    conversions: &V,
    builder: &B,
    place: int,
    written: Dictionary,
    change: ColumnChange,
)
    requires
        0 <= place < 9,
        written.wf(),
        crate::log_columns::column_written(
            codec,
            conversions,
            builder,
            crate::log_columns::field_at(place),
            written,
            change,
        ),
    ensures
        match change {
            ColumnChange::Written { column, .. } => field_held(
                codec,
                conversions,
                place,
                written,
                column,
            ),
            ColumnChange::Removed => place == 8,
            ColumnChange::Unchanged => false,
        },
{
    lemma_columns_apart();
    let field = crate::log_columns::field_at(place);
    assert(field.place() == place);
    match field.layout() {
        crate::column_writer::ColumnLayout::Plain(wanted) => {
            let column = change->Written_column;
            lemma_plain_column_holds_records(conversions, wanted, written, column->values@);
        },
        crate::column_writer::ColumnLayout::Keyed(wanted) => {
            if let ColumnChange::Written { column: LogColumn::Keyed { column, .. }, .. } = change {
                lemma_keyed_column_holds_records(conversions, wanted, written, column);
            }
        },
        crate::column_writer::ColumnLayout::Body => {
            if let ColumnChange::Written { column: LogColumn::Bodies(bodies), .. } = change {
                assert forall|i: int| 0 <= i < bodies@.len() implies body_holds(
                    codec,
                    conversions,
                    written.rows()[i],
                    #[trigger] bodies@[i],
                ) by {
                    lemma_body_holds(codec, conversions, written.rows()[i], bodies@[i]);
                }
            }
        },
    }
}

/// Each field that was written or removed is so in the column of its own name, in the form that the
/// column has, and all other columns are as they were.
pub proof fn lemma_fields_reach_their_columns<C: ValueCodec, V: ValueConversions, B: BodyColumns>(
    codec: &C,
    conversions: &V,
    builder: &B,
    expression: ExpressionInfo,
    cells: Seq<Option<OtapValue>>,
    before: Columns,
    after: Columns,
    notes: Seq<ColumnarEngineDiagnostic>,
)
    requires
        crate::log_columns::fields_applied(
            codec,
            conversions,
            builder,
            expression,
            cells,
            before,
            after,
            notes,
        ),
    ensures
        forall|place: int|
            0 <= place < 9 ==> #[trigger] column_so(
                codec,
                conversions,
                place,
                cells[place],
                before,
                after,
            ),
        forall|name: Seq<char>|
            (forall|place: int| 0 <= place < 9 ==> #[trigger] column_at(place) != name)
                ==> #[trigger] same_column(before, after, name),
{
    let changes = choose|changes: Seq<ColumnChange>| #[trigger]
        crate::log_columns::fields_changed(codec, conversions, builder, cells, changes) && after
            == crate::log_columns::columns_after(before, changes, 9);
    lemma_columns_apart();
    assert forall|place: int| 0 <= place < 9 implies #[trigger] column_so(
        codec,
        conversions,
        place,
        cells[place],
        before,
        after,
    ) by {
        let name = column_at(place);
        let field = crate::log_columns::field_at(place);
        let change = changes[place];
        let here = crate::log_columns::columns_after(before, changes, place);
        let next = crate::log_columns::columns_after(before, changes, place + 1);
        assert forall|j: int| 0 <= j < 9 && j != place implies (
        #[trigger] crate::log_columns::field_at(j)).column_name() != name by {
            assert(column_at(j) != column_at(place));
        }
        lemma_others_changed(before, changes, 0, place, name);
        lemma_others_changed(before, changes, place + 1, 9, name);
        assert(crate::log_columns::column_changed(
            codec,
            conversions,
            builder,
            field,
            cells[place],
            change,
        ));
        assert(next == crate::log_columns::changed(here, name, change));
        lemma_named(before, name);
        lemma_named(after, name);
        lemma_named(next, name);
        if change is Removed && one_column(before, name) {
            lemma_removed(here, name);
        }
        if let Some(OtapValue::Written(written)) = cells[place] {
            if written.wf() {
                lemma_field_held(codec, conversions, builder, place, written, change);
                if let ColumnChange::Written { column, .. } = change {
                    crate::log_columns::lemma_with_column(here, name, column, name);
                    assert(first_column(after, name, column));
                }
            }
        }
    }
    assert forall|name: Seq<char>|
        (forall|place: int| 0 <= place < 9 ==> #[trigger] column_at(place) != name) implies
        #[trigger] same_column(before, after, name) by {
        assert forall|j: int| 0 <= j < 9 implies (
        #[trigger] crate::log_columns::field_at(j)).column_name() != name by {
            assert(column_at(j) != name);
        }
        lemma_others_changed(before, changes, 0, 9, name);
        lemma_named(before, name);
        lemma_named(after, name);
    }
}

/// Whether the ids of the records, and what becomes of their attributes, are as they should be: as they
/// were unless the attributes were modified; then the ids that the attributes are written out with, or
/// none if no attribute is left.
pub open spec fn ids_so<C: ValueCodec>(
    codec: &C,
    record_count: nat,
    attributes: Option<OtapAttributes>,
    before: Columns,
    after: Columns,
    change: AttributesChange,
) -> bool {
    if attributes is Some && attributes->0.modified {
        match change {
            AttributesChange::Written(written) => exists|ids: Vec<Option<u16>>| #[trigger]
                crate::log_columns::attributes_written(
                    codec,
                    record_count,
                    attributes->0.values,
                    attributes->0.batch,
                    ids@,
                    written,
                ) && first_column(after, "id"@, LogColumn::Ids(ids)),
            AttributesChange::Removed => one_column(before, "id"@) ==> no_column(after, "id"@),
            AttributesChange::Unchanged => false,
        }
    } else {
        change is Unchanged && same_column(before, after, "id"@)
    }
}

/// Writing records back leaves each field that was written or removed so in the column of its own name,
/// the ids of the records as their attributes ask for, and all other columns as they were.
pub proof fn lemma_records_reach_their_columns<
    C: ValueCodec,
    V: ValueConversions,
    B: BodyColumns,
>(
    codec: &C,
    conversions: &V,
    builder: &B,
    expression: ExpressionInfo,
    record_count: nat,
    cells: Seq<Option<OtapValue>>,
    attributes: Option<OtapAttributes>,
    before: Columns,
    after: Columns,
    change: AttributesChange,
    notes: Seq<ColumnarEngineDiagnostic>,
    steps: crate::log_columns::ApplySteps,
)
    requires
        crate::log_columns::applied(
            codec,
            conversions,
            builder,
            expression,
            record_count,
            cells,
            attributes,
            before,
            after,
            change,
            notes,
            steps,
        ),
    ensures
        forall|place: int|
            0 <= place < 9 ==> #[trigger] column_so(
                codec,
                conversions,
                place,
                cells[place],
                before,
                after,
            ),
        ids_so(codec, record_count, attributes, before, after, change),
        forall|name: Seq<char>|
            name != "id"@ && (forall|place: int|
                0 <= place < 9 ==> #[trigger] column_at(place) != name)
                ==> #[trigger] same_column(before, after, name),
{
    let between = steps.between;
    lemma_fields_reach_their_columns(
        codec,
        conversions,
        builder,
        expression,
        cells,
        before,
        between,
        steps.first,
    );
    lemma_columns_apart();
    reveal_strlit("id");
    assert("id"@.len() == 2);
    lemma_lengths();
    assert forall|name: Seq<char>| name != "id"@ implies #[trigger] same_column(
        between,
        after,
        name,
    ) by {
        lemma_ids_alone(
            codec,
            expression,
            record_count,
            attributes,
            between,
            after,
            change,
            steps.second,
            name,
        );
    }
    assert forall|place: int| 0 <= place < 9 implies #[trigger] column_so(
        codec,
        conversions,
        place,
        cells[place],
        before,
        after,
    ) by {
        let name = column_at(place);
        assert(column_so(codec, conversions, place, cells[place], before, between));
        assert(same_column(between, after, name));
        if let Some(OtapValue::Written(written)) = cells[place] {
            if written.wf() && exists|column: LogColumn| #[trigger]
                first_column(between, name, column) && field_held(
                    codec,
                    conversions,
                    place,
                    written,
                    column,
                ) {
                let column = choose|column: LogColumn| #[trigger]
                    first_column(between, name, column) && field_held(
                        codec,
                        conversions,
                        place,
                        written,
                        column,
                    );
                assert(first_column(after, name, column));
            }
        }
    }
    assert forall|name: Seq<char>|
        name != "id"@ && (forall|place: int| 0 <= place < 9 ==> #[trigger] column_at(place) != name) implies
        #[trigger] same_column(before, after, name) by {
        assert(same_column(before, between, name));
        assert(same_column(between, after, name));
        assert forall|column: LogColumn| #[trigger] first_column(before, name, column)
            == first_column(after, name, column) by {
            assert(first_column(before, name, column) == first_column(between, name, column));
        }
    }
    assert(same_column(before, between, "id"@)) by {
        assert(forall|place: int| 0 <= place < 9 ==> #[trigger] column_at(place) != "id"@);
    }
    lemma_named(between, "id"@);
    lemma_named(after, "id"@);
    lemma_ids_kept_single(before, between, codec, conversions, builder, expression, cells, steps.first);
    if let Some(known) = attributes {
        if known.modified {
            match change {
                AttributesChange::Written(written) => {
                    let ids = choose|ids: Vec<Option<u16>>| #[trigger]
                        crate::log_columns::attributes_written(
                            codec,
                            record_count,
                            known.values,
                            known.batch,
                            ids@,
                            written,
                        ) && after == crate::log_columns::with_column(
                            between,
                            "id"@,
                            LogColumn::Ids(ids),
                        );
                    crate::log_columns::lemma_with_column(
                        between,
                        "id"@,
                        LogColumn::Ids(ids),
                        "id"@,
                    );
                    assert(first_column(after, "id"@, LogColumn::Ids(ids)));
                },
                AttributesChange::Removed => {
                    if one_column(before, "id"@) {
                        lemma_removed(between, "id"@);
                    }
                },
                AttributesChange::Unchanged => {},
            }
        }
    }
}

proof fn lemma_lengths()
    ensures
        forall|place: int| 0 <= place < 9 ==> (#[trigger] column_at(place)).len() != 2,
{
    reveal_strlit("time_unix_nano");
    reveal_strlit("observed_time_unix_nano");
    reveal_strlit("severity_number");
    reveal_strlit("severity_text");
    reveal_strlit("trace_id");
    reveal_strlit("span_id");
    reveal_strlit("flags");
    reveal_strlit("event_name");
    reveal_strlit("body");
}

proof fn lemma_ids_alone<C: ValueCodec>(
    codec: &C,
    expression: ExpressionInfo,
    record_count: nat,
    attributes: Option<OtapAttributes>,
    before: Columns,
    after: Columns,
    change: AttributesChange,
    notes: Seq<ColumnarEngineDiagnostic>,
    name: Seq<char>,
)
    requires
        crate::log_columns::attributes_applied(
            codec,
            expression,
            record_count,
            attributes,
            before,
            after,
            change,
            notes,
        ),
        name != "id"@,
    ensures
        same_column(before, after, name),
{
    lemma_named(before, name);
    lemma_named(after, name);
    if attributes is Some && attributes->0.modified {
        if let AttributesChange::Written(written) = change {
            let ids = choose|ids: Vec<Option<u16>>| #[trigger]
                crate::log_columns::attributes_written(
                    codec,
                    record_count,
                    attributes->0.values,
                    attributes->0.batch,
                    ids@,
                    written,
                ) && after == crate::log_columns::with_column(before, "id"@, LogColumn::Ids(ids));
            crate::log_columns::lemma_with_column(before, "id"@, LogColumn::Ids(ids), name);
        } else {
            crate::log_columns::lemma_without_column(before, "id"@, name);
        }
    }
}

proof fn lemma_ids_kept_single<C: ValueCodec, V: ValueConversions, B: BodyColumns>(
    before: Columns,
    after: Columns,
    codec: &C,
    conversions: &V,
    builder: &B,
    expression: ExpressionInfo,
    cells: Seq<Option<OtapValue>>,
    notes: Seq<ColumnarEngineDiagnostic>,
)
    requires
        crate::log_columns::fields_applied(
            codec,
            conversions,
            builder,
            expression,
            cells,
            before,
            after,
            notes,
        ),
    ensures
        one_column(before, "id"@) ==> one_column(after, "id"@),
{
    let changes = choose|changes: Seq<ColumnChange>| #[trigger]
        crate::log_columns::fields_changed(codec, conversions, builder, cells, changes) && after
            == crate::log_columns::columns_after(before, changes, 9);
    lemma_columns_apart();
    lemma_lengths();
    reveal_strlit("id");
    assert("id"@.len() == 2);
    assert forall|j: int| 0 <= j < 9 implies (#[trigger] crate::log_columns::field_at(
        j,
    )).column_name() != "id"@ by {
        assert(column_at(j).len() != 2);
    }
    lemma_others_changed(before, changes, 0, 9, "id"@);
}

}
