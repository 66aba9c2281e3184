//! Writing the values of records out as columns.

use std::rc::Rc;

use vstd::prelude::*;

use crate::attribute_columns::ValueCodec;
use crate::column_array::{ColumnArray, TimeUnit};
use crate::dictionary::Dictionary;
use crate::dictionary_keys::{DictionaryKeyArray, KeyDataType};
use crate::dictionary_values::DictionaryValueArray;
use crate::interning::{apply_lookup, iter_into_set, IndexLookup};
use crate::log_schema::OtapLogRecordField;
use crate::value::{ArrayValueOrRef, ValueOrRef};

verus! {

/// What a column holds.
#[derive(Debug, Clone, Copy, PartialEq, Eq, Structural)]
pub enum ColumnTarget {
    Text,
    Int32,
    UInt32,
    TimestampNanoseconds,
    FixedSizeBinary { size: usize },
}

/// How a column is laid out.
#[derive(Debug, Clone, Copy, PartialEq, Eq, Structural)]
pub enum ColumnLayout {
    /// A value for each record.
    Plain(ColumnTarget),
    /// A key for each record, and the values that the keys lead to.
    Keyed(ColumnTarget),
    /// A kind for each record, and a column for each kind.
    Body,
}

/// The conversions of the query language.
pub trait ValueConversions {
    fn convert_to_string(&self, value: &ValueOrRef) -> String;

    fn convert_to_integer(&self, value: &ValueOrRef) -> Option<i64>;

    /// The nanoseconds since the epoch of what the value is as a point in time.
    fn convert_to_nanoseconds(&self, value: &ValueOrRef) -> Option<i64>;
}

impl OtapLogRecordField {
    /// How the column of the field is laid out.
    pub open spec fn layout(self) -> ColumnLayout {
        match self {
            OtapLogRecordField::TimeUnixNano => ColumnLayout::Plain(
                ColumnTarget::TimestampNanoseconds,
            ),
            OtapLogRecordField::ObservedTimeUnixNano => ColumnLayout::Plain(
                ColumnTarget::TimestampNanoseconds,
            ),
            OtapLogRecordField::SeverityNumber => ColumnLayout::Keyed(ColumnTarget::Int32),
            OtapLogRecordField::SeverityText => ColumnLayout::Keyed(ColumnTarget::Text),
            OtapLogRecordField::TraceId => ColumnLayout::Keyed(
                ColumnTarget::FixedSizeBinary { size: 16 },
            ),
            OtapLogRecordField::SpanId => ColumnLayout::Keyed(
                ColumnTarget::FixedSizeBinary { size: 8 },
            ),
            OtapLogRecordField::Flags => ColumnLayout::Plain(ColumnTarget::UInt32),
            OtapLogRecordField::EventName => ColumnLayout::Keyed(ColumnTarget::Text),
            OtapLogRecordField::Body => ColumnLayout::Body,
        }
    }

    /// The name of the column of the field, and how it is laid out.
    pub fn get_column_name_and_transform(&self) -> (r: (&'static str, ColumnLayout))
        ensures
            r.0@ == self.column_name(),
            r.1 == self.layout(),
    {
        let layout: ColumnLayout = match self {
            OtapLogRecordField::TimeUnixNano => ColumnLayout::Plain(
                ColumnTarget::TimestampNanoseconds,
            ),
            OtapLogRecordField::ObservedTimeUnixNano => ColumnLayout::Plain(
                ColumnTarget::TimestampNanoseconds,
            ),
            OtapLogRecordField::SeverityNumber => ColumnLayout::Keyed(ColumnTarget::Int32),
            OtapLogRecordField::SeverityText => ColumnLayout::Keyed(ColumnTarget::Text),
            OtapLogRecordField::TraceId => ColumnLayout::Keyed(
                ColumnTarget::FixedSizeBinary { size: 16 },
            ),
            OtapLogRecordField::SpanId => ColumnLayout::Keyed(
                ColumnTarget::FixedSizeBinary { size: 8 },
            ),
            OtapLogRecordField::Flags => ColumnLayout::Plain(ColumnTarget::UInt32),
            OtapLogRecordField::EventName => ColumnLayout::Keyed(ColumnTarget::Text),
            OtapLogRecordField::Body => ColumnLayout::Body,
        };
        (self.get_column_name(), layout)
    }
}

/// Whether an integer is in a range, or null if it is not.
pub open spec fn in_range(answer: Option<i64>, least: int, most: int, out: ValueOrRef) -> bool {
    match answer {
        Some(n) => if least <= n <= most {
            out == ValueOrRef::Integer(n)
        } else {
            out is Null
        },
        None => out is Null,
    }
}

/// Whether the value may convert to the integer.
pub open spec fn to_integer<V: ValueConversions>(
    conversions: &V,
    value: ValueOrRef,
    answer: Option<i64>,
) -> bool {
    call_ensures(V::convert_to_integer, (conversions, &value), answer)
}

/// Whether the items may each convert to the byte at its place.
pub open spec fn to_bytes<V: ValueConversions>(
    conversions: &V,
    items: Seq<ValueOrRef>,
    bytes: Seq<u8>,
) -> bool {
    &&& bytes.len() == items.len()
    &&& forall|i: int|
        0 <= i < items.len() ==> to_integer(
            conversions,
            items[i],
            Some(#[trigger] bytes[i] as i64),
        )
}

/// Whether some item may convert to no byte.
pub open spec fn not_bytes<V: ValueConversions>(conversions: &V, items: Seq<ValueOrRef>) -> bool {
    exists|i: int, answer: Option<i64>|
        0 <= i < items.len() && #[trigger] to_integer(conversions, items[i], answer) && !(
        answer matches Some(n) && 0 <= n <= 0xFF)
}

/// Whether `out` is what a column holds for a value; null if it cannot hold it.
///
/// A sequence of bytes is held if it has the right length; a list of values if it has, and each of
/// them converts to a byte.
pub open spec fn converts<V: ValueConversions>(
    conversions: &V,
    target: ColumnTarget,
    value: ValueOrRef,
    out: ValueOrRef,
) -> bool {
    match target {
        ColumnTarget::Text => exists|text: String|
            #[trigger] call_ensures(V::convert_to_string, (conversions, &value), text)
                && crate::log_updates::text_of(out) == Some(text@),
        ColumnTarget::Int32 => exists|answer: Option<i64>|
            #[trigger] to_integer(conversions, value, answer) && in_range(
                answer,
                i32::MIN as int,
                i32::MAX as int,
                out,
            ),
        ColumnTarget::UInt32 => exists|answer: Option<i64>|
            #[trigger] to_integer(conversions, value, answer) && in_range(
                answer,
                0,
                u32::MAX as int,
                out,
            ),
        ColumnTarget::TimestampNanoseconds => exists|answer: Option<i64>|
            #[trigger] call_ensures(V::convert_to_nanoseconds, (conversions, &value), answer)
                && in_range(answer, i64::MIN as int, i64::MAX as int, out),
        ColumnTarget::FixedSizeBinary { size } => match value {
            ValueOrRef::Array(ArrayValueOrRef::Buffer(bytes)) => if bytes@.len() == size {
                out == value
            } else {
                out is Null
            },
            ValueOrRef::Array(ArrayValueOrRef::List(_, items)) => if items@.len() == size {
                ||| crate::attribute_columns::value_bytes(out) matches Some(bytes) && to_bytes(
                    conversions,
                    items@,
                    bytes@,
                )
                ||| out is Null && not_bytes(conversions, items@)
            } else {
                out is Null
            },
            _ => out is Null,
        },
    }
}

/// The items as bytes, if each converts to one.
fn items_to_bytes<V: ValueConversions>(conversions: &V, items: &Vec<ValueOrRef>) -> (r: Option<
    Vec<u8>,
>)
    ensures
        match r {
            Some(bytes) => to_bytes(conversions, items@, bytes@),
            None => not_bytes(conversions, items@),
        },
{
    let mut bytes: Vec<u8> = Vec::new();
    let mut i: usize = 0;
    while i < items.len()
        invariant
            i <= items@.len(),
            bytes@.len() == i,
            forall|j: int|
                0 <= j < i ==> to_integer(
                    conversions,
                    items@[j],
                    Some(#[trigger] bytes@[j] as i64),
                ),
        decreases items@.len() - i,
    {
        let answer: Option<i64> = conversions.convert_to_integer(&items[i]);
        assert(to_integer(conversions, items@[i as int], answer));
        match answer {
            Some(n) => {
                if n < 0 || n > 0xFF {
                    return None;
                }
                bytes.push(n as u8);
            },
            None => {
                return None;
            },
        }
        i = i + 1;
    }
    Some(bytes)
}

/// An integer, unless it is out of range.
fn integer_in_range(answer: Option<i64>, least: i64, most: i64) -> (out: ValueOrRef)
    ensures
        in_range(answer, least as int, most as int, out),
{
    match answer {
        Some(n) => if least <= n && n <= most {
            ValueOrRef::Integer(n)
        } else {
            ValueOrRef::Null
        },
        None => ValueOrRef::Null,
    }
}

/// What a column holds for a value.
pub fn convert<V: ValueConversions>(
    conversions: &V,
    target: ColumnTarget,
    value: &ValueOrRef,
) -> (out: ValueOrRef)
    ensures
        converts(conversions, target, *value, out),
{
    match target {
        ColumnTarget::Text => {
            let text: String = conversions.convert_to_string(value);
            assert(call_ensures(V::convert_to_string, (conversions, value), text));
            ValueOrRef::String(Rc::new(text))
        },
        ColumnTarget::Int32 => {
            let answer: Option<i64> = conversions.convert_to_integer(value);
            assert(to_integer(conversions, *value, answer));
            integer_in_range(answer, i32::MIN as i64, i32::MAX as i64)
        },
        ColumnTarget::UInt32 => {
            let answer: Option<i64> = conversions.convert_to_integer(value);
            assert(to_integer(conversions, *value, answer));
            integer_in_range(answer, 0, u32::MAX as i64)
        },
        ColumnTarget::TimestampNanoseconds => {
            let answer: Option<i64> = conversions.convert_to_nanoseconds(value);
            assert(call_ensures(V::convert_to_nanoseconds, (conversions, value), answer));
            integer_in_range(answer, i64::MIN, i64::MAX)
        },
        ColumnTarget::FixedSizeBinary { size } => match value {
            ValueOrRef::Array(ArrayValueOrRef::Buffer(bytes)) => if bytes.len() == size {
                value.clone()
            } else {
                ValueOrRef::Null
            },
            ValueOrRef::Array(ArrayValueOrRef::List(_, items)) => if items.len() == size {
                match items_to_bytes(conversions, items) {
                    Some(bytes) => ValueOrRef::Array(ArrayValueOrRef::Buffer(Rc::new(bytes))),
                    None => ValueOrRef::Null,
                }
            } else {
                ValueOrRef::Null
            },
            _ => ValueOrRef::Null,
        },
    }
}

/// Whether a column holds what is asked for already.
pub open spec fn accepts(target: ColumnTarget, column: ColumnArray) -> bool {
    match (target, column) {
        (ColumnTarget::Text, ColumnArray::Utf8(_)) => true,
        (ColumnTarget::Int32, ColumnArray::Int32(_)) => true,
        (ColumnTarget::UInt32, ColumnArray::UInt32(_)) => true,
        (ColumnTarget::TimestampNanoseconds, ColumnArray::Timestamp(column)) => column.spec_unit()
            == TimeUnit::Nanosecond,
        (
            ColumnTarget::FixedSizeBinary { size },
            ColumnArray::FixedSizeBinary { size: held, .. },
        ) => size == held,
        _ => false,
    }
}

/// Whether a column holds what is asked for already.
fn is_accepted(target: ColumnTarget, column: &ColumnArray) -> (r: bool)
    ensures
        r == accepts(target, *column),
{
    match (target, column) {
        (ColumnTarget::Text, ColumnArray::Utf8(_)) => true,
        (ColumnTarget::Int32, ColumnArray::Int32(_)) => true,
        (ColumnTarget::UInt32, ColumnArray::UInt32(_)) => true,
        (ColumnTarget::TimestampNanoseconds, ColumnArray::Timestamp(column)) => column.unit()
            == TimeUnit::Nanosecond,
        (
            ColumnTarget::FixedSizeBinary { size },
            ColumnArray::FixedSizeBinary { size: held, .. },
        ) => size == *held,
        _ => false,
    }
}

/// Whether `outs` is what a column holds for the values, and `null_out` what it holds for null.
pub open spec fn all_convert<V: ValueConversions>(
    conversions: &V,
    target: ColumnTarget,
    values: Seq<ValueOrRef>,
    outs: Seq<ValueOrRef>,
    null_out: ValueOrRef,
) -> bool {
    &&& outs.len() == values.len()
    &&& converts(conversions, target, ValueOrRef::Null, null_out)
    &&& forall|i: int|
        0 <= i < values.len() ==> converts(conversions, target, values[i], #[trigger] outs[i])
}

/// The values, null left out.
pub open spec fn present_values(outs: Seq<ValueOrRef>) -> Seq<Option<ValueOrRef>> {
    Seq::new(outs.len(), |i: int| crate::dictionary_values::non_null(outs[i]))
}

/// Whether `column` and `lookup` are what the values are written out as: the values themselves if
/// they are held in the right form already, else each distinct converted value once.
pub open spec fn column_of<V: ValueConversions>(
    conversions: &V,
    target: ColumnTarget,
    values: DictionaryValueArray,
    column: Seq<ValueOrRef>,
    lookup: IndexLookup,
) -> bool {
    if values matches DictionaryValueArray::Array(held) && accepts(target, *held) {
        column == values.values() && lookup is None
    } else {
        exists|outs: Seq<ValueOrRef>, null_out: ValueOrRef| #[trigger]
            all_convert(conversions, target, values.values(), outs, null_out)
                && crate::interning::interning(
                present_values(outs),
                crate::dictionary_values::non_null(null_out),
                column,
                lookup,
            )
    }
}

/// Writes the values out as a column, with a lookup that leads to where each value has gone.
pub fn transform_into_array<V: ValueConversions>(
    conversions: &V,
    target: ColumnTarget,
    values: &DictionaryValueArray,
) -> (r: (Vec<ValueOrRef>, IndexLookup))
    ensures
        column_of(conversions, target, *values, r.0@, r.1),
{
    let count: usize = values.len();
    if let DictionaryValueArray::Array(held) = values {
        if is_accepted(target, held) {
            let mut column: Vec<ValueOrRef> = Vec::new();
            let mut i: usize = 0;
            while i < count
                invariant
                    i <= count,
                    count == values.values().len(),
                    !(values is Boolean),
                    column@ == values.values().subrange(0, i as int),
                decreases count - i,
            {
                column.push(values.get_value_at(i));
                i = i + 1;
                proof {
                    assert(values.values().subrange(0, i as int) =~= values.values().subrange(
                        0,
                        i - 1,
                    ).push(values.values()[i - 1]));
                }
            }
            proof {
                assert(values.values().subrange(0, i as int) =~= values.values());
            }
            return (column, None);
        }
    }
    let null_out = convert(conversions, target, &ValueOrRef::Null);
    let ghost given_null = null_out;
    let ghost mut outs: Seq<ValueOrRef> = Seq::empty();
    let mut options: Vec<Option<ValueOrRef>> = Vec::new();
    let mut i: usize = 0;
    while i < count
        invariant
            i <= count,
            count == values.values().len(),
            outs.len() == i,
            forall|j: int|
                0 <= j < i ==> converts(
                    conversions,
                    target,
                    values.values()[j],
                    #[trigger] outs[j],
                ),
            options@ == present_values(outs),
        decreases count - i,
    {
        let value = values.get_value_at(i);
        let out = convert(conversions, target, &value);
        proof {
            outs = outs.push(out);
        }
        if out.is_null() {
            options.push(None);
        } else {
            options.push(Some(out));
        }
        i = i + 1;
        proof {
            assert(options@ =~= present_values(outs));
        }
    }
    let null_value: Option<ValueOrRef> = if null_out.is_null() {
        None
    } else {
        Some(null_out)
    };
    proof {
        assert(all_convert(conversions, target, values.values(), outs, given_null));
    }
    let (set, lookup) = iter_into_set(options, null_value);
    let column: Vec<ValueOrRef> = crate::value_column::set_to_vec(&set);
    (column, lookup)
}

/// A column of dictionary encoded values, whose keys are as narrow as their number allows.
pub struct AdaptiveDictionary {
    pub keys: DictionaryKeyArray,
    pub values: Vec<ValueOrRef>,
}

/// Whether `r` holds the keys and values, the keys in one byte each if there are few values.
pub open spec fn adaptive<V: ValueConversions>(
    conversions: &V,
    target: ColumnTarget,
    dictionary: Dictionary,
    r: AdaptiveDictionary,
) -> bool {
    exists|lookup: IndexLookup| #[trigger]
        column_of(conversions, target, dictionary.values, r.values@, lookup)
            && r.keys.positions() == dictionary.keys.remapped(lookup) && r.keys.key_type() == (
        if r.values@.len() < 0xFF {
            KeyDataType::UInt8
        } else {
            KeyDataType::UInt16
        })
}

/// Writes the values of records out as keys and values.
pub fn adaptive_dictionary_writer<V: ValueConversions>(
    conversions: &V,
    target: ColumnTarget,
    dictionary: Dictionary,
) -> (r: AdaptiveDictionary)
    ensures
        adaptive(conversions, target, dictionary, r),
{
    let ghost given = dictionary;
    let (keys, values) = dictionary.into_parts();
    let (column, lookup) = transform_into_array(conversions, target, &values);
    let ghost led = lookup;
    let data_type: KeyDataType = if column.len() < 0xFF {
        KeyDataType::UInt8
    } else {
        KeyDataType::UInt16
    };
    let keys: DictionaryKeyArray = keys.transform_into_key_array(data_type, lookup);
    let r: AdaptiveDictionary = AdaptiveDictionary { keys, values: column };
    proof {
        assert(column_of(conversions, target, given.values, r.values@, led));
        assert(r.keys.positions() == given.keys.remapped(led));
        assert(r.keys.key_type() == if r.values@.len() < 0xFF {
            KeyDataType::UInt8
        } else {
            KeyDataType::UInt16
        });
    }
    r
}

/// Whether `r` holds a value for each record. Where there are as many values as records, they are
/// taken in the order in which they are held.
pub open spec fn plain<V: ValueConversions>(
    conversions: &V,
    target: ColumnTarget,
    dictionary: Dictionary,
    r: Seq<ValueOrRef>,
) -> bool {
    exists|column: Seq<ValueOrRef>, lookup: IndexLookup| #[trigger]
        column_of(conversions, target, dictionary.values, column, lookup) && if column.len()
            == dictionary.keys.spec_len() {
            r == column
        } else {
            &&& r.len() == dictionary.keys.spec_len()
            &&& forall|i: int|
                0 <= i < r.len() ==> #[trigger] r[i] == (match dictionary.keys.remapped(lookup)[i] {
                    Some(position) => if position < column.len() {
                        column[position as int]
                    } else {
                        ValueOrRef::Null
                    },
                    None => ValueOrRef::Null,
                })
        }
}

/// Writes the values of records out, a value for each.
pub fn primitive_array_writer<V: ValueConversions>(
    conversions: &V,
    target: ColumnTarget,
    dictionary: &Dictionary,
) -> (r: Vec<ValueOrRef>)
    ensures
        plain(conversions, target, *dictionary, r@),
{
    let (column, lookup) = transform_into_array(conversions, target, &dictionary.values);
    let key_length: usize = dictionary.keys.len();
    assert(column_of(conversions, target, dictionary.values, column@, lookup));
    if column.len() == key_length {
        return column;
    }
    let mut r: Vec<ValueOrRef> = Vec::new();
    let mut i: usize = 0;
    while i < key_length
        invariant
            i <= key_length,
            key_length == dictionary.keys.spec_len(),
            r@.len() == i,
            forall|j: int|
                0 <= j < i ==> #[trigger] r@[j] == (match dictionary.keys.remapped(lookup)[j] {
                    Some(position) => if position < column@.len() {
                        column@[position as int]
                    } else {
                        ValueOrRef::Null
                    },
                    None => ValueOrRef::Null,
                }),
        decreases key_length - i,
    {
        let position: Option<usize> = match dictionary.keys.get_value_index_for_key_index(i) {
            Some(position) => apply_lookup(&lookup, position),
            None => None,
        };
        let value: ValueOrRef = match position {
            Some(position) => if position < column.len() {
                column[position].clone()
            } else {
                ValueOrRef::Null
            },
            None => ValueOrRef::Null,
        };
        r.push(value);
        i = i + 1;
    }
    r
}

/// What is written for the body of a record.
pub enum BodyCell {
    Null,
    Boolean(bool),
    Double(u64),
    Integer(i64),
    Text(Rc<String>),
    Bytes(Rc<Vec<u8>>),
    Slice(Vec<u8>),
    MapValue(Vec<u8>),
}

/// Whether `cell` is what is written for a body. Points in time and spans are written as integers,
/// patterns as text, and lists and maps in serialized form; what cannot be is null.
pub open spec fn body_cell<C: ValueCodec, V: ValueConversions>(
    codec: &C,
    conversions: &V,
    value: ValueOrRef,
    cell: BodyCell,
) -> bool {
    match value {
        ValueOrRef::Null => cell is Null,
        ValueOrRef::Boolean(b) => cell == BodyCell::Boolean(b),
        ValueOrRef::Double(bits) => cell == BodyCell::Double(bits),
        ValueOrRef::Integer(n) => cell == BodyCell::Integer(n),
        ValueOrRef::String(text) => cell == BodyCell::Text(text),
        ValueOrRef::Regex(pattern) => cell == BodyCell::Text(pattern),
        ValueOrRef::DateTime(_) => integer_cell(conversions, value, cell),
        ValueOrRef::TimeSpan(_) => integer_cell(conversions, value, cell),
        ValueOrRef::Array(ArrayValueOrRef::Buffer(bytes)) => cell == BodyCell::Bytes(bytes),
        ValueOrRef::Array(ArrayValueOrRef::List(_, _)) => exists|answer: Option<Vec<u8>>|
            #[trigger] call_ensures(C::to_slice, (codec, &value), answer) && match answer {
                Some(bytes) => cell == BodyCell::Slice(bytes),
                None => cell is Null,
            },
        ValueOrRef::MapValue(_) => exists|answer: Option<Vec<u8>>|
            #[trigger] call_ensures(C::to_slice, (codec, &value), answer) && match answer {
                Some(bytes) => cell == BodyCell::MapValue(bytes),
                None => cell is Null,
            },
    }
}

/// Whether `cell` is the integer that a value converts to.
pub open spec fn integer_cell<V: ValueConversions>(
    conversions: &V,
    value: ValueOrRef,
    cell: BodyCell,
) -> bool {
    exists|answer: Option<i64>|
        #[trigger] to_integer(conversions, value, answer) && match answer {
            Some(n) => cell == BodyCell::Integer(n),
            None => cell is Null,
        }
}

/// What is written for a body.
fn write_body_cell<C: ValueCodec, V: ValueConversions>(
    codec: &C,
    conversions: &V,
    value: &ValueOrRef,
) -> (cell: BodyCell)
    ensures
        body_cell(codec, conversions, *value, cell),
{
    match value {
        ValueOrRef::Null => BodyCell::Null,
        ValueOrRef::Boolean(b) => BodyCell::Boolean(*b),
        ValueOrRef::Double(bits) => BodyCell::Double(*bits),
        ValueOrRef::Integer(n) => BodyCell::Integer(*n),
        ValueOrRef::String(text) => BodyCell::Text(text.clone()),
        ValueOrRef::Regex(pattern) => BodyCell::Text(pattern.clone()),
        ValueOrRef::Array(ArrayValueOrRef::Buffer(bytes)) => BodyCell::Bytes(bytes.clone()),
        ValueOrRef::Array(ArrayValueOrRef::List(_, _)) => {
            let answer: Option<Vec<u8>> = codec.to_slice(value);
            assert(call_ensures(C::to_slice, (codec, value), answer));
            match answer {
                Some(bytes) => BodyCell::Slice(bytes),
                None => BodyCell::Null,
            }
        },
        ValueOrRef::MapValue(_) => {
            let answer: Option<Vec<u8>> = codec.to_slice(value);
            assert(call_ensures(C::to_slice, (codec, value), answer));
            match answer {
                Some(bytes) => BodyCell::MapValue(bytes),
                None => BodyCell::Null,
            }
        },
        _ => {
            let answer: Option<i64> = conversions.convert_to_integer(value);
            assert(to_integer(conversions, *value, answer));
            match answer {
                Some(n) => BodyCell::Integer(n),
                None => BodyCell::Null,
            }
        },
    }
}

/// Writes the bodies of records out.
pub fn body_writer<C: ValueCodec, V: ValueConversions>(
    codec: &C,
    conversions: &V,
    dictionary: &Dictionary,
) -> (r: Vec<BodyCell>)
    ensures
        r@.len() == dictionary.rows().len(),
        forall|i: int|
            0 <= i < r@.len() ==> body_cell(
                codec,
                conversions,
                dictionary.rows()[i],
                #[trigger] r@[i],
            ),
{
    let count: usize = dictionary.len();
    let mut r: Vec<BodyCell> = Vec::new();
    let mut i: usize = 0;
    while i < count
        invariant
            i <= count,
            count == dictionary.rows().len(),
            r@.len() == i,
            forall|j: int|
                0 <= j < i ==> body_cell(
                    codec,
                    conversions,
                    dictionary.rows()[j],
                    #[trigger] r@[j],
                ),
        decreases count - i,
    {
        let value = dictionary.get_value(i);
        r.push(write_body_cell(codec, conversions, &value));
        i = i + 1;
    }
    r
}

} // verus!
