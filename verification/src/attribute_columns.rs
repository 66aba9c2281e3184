//! The columns in which the attributes of records are kept.
//!
//! Each row is one attribute: the id of the record that it belongs to, its key, the kind of its
//! value, and the value itself in the column of that kind.

use std::rc::Rc;

use vstd::prelude::*;

use crate::nullable_column::NullableColumn;
use crate::value::{ArrayValueOrRef, ValueOrRef};

verus! {

/// An attribute without a value.
pub const EMPTY_ATTRIBUTE_VALUE_TYPE: u8 = 0;

/// An attribute whose value is text.
pub const STRING_ATTRIBUTE_VALUE_TYPE: u8 = 1;

/// An attribute whose value is an integer.
pub const INT_ATTRIBUTE_VALUE_TYPE: u8 = 2;

/// An attribute whose value is a double.
pub const DOUBLE_ATTRIBUTE_VALUE_TYPE: u8 = 3;

/// An attribute whose value is a boolean.
pub const BOOL_ATTRIBUTE_VALUE_TYPE: u8 = 4;

/// An attribute whose value is a map, in serialized form.
pub const MAP_ATTRIBUTE_VALUE_TYPE: u8 = 5;

/// An attribute whose value is an array, in serialized form.
pub const SLICE_ATTRIBUTE_VALUE_TYPE: u8 = 6;

/// An attribute whose value is a sequence of bytes.
pub const BYTES_ATTRIBUTE_VALUE_TYPE: u8 = 7;

/// Turns values into the forms that attributes are kept in, and back.
pub trait ValueCodec {
    /// The serialized form of an array or a map, if it can be serialized.
    fn to_slice(&self, value: &ValueOrRef) -> Option<Vec<u8>>;

    /// The value of a serialized form, if it can be read.
    fn from_slice(&self, bytes: &Vec<u8>) -> Option<ValueOrRef>;

    /// The text of a value that no column holds as it is.
    fn convert_to_string(&self, value: &ValueOrRef) -> String;
}

/// A column of dictionary encoded values.
pub struct DictionaryColumn {
    pub keys: NullableColumn<u16>,
    pub values: Vec<ValueOrRef>,
}

impl DictionaryColumn {
    /// Whether every valid key is that of a value.
    pub open spec fn wf(&self) -> bool {
        &&& self.keys.wf()
        &&& forall|i: int|
            0 <= i < self.keys.spec_len() && #[trigger] self.keys.valid(i) ==> self.keys.cells@[i]
                < self.values@.len()
    }

    /// The position of the value of row `i`, unless the row or the value is null.
    pub open spec fn value_index(&self, i: int) -> Option<usize> {
        match self.keys.cell(i) {
            Some(key) => if self.values@[key as int] is Null {
                None
            } else {
                Some(key as usize)
            },
            None => None,
        }
    }

    /// The value of row `i`.
    pub open spec fn value(&self, i: int) -> Option<ValueOrRef> {
        match self.value_index(i) {
            Some(index) => Some(self.values@[index as int]),
            None => None,
        }
    }

    /// The position of the value of a row, unless the row or the value is null.
    pub fn get_value_index_null_safe(&self, key_index: usize) -> (r: Option<usize>)
        requires
            self.wf(),
            key_index < self.keys.spec_len(),
        ensures
            r == self.value_index(key_index as int),
            r matches Some(index) ==> index < self.values@.len() && index < 0x10000,
    {
        match self.keys.get(key_index) {
            Some(key) => {
                assert(self.keys.valid(key_index as int));
                if self.values[key as usize].is_null() {
                    None
                } else {
                    Some(key as usize)
                }
            },
            None => None,
        }
    }
}

/// The keys of attributes: for each row, the position of its key.
pub struct AdaptiveDictionaryReader {
    /// Whether positions are written as two bytes, not as one.
    pub keys_u16: bool,
    pub keys: Vec<u16>,
    pub values: Vec<String>,
}

impl AdaptiveDictionaryReader {
    /// Whether every position is that of a key.
    pub open spec fn wf(&self) -> bool {
        &&& forall|i: int| 0 <= i < self.keys@.len() ==> #[trigger] self.keys@[i] < self.values@.len()
        &&& !self.keys_u16 ==> forall|i: int|
            0 <= i < self.keys@.len() ==> #[trigger] self.keys@[i] < 0x100
    }

    /// Whether the key at position `k` is the first that reads `key`.
    pub open spec fn first_at(&self, key: Seq<char>, k: int) -> bool {
        &&& 0 <= k < self.values@.len()
        &&& self.values@[k]@ == key
        &&& forall|j: int| 0 <= j < k ==> (#[trigger] self.values@[j])@ != key
    }

    /// The position of a key.
    pub fn find(&self, key: &str) -> (r: Option<usize>)
        ensures
            match r {
                Some(k) => self.first_at(key@, k as int),
                None => forall|j: int| 0 <= j < self.values@.len() ==> (#[trigger] self.values@[j])@
                    != key@,
            },
    {
        let mut k: usize = 0;
        while k < self.values.len()
            invariant
                k <= self.values@.len(),
                forall|j: int| 0 <= j < k ==> (#[trigger] self.values@[j])@ != key@,
            decreases self.values@.len() - k,
        {
            if crate::text::str_equal(self.values[k].as_str(), key) {
                return Some(k);
            }
            k = k + 1;
        }
        None
    }
}

/// An attribute's value, or where to find it.
pub enum AttributeValueOrIndex {
    /// The position of the value in the column of its kind.
    ValueIndex(usize),
    /// The value.
    Value(ValueOrRef),
}

/// The attributes of a number of records.
pub struct AttributeColumns {
    pub parent_ids: Vec<u16>,
    pub keys: AdaptiveDictionaryReader,
    pub types: Vec<u8>,
    pub strings: Option<DictionaryColumn>,
    pub ints: Option<DictionaryColumn>,
    pub doubles: Option<NullableColumn<u64>>,
    pub bools: Option<NullableColumn<bool>>,
    pub bytes: Option<DictionaryColumn>,
    pub sers: Option<DictionaryColumn>,
}

/// The kind of attribute whose dictionary a value belongs in.
pub open spec fn dictionary_kind(value: ValueOrRef) -> u8 {
    match value {
        ValueOrRef::String(_) => 1,
        ValueOrRef::Integer(_) => 2,
        ValueOrRef::Array(ArrayValueOrRef::Buffer(_)) => 7,
        _ => 0,
    }
}

/// Whether a column, if it is there, is well formed, has `count` rows and holds only values of the
/// kind.
pub open spec fn dictionary_wf(column: Option<DictionaryColumn>, count: nat, kind: u8) -> bool {
    column matches Some(column) ==> {
        &&& column.wf()
        &&& column.keys.spec_len() == count
        &&& forall|k: int|
            0 <= k < column.values@.len() ==> #[trigger] column.values@[k] is Null
                || dictionary_kind(column.values@[k]) == kind
    }
}

/// The position of the value of row `i` of a column that may be missing.
pub open spec fn dictionary_index(column: Option<DictionaryColumn>, i: int) -> Option<usize> {
    match column {
        Some(column) => column.value_index(i),
        None => None,
    }
}

/// The value of row `i` of a column that may be missing.
pub open spec fn dictionary_value(column: Option<DictionaryColumn>, i: int) -> Option<ValueOrRef> {
    match column {
        Some(column) => column.value(i),
        None => None,
    }
}

/// Cell `i` of a column that may be missing.
pub open spec fn nullable_cell<T: Copy>(column: Option<NullableColumn<T>>, i: int) -> Option<T> {
    match column {
        Some(column) => column.cell(i),
        None => None,
    }
}

/// The bytes that a value holds.
pub open spec fn value_bytes(value: ValueOrRef) -> Option<Rc<Vec<u8>>> {
    match value {
        ValueOrRef::Array(ArrayValueOrRef::Buffer(bytes)) => Some(bytes),
        _ => None,
    }
}

/// Whether a value is empty text.
pub open spec fn is_empty_text(value: ValueOrRef) -> bool {
    value matches ValueOrRef::String(text) && text@.len() == 0
}

impl AttributeColumns {
    /// Whether the columns have one length and agree with one another.
    pub open spec fn wf(&self) -> bool {
        let count = self.types@.len();
        &&& self.parent_ids@.len() == count
        &&& self.keys.keys@.len() == count
        &&& self.keys.wf()
        &&& forall|i: int| 0 <= i < count ==> #[trigger] self.types@[i] <= 7
        &&& dictionary_wf(self.strings, count, 1)
        &&& dictionary_wf(self.ints, count, 2)
        &&& dictionary_wf(self.bytes, count, 7)
        &&& dictionary_wf(self.sers, count, 7)
        &&& self.doubles matches Some(column) ==> column.wf() && column.spec_len() == count
        &&& self.bools matches Some(column) ==> column.wf() && column.spec_len() == count
    }

    /// The number of attributes.
    pub fn len(&self) -> (r: usize)
        ensures
            r == self.types@.len(),
    {
        self.types.len()
    }

    /// The value that row `i` holds in the column of its kind.
    pub open spec fn stored(&self, i: int) -> Option<ValueOrRef> {
        match self.types@[i] {
            1 => dictionary_value(self.strings, i),
            2 => dictionary_value(self.ints, i),
            3 => match nullable_cell(self.doubles, i) {
                Some(bits) => Some(ValueOrRef::Double(bits)),
                None => None,
            },
            4 => match nullable_cell(self.bools, i) {
                Some(value) => Some(ValueOrRef::Boolean(value)),
                None => None,
            },
            5 => dictionary_value(self.sers, i),
            6 => dictionary_value(self.sers, i),
            7 => dictionary_value(self.bytes, i),
            _ => None,
        }
    }

    /// The values of the dictionary for a kind of attribute.
    pub open spec fn held(&self, kind: u8) -> Seq<ValueOrRef> {
        let column = match kind {
            1 => self.strings,
            2 => self.ints,
            7 => self.bytes,
            _ => self.sers,
        };
        match column {
            Some(column) => column.values@,
            None => Seq::empty(),
        }
    }

    /// Whether every dictionary has no more values, and the rows no more keys, than can be told
    /// apart.
    pub open spec fn fits(&self) -> bool {
        &&& self.strings matches Some(column) ==> column.values@.len() <= 0x10000
        &&& self.ints matches Some(column) ==> column.values@.len() <= 0x10000
        &&& self.bytes matches Some(column) ==> column.values@.len() <= 0x10000
        &&& self.sers matches Some(column) ==> column.values@.len() <= 0x10000
        &&& self.keys.values@.len() <= (if self.keys.keys_u16 {
            0x10000int
        } else {
            0x100int
        })
    }

    /// The key of row `i`.
    pub open spec fn key(&self, i: int) -> Seq<char> {
        self.keys.values@[self.keys.keys@[i] as int]@
    }

    /// Whether row `i` reads as a value. Text and numbers are left out of their columns where they
    /// are empty or zero, so a row of these kinds always does.
    pub open spec fn has_value(&self, i: int) -> bool {
        match self.types@[i] {
            0 => false,
            1 => true,
            2 => true,
            3 => true,
            _ => self.stored(i) is Some,
        }
    }

    /// The integer that row `i` reads as.
    pub open spec fn integer(&self, i: int) -> ValueOrRef {
        match dictionary_value(self.ints, i) {
            Some(value) => value,
            None => ValueOrRef::Integer(0),
        }
    }

    /// Whether row `i`, if it has a value, reads as `value`.
    pub open spec fn reads<C: ValueCodec>(&self, codec: &C, i: int, value: ValueOrRef) -> bool {
        match self.types@[i] {
            1 => match dictionary_value(self.strings, i) {
                Some(text) => value == text,
                None => is_empty_text(value),
            },
            2 => value == self.integer(i),
            3 => value == ValueOrRef::Double(
                match nullable_cell(self.doubles, i) {
                    Some(bits) => bits,
                    None => 0,
                },
            ),
            5 => decodes(codec, self.stored(i)->0, value),
            6 => decodes(codec, self.stored(i)->0, value),
            _ => Some(value) == self.stored(i),
        }
    }

    /// The position in the dictionary of its kind that row `i` has its value at, if it is in one.
    pub open spec fn index(&self, i: int) -> Option<usize> {
        match self.types@[i] {
            0 => None,
            1 => dictionary_index(self.strings, i),
            2 => None,
            3 => None,
            4 => None,
            7 => dictionary_index(self.bytes, i),
            _ => dictionary_index(self.sers, i),
        }
    }

    /// What the reading of row `i` starts from: a value, or the position of one.
    pub open spec fn entry(&self, i: int, entry: Option<AttributeValueOrIndex>) -> bool {
        match self.types@[i] {
            0 => entry is None,
            1 => match dictionary_index(self.strings, i) {
                Some(index) => entry == Some(AttributeValueOrIndex::ValueIndex(index)),
                None => entry matches Some(AttributeValueOrIndex::Value(value)) && is_empty_text(
                    value,
                ),
            },
            2 => entry == Some(AttributeValueOrIndex::Value(self.integer(i))),
            3 => entry == Some(
                AttributeValueOrIndex::Value(
                    ValueOrRef::Double(
                        match nullable_cell(self.doubles, i) {
                            Some(bits) => bits,
                            None => 0,
                        },
                    ),
                ),
            ),
            4 => entry == match self.stored(i) {
                Some(value) => Some(AttributeValueOrIndex::Value(value)),
                None => None,
            },
            7 => entry == match dictionary_index(self.bytes, i) {
                Some(index) => Some(AttributeValueOrIndex::ValueIndex(index)),
                None => None,
            },
            _ => entry == match dictionary_index(self.sers, i) {
                Some(index) => Some(AttributeValueOrIndex::ValueIndex(index)),
                None => None,
            },
        }
    }

    /// The value of an attribute, or the position of it; nothing if it has none.
    pub fn get_attribute_value_or_index(&self, attribute_index: usize) -> (r: Option<
        AttributeValueOrIndex,
    >)
        requires
            self.wf(),
            attribute_index < self.types@.len(),
        ensures
            self.entry(attribute_index as int, r),
            r matches Some(AttributeValueOrIndex::ValueIndex(index)) ==> index < 0x10000,
    {
        match self.types[attribute_index] {
            EMPTY_ATTRIBUTE_VALUE_TYPE => None,
            STRING_ATTRIBUTE_VALUE_TYPE => {
                let index: Option<usize> = index_in(&self.strings, attribute_index);
                match index {
                    Some(index) => Some(AttributeValueOrIndex::ValueIndex(index)),
                    None => {
                        let empty = ValueOrRef::new_string("");
                        proof {
                            reveal_strlit("");
                        }
                        Some(AttributeValueOrIndex::Value(empty))
                    },
                }
            },
            INT_ATTRIBUTE_VALUE_TYPE => Some(
                AttributeValueOrIndex::Value(self.get_integer(attribute_index)),
            ),
            DOUBLE_ATTRIBUTE_VALUE_TYPE => {
                let cell: Option<u64> = match &self.doubles {
                    Some(doubles) => doubles.get(attribute_index),
                    None => None,
                };
                let bits: u64 = match cell {
                    Some(bits) => bits,
                    None => 0,
                };
                Some(AttributeValueOrIndex::Value(ValueOrRef::Double(bits)))
            },
            BOOL_ATTRIBUTE_VALUE_TYPE => {
                let cell: Option<bool> = match &self.bools {
                    Some(bools) => bools.get(attribute_index),
                    None => None,
                };
                match cell {
                    Some(value) => Some(AttributeValueOrIndex::Value(ValueOrRef::Boolean(value))),
                    None => None,
                }
            },
            BYTES_ATTRIBUTE_VALUE_TYPE => match index_in(&self.bytes, attribute_index) {
                Some(index) => Some(AttributeValueOrIndex::ValueIndex(index)),
                None => None,
            },
            _ => match index_in(&self.sers, attribute_index) {
                Some(index) => Some(AttributeValueOrIndex::ValueIndex(index)),
                None => None,
            },
        }
    }

    /// The integer that a row reads as.
    fn get_integer(&self, attribute_index: usize) -> (r: ValueOrRef)
        requires
            self.wf(),
            attribute_index < self.types@.len(),
        ensures
            r == self.integer(attribute_index as int),
    {
        match &self.ints {
            Some(ints) => match ints.get_value_index_null_safe(attribute_index) {
                Some(index) => ints.values[index].clone(),
                None => ValueOrRef::Integer(0),
            },
            None => ValueOrRef::Integer(0),
        }
    }

    /// The value at a position of the column of a kind. A serialized form that cannot be read gives
    /// null.
    pub fn get_attribute_value<C: ValueCodec>(
        &self,
        codec: &C,
        attribute_index: usize,
        attribute_value_index: usize,
    ) -> (r: ValueOrRef)
        requires
            self.wf(),
            attribute_index < self.types@.len(),
            self.entry(
                attribute_index as int,
                Some(AttributeValueOrIndex::ValueIndex(attribute_value_index)),
            ),
        ensures
            self.reads(codec, attribute_index as int, r),
    {
        match self.types[attribute_index] {
            STRING_ATTRIBUTE_VALUE_TYPE => value_in(
                &self.strings,
                attribute_index,
                attribute_value_index,
            ),
            BYTES_ATTRIBUTE_VALUE_TYPE => value_in(
                &self.bytes,
                attribute_index,
                attribute_value_index,
            ),
            _ => {
                let stored = value_in(&self.sers, attribute_index, attribute_value_index);
                let r = decode(codec, &stored);
                proof {
                    assert(Some(stored) == self.stored(attribute_index as int));
                }
                r
            },
        }
    }
}

/// Whether a serialized value reads as `value`.
pub open spec fn decodes<C: ValueCodec>(codec: &C, stored: ValueOrRef, value: ValueOrRef) -> bool {
    match value_bytes(stored) {
        Some(bytes) => exists|answer: Option<ValueOrRef>|
            #[trigger] call_ensures(C::from_slice, (codec, &*bytes), answer) && value == (
            match answer {
                Some(value) => value,
                None => ValueOrRef::Null,
            }),
        None => value is Null,
    }
}

/// Reads a serialized value.
pub fn decode<C: ValueCodec>(codec: &C, stored: &ValueOrRef) -> (r: ValueOrRef)
    ensures
        decodes(codec, *stored, r),
{
    match stored {
        ValueOrRef::Array(ArrayValueOrRef::Buffer(bytes)) => {
            let answer: Option<ValueOrRef> = codec.from_slice(bytes);
            assert(call_ensures(C::from_slice, (codec, &**bytes), answer));
            match answer {
                Some(value) => value,
                None => ValueOrRef::Null,
            }
        },
        _ => ValueOrRef::Null,
    }
}

/// The position of the value of a row of a column that may be missing.
fn index_in(column: &Option<DictionaryColumn>, row: usize) -> (r: Option<usize>)
    requires
        column matches Some(column) ==> column.wf() && row < column.keys.spec_len(),
    ensures
        r == dictionary_index(*column, row as int),
        r matches Some(index) ==> index < 0x10000,
{
    match column {
        Some(column) => column.get_value_index_null_safe(row),
        None => None,
    }
}

/// The value of a row whose position is known.
fn value_in(column: &Option<DictionaryColumn>, row: usize, index: usize) -> (r: ValueOrRef)
    requires
        column matches Some(column) ==> column.wf() && row < column.keys.spec_len(),
        dictionary_index(*column, row as int) == Some(index),
    ensures
        Some(r) == dictionary_value(*column, row as int),
{
    match column {
        Some(column) => {
            assert(column.keys.valid(row as int));
            column.values[index].clone()
        },
        None => ValueOrRef::Null,
    }
}

} // verus!
