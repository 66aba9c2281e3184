//! What attributes keep of values.

use std::rc::Rc;

use vstd::prelude::*;

use crate::attribute_columns::{
    ValueCodec, BOOL_ATTRIBUTE_VALUE_TYPE, BYTES_ATTRIBUTE_VALUE_TYPE,
    DOUBLE_ATTRIBUTE_VALUE_TYPE, EMPTY_ATTRIBUTE_VALUE_TYPE, INT_ATTRIBUTE_VALUE_TYPE,
    MAP_ATTRIBUTE_VALUE_TYPE, SLICE_ATTRIBUTE_VALUE_TYPE, STRING_ATTRIBUTE_VALUE_TYPE,
};
use crate::value::{ArrayValueOrRef, ValueOrRef};

verus! {

/// The kind of an attribute and what its column holds, which is nothing where the value is the one
/// that a missing entry stands for.
pub enum ProcessedValue {
    Empty,
    String(Option<ValueOrRef>),
    Integer(Option<ValueOrRef>),
    Double(Option<u64>),
    Boolean(bool),
    Slice(Option<ValueOrRef>),
    MapValue(Option<ValueOrRef>),
    Bytes(Option<ValueOrRef>),
}

impl ProcessedValue {
    /// The number of the kind.
    pub open spec fn attribute_type(&self) -> u8 {
        match self {
            ProcessedValue::Empty => 0,
            ProcessedValue::String(_) => 1,
            ProcessedValue::Integer(_) => 2,
            ProcessedValue::Double(_) => 3,
            ProcessedValue::Boolean(_) => 4,
            ProcessedValue::MapValue(_) => 5,
            ProcessedValue::Slice(_) => 6,
            ProcessedValue::Bytes(_) => 7,
        }
    }

    /// The number of the kind.
    pub fn get_attribute_type(&self) -> (r: u8)
        ensures
            r == self.attribute_type(),
    {
        match self {
            ProcessedValue::Empty => EMPTY_ATTRIBUTE_VALUE_TYPE,
            ProcessedValue::String(_) => STRING_ATTRIBUTE_VALUE_TYPE,
            ProcessedValue::Integer(_) => INT_ATTRIBUTE_VALUE_TYPE,
            ProcessedValue::Double(_) => DOUBLE_ATTRIBUTE_VALUE_TYPE,
            ProcessedValue::Boolean(_) => BOOL_ATTRIBUTE_VALUE_TYPE,
            ProcessedValue::Slice(_) => SLICE_ATTRIBUTE_VALUE_TYPE,
            ProcessedValue::MapValue(_) => MAP_ATTRIBUTE_VALUE_TYPE,
            ProcessedValue::Bytes(_) => BYTES_ATTRIBUTE_VALUE_TYPE,
        }
    }

    /// What the column of texts holds.
    pub open spec fn text(&self) -> Option<ValueOrRef> {
        match self {
            ProcessedValue::String(content) => *content,
            _ => None,
        }
    }

    /// What the column of integers holds.
    pub open spec fn integer(&self) -> Option<ValueOrRef> {
        match self {
            ProcessedValue::Integer(content) => *content,
            _ => None,
        }
    }

    /// What the column of doubles holds.
    pub open spec fn double(&self) -> Option<u64> {
        match self {
            ProcessedValue::Double(content) => *content,
            _ => None,
        }
    }

    /// What the column of booleans holds.
    pub open spec fn boolean(&self) -> Option<bool> {
        match self {
            ProcessedValue::Boolean(content) => Some(*content),
            _ => None,
        }
    }

    /// What the column of byte sequences holds.
    pub open spec fn bytes(&self) -> Option<ValueOrRef> {
        match self {
            ProcessedValue::Bytes(content) => *content,
            _ => None,
        }
    }

    /// What the column of serialized values holds.
    pub open spec fn serialized(&self) -> Option<ValueOrRef> {
        match self {
            ProcessedValue::Slice(content) => *content,
            ProcessedValue::MapValue(content) => *content,
            _ => None,
        }
    }

    /// What the dictionary for a kind of attribute holds.
    pub open spec fn part(&self, kind: u8) -> Option<ValueOrRef> {
        match kind {
            1 => self.text(),
            2 => self.integer(),
            7 => self.bytes(),
            _ => self.serialized(),
        }
    }

    /// Whether what the dictionaries hold is of their kinds.
    pub open spec fn wf(&self) -> bool {
        &&& self.text() matches Some(value) ==> crate::attribute_columns::dictionary_kind(value)
            == 1
        &&& self.integer() matches Some(value) ==> crate::attribute_columns::dictionary_kind(value)
            == 2
        &&& self.bytes() matches Some(value) ==> crate::attribute_columns::dictionary_kind(value)
            == 7
        &&& self.serialized() matches Some(value) ==> crate::attribute_columns::dictionary_kind(
            value,
        ) == 7
    }

    /// What the column of the kind holds.
    pub open spec fn content(&self) -> Option<ValueOrRef> {
        match self {
            ProcessedValue::Empty => None,
            ProcessedValue::String(content) => *content,
            ProcessedValue::Integer(content) => *content,
            ProcessedValue::Double(content) => match *content {
                Some(bits) => Some(ValueOrRef::Double(bits)),
                None => None,
            },
            ProcessedValue::Boolean(content) => Some(ValueOrRef::Boolean(*content)),
            ProcessedValue::Slice(content) => *content,
            ProcessedValue::MapValue(content) => *content,
            ProcessedValue::Bytes(content) => *content,
        }
    }
}

/// Whether `content` is what a column of serialized values holds for the bytes.
pub open spec fn holds_bytes(content: Option<ValueOrRef>, bytes: Seq<u8>) -> bool {
    if bytes.len() == 0 {
        content is None
    } else {
        &&& content matches Some(value)
        &&& crate::attribute_columns::value_bytes(value) matches Some(held)
        &&& held@ == bytes
    }
}

/// Whether `content` is what a column of serialized values holds for the value.
pub open spec fn serializes<C: ValueCodec>(
    codec: &C,
    value: ValueOrRef,
    content: Option<ValueOrRef>,
) -> bool {
    exists|answer: Option<Vec<u8>>|
        #[trigger] call_ensures(C::to_slice, (codec, &value), answer) && match answer {
            Some(bytes) => holds_bytes(content, bytes@),
            None => content is None,
        }
}

/// Whether `content` is what the column of texts holds for the text.
pub open spec fn holds_text(content: Option<ValueOrRef>, text: Seq<char>) -> bool {
    if text.len() == 0 {
        content is None
    } else {
        content matches Some(ValueOrRef::String(held)) && held@ == text
    }
}

/// Whether `processed` is what attributes keep of the value.
///
/// Empty text, zero and empty arrays and maps have no entry in their columns. An array or map is
/// serialized; if that fails, it has no entry either. A value of a kind without a column is kept as
/// text.
pub open spec fn processes<C: ValueCodec>(
    codec: &C,
    value: ValueOrRef,
    processed: ProcessedValue,
) -> bool {
    match value {
        ValueOrRef::Null => processed is Empty,
        ValueOrRef::String(text) => processed matches ProcessedValue::String(content) && content
            == (if text@.len() == 0 {
            None
        } else {
            Some(value)
        }),
        ValueOrRef::Integer(n) => processed == ProcessedValue::Integer(
            if n == 0 {
                None
            } else {
                Some(value)
            },
        ),
        ValueOrRef::Double(bits) => processed == ProcessedValue::Double(
            if crate::value::double_is_zero(bits) {
                None
            } else {
                Some(bits)
            },
        ),
        ValueOrRef::Boolean(b) => processed == ProcessedValue::Boolean(b),
        ValueOrRef::Array(ArrayValueOrRef::Buffer(bytes)) => processed == ProcessedValue::Bytes(
            if bytes@.len() == 0 {
                None
            } else {
                Some(value)
            },
        ),
        ValueOrRef::Array(ArrayValueOrRef::List(_, items)) => processed matches ProcessedValue::Slice(
            content,
        ) && if items@.len() == 0 {
            content is None
        } else {
            serializes(codec, value, content)
        },
        ValueOrRef::MapValue(map) => processed matches ProcessedValue::MapValue(content) && if map.map.entries().len()
            == 0 {
            content is None
        } else {
            serializes(codec, value, content)
        },
        _ => processed matches ProcessedValue::String(content) && exists|text: String|
            #[trigger] call_ensures(C::convert_to_string, (codec, &value), text) && holds_text(
                content,
                text@,
            ),
    }
}

/// What the column of serialized values holds for bytes.
pub fn bytes_content(bytes: Vec<u8>) -> (r: Option<ValueOrRef>)
    ensures
        holds_bytes(r, bytes@),
{
    if bytes.len() == 0 {
        None
    } else {
        Some(ValueOrRef::Array(ArrayValueOrRef::Buffer(Rc::new(bytes))))
    }
}

/// What the column of serialized values holds for a value.
fn serialize<C: ValueCodec>(codec: &C, value: &ValueOrRef) -> (r: Option<ValueOrRef>)
    ensures
        serializes(codec, *value, r),
        r matches Some(content) ==> crate::attribute_columns::dictionary_kind(content) == 7,
{
    let answer: Option<Vec<u8>> = codec.to_slice(value);
    assert(call_ensures(C::to_slice, (codec, value), answer));
    match answer {
        Some(bytes) => bytes_content(bytes),
        None => None,
    }
}

/// What attributes keep of a value.
pub fn process_value<C: ValueCodec>(codec: &C, value: &ValueOrRef) -> (r: ProcessedValue)
    ensures
        processes(codec, *value, r),
        r.wf(),
{
    match value {
        ValueOrRef::Null => ProcessedValue::Empty,
        ValueOrRef::String(text) => {
            if crate::slicing::char_len(text.as_str()) == 0 {
                ProcessedValue::String(None)
            } else {
                ProcessedValue::String(Some(value.clone()))
            }
        },
        ValueOrRef::Integer(n) => {
            if *n == 0 {
                ProcessedValue::Integer(None)
            } else {
                ProcessedValue::Integer(Some(value.clone()))
            }
        },
        ValueOrRef::Double(bits) => {
            if *bits % 0x8000_0000_0000_0000 == 0 {
                ProcessedValue::Double(None)
            } else {
                ProcessedValue::Double(Some(*bits))
            }
        },
        ValueOrRef::Boolean(b) => ProcessedValue::Boolean(*b),
        ValueOrRef::Array(ArrayValueOrRef::Buffer(bytes)) => {
            if bytes.len() == 0 {
                ProcessedValue::Bytes(None)
            } else {
                ProcessedValue::Bytes(Some(value.clone()))
            }
        },
        ValueOrRef::Array(ArrayValueOrRef::List(_, items)) => {
            if items.len() == 0 {
                ProcessedValue::Slice(None)
            } else {
                ProcessedValue::Slice(serialize(codec, value))
            }
        },
        ValueOrRef::MapValue(map) => {
            if map.map.is_empty() {
                ProcessedValue::MapValue(None)
            } else {
                ProcessedValue::MapValue(serialize(codec, value))
            }
        },
        _ => {
            let text: String = codec.convert_to_string(value);
            assert(call_ensures(C::convert_to_string, (codec, value), text));
            if crate::slicing::char_len(text.as_str()) == 0 {
                ProcessedValue::String(None)
            } else {
                ProcessedValue::String(Some(ValueOrRef::String(Rc::new(text))))
            }
        },
    }
}

} // verus!
