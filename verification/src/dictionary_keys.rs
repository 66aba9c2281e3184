//! The keys of a dictionary: for each record, the position of its value.

use std::rc::Rc;

use arrow::array::BooleanArray;
use vstd::prelude::*;

use crate::arrow_utils::push_null;
use crate::boolean_array::{boolean_array_get, boolean_array_len};
use crate::interning::{apply_lookup, IndexLookup};

verus! {

/// The integer type in which keys are written out.
#[derive(Debug, Clone, Copy, PartialEq, Eq, Hash, Structural)]
pub enum KeyDataType {
    Int8,
    Int16,
    Int32,
    Int64,
    UInt8,
    UInt16,
    UInt32,
    UInt64,
}

/// The positions of the values of a number of records.
pub enum DictionaryKeyArray {
    /// A position, or none, for each record.
    KeyArray { data_type: KeyDataType, keys: Rc<Vec<Option<usize>>> },
    /// Records of a boolean column: false is position 0 and true position 1.
    BooleanArray { data_type: KeyDataType, values: Rc<BooleanArray> },
    /// Every record has the position of its own number.
    UniqueValues { data_type: KeyDataType, length: usize },
    /// Every record has the same position, or none.
    SingleValue { data_type: KeyDataType, length: usize, value_index: Option<usize> },
}

/// The position that a boolean entry stands for.
pub open spec fn boolean_position(value: Option<bool>) -> Option<usize> {
    match value {
        Some(true) => Some(1usize),
        Some(false) => Some(0usize),
        None => None,
    }
}

impl DictionaryKeyArray {
    /// The number of records.
    pub open spec fn spec_len(self) -> nat {
        match self {
            DictionaryKeyArray::KeyArray { keys, .. } => keys@.len(),
            DictionaryKeyArray::BooleanArray { values, .. } => crate::boolean_array::boolean_values(
                *values,
            ).len(),
            DictionaryKeyArray::UniqueValues { length, .. } => length as nat,
            DictionaryKeyArray::SingleValue { length, .. } => length as nat,
        }
    }

    /// The position of the value of record `i`.
    pub open spec fn position(self, i: int) -> Option<usize> {
        match self {
            DictionaryKeyArray::KeyArray { keys, .. } => keys@[i],
            DictionaryKeyArray::BooleanArray { values, .. } => boolean_position(
                crate::boolean_array::boolean_values(*values)[i],
            ),
            DictionaryKeyArray::UniqueValues { .. } => Some(i as usize),
            DictionaryKeyArray::SingleValue { value_index, .. } => value_index,
        }
    }

    /// The positions of all records.
    pub open spec fn positions(self) -> Seq<Option<usize>> {
        Seq::new(self.spec_len(), |i: int| self.position(i))
    }

    /// The integer type of the keys.
    pub open spec fn key_type(self) -> KeyDataType {
        match self {
            DictionaryKeyArray::KeyArray { data_type, .. } => data_type,
            DictionaryKeyArray::BooleanArray { data_type, .. } => data_type,
            DictionaryKeyArray::UniqueValues { data_type, .. } => data_type,
            DictionaryKeyArray::SingleValue { data_type, .. } => data_type,
        }
    }

    /// The number of records.
    pub fn len(&self) -> (r: usize)
        ensures
            r == self.spec_len(),
    {
        match self {
            DictionaryKeyArray::KeyArray { keys, .. } => keys.len(),
            DictionaryKeyArray::BooleanArray { values, .. } => boolean_array_len(values),
            DictionaryKeyArray::UniqueValues { length, .. } => *length,
            DictionaryKeyArray::SingleValue { length, .. } => *length,
        }
    }

    /// Whether there is no record.
    pub fn is_empty(&self) -> (r: bool)
        ensures
            r == (self.spec_len() == 0),
    {
        self.len() == 0
    }

    /// The integer type of the keys.
    pub fn data_type(&self) -> (r: KeyDataType)
        ensures
            r == self.key_type(),
    {
        match self {
            DictionaryKeyArray::KeyArray { data_type, .. } => *data_type,
            DictionaryKeyArray::BooleanArray { data_type, .. } => *data_type,
            DictionaryKeyArray::UniqueValues { data_type, .. } => *data_type,
            DictionaryKeyArray::SingleValue { data_type, .. } => *data_type,
        }
    }

    /// What [`Self::get_value_index_for_key_index`] answers for `index`, which may lie past the last
    /// record: of unique and single values the record after the last is still answered for.
    pub open spec fn position_for(self, index: usize) -> Option<usize> {
        match self {
            DictionaryKeyArray::UniqueValues { length, .. } => if index > length {
                None
            } else {
                Some(index)
            },
            DictionaryKeyArray::SingleValue { length, value_index, .. } => if index > length {
                None
            } else {
                value_index
            },
            _ => if index < self.spec_len() {
                self.position(index as int)
            } else {
                None
            },
        }
    }

    /// The position of the value of the record at `index`.
    pub fn get_value_index_for_key_index(&self, index: usize) -> (r: Option<usize>)
        ensures
            r == self.position_for(index),
            index < self.spec_len() ==> r == self.position(index as int),
    {
        match self {
            DictionaryKeyArray::KeyArray { keys, .. } => {
                if index < keys.len() {
                    keys[index]
                } else {
                    None
                }
            },
            DictionaryKeyArray::BooleanArray { values, .. } => {
                if index < boolean_array_len(values) {
                    match boolean_array_get(values, index) {
                        Some(true) => Some(1),
                        Some(false) => Some(0),
                        None => None,
                    }
                } else {
                    None
                }
            },
            DictionaryKeyArray::UniqueValues { length, .. } => {
                if index > *length {
                    None
                } else {
                    Some(index)
                }
            },
            DictionaryKeyArray::SingleValue { length, value_index, .. } => {
                if index > *length {
                    None
                } else {
                    *value_index
                }
            },
        }
    }

    /// Whether no record has a position. Unique values always have one; a single value counts even
    /// where there is no record.
    pub open spec fn spec_is_null(self) -> bool {
        match self {
            DictionaryKeyArray::UniqueValues { .. } => false,
            DictionaryKeyArray::SingleValue { value_index, .. } => value_index is None,
            _ => forall|i: int| 0 <= i < self.spec_len() ==> #[trigger] self.position(i) is None,
        }
    }

    /// Whether no record has a position.
    pub fn is_null(&self) -> (r: bool)
        ensures
            r == self.spec_is_null(),
    {
        match self {
            DictionaryKeyArray::UniqueValues { .. } => false,
            DictionaryKeyArray::SingleValue { value_index, .. } => value_index.is_none(),
            _ => {
                let length: usize = self.len();
                let mut i: usize = 0;
                while i < length
                    invariant
                        i <= length == self.spec_len(),
                        forall|j: int| 0 <= j < i ==> #[trigger] self.position(j) is None,
                    decreases length - i,
                {
                    if self.get_value_index_for_key_index(i).is_some() {
                        assert(self.position(i as int) is Some);
                        return false;
                    }
                    i = i + 1;
                }
                true
            },
        }
    }

    /// Which records have a position, if some have none.
    pub fn nulls(&self) -> (r: Option<Vec<bool>>)
        ensures
            r is Some == (exists|i: int|
                0 <= i < self.spec_len() && #[trigger] self.position(i) is None),
            r matches Some(valid) ==> valid@ == Seq::new(
                self.spec_len(),
                |i: int| self.position(i) is Some,
            ),
    {
        let length: usize = self.len();
        let mut valid: Vec<bool> = Vec::new();
        let mut has_null: bool = false;
        let mut i: usize = 0;
        while i < length
            invariant
                i <= length == self.spec_len(),
                valid@ == Seq::new(i as nat, |j: int| self.position(j) is Some),
                has_null == (exists|j: int| 0 <= j < i && #[trigger] self.position(j) is None),
            decreases length - i,
        {
            let is_valid: bool = self.get_value_index_for_key_index(i).is_some();
            if !is_valid {
                has_null = true;
                assert(self.position(i as int) is None);
            }
            valid.push(is_valid);
            i = i + 1;
        }
        if has_null {
            Some(valid)
        } else {
            None
        }
    }

    /// The positions after a lookup was applied to them.
    pub open spec fn remapped(self, lookup: IndexLookup) -> Seq<Option<usize>> {
        Seq::new(
            self.spec_len(),
            |i: int|
                match self.position(i) {
                    Some(position) => crate::interning::lookup_position(lookup, position),
                    None => None,
                },
        )
    }

    /// The keys after the lookup was applied to them.
    pub fn transform_into_key_array(
        self,
        data_type: KeyDataType,
        value_index_lookup: IndexLookup,
    ) -> (keys: DictionaryKeyArray)
        ensures
            keys is KeyArray,
            keys.key_type() == data_type,
            keys.positions() == self.remapped(value_index_lookup),
    {
        self.transform_into_key_builder(data_type, value_index_lookup).finish()
    }

    /// A builder that holds the keys after the lookup was applied to them.
    pub fn transform_into_key_builder(
        self,
        data_type: KeyDataType,
        value_index_lookup: IndexLookup,
    ) -> (builder: DictionaryKeyArrayBuilder)
        ensures
            builder.wf(),
            builder.key_type() == data_type,
            builder.keys() == self.remapped(value_index_lookup),
    {
        match self {
            DictionaryKeyArray::KeyArray { data_type: _, keys } => {
                let ghost source = DictionaryKeyArray::KeyArray { data_type: self.key_type(), keys };
                let mut builder = DictionaryKeyArrayBuilder::new(data_type, keys.len());
                let mut i: usize = 0;
                while i < keys.len()
                    invariant
                        i <= keys@.len(),
                        builder.wf(),
                        builder.key_type() == data_type,
                        source.spec_len() == keys@.len(),
                        forall|j: int| 0 <= j < keys@.len() ==> source.position(j) == keys@[j],
                        builder.keys().len() == keys@.len(),
                        forall|j: int|
                            0 <= j < i ==> #[trigger] builder.keys()[j] == source.remapped(
                                value_index_lookup,
                            )[j],
                        forall|j: int|
                            i <= j < keys@.len() ==> #[trigger] builder.keys()[j] is Some,
                    decreases keys@.len() - i,
                {
                    let position: Option<usize> = match keys[i] {
                        Some(value_index) => apply_lookup(&value_index_lookup, value_index),
                        None => None,
                    };
                    builder.set_key(i, position);
                    i = i + 1;
                }
                assert(builder.keys() =~= source.remapped(value_index_lookup));
                builder
            },
            DictionaryKeyArray::BooleanArray { data_type: _, values } => {
                let ghost source = self;
                let length: usize = boolean_array_len(&values);
                let mut builder = DictionaryKeyArrayBuilder::new(data_type, length);
                let false_value_index: Option<usize> = apply_lookup(&value_index_lookup, 0);
                let true_value_index: Option<usize> = apply_lookup(&value_index_lookup, 1);
                let mut i: usize = 0;
                while i < length
                    invariant
                        i <= length,
                        length == crate::boolean_array::boolean_values(*values).len(),
                        source.spec_len() == length,
                        forall|j: int|
                            0 <= j < length ==> source.position(j) == boolean_position(
                                #[trigger] crate::boolean_array::boolean_values(*values)[j],
                            ),
                        false_value_index == crate::interning::lookup_position(
                            value_index_lookup,
                            0,
                        ),
                        true_value_index == crate::interning::lookup_position(
                            value_index_lookup,
                            1,
                        ),
                        builder.wf(),
                        builder.key_type() == data_type,
                        builder.keys().len() == length,
                        forall|j: int|
                            0 <= j < i ==> #[trigger] builder.keys()[j] == source.remapped(
                                value_index_lookup,
                            )[j],
                        forall|j: int| i <= j < length ==> #[trigger] builder.keys()[j] is Some,
                    decreases length - i,
                {
                    let position: Option<usize> = match boolean_array_get(&values, i) {
                        Some(true) => true_value_index,
                        Some(false) => false_value_index,
                        None => None,
                    };
                    builder.set_key(i, position);
                    i = i + 1;
                }
                assert(builder.keys() =~= source.remapped(value_index_lookup));
                builder
            },
            DictionaryKeyArray::UniqueValues { data_type: _, length } => {
                let ghost source = self;
                let mut builder = DictionaryKeyArrayBuilder::new(data_type, length);
                let mut i: usize = 0;
                while i < length
                    invariant
                        i <= length,
                        source.spec_len() == length,
                        source is UniqueValues,
                        builder.wf(),
                        builder.key_type() == data_type,
                        builder.keys().len() == length,
                        forall|j: int|
                            0 <= j < i ==> #[trigger] builder.keys()[j] == source.remapped(
                                value_index_lookup,
                            )[j],
                        forall|j: int| i <= j < length ==> #[trigger] builder.keys()[j] is Some,
                    decreases length - i,
                {
                    let position: Option<usize> = apply_lookup(&value_index_lookup, i);
                    builder.set_key(i, position);
                    i = i + 1;
                }
                assert(builder.keys() =~= source.remapped(value_index_lookup));
                builder
            },
            DictionaryKeyArray::SingleValue { data_type: _, length, value_index } => {
                let ghost source = self;
                let position: Option<usize> = match value_index {
                    Some(value_index) => apply_lookup(&value_index_lookup, value_index),
                    None => None,
                };
                match position {
                    Some(position) => {
                        let mut builder = DictionaryKeyArrayBuilder::new(data_type, length);
                        let mut i: usize = 0;
                        while i < length
                            invariant
                                i <= length,
                                builder.wf(),
                                builder.key_type() == data_type,
                                builder.keys().len() == length,
                                forall|j: int|
                                    0 <= j < i ==> #[trigger] builder.keys()[j] == Some(position),
                                forall|j: int|
                                    i <= j < length ==> #[trigger] builder.keys()[j] is Some,
                            decreases length - i,
                        {
                            builder.set_key(i, Some(position));
                            i = i + 1;
                        }
                        assert(builder.keys() =~= source.remapped(value_index_lookup));
                        builder
                    },
                    None => {
                        let builder = DictionaryKeyArrayBuilder::new_null(data_type, length);
                        assert(builder.keys() =~= source.remapped(value_index_lookup));
                        builder
                    },
                }
            },
        }
    }
}

/// Keys under construction. Every key is valid until it is marked as null.
pub struct DictionaryKeyArrayBuilder {
    data_type: KeyDataType,
    key_length: usize,
    key_byte_length: usize,
    key_buffer: Vec<usize>,
    null_buffer: Option<Vec<u8>>,
}

impl DictionaryKeyArrayBuilder {
    /// Whether the buffers fit the number of keys.
    pub closed spec fn wf(&self) -> bool {
        &&& self.key_buffer@.len() == self.key_length
        &&& self.key_byte_length == crate::arrow_utils::bytes_for_bits(self.key_length as int)
        &&& self.null_buffer matches Some(buffer) ==> buffer@.len() == self.key_byte_length
    }

    /// The integer type of the keys.
    pub closed spec fn key_type(&self) -> KeyDataType {
        self.data_type
    }

    /// The keys as they are so far.
    pub closed spec fn keys(&self) -> Seq<Option<usize>> {
        Seq::new(
            self.key_length as nat,
            |i: int|
                if self.null_buffer is Some && !crate::arrow_utils::bit_at(
                    self.null_buffer->0@,
                    i,
                ) {
                    None
                } else {
                    Some(self.key_buffer@[i])
                },
        )
    }

    /// Keys that all lead to position 0.
    pub fn new(data_type: KeyDataType, key_length: usize) -> (builder: Self)
        ensures
            builder.wf(),
            builder.key_type() == data_type,
            builder.keys() == Seq::new(key_length as nat, |i: int| Some(0usize)),
    {
        let key_byte_length: usize = arrow::util::bit_util::ceil(key_length, 8);
        let mut key_buffer: Vec<usize> = Vec::new();
        key_buffer.resize(key_length, 0);
        let builder = DictionaryKeyArrayBuilder {
            data_type,
            key_length,
            key_byte_length,
            key_buffer,
            null_buffer: None,
        };
        assert(builder.keys() =~= Seq::new(key_length as nat, |i: int| Some(0usize)));
        builder
    }

    /// Keys that are all null.
    pub fn new_null(data_type: KeyDataType, key_length: usize) -> (builder: Self)
        ensures
            builder.wf(),
            builder.key_type() == data_type,
            builder.keys() == Seq::new(key_length as nat, |i: int| None::<usize>),
    {
        let key_byte_length: usize = arrow::util::bit_util::ceil(key_length, 8);
        let mut key_buffer: Vec<usize> = Vec::new();
        key_buffer.resize(key_length, 0);
        let builder = DictionaryKeyArrayBuilder {
            data_type,
            key_length,
            key_byte_length,
            key_buffer,
            null_buffer: Some(crate::arrow_utils::new_null_buffer(key_length)),
        };
        assert(builder.keys() =~= Seq::new(key_length as nat, |i: int| None::<usize>));
        builder
    }

    /// The number of keys.
    pub fn get_key_length(&self) -> (r: usize)
        ensures
            r == self.keys().len(),
    {
        self.key_length
    }

    /// Writes the position of a key. A key that is null stays null.
    pub fn set_value_index_unchecked(&mut self, key_index: usize, value_index: usize)
        requires
            old(self).wf(),
            key_index < old(self).keys().len(),
        ensures
            final(self).wf(),
            final(self).key_type() == old(self).key_type(),
            final(self).keys() == old(self).keys().update(
                key_index as int,
                if old(self).keys()[key_index as int] is Some {
                    Some(value_index)
                } else {
                    None
                },
            ),
            final(self).written(key_index as int) == value_index,
    {
        self.key_buffer.set(key_index, value_index);
        assert(self.keys() =~= old(self).keys().update(
            key_index as int,
            if old(self).keys()[key_index as int] is Some {
                Some(value_index)
            } else {
                None
            },
        ));
    }

    /// Marks a key as null.
    pub fn set_null_unchecked(&mut self, key_index: usize)
        requires
            old(self).wf(),
            key_index < old(self).keys().len(),
        ensures
            final(self).wf(),
            final(self).key_type() == old(self).key_type(),
            final(self).keys() == old(self).keys().update(key_index as int, None),
    {
        let byte_length: usize = self.key_byte_length;
        push_null(&mut self.null_buffer, key_index, byte_length);
        assert(self.keys() =~= old(self).keys().update(key_index as int, None));
    }

    /// Marks a key as valid. It then leads to the position that was last written for it.
    pub fn set_nonnull_unchecked(&mut self, key_index: usize)
        requires
            old(self).wf(),
            key_index < old(self).keys().len(),
        ensures
            final(self).wf(),
            final(self).key_type() == old(self).key_type(),
            final(self).keys() == old(self).keys().update(
                key_index as int,
                Some(old(self).written(key_index as int)),
            ),
    {
        match self.null_buffer.take() {
            Some(buffer) => {
                let mut buffer = buffer;
                arrow::util::bit_util::set_bit(buffer.as_mut_slice(), key_index);
                self.null_buffer = Some(buffer);
            },
            None => {},
        }
        assert(self.keys() =~= old(self).keys().update(
            key_index as int,
            Some(old(self).written(key_index as int)),
        ));
    }

    /// The position that was last written for a key, null or not.
    pub closed spec fn written(&self, key_index: int) -> usize {
        self.key_buffer@[key_index]
    }

    /// Gives a key a position, or makes it null.
    fn set_key(&mut self, key_index: usize, position: Option<usize>)
        requires
            old(self).wf(),
            key_index < old(self).keys().len(),
            old(self).keys()[key_index as int] is Some,
        ensures
            final(self).wf(),
            final(self).key_type() == old(self).key_type(),
            final(self).keys() == old(self).keys().update(key_index as int, position),
    {
        match position {
            Some(value_index) => self.set_value_index_unchecked(key_index, value_index),
            None => self.set_null_unchecked(key_index),
        }
    }

    /// Whether some key is null.
    pub fn has_nulls(&self) -> (r: bool)
        requires
            self.wf(),
        ensures
            r == (exists|i: int| 0 <= i < self.keys().len() && #[trigger] self.keys()[i] is None),
    {
        match &self.null_buffer {
            None => {
                assert(forall|i: int|
                    0 <= i < self.keys().len() ==> #[trigger] self.keys()[i] is Some);
                false
            },
            Some(buffer) => {
                let mut i: usize = 0;
                while i < self.key_length
                    invariant
                        self.wf(),
                        self.null_buffer == Some(*buffer),
                        i <= self.key_length,
                        forall|j: int| 0 <= j < i ==> #[trigger] self.keys()[j] is Some,
                    decreases self.key_length - i,
                {
                    if !arrow::util::bit_util::get_bit(buffer.as_slice(), i) {
                        assert(self.keys()[i as int] is None);
                        return true;
                    }
                    i = i + 1;
                }
                false
            },
        }
    }

    /// The finished keys.
    pub fn finish(self) -> (keys: DictionaryKeyArray)
        requires
            self.wf(),
        ensures
            keys is KeyArray,
            keys.key_type() == self.key_type(),
            keys.positions() == self.keys(),
    {
        let mut keys: Vec<Option<usize>> = Vec::new();
        let mut i: usize = 0;
        while i < self.key_length
            invariant
                self.wf(),
                i <= self.key_length,
                keys@ == self.keys().subrange(0, i as int),
            decreases self.key_length - i,
        {
            let valid: bool = match &self.null_buffer {
                None => true,
                Some(buffer) => arrow::util::bit_util::get_bit(buffer.as_slice(), i),
            };
            if valid {
                keys.push(Some(self.key_buffer[i]));
            } else {
                keys.push(None);
            }
            assert(self.keys().subrange(0, i + 1) =~= self.keys().subrange(0, i as int).push(
                self.keys()[i as int],
            ));
            i = i + 1;
        }
        let finished = DictionaryKeyArray::KeyArray {
            data_type: self.data_type,
            keys: Rc::new(keys),
        };
        assert(finished.positions() =~= self.keys());
        finished
    }
}

impl Clone for DictionaryKeyArray {
    fn clone(&self) -> (copy: Self)
        ensures
            copy == *self,
    {
        match self {
            DictionaryKeyArray::KeyArray { data_type, keys } => DictionaryKeyArray::KeyArray {
                data_type: *data_type,
                keys: keys.clone(),
            },
            DictionaryKeyArray::BooleanArray { data_type, values } =>
                DictionaryKeyArray::BooleanArray { data_type: *data_type, values: values.clone() },
            DictionaryKeyArray::UniqueValues { data_type, length } =>
                DictionaryKeyArray::UniqueValues { data_type: *data_type, length: *length },
            DictionaryKeyArray::SingleValue { data_type, length, value_index } =>
                DictionaryKeyArray::SingleValue {
                data_type: *data_type,
                length: *length,
                value_index: *value_index,
            },
        }
    }
}

/// Whether two lists of positions are the same.
fn positions_equal(left: &Vec<Option<usize>>, right: &Vec<Option<usize>>) -> (r: bool)
    ensures
        r == (left@ == right@),
{
    if left.len() != right.len() {
        return false;
    }
    let mut i: usize = 0;
    while i < left.len()
        invariant
            i <= left@.len() == right@.len(),
            forall|j: int| 0 <= j < i ==> left@[j] == right@[j],
        decreases left@.len() - i,
    {
        let same: bool = match (left[i], right[i]) {
            (Some(l), Some(r)) => l == r,
            (None, None) => true,
            _ => false,
        };
        if !same {
            assert(left@[i as int] != right@[i as int]);
            return false;
        }
        i = i + 1;
    }
    assert(left@ =~= right@);
    true
}

/// Whether two boolean columns have the same entries.
fn booleans_equal(left: &BooleanArray, right: &BooleanArray) -> (r: bool)
    ensures
        r == (crate::boolean_array::boolean_values(*left) == crate::boolean_array::boolean_values(
            *right,
        )),
{
    let length: usize = boolean_array_len(left);
    if length != boolean_array_len(right) {
        return false;
    }
    let mut i: usize = 0;
    while i < length
        invariant
            i <= length == crate::boolean_array::boolean_values(*left).len(),
            length == crate::boolean_array::boolean_values(*right).len(),
            forall|j: int|
                0 <= j < i ==> crate::boolean_array::boolean_values(*left)[j]
                    == crate::boolean_array::boolean_values(*right)[j],
        decreases length - i,
    {
        let same: bool = match (boolean_array_get(left, i), boolean_array_get(right, i)) {
            (Some(l), Some(r)) => l == r,
            (None, None) => true,
            _ => false,
        };
        if !same {
            assert(crate::boolean_array::boolean_values(*left)[i as int]
                != crate::boolean_array::boolean_values(*right)[i as int]);
            return false;
        }
        i = i + 1;
    }
    assert(crate::boolean_array::boolean_values(*left) =~= crate::boolean_array::boolean_values(
        *right,
    ));
    true
}

impl DictionaryKeyArray {
    /// Whether the two are held in the same way, with the same positions in keys of the same type.
    pub open spec fn alike(self, other: Self) -> bool {
        &&& self.key_type() == other.key_type()
        &&& match (self, other) {
            (
                DictionaryKeyArray::KeyArray { keys: left, .. },
                DictionaryKeyArray::KeyArray { keys: right, .. },
            ) => left@ == right@,
            (
                DictionaryKeyArray::BooleanArray { values: left, .. },
                DictionaryKeyArray::BooleanArray { values: right, .. },
            ) => crate::boolean_array::boolean_values(*left)
                == crate::boolean_array::boolean_values(*right),
            (
                DictionaryKeyArray::UniqueValues { length: left, .. },
                DictionaryKeyArray::UniqueValues { length: right, .. },
            ) => left == right,
            (
                DictionaryKeyArray::SingleValue { length: left, value_index: first, .. },
                DictionaryKeyArray::SingleValue { length: right, value_index: second, .. },
            ) => left == right && first == second,
            _ => false,
        }
    }

    /// Whether the two are held in the same way, with the same positions in keys of the same type.
    pub fn is_like(&self, other: &Self) -> (r: bool)
        ensures
            r == self.alike(*other),
    {
        if self.data_type() != other.data_type() {
            return false;
        }
        match (self, other) {
            (
                DictionaryKeyArray::KeyArray { keys: left, .. },
                DictionaryKeyArray::KeyArray { keys: right, .. },
            ) => positions_equal(left, right),
            (
                DictionaryKeyArray::BooleanArray { values: left, .. },
                DictionaryKeyArray::BooleanArray { values: right, .. },
            ) => booleans_equal(left, right),
            (
                DictionaryKeyArray::UniqueValues { length: left, .. },
                DictionaryKeyArray::UniqueValues { length: right, .. },
            ) => *left == *right,
            (
                DictionaryKeyArray::SingleValue { length: left, value_index: first, .. },
                DictionaryKeyArray::SingleValue { length: right, value_index: second, .. },
            ) => *left == *right && match (first, second) {
                (Some(l), Some(r)) => *l == *r,
                (None, None) => true,
                _ => false,
            },
            _ => false,
        }
    }
}

impl PartialEq for DictionaryKeyArray {
    fn eq(&self, other: &Self) -> (r: bool) {
        self.is_like(other)
    }
}

impl vstd::std_specs::cmp::PartialEqSpecImpl for DictionaryKeyArray {
    open spec fn obeys_eq_spec() -> bool {
        true
    }

    open spec fn eq_spec(&self, other: &Self) -> bool {
        self.alike(*other)
    }
}

}
