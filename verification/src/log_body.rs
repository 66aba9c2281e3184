//! The bodies of log records.

use std::rc::Rc;

use vstd::prelude::*;

use crate::attribute_columns::{
    DictionaryColumn, ValueCodec, BOOL_ATTRIBUTE_VALUE_TYPE, BYTES_ATTRIBUTE_VALUE_TYPE,
    DOUBLE_ATTRIBUTE_VALUE_TYPE, EMPTY_ATTRIBUTE_VALUE_TYPE, INT_ATTRIBUTE_VALUE_TYPE,
    STRING_ATTRIBUTE_VALUE_TYPE,
};
use crate::collections::{position_map_get, position_map_insert, position_map_new, PositionMap};
use crate::dictionary::Dictionary;
use crate::dictionary_keys::{DictionaryKeyArray, KeyDataType};
use crate::dictionary_values::DictionaryValueArray;
use crate::nullable_column::NullableColumn;
use crate::value::ValueOrRef;

verus! {

/// The columns in which the bodies of log records are kept: the kind of each, and its value in the
/// column of that kind.
pub struct LogsBody {
    pub types: Option<Vec<u8>>,
    pub strings: Option<DictionaryColumn>,
    pub ints: Option<DictionaryColumn>,
    pub doubles: Option<NullableColumn<u64>>,
    pub bools: Option<NullableColumn<bool>>,
    pub bytes: Option<DictionaryColumn>,
    pub sers: Option<DictionaryColumn>,
}

/// Whether a column, if it is there, has a row for each kind, and the rows of its own kinds have keys
/// of values.
pub open spec fn keys_in_range(
    column: Option<DictionaryColumn>,
    kinds: Seq<u8>,
    own: Set<u8>,
) -> bool {
    column matches Some(column) ==> {
        &&& column.keys.spec_len() == kinds.len()
        &&& forall|i: int|
            0 <= i < kinds.len() && own.contains(#[trigger] kinds[i]) ==> column.keys.cells@[i]
                < column.values@.len()
    }
}

impl LogsBody {
    /// The kinds of the bodies.
    pub open spec fn kinds(&self) -> Seq<u8> {
        match self.types {
            Some(types) => types@,
            None => Seq::empty(),
        }
    }

    /// Whether the columns have one length and agree with one another.
    pub open spec fn wf(&self) -> bool {
        let count = self.kinds().len();
        &&& forall|i: int| 0 <= i < count ==> #[trigger] self.kinds()[i] <= 7
        &&& keys_in_range(self.strings, self.kinds(), set![1u8])
        &&& keys_in_range(self.ints, self.kinds(), set![2u8])
        &&& keys_in_range(self.bytes, self.kinds(), set![7u8])
        &&& keys_in_range(self.sers, self.kinds(), set![5u8, 6u8])
        &&& self.doubles matches Some(column) ==> column.spec_len() == count
        &&& self.bools matches Some(column) ==> column.spec_len() == count
    }

    /// The dictionary in which values of a kind are found.
    pub open spec fn dictionary(&self, kind: u8) -> Option<DictionaryColumn> {
        match kind {
            1 => self.strings,
            2 => self.ints,
            5 => self.sers,
            6 => self.sers,
            7 => self.bytes,
            _ => None,
        }
    }

    /// Whether record `i` has its body in a dictionary that is there.
    pub open spec fn keyed(&self, i: int) -> bool {
        self.dictionary(self.kinds()[i]) is Some
    }

    /// The key of record `i`. Whether it is null is not looked at.
    pub open spec fn key(&self, i: int) -> u16 {
        self.dictionary(self.kinds()[i])->0.keys.cells@[i]
    }

    /// Whether the two records have their bodies at one place of one dictionary.
    pub open spec fn same_place(&self, i: int, j: int) -> bool {
        &&& self.keyed(i)
        &&& self.keyed(j)
        &&& self.kinds()[i] == self.kinds()[j]
        &&& self.key(i) == self.key(j)
    }

    /// Whether record `i` has a body.
    pub open spec fn has_body(&self, i: int) -> bool {
        match self.kinds()[i] {
            3 => self.doubles is Some,
            4 => self.bools is Some,
            _ => self.keyed(i),
        }
    }

    /// Whether the body of record `i` is at a place where no record before it has one.
    pub open spec fn fresh(&self, i: int) -> bool {
        &&& self.has_body(i)
        &&& forall|j: int| 0 <= j < i ==> !#[trigger] self.same_place(j, i)
    }

    /// How many of the first `n` records have a body at a new place.
    pub open spec fn places(&self, n: int) -> nat
        decreases n,
    {
        if n <= 0 {
            0
        } else if self.fresh(n - 1) {
            self.places(n - 1) + 1
        } else {
            self.places(n - 1)
        }
    }

    /// Whether `body` is what is read at the place of record `i`.
    pub open spec fn reads<C: ValueCodec>(&self, codec: &C, i: int, body: ValueOrRef) -> bool {
        match self.kinds()[i] {
            3 => body == ValueOrRef::Double(self.doubles->0.cells@[i]),
            4 => body == ValueOrRef::Boolean(self.bools->0.cells@[i]),
            5 => crate::attribute_columns::decodes(
                codec,
                self.sers->0.values@[self.key(i) as int],
                body,
            ),
            6 => crate::attribute_columns::decodes(
                codec,
                self.sers->0.values@[self.key(i) as int],
                body,
            ),
            _ => body == self.dictionary(self.kinds()[i])->0.values@[self.key(i) as int],
        }
    }

    /// Whether `body` is the body of record `i`: what is read at its place for the first record that
    /// has it there, or null if it has none.
    pub open spec fn body<C: ValueCodec>(&self, codec: &C, i: int, body: ValueOrRef) -> bool {
        if self.has_body(i) {
            exists|j: int|
                0 <= j <= i && #[trigger] self.fresh(j) && (j == i || self.same_place(j, i))
                    && self.reads(codec, j, body)
        } else {
            body is Null
        }
    }

    /// Whether the value at a position has been read for record `j`, the first that has it.
    pub open spec fn placed<C: ValueCodec>(
        &self,
        codec: &C,
        j: int,
        position: usize,
        values: Seq<ValueOrRef>,
    ) -> bool {
        &&& self.fresh(j)
        &&& position == self.places(j)
        &&& position < values.len()
        &&& self.reads(codec, j, values[position as int])
    }

    /// Whether the number names the place of record `j`.
    spec fn named(&self, j: int, name: int) -> bool {
        &&& self.keyed(j)
        &&& name == self.kinds()[j] * 0x10000 + self.key(j)
    }

    /// Whether the position is where the value of a record at the place that the number names is.
    spec fn remembered<C: ValueCodec>(
        &self,
        codec: &C,
        n: int,
        name: int,
        position: Option<usize>,
        values: Seq<ValueOrRef>,
    ) -> bool {
        &&& position matches Some(p)
        &&& exists|j: int|
            0 <= j < n && #[trigger] self.named(j, name) && self.placed(codec, j, p, values)
    }

    /// Whether `position` is where the body of record `i` is. Records at one place of a dictionary have
    /// one value; the values are in the order of the records that first have them.
    pub open spec fn positioned<C: ValueCodec>(
        &self,
        codec: &C,
        i: int,
        position: Option<usize>,
        values: Seq<ValueOrRef>,
    ) -> bool {
        if self.has_body(i) {
            &&& position matches Some(p)
            &&& exists|j: int|
                0 <= j <= i && #[trigger] self.fresh(j) && (j == i || self.same_place(j, i))
                    && self.placed(codec, j, p, values)
        } else {
            position is None
        }
    }

    /// Reads the value at the place of a record.
    fn read<C: ValueCodec>(&self, codec: &C, record: usize, kind: u8) -> (r: ValueOrRef)
        requires
            self.wf(),
            record < self.kinds().len(),
            kind == self.kinds()[record as int],
            self.has_body(record as int),
        ensures
            self.reads(codec, record as int, r),
    {
        match kind {
            STRING_ATTRIBUTE_VALUE_TYPE => value_at_key(&self.strings, record),
            INT_ATTRIBUTE_VALUE_TYPE => value_at_key(&self.ints, record),
            DOUBLE_ATTRIBUTE_VALUE_TYPE => match &self.doubles {
                Some(doubles) => ValueOrRef::Double(doubles.cells[record]),
                None => ValueOrRef::Null,
            },
            BOOL_ATTRIBUTE_VALUE_TYPE => match &self.bools {
                Some(bools) => ValueOrRef::Boolean(bools.cells[record]),
                None => ValueOrRef::Null,
            },
            BYTES_ATTRIBUTE_VALUE_TYPE => value_at_key(&self.bytes, record),
            _ => {
                assert(self.kinds()[record as int] <= 7);
                let form = value_at_key(&self.sers, record);
                crate::attribute_columns::decode(codec, &form)
            },
        }
    }

    /// The key of a record in the dictionary of its kind, if its body is in one that is there.
    fn find_key(&self, record: usize, kind: u8) -> (r: Option<u16>)
        requires
            self.wf(),
            record < self.kinds().len(),
            kind == self.kinds()[record as int],
        ensures
            r is Some == self.keyed(record as int),
            r matches Some(key) ==> key == self.key(record as int),
    {
        let column: &Option<DictionaryColumn> = match kind {
            STRING_ATTRIBUTE_VALUE_TYPE => &self.strings,
            INT_ATTRIBUTE_VALUE_TYPE => &self.ints,
            BYTES_ATTRIBUTE_VALUE_TYPE => &self.bytes,
            EMPTY_ATTRIBUTE_VALUE_TYPE => {
                return None;
            },
            DOUBLE_ATTRIBUTE_VALUE_TYPE => {
                return None;
            },
            BOOL_ATTRIBUTE_VALUE_TYPE => {
                return None;
            },
            _ => {
                assert(self.kinds()[record as int] <= 7);
                &self.sers
            },
        };
        match column {
            Some(column) => Some(column.keys.cells[record]),
            None => None,
        }
    }

    proof fn lemma_positioned_grows<C: ValueCodec>(
        &self,
        codec: &C,
        i: int,
        position: Option<usize>,
        before: Seq<ValueOrRef>,
        values: Seq<ValueOrRef>,
    )
        requires
            self.positioned(codec, i, position, before),
            before.is_prefix_of(values),
        ensures
            self.positioned(codec, i, position, values),
    {
        if self.has_body(i) {
            let p = position->0;
            let j = choose|j: int|
                0 <= j <= i && #[trigger] self.fresh(j) && (j == i || self.same_place(j, i))
                    && self.placed(codec, j, p, before);
            assert(values[p as int] == before[p as int]);
            assert(self.placed(codec, j, p, values));
        }
    }
}

/// The value at the key of a row.
fn value_at_key(column: &Option<DictionaryColumn>, row: usize) -> (r: ValueOrRef)
    requires
        column matches Some(held) ==> row < held.keys.spec_len() && held.keys.cells@[row as int]
            < held.values@.len(),
    ensures
        column matches Some(held) ==> r == held.values@[held.keys.cells@[row as int] as int],
{
    match column {
        Some(held) => held.values[held.keys.cells[row] as usize].clone(),
        None => ValueOrRef::Null,
    }
}

/// The bodies of the records, or nothing if their kinds are not known.
pub fn build_logs_body_dictionary_from_struct<C: ValueCodec>(
    codec: &C,
    body_struct: &LogsBody,
) -> (r: Option<Dictionary>)
    requires
        body_struct.wf(),
    ensures
        r is Some == body_struct.types is Some,
        r matches Some(dictionary) ==> {
            &&& dictionary.wf()
            &&& dictionary.keys.key_type() == KeyDataType::UInt16
            &&& dictionary.rows().len() == body_struct.kinds().len()
            &&& dictionary.keys is KeyArray
            &&& dictionary.values.values().len() == body_struct.places(
                body_struct.kinds().len() as int,
            )
            &&& forall|i: int|
                0 <= i < body_struct.kinds().len() ==> body_struct.positioned(
                    codec,
                    i,
                    #[trigger] dictionary.keys.positions()[i],
                    dictionary.values.values(),
                )
            &&& forall|i: int|
                0 <= i < body_struct.kinds().len() ==> body_struct.body(
                    codec,
                    i,
                    #[trigger] dictionary.rows()[i],
                )
        },
{
    let types: &Vec<u8> = match &body_struct.types {
        Some(types) => types,
        None => {
            return None;
        },
    };
    let mut keys: Vec<Option<usize>> = Vec::new();
    let mut values: Vec<ValueOrRef> = Vec::new();
    let mut lookup: PositionMap = position_map_new();
    let mut i: usize = 0;
    while i < types.len()
        invariant
            i <= types@.len(),
            types@ == body_struct.kinds(),
            body_struct.wf(),
            keys@.len() == i,
            values@.len() == body_struct.places(i as int),
            values@.len() <= i,
            forall|j: int|
                0 <= j < i ==> body_struct.positioned(codec, j, #[trigger] keys@[j], values@),
            forall|name: usize|
                #[trigger] crate::collections::position_entries(lookup).contains_key(name)
                    ==> body_struct.remembered(
                    codec,
                    i as int,
                    name as int,
                    crate::collections::position_entries(lookup)[name],
                    values@,
                ),
            forall|j: int|
                #![trigger body_struct.keyed(j)]
                0 <= j < i && body_struct.keyed(j) ==> crate::collections::position_entries(
                    lookup,
                ).contains_key((body_struct.kinds()[j] * 0x10000 + body_struct.key(j)) as usize),
        decreases types@.len() - i,
    {
        let ghost before = values@;
        let ghost old_keys = keys@;
        let ghost old_lookup = crate::collections::position_entries(lookup);
        let kind: u8 = types[i];
        assert(body_struct.kinds()[i as int] <= 7);
        let position: Option<usize> = match body_struct.find_key(i, kind) {
            Some(key) => {
                let name: usize = kind as usize * 0x10000 + key as usize;
                match position_map_get(&lookup, name) {
                    Some(position) => {
                        proof {
                            let p = position->0;
                            let j = choose|j: int|
                                0 <= j < i && #[trigger] body_struct.named(j, name as int)
                                    && body_struct.placed(codec, j, p, values@);
                            assert(body_struct.kinds()[j] == kind && body_struct.key(j) == key);
                            assert(body_struct.same_place(j, i as int));
                            assert(body_struct.fresh(j));
                        }
                        position
                    },
                    None => {
                        let position: usize = values.len();
                        let value = body_struct.read(codec, i, kind);
                        values.push(value);
                        position_map_insert(&mut lookup, name, Some(position));
                        proof {
                            assert forall|j: int| 0 <= j < i implies !#[trigger] body_struct.same_place(
                                j,
                                i as int,
                            ) by {
                                if body_struct.same_place(j, i as int) {
                                    assert(body_struct.keyed(j));
                                }
                            }
                            assert(body_struct.fresh(i as int));
                            assert(body_struct.named(i as int, name as int));
                            assert(body_struct.placed(codec, i as int, position, values@));
                        }
                        Some(position)
                    },
                }
            },
            None => {
                let there: bool = match kind {
                    DOUBLE_ATTRIBUTE_VALUE_TYPE => body_struct.doubles.is_some(),
                    BOOL_ATTRIBUTE_VALUE_TYPE => body_struct.bools.is_some(),
                    _ => false,
                };
                if there {
                    let position: usize = values.len();
                    let value = body_struct.read(codec, i, kind);
                    values.push(value);
                    proof {
                        assert(body_struct.fresh(i as int));
                        assert(body_struct.placed(codec, i as int, position, values@));
                    }
                    Some(position)
                } else {
                    None
                }
            },
        };
        keys.push(position);
        proof {
            assert(before.is_prefix_of(values@));
            assert(body_struct.positioned(codec, i as int, position, values@));
            assert forall|j: int| 0 <= j < i + 1 implies body_struct.positioned(
                codec,
                j,
                #[trigger] keys@[j],
                values@,
            ) by {
                if j < i {
                    assert(body_struct.positioned(codec, j, old_keys[j], before));
                    body_struct.lemma_positioned_grows(codec, j, old_keys[j], before, values@);
                }
            }
            let entries = crate::collections::position_entries(lookup);
            assert forall|name: usize| #[trigger] entries.contains_key(name) implies body_struct.remembered(
                codec,
                i + 1,
                name as int,
                entries[name],
                values@,
            ) by {
                if old_lookup.contains_key(name) && entries[name] == old_lookup[name] {
                    let p = old_lookup[name]->0;
                    let j = choose|j: int|
                        0 <= j < i && #[trigger] body_struct.named(j, name as int)
                            && body_struct.placed(codec, j, p, before);
                    assert(values@[p as int] == before[p as int]);
                    assert(body_struct.placed(codec, j, p, values@));
                    assert(body_struct.named(j, name as int));
                } else {
                    assert(body_struct.named(i as int, name as int));
                }
            }
        }
        i = i + 1;
    }
    let dictionary = Dictionary::new(
        DictionaryKeyArray::KeyArray { data_type: KeyDataType::UInt16, keys: Rc::new(keys) },
        DictionaryValueArray::Vec(Rc::new(values)),
    );
    proof {
        assert forall|j: int| 0 <= j < body_struct.kinds().len() implies body_struct.body(
            codec,
            j,
            #[trigger] dictionary.rows()[j],
        ) by {
            assert(body_struct.positioned(codec, j, keys@[j], values@));
            assert(dictionary.keys.position(j) == keys@[j]);
            assert(dictionary.rows()[j] == dictionary.row(j));
        }
        assert forall|j: int| 0 <= j < dictionary.keys.spec_len() implies (
        #[trigger] dictionary.keys.position(j) matches Some(position) ==> position
            < dictionary.values.values().len()) by {
            assert(body_struct.positioned(codec, j, keys@[j], values@));
        }
    }
    Some(dictionary)
}

} // verus!
