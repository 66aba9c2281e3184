//! Reading the attributes of records by key.

use std::rc::Rc;

use vstd::prelude::*;

use crate::attribute_columns::{AttributeColumns, AttributeValueOrIndex, ValueCodec};
use crate::collections::{position_map_get, position_map_insert, position_map_new, PositionMap};
use crate::dictionary::Dictionary;
use crate::dictionary_keys::{DictionaryKeyArray, KeyDataType};
use crate::dictionary_values::DictionaryValueArray;
use crate::value::ValueOrRef;

verus! {

/// The attributes of records, with the ids by which the records are known to them.
pub struct OtapAttributesBatch {
    pub ids: Vec<Option<u16>>,
    pub columns: AttributeColumns,
}

/// The last of the first `n` records that have the id; the first of all if none has it.
pub open spec fn record_with_id(ids: Seq<Option<u16>>, id: int, n: int) -> int
    decreases n,
{
    if n <= 0 {
        0
    } else if ids[n - 1] matches Some(known) && known == id {
        n - 1
    } else {
        record_with_id(ids, id, n - 1)
    }
}

/// One more than the largest of the first `n` ids, or the number of records if that is more.
pub open spec fn id_space(ids: Seq<Option<u16>>, n: int) -> int
    decreases n,
{
    if n <= 0 {
        ids.len() as int
    } else {
        match ids[n - 1] {
            Some(id) => if id >= id_space(ids, n - 1) {
                id + 1
            } else {
                id_space(ids, n - 1)
            },
            None => id_space(ids, n - 1),
        }
    }
}

/// Finds a record by its id.
pub proof fn lemma_record_with_id(ids: Seq<Option<u16>>, id: int, n: int)
    requires
        0 <= n <= ids.len(),
    ensures
        (exists|r: int| 0 <= r < n && (#[trigger] ids[r] matches Some(known) && known == id)) ==> {
            let found = record_with_id(ids, id, n);
            &&& 0 <= found < n
            &&& ids[found] matches Some(known) && known == id
            &&& forall|r: int|
                found < r < n ==> !(#[trigger] ids[r] matches Some(known) && known == id)
        },
        !(exists|r: int| 0 <= r < n && (#[trigger] ids[r] matches Some(known) && known == id)) ==> record_with_id(
            ids,
            id,
            n,
        ) == 0,
        0 <= record_with_id(ids, id, n) && (n > 0 ==> record_with_id(ids, id, n) < n),
    decreases n,
{
    if n > 0 {
        lemma_record_with_id(ids, id, n - 1);
    }
}

/// The record that each id belongs to.
///
/// An id that no record has stands for the first record. Ids past the number of records lengthen the
/// list.
pub fn get_id_to_record_index_map(ids: &Vec<Option<u16>>) -> (map: Vec<u16>)
    requires
        ids@.len() <= 0x10000,
    ensures
        map@.len() == id_space(ids@, ids@.len() as int),
        forall|id: int|
            0 <= id < map@.len() ==> #[trigger] map@[id] == record_with_id(
                ids@,
                id,
                ids@.len() as int,
            ),
{
    let mut map: Vec<u16> = Vec::new();
    map.resize(ids.len(), 0u16);
    let mut record_index: usize = 0;
    while record_index < ids.len()
        invariant
            record_index <= ids@.len() <= 0x10000,
            map@.len() == id_space(ids@, record_index as int),
            map@.len() >= ids@.len(),
            forall|id: int|
                0 <= id < map@.len() ==> #[trigger] map@[id] == record_with_id(
                    ids@,
                    id,
                    record_index as int,
                ),
            forall|id: int|
                id >= map@.len() ==> #[trigger] record_with_id(ids@, id, record_index as int) == 0,
        decreases ids@.len() - record_index,
    {
        let ghost before = map@;
        if let Some(id) = ids[record_index] {
            let id: usize = id as usize;
            if id >= map.len() {
                map.resize(id + 1, 0u16);
            }
            map.set(id, record_index as u16);
        }
        proof {
            assert forall|id: int| 0 <= id < map@.len() implies #[trigger] map@[id]
                == record_with_id(ids@, id, record_index + 1) by {
                if id < before.len() {
                    assert(before[id] == record_with_id(ids@, id, record_index as int));
                } else {
                    assert(record_with_id(ids@, id, record_index as int) == 0);
                }
            }
            assert forall|id: int| id >= map@.len() implies #[trigger] record_with_id(
                ids@,
                id,
                record_index + 1,
            ) == 0 by {
                assert(record_with_id(ids@, id, record_index as int) == 0);
            }
        }
        record_index = record_index + 1;
    }
    map
}

impl OtapAttributesBatch {
    /// Whether the columns are well formed and every attribute belongs to an id in the space of ids.
    pub open spec fn wf(&self) -> bool {
        &&& self.columns.wf()
        &&& self.ids@.len() <= 0x10000
        &&& forall|i: int|
            0 <= i < self.columns.parent_ids@.len() ==> #[trigger] self.columns.parent_ids@[i]
                < id_space(self.ids@, self.ids@.len() as int)
    }

    /// The record that row `i` belongs to.
    pub open spec fn record_of(&self, i: int) -> int {
        record_with_id(self.ids@, self.columns.parent_ids@[i] as int, self.ids@.len() as int)
    }

    /// Whether row `i` belongs to an id that some record has.
    pub open spec fn owned(&self, i: int) -> bool {
        exists|r: int|
            0 <= r < self.ids@.len() && #[trigger] self.ids@[r] == Some(
                self.columns.parent_ids@[i],
            )
    }

    /// Whether row `i` gives record `record` a value under the key at position `key`.
    pub open spec fn gives(&self, key: int, record: int, i: int) -> bool {
        &&& self.columns.keys.keys@[i] == key
        &&& self.columns.has_value(i)
        &&& self.record_of(i) == record
    }

    /// The last of the first `n` rows that gives the record a value under the key.
    pub open spec fn last_row(&self, key: int, record: int, n: int) -> Option<int>
        decreases n,
    {
        if n <= 0 {
            None
        } else if self.gives(key, record, n - 1) {
            Some(n - 1)
        } else {
            self.last_row(key, record, n - 1)
        }
    }

    /// Whether `row` is what a record has under the key: the value of the last row that gives it one,
    /// and null if none does.
    pub open spec fn record_reads<C: ValueCodec>(
        &self,
        codec: &C,
        key: int,
        record: int,
        row: ValueOrRef,
    ) -> bool {
        match self.last_row(key, record, self.columns.types@.len() as int) {
            Some(i) => self.columns.reads(codec, i, row),
            None => row is Null,
        }
    }

    /// Whether row `i` has a value under the key at position `key`.
    pub open spec fn under(&self, key: int, i: int) -> bool {
        &&& self.columns.keys.keys@[i] == key
        &&& self.columns.has_value(i)
    }

    /// Whether two rows under the key have their values at one position of one dictionary.
    pub open spec fn same_entry(&self, key: int, j: int, i: int) -> bool {
        &&& self.under(key, j)
        &&& self.under(key, i)
        &&& self.columns.types@[j] == self.columns.types@[i]
        &&& self.columns.index(j) is Some
        &&& self.columns.index(j) == self.columns.index(i)
    }

    /// Whether row `i` is the first under the key that has its value where it has it.
    pub open spec fn fresh(&self, key: int, i: int) -> bool {
        &&& self.under(key, i)
        &&& forall|j: int| 0 <= j < i ==> !#[trigger] self.same_entry(key, j, i)
    }

    /// How many values the first `n` rows have under the key, where rows that have theirs at one
    /// position of a dictionary share it.
    pub open spec fn places(&self, key: int, n: int) -> nat
        decreases n,
    {
        if n <= 0 {
            0
        } else if self.fresh(key, n - 1) {
            self.places(key, n - 1) + 1
        } else {
            self.places(key, n - 1)
        }
    }

    /// Whether the value at a position has been read for row `j`, the first that has it.
    pub open spec fn placed<C: ValueCodec>(
        &self,
        codec: &C,
        key: int,
        j: int,
        position: usize,
        values: Seq<ValueOrRef>,
    ) -> bool {
        &&& self.fresh(key, j)
        &&& position == self.places(key, j)
        &&& position < values.len()
        &&& self.columns.reads(codec, j, values[position as int])
    }

    /// Whether the value of row `i` is at the position.
    pub open spec fn row_placed<C: ValueCodec>(
        &self,
        codec: &C,
        key: int,
        i: int,
        position: usize,
        values: Seq<ValueOrRef>,
    ) -> bool {
        exists|j: int|
            0 <= j <= i && #[trigger] self.fresh(key, j) && (j == i || self.same_entry(key, j, i))
                && self.placed(codec, key, j, position, values)
    }

    /// Whether the value of the last of the first `n` rows that gives the record one is at the
    /// position. The values are in the order of the rows that first have them.
    pub open spec fn positioned<C: ValueCodec>(
        &self,
        codec: &C,
        key: int,
        record: int,
        n: int,
        position: Option<usize>,
        values: Seq<ValueOrRef>,
    ) -> bool {
        match self.last_row(key, record, n) {
            Some(i) => position matches Some(p) && self.row_placed(codec, key, i, p, values),
            None => position is None,
        }
    }

    /// Whether the dictionary holds what each record has under a key.
    pub open spec fn gathered<C: ValueCodec>(
        &self,
        codec: &C,
        key: Seq<char>,
        dictionary: Dictionary,
    ) -> bool {
        &&& dictionary.wf()
        &&& dictionary.rows().len() == self.ids@.len()
        &&& dictionary.keys is KeyArray
        &&& dictionary.keys.key_type() == KeyDataType::UInt16
        &&& dictionary.values is Vec
        &&& forall|k: int| #[trigger]
            self.columns.keys.first_at(key, k) ==> dictionary.values.values().len()
                == self.places(k, self.columns.types@.len() as int)
        &&& forall|k: int, record: int|
            #[trigger] self.columns.keys.first_at(key, k) && 0 <= record < self.ids@.len()
                ==> self.positioned(
                codec,
                k,
                record,
                self.columns.types@.len() as int,
                #[trigger] dictionary.keys.positions()[record],
                dictionary.values.values(),
            )
        &&& forall|k: int, record: int|
            #[trigger] self.columns.keys.first_at(key, k) && 0 <= record < self.ids@.len()
                ==> self.record_reads(codec, k, record, #[trigger] dictionary.rows()[record])
    }

    /// What each record has under a key, or nothing if no attribute has that key.
    pub fn get_values<C: ValueCodec>(&self, codec: &C, key: &str) -> (r: Option<Dictionary>)
        requires
            self.wf(),
        ensures
            r is Some == (exists|k: int| #[trigger] self.columns.keys.first_at(key@, k)),
            r matches Some(dictionary) ==> self.gathered(codec, key@, dictionary),
    {
        let key_index: usize = match self.columns.keys.find(key) {
            Some(key_index) => key_index,
            None => {
                return None;
            },
        };
        let record_count: usize = self.ids.len();
        let map: Vec<u16> = get_id_to_record_index_map(&self.ids);
        let mut keys: Vec<Option<usize>> = Vec::new();
        keys.resize(record_count, None);
        let mut values: Vec<ValueOrRef> = Vec::new();
        let mut lookup: PositionMap = position_map_new();
        let mut i: usize = 0;
        let count: usize = self.columns.types.len();
        while i < count
            invariant
                self.wf(),
                i <= count,
                count == self.columns.types@.len(),
                record_count == self.ids@.len(),
                keys@.len() == record_count,
                values@.len() == self.places(key_index as int, i as int),
                map@.len() == id_space(self.ids@, self.ids@.len() as int),
                forall|id: int|
                    0 <= id < map@.len() ==> #[trigger] map@[id] == record_with_id(
                        self.ids@,
                        id,
                        self.ids@.len() as int,
                    ),
                forall|record: int|
                    0 <= record < record_count ==> self.positioned(
                        codec,
                        key_index as int,
                        record,
                        i as int,
                        #[trigger] keys@[record],
                        values@,
                    ),
                forall|name: usize|
                    #[trigger] crate::collections::position_entries(lookup).contains_key(name)
                        ==> self.remembered(
                        codec,
                        key_index as int,
                        i as int,
                        name as int,
                        crate::collections::position_entries(lookup)[name],
                        values@,
                    ),
                forall|j: int|
                    #![trigger self.under(key_index as int, j)]
                    0 <= j < i && self.under(key_index as int, j) && self.columns.index(j) is Some
                        ==> crate::collections::position_entries(lookup).contains_key(
                        (self.columns.types@[j] * 0x10000 + self.columns.index(j)->0) as usize,
                    ),
            decreases count - i,
        {
            let ghost before = values@;
            let ghost old_keys = keys@;
            let ghost old_lookup = crate::collections::position_entries(lookup);
            if self.columns.keys.keys[i] as usize == key_index {
                if let Some(entry) = self.columns.get_attribute_value_or_index(i) {
                    proof {
                        assert(self.under(key_index as int, i as int));
                    }
                    let index: usize = match entry {
                        AttributeValueOrIndex::ValueIndex(value_index) => {
                            assert(self.columns.index(i as int) == Some(value_index));
                            let value_type: usize = self.columns.types[i] as usize;
                            let name: usize = value_type * 0x10000 + value_index;
                            match position_map_get(&lookup, name) {
                                Some(Some(index)) => {
                                    proof {
                                        self.lemma_remembered(
                                            codec,
                                            key_index as int,
                                            i as int,
                                            name as int,
                                            index,
                                            values@,
                                        );
                                    }
                                    index
                                },
                                _ => {
                                    let index: usize = values.len();
                                    let value = self.columns.get_attribute_value(
                                        codec,
                                        i,
                                        value_index,
                                    );
                                    values.push(value);
                                    position_map_insert(&mut lookup, name, Some(index));
                                    proof {
                                        assert forall|j: int| 0 <= j < i implies !#[trigger] self.same_entry(
                                            key_index as int,
                                            j,
                                            i as int,
                                        ) by {
                                            if self.same_entry(key_index as int, j, i as int) {
                                                assert(self.under(key_index as int, j));
                                                assert(old_lookup.contains_key(name));
                                            }
                                        }
                                        assert(self.fresh(key_index as int, i as int));
                                        assert(self.named(key_index as int, i as int, name as int));
                                    }
                                    index
                                },
                            }
                        },
                        AttributeValueOrIndex::Value(value) => {
                            assert(self.columns.index(i as int) is None);
                            let index: usize = values.len();
                            values.push(value);
                            assert(self.fresh(key_index as int, i as int));
                            index
                        },
                    };
                    proof {
                        if values@.len() > before.len() {
                            assert(self.placed(codec, key_index as int, i as int, index, values@));
                        }
                        assert(self.row_placed(codec, key_index as int, i as int, index, values@));
                        lemma_record_with_id(
                            self.ids@,
                            self.columns.parent_ids@[i as int] as int,
                            self.ids@.len() as int,
                        );
                    }
                    let parent_id: usize = self.columns.parent_ids[i] as usize;
                    let record_index: usize = map[parent_id] as usize;
                    keys.set(record_index, Some(index));
                } else {
                    proof {
                        assert(!self.columns.has_value(i as int));
                    }
                }
            }
            proof {
                assert(before.is_prefix_of(values@));
                assert forall|record: int| 0 <= record < record_count implies self.positioned(
                    codec,
                    key_index as int,
                    record,
                    i + 1,
                    #[trigger] keys@[record],
                    values@,
                ) by {
                    if !self.gives(key_index as int, record, i as int) {
                        assert(self.positioned(
                            codec,
                            key_index as int,
                            record,
                            i as int,
                            old_keys[record],
                            before,
                        ));
                        self.lemma_positioned_grows(
                            codec,
                            key_index as int,
                            record,
                            i as int,
                            old_keys[record],
                            before,
                            values@,
                        );
                    }
                }
                let entries = crate::collections::position_entries(lookup);
                assert forall|name: usize| #[trigger] entries.contains_key(name) implies self.remembered(
                    codec,
                    key_index as int,
                    i + 1,
                    name as int,
                    entries[name],
                    values@,
                ) by {
                    if old_lookup.contains_key(name) && entries[name] == old_lookup[name] {
                        let p = old_lookup[name]->0;
                        let j = choose|j: int|
                            0 <= j < i && #[trigger] self.named(key_index as int, j, name as int)
                                && self.placed(codec, key_index as int, j, p, before);
                        assert(values@[p as int] == before[p as int]);
                        assert(self.placed(codec, key_index as int, j, p, values@));
                        assert(self.named(key_index as int, j, name as int));
                    } else {
                        assert(self.named(key_index as int, i as int, name as int));
                    }
                }
            }
            i = i + 1;
        }
        let dictionary = Dictionary::new(
            DictionaryKeyArray::KeyArray { data_type: KeyDataType::UInt16, keys: Rc::new(keys) },
            DictionaryValueArray::Vec(Rc::new(values)),
        );
        proof {
            assert(self.columns.keys.first_at(key@, key_index as int));
            assert forall|k: int, record: int|
                #[trigger] self.columns.keys.first_at(key@, k) && 0 <= record
                    < self.ids@.len() implies self.record_reads(
                codec,
                k,
                record,
                #[trigger] dictionary.rows()[record],
            ) by {
                if k < key_index {
                    assert(self.columns.keys.values@[k]@ != key@);
                } else if k > key_index {
                    assert(self.columns.keys.values@[key_index as int]@ != key@);
                }
                assert(k == key_index);
                assert(self.positioned(
                    codec,
                    key_index as int,
                    record,
                    count as int,
                    keys@[record],
                    values@,
                ));
                assert(dictionary.rows()[record] == dictionary.row(record));
                assert(dictionary.keys.position(record) == keys@[record]);
                if let Some(i) = self.last_row(k, record, count as int) {
                    self.lemma_last_row(k, record, count as int);
                    self.lemma_row_placed(codec, k, i, keys@[record]->0, values@);
                }
            }
            assert forall|record: int| 0 <= record < dictionary.keys.spec_len() implies (
            #[trigger] dictionary.keys.position(record) matches Some(position) ==> position
                < dictionary.values.values().len()) by {
                assert(self.positioned(
                    codec,
                    key_index as int,
                    record,
                    count as int,
                    keys@[record],
                    values@,
                ));
            }
        }
        Some(dictionary)
    }

    /// Whether the number names the entry that row `j` has its value at.
    spec fn named(&self, key: int, j: int, name: int) -> bool {
        &&& self.under(key, j)
        &&& self.columns.index(j) is Some
        &&& name == self.columns.types@[j] * 0x10000 + self.columns.index(j)->0
        &&& self.columns.index(j)->0 < 0x10000
    }

    /// Whether the value of a row at the entry that the number names is at the position.
    spec fn remembered<C: ValueCodec>(
        &self,
        codec: &C,
        key: int,
        n: int,
        name: int,
        position: Option<usize>,
        values: Seq<ValueOrRef>,
    ) -> bool {
        &&& position matches Some(p)
        &&& exists|j: int|
            0 <= j < n && #[trigger] self.named(key, j, name) && self.placed(
                codec,
                key,
                j,
                p,
                values,
            )
    }

    proof fn lemma_remembered<C: ValueCodec>(
        &self,
        codec: &C,
        key: int,
        i: int,
        name: int,
        position: usize,
        values: Seq<ValueOrRef>,
    )
        requires
            self.named(key, i, name),
            self.remembered(codec, key, i, name, Some(position), values),
        ensures
            self.row_placed(codec, key, i, position, values),
            !self.fresh(key, i),
    {
        let j = choose|j: int|
            0 <= j < i && #[trigger] self.named(key, j, name) && self.placed(
                codec,
                key,
                j,
                position,
                values,
            );
        assert(self.columns.types@[j] == self.columns.types@[i]);
        assert(self.same_entry(key, j, i));
        assert(self.fresh(key, j));
    }

    proof fn lemma_positioned_grows<C: ValueCodec>(
        &self,
        codec: &C,
        key: int,
        record: int,
        n: int,
        position: Option<usize>,
        before: Seq<ValueOrRef>,
        values: Seq<ValueOrRef>,
    )
        requires
            self.positioned(codec, key, record, n, position, before),
            before.is_prefix_of(values),
        ensures
            self.positioned(codec, key, record, n, position, values),
    {
        if let Some(i) = self.last_row(key, record, n) {
            let p = position->0;
            let j = choose|j: int|
                0 <= j <= i && #[trigger] self.fresh(key, j) && (j == i || self.same_entry(key, j, i))
                    && self.placed(codec, key, j, p, before);
            assert(values[p as int] == before[p as int]);
            assert(self.placed(codec, key, j, p, values));
        }
    }

    proof fn lemma_last_row(&self, key: int, record: int, n: int)
        ensures
            self.last_row(key, record, n) matches Some(i) ==> 0 <= i < n,
        decreases n,
    {
        if n > 0 {
            self.lemma_last_row(key, record, n - 1);
        }
    }

    /// Rows whose values are at one position of one dictionary read alike.
    proof fn lemma_row_placed<C: ValueCodec>(
        &self,
        codec: &C,
        key: int,
        i: int,
        position: usize,
        values: Seq<ValueOrRef>,
    )
        requires
            self.wf(),
            0 <= i < self.columns.types@.len(),
            self.row_placed(codec, key, i, position, values),
        ensures
            position < values.len(),
            self.columns.reads(codec, i, values[position as int]),
    {
        let j = choose|j: int|
            0 <= j <= i && #[trigger] self.fresh(key, j) && (j == i || self.same_entry(key, j, i))
                && self.placed(codec, key, j, position, values);
        assert(self.columns.types@[j] == self.columns.types@[i]);
    }
}

} // verus!
