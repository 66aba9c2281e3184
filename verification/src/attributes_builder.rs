//! Writing the attributes of records, row by row.


use vstd::prelude::*;

use crate::attribute_columns::{
    AdaptiveDictionaryReader, AttributeColumns, DictionaryColumn, ValueCodec,
};
use crate::nullable_column::{fill_cells, NullableColumn};
use crate::processed_value::{process_value, ProcessedValue};
use crate::value::ValueOrRef;
use crate::value_column::{fill_dictionay_range_unchecked, fill_plain_range, ValueColumn};

verus! {

/// The attributes of records, as they are being written.
pub struct AttributesBuilder {
    pub ids_array: NullableColumn<u16>,
    pub types_array: Vec<u8>,
    pub parent_ids_array: Vec<u16>,
    pub keys_array_u16: bool,
    pub keys_array: Vec<u16>,
    pub keys_value_builder: Vec<String>,
    pub strings_dict: Option<ValueColumn>,
    pub ints_dict: Option<ValueColumn>,
    pub doubles_array: Option<NullableColumn<u64>>,
    pub bools_array: Option<NullableColumn<bool>>,
    pub sers_dict: Option<ValueColumn>,
    pub bytes_dict: Option<ValueColumn>,
    pub attribute_position: usize,
    pub next_parent_id: u16,
}

/// How many of the first `n` records have no id.
pub open spec fn missing_ids(ids: NullableColumn<u16>, n: int) -> nat
    decreases n,
{
    if n <= 0 {
        0
    } else if ids.valid(n - 1) {
        missing_ids(ids, n - 1)
    } else {
        missing_ids(ids, n - 1) + 1
    }
}

/// The ids of records, and the next id, once each of these records in turn has been given the next id
/// if it had none.
pub open spec fn given_ids(ids: Seq<Option<u16>>, next: int, records: Seq<int>) -> (
    Seq<Option<u16>>,
    int,
)
    decreases records.len(),
{
    if records.len() == 0 {
        (ids, next)
    } else {
        let before = given_ids(ids, next, records.drop_last());
        let record = records.last();
        if before.0[record] is Some {
            before
        } else {
            (before.0.update(record, Some(before.1 as u16)), before.1 + 1)
        }
    }
}

/// The texts of keys.
pub open spec fn key_texts(keys: Seq<String>) -> Seq<Seq<char>> {
    Seq::new(keys.len(), |k: int| keys[k]@)
}

/// Giving out ids to some records and then to more is giving them out to all of these.
pub proof fn lemma_given_ids_more(
    ids: Seq<Option<u16>>,
    next: int,
    records: Seq<int>,
    more: Seq<int>,
)
    ensures
        given_ids(ids, next, records + more) == given_ids(
            given_ids(ids, next, records).0,
            given_ids(ids, next, records).1,
            more,
        ),
    decreases more.len(),
{
    if more.len() == 0 {
        assert(records + more =~= records);
    } else {
        lemma_given_ids_more(ids, next, records, more.drop_last());
        assert((records + more).drop_last() =~= records + more.drop_last());
    }
}

/// The next id does not fall as ids are given out.
pub proof fn lemma_given_ids_grow(ids: Seq<Option<u16>>, next: int, records: Seq<int>)
    ensures
        next <= given_ids(ids, next, records).1,
    decreases records.len(),
{
    if records.len() > 0 {
        lemma_given_ids_grow(ids, next, records.drop_last());
    }
}

/// Giving out ids to the first `n` records gives each of them one, in order.
pub proof fn lemma_given_ids_all(builder: AttributesBuilder, n: int)
    requires
        builder.wf(),
        0 <= n <= builder.records(),
    ensures
        ({
            let given = given_ids(
                builder.ids_array.options(),
                builder.next_parent_id as int,
                Seq::new(n as nat, |r: int| r),
            );
            &&& given.0.len() == builder.records()
            &&& given.1 == builder.next_parent_id + missing_ids(builder.ids_array, n)
            &&& forall|r: int|
                0 <= r < builder.records() ==> #[trigger] given.0[r] == (if r < n {
                    Some(all_assigned(builder, r) as u16)
                } else {
                    builder.ids_array.cell(r)
                })
        }),
    decreases n,
{
    let ids = builder.ids_array.options();
    let next = builder.next_parent_id as int;
    let all = Seq::new(n as nat, |r: int| r);
    if n == 0 {
        assert(all =~= Seq::<int>::empty());
    } else {
        lemma_given_ids_all(builder, n - 1);
        assert(all.drop_last() =~= Seq::new((n - 1) as nat, |r: int| r));
        assert(all.last() == n - 1);
        let before = given_ids(ids, next, all.drop_last());
        assert(before.0[n - 1] == builder.ids_array.cell(n - 1));
    }
}

/// The position of a key as it is written: two bytes or one.
pub open spec fn key_cell(keys_array_u16: bool, key_index: usize) -> u16 {
    if keys_array_u16 {
        key_index as u16
    } else {
        (key_index as u8) as u16
    }
}

/// Writes the position of a key.
pub fn write_key(keys_array_u16: bool, key_index: usize) -> (r: u16)
    ensures
        r == key_cell(keys_array_u16, key_index),
        r <= key_index,
        keys_array_u16 || r < 0x100,
{
    if keys_array_u16 {
        let r: u16 = #[verifier::truncate] (key_index as u16);
        assert(r <= key_index) by (bit_vector)
            requires
                r == key_index as u16,
        ;
        r
    } else {
        let r: u8 = #[verifier::truncate] (key_index as u8);
        assert(r <= key_index) by (bit_vector)
            requires
                r == key_index as u8,
        ;
        r as u16
    }
}

/// A position that its width has room for is written as it is.
pub proof fn lemma_key_cell(keys_array_u16: bool, key_index: usize)
    requires
        key_index < (if keys_array_u16 {
            0x10000int
        } else {
            0x100int
        }),
    ensures
        key_cell(keys_array_u16, key_index) == key_index,
{
    if keys_array_u16 {
        assert(key_index < 0x10000 ==> key_index as u16 == key_index) by (bit_vector);
    } else {
        assert(key_index < 0x100 ==> key_index as u8 == key_index) by (bit_vector);
    }
}

/// Giving one record an id leaves one less without.
proof fn lemma_missing_set(before: NullableColumn<u16>, after: NullableColumn<u16>, record: int, n: int)
    requires
        0 <= record,
        0 <= n <= before.spec_len(),
        before.spec_len() == after.spec_len(),
        !before.valid(record),
        forall|i: int|
            0 <= i < before.spec_len() ==> #[trigger] after.valid(i) == (i == record
                || before.valid(i)),
    ensures
        missing_ids(after, n) + (if record < n {
            1int
        } else {
            0int
        }) == missing_ids(before, n),
    decreases n,
{
    if n > 0 {
        lemma_missing_set(before, after, record, n - 1);
    }
}

/// A record without an id counts.
proof fn lemma_missing_at(ids: NullableColumn<u16>, record: int, n: int)
    requires
        0 <= record < n,
        !ids.valid(record),
    ensures
        missing_ids(ids, n) >= missing_ids(ids, record) + 1,
    decreases n,
{
    if n - 1 > record {
        lemma_missing_at(ids, record, n - 1);
    }
}

impl AttributesBuilder {
    /// The number of attributes that there is room for.
    pub open spec fn capacity(&self) -> nat {
        self.types_array@.len()
    }

    /// The number of records.
    pub open spec fn records(&self) -> nat {
        self.ids_array.spec_len()
    }

    /// Whether the columns have one length and are filled up to one position.
    pub open spec fn wf(&self) -> bool {
        let position = self.attribute_position as int;
        &&& self.ids_array.wf()
        &&& self.parent_ids_array@.len() == self.capacity()
        &&& self.keys_array@.len() == self.capacity()
        &&& position <= self.capacity()
        &&& crate::value_column::slot_wf(self.strings_dict, self.capacity(), position)
        &&& crate::value_column::slot_wf(self.ints_dict, self.capacity(), position)
        &&& crate::value_column::slot_wf(self.sers_dict, self.capacity(), position)
        &&& crate::value_column::slot_wf(self.bytes_dict, self.capacity(), position)
        &&& crate::value_column::plain_wf(self.doubles_array, self.capacity(), position)
        &&& crate::value_column::plain_wf(self.bools_array, self.capacity(), position)
        &&& self.rows_wf(position)
        &&& crate::value_column::slot_kind(self.strings_dict, 1)
        &&& crate::value_column::slot_kind(self.ints_dict, 2)
        &&& crate::value_column::slot_kind(self.sers_dict, 7)
        &&& crate::value_column::slot_kind(self.bytes_dict, 7)
    }

    /// Whether the first `n` rows have a known kind and a key that was added.
    pub open spec fn rows_wf(&self, n: int) -> bool {
        &&& forall|i: int| 0 <= i < n ==> #[trigger] self.types_array@[i] <= 7
        &&& forall|i: int|
            0 <= i < n ==> #[trigger] self.keys_array@[i] < self.keys_value_builder@.len() && (
            self.keys_array_u16 || self.keys_array@[i] < 0x100)
    }

    /// Whether no two records have one id, and the next id is past all of them.
    pub open spec fn ids_fresh(&self) -> bool {
        &&& forall|r: int|
            0 <= r < self.records() && #[trigger] self.ids_array.valid(r)
                ==> self.ids_array.cells@[r] < self.next_parent_id
        &&& forall|r: int, s: int|
            0 <= r < s < self.records() && #[trigger] self.ids_array.valid(r)
                && #[trigger] self.ids_array.valid(s) ==> self.ids_array.cells@[r]
                != self.ids_array.cells@[s]
    }

    /// Whether the column for a kind of attribute is there.
    pub open spec fn present(&self, attribute_type: u8) -> bool {
        match attribute_type {
            1 => self.strings_dict is Some,
            2 => self.ints_dict is Some,
            3 => self.doubles_array is Some,
            4 => self.bools_array is Some,
            5 => self.sers_dict is Some,
            6 => self.sers_dict is Some,
            7 => self.bytes_dict is Some,
            _ => true,
        }
    }

    /// What row `i` holds in the column of its kind.
    pub open spec fn value_at(&self, i: int) -> Option<ValueOrRef> {
        match self.types_array@[i] {
            1 => crate::value_column::slot_read(self.strings_dict, i),
            2 => crate::value_column::slot_read(self.ints_dict, i),
            3 => match crate::attribute_columns::nullable_cell(self.doubles_array, i) {
                Some(bits) => Some(ValueOrRef::Double(bits)),
                None => None,
            },
            4 => match crate::attribute_columns::nullable_cell(self.bools_array, i) {
                Some(value) => Some(ValueOrRef::Boolean(value)),
                None => None,
            },
            5 => crate::value_column::slot_read(self.sers_dict, i),
            6 => crate::value_column::slot_read(self.sers_dict, i),
            7 => crate::value_column::slot_read(self.bytes_dict, i),
            _ => None,
        }
    }

    /// The values of the dictionary for a kind of attribute.
    pub open spec fn held(&self, kind: u8) -> Seq<ValueOrRef> {
        crate::value_column::slot_kept(
            match kind {
                1 => self.strings_dict,
                2 => self.ints_dict,
                7 => self.bytes_dict,
                _ => self.sers_dict,
            },
        )
    }

    /// Whether the dictionary for a kind of attribute has grown by no more than `count` values, each of
    /// them among the contents.
    pub open spec fn dictionary_grew(
        &self,
        before: AttributesBuilder,
        count: int,
        contents: Set<ProcessedValue>,
        kind: u8,
    ) -> bool {
        let held = self.held(kind);
        let known = before.held(kind);
        &&& known.is_prefix_of(held)
        &&& held.len() <= known.len() + count
        &&& forall|k: int| known.len() <= k < held.len() ==> comes_of(contents, kind, #[trigger] held[k])
    }

    /// Whether every dictionary has grown by no more than `count` values, each of them among the
    /// contents.
    #[verifier::opaque]
    pub open spec fn grew(
        &self,
        before: AttributesBuilder,
        count: int,
        contents: Set<ProcessedValue>,
    ) -> bool {
        forall|kind: u8| #[trigger] self.dictionary_grew(before, count, contents, kind)
    }

    /// A builder whose dictionaries are as they were has grown by nothing.
    pub proof fn lemma_grew_same(
        &self,
        before: AttributesBuilder,
        count: int,
        contents: Set<ProcessedValue>,
    )
        requires
            0 <= count,
            forall|kind: u8| #[trigger] self.held(kind) == before.held(kind),
        ensures
            self.grew(before, count, contents),
    {
        reveal(AttributesBuilder::grew);
        assert forall|kind: u8| #[trigger] self.dictionary_grew(before, count, contents, kind) by {
            assert(self.held(kind) == before.held(kind));
        }
    }

    /// Growing twice is growing by both.
    pub proof fn lemma_grew_more(
        &self,
        before: AttributesBuilder,
        start: AttributesBuilder,
        first: int,
        known: Set<ProcessedValue>,
        second: int,
        more: Set<ProcessedValue>,
        contents: Set<ProcessedValue>,
    )
        requires
            before.grew(start, first, known),
            self.grew(before, second, more),
            known.subset_of(contents),
            more.subset_of(contents),
        ensures
            self.grew(start, first + second, contents),
    {
        reveal(AttributesBuilder::grew);
        assert forall|kind: u8| #[trigger]
            self.dictionary_grew(start, first + second, contents, kind) by {
            assert(before.dictionary_grew(start, first, known, kind));
            assert(self.dictionary_grew(before, second, more, kind));
            let held = self.held(kind);
            assert forall|k: int| start.held(kind).len() <= k < held.len() implies comes_of(
                contents,
                kind,
                #[trigger] held[k],
            ) by {
                if k < before.held(kind).len() {
                    assert(held[k] == before.held(kind)[k]);
                    assert(comes_of(known, kind, before.held(kind)[k]));
                    let processed = choose|processed: ProcessedValue|
                        #[trigger] known.contains(processed) && processed.part(kind) == Some(
                            held[k],
                        );
                    assert(contents.contains(processed));
                } else {
                    assert(comes_of(more, kind, held[k]));
                    let processed = choose|processed: ProcessedValue|
                        #[trigger] more.contains(processed) && processed.part(kind) == Some(held[k]);
                    assert(contents.contains(processed));
                }
            }
        }
    }

    /// Filling the columns with a value adds no other to the dictionaries, and that one once.
    pub proof fn lemma_filled_grew(
        &self,
        before: AttributesBuilder,
        start: int,
        end: int,
        processed: ProcessedValue,
    )
        requires
            self.columns_filled(before, start, end, processed),
        ensures
            self.grew(before, 1, set![processed]),
    {
        reveal(AttributesBuilder::grew);
        reveal(AttributesBuilder::columns_filled);
        assert forall|kind: u8| #[trigger] self.dictionary_grew(before, 1, set![processed], kind) by {
            let held = self.held(kind);
            assert forall|k: int| before.held(kind).len() <= k < held.len() implies comes_of(
                set![processed],
                kind,
                #[trigger] held[k],
            ) by {
                assert(set![processed].contains(processed));
            }
        }
    }

    /// A builder whose dictionaries are small enough fits.
    pub proof fn lemma_fits(&self)
        requires
            forall|kind: u8| (#[trigger] self.held(kind)).len() <= 0x10000,
        ensures
            self.fits(),
    {
        assert(self.held(1).len() <= 0x10000);
        assert(self.held(2).len() <= 0x10000);
        assert(self.held(5).len() <= 0x10000);
        assert(self.held(7).len() <= 0x10000);
    }

    /// Whether every dictionary has no more values than there are keys of two bytes.
    pub open spec fn fits(&self) -> bool {
        &&& slot_fits(self.strings_dict)
        &&& slot_fits(self.ints_dict)
        &&& slot_fits(self.sers_dict)
        &&& slot_fits(self.bytes_dict)
    }

    /// Whether there are no more keys than there are positions of their width.
    pub open spec fn fits_keys(&self) -> bool {
        self.keys_value_builder@.len() <= (if self.keys_array_u16 {
            0x10000int
        } else {
            0x100int
        })
    }

    /// Whether row `i` has the key.
    pub open spec fn has_key(&self, i: int, key: Seq<char>) -> bool {
        self.fits_keys() ==> self.keys_value_builder@[self.keys_array@[i] as int]@ == key
    }

    /// Whether the keys that were there are still in their places.
    pub open spec fn keys_grown(&self, before: AttributesBuilder) -> bool {
        &&& before.keys_value_builder@.len() <= self.keys_value_builder@.len()
        &&& self.keys_array_u16 == before.keys_array_u16
        &&& forall|k: int|
            0 <= k < before.keys_value_builder@.len() ==> (
            #[trigger] self.keys_value_builder@[k])@ == before.keys_value_builder@[k]@
    }

    /// Whether row `i` holds what has been pushed for it.
    pub open spec fn row_holds(&self, i: int, processed: ProcessedValue) -> bool {
        match processed.content() {
            Some(value) => self.value_at(i) matches Some(held) && (self.fits()
                ==> crate::interning::interned(held, value)),
            None => self.value_at(i) is None,
        }
    }

    /// Whether the rows before `start` are as they were: their key, their kind, their record and their
    /// value.
    pub open spec fn keeps(&self, before: AttributesBuilder, start: int) -> bool {
        &&& self.capacity() == before.capacity()
        &&& self.records() == before.records()
        &&& self.keys_array_u16 == before.keys_array_u16
        &&& forall|i: int|
            0 <= i < start ==> #[trigger] self.types_array@[i] == before.types_array@[i]
        &&& forall|i: int|
            0 <= i < start ==> #[trigger] self.keys_array@[i] == before.keys_array@[i]
        &&& forall|i: int|
            0 <= i < start ==> #[trigger] self.parent_ids_array@[i] == before.parent_ids_array@[i]
        &&& forall|i: int|
            0 <= i < start ==> #[trigger] self.value_at(i) == before.value_at(i)
        &&& forall|attribute_type: u8|
            before.present(attribute_type) ==> #[trigger] self.present(attribute_type)
        &&& self.fits() ==> before.fits()
    }

    /// What a row holds stays with it while more is added.
    pub proof fn lemma_row_holds(
        &self,
        before: AttributesBuilder,
        i: int,
        processed: ProcessedValue,
    )
        requires
            0 <= i < before.attribute_position,
            before.row_holds(i, processed),
            self.keeps(before, before.attribute_position as int),
        ensures
            self.row_holds(i, processed),
    {
        assert(self.value_at(i) == before.value_at(i));
    }

    /// Whether records have kept the ids that they had, and new ids are from the next on.
    pub open spec fn ids_grown(&self, before: AttributesBuilder) -> bool {
        &&& self.records() == before.records()
        &&& before.next_parent_id <= self.next_parent_id
        &&& forall|r: int|
            0 <= r < before.records() && #[trigger] before.ids_array.valid(r)
                ==> self.ids_array.valid(r) && self.ids_array.cells@[r]
                == before.ids_array.cells@[r]
        &&& forall|r: int|
            0 <= r < before.records() && !before.ids_array.valid(r)
                && #[trigger] self.ids_array.valid(r) ==> before.next_parent_id
                <= self.ids_array.cells@[r] < self.next_parent_id
        &&& before.ids_fresh() ==> self.ids_fresh()
    }

    /// A builder without attributes, for records without ids.
    pub fn new(record_count: usize, attribute_key_count: usize, attribute_count: usize) -> (builder: AttributesBuilder)
        ensures
            builder.wf(),
            builder.records() == record_count,
            builder.capacity() == attribute_count,
            builder.attribute_position == 0,
            builder.next_parent_id == 0,
            builder.keys_array_u16 == (attribute_key_count > 0xFF),
            builder.keys_value_builder@ == Seq::<String>::empty(),
            forall|r: int| 0 <= r < record_count ==> !#[trigger] builder.ids_array.valid(r),
            builder.ids_fresh(),
            forall|attribute_type: u8|
                #[trigger] builder.present(attribute_type) == (attribute_type == 0
                    || attribute_type > 7),
    {
        let mut types_array: Vec<u8> = Vec::new();
        types_array.resize(attribute_count, 0u8);
        let mut parent_ids_array: Vec<u16> = Vec::new();
        parent_ids_array.resize(attribute_count, 0u16);
        let mut keys_array: Vec<u16> = Vec::new();
        keys_array.resize(attribute_count, 0u16);
        let builder = AttributesBuilder {
            ids_array: NullableColumn::new_null(record_count, 0u16),
            types_array,
            parent_ids_array,
            keys_array_u16: attribute_key_count > 0xFF,
            keys_array,
            keys_value_builder: Vec::new(),
            strings_dict: None,
            ints_dict: None,
            doubles_array: None,
            bools_array: None,
            sers_dict: None,
            bytes_dict: None,
            attribute_position: 0,
            next_parent_id: 0,
        };
        builder
    }

    /// Adds a key and gives its position.
    pub fn push_key(&mut self, key: &str) -> (key_index: usize)
        requires
            old(self).wf(),
        ensures
            final(self).wf(),
            key_index == old(self).keys_value_builder@.len(),
            final(self).keys_value_builder@.len() == old(self).keys_value_builder@.len() + 1,
            final(self).keys_value_builder@.last()@ == key@,
            forall|k: int|
                0 <= k < old(self).keys_value_builder@.len()
                    ==> #[trigger] final(self).keys_value_builder@[k]
                    == old(self).keys_value_builder@[k],
            *final(self) == (AttributesBuilder {
                keys_value_builder: final(self).keys_value_builder,
                ..*old(self)
            }),
    {
        let key_index: usize = self.keys_value_builder.len();
        self.keys_value_builder.push(key.to_owned());
        key_index
    }

    /// Whether the record has an id, or can be given one.
    pub open spec fn id_at_hand(&self, record: int) -> bool {
        self.ids_array.valid(record) || self.next_parent_id < 0xFFFF
    }

    /// The id of a record, which is given the next one if it has none.
    fn assign_parent_id(&mut self, record_index: usize) -> (parent_id: u16)
        requires
            old(self).wf(),
            record_index < old(self).records(),
            old(self).id_at_hand(record_index as int),
        ensures
            final(self).wf(),
            *final(self) == (AttributesBuilder {
                ids_array: final(self).ids_array,
                next_parent_id: final(self).next_parent_id,
                ..*old(self)
            }),
            final(self).ids_grown(*old(self)),
            final(self).ids_array.valid(record_index as int),
            parent_id == final(self).ids_array.cells@[record_index as int],
            old(self).ids_array.valid(record_index as int) ==> *final(self) == *old(self),
            !old(self).ids_array.valid(record_index as int) ==> parent_id
                == old(self).next_parent_id && final(self).next_parent_id
                == old(self).next_parent_id + 1,
            forall|r: int|
                0 <= r < old(self).records() && r != record_index
                    ==> #[trigger] final(self).ids_array.valid(r) == old(self).ids_array.valid(r)
                    && final(self).ids_array.cells@[r] == old(self).ids_array.cells@[r],
            missing_ids(final(self).ids_array, record_index as int) == missing_ids(
                old(self).ids_array,
                record_index as int,
            ),
    {
        match self.ids_array.get(record_index) {
            Some(parent_id) => parent_id,
            None => {
                let ghost before = *self;
                let parent_id: u16 = self.next_parent_id;
                self.next_parent_id = parent_id + 1;
                self.ids_array.set(record_index, parent_id);
                proof {
                    lemma_missing_set(
                        before.ids_array,
                        self.ids_array,
                        record_index as int,
                        record_index as int,
                    );
                }
                parent_id
            },
        }
    }
}

impl AttributesBuilder {
    /// Whether the rows `start..end` of every column have been filled with what is to be kept in it: the
    /// value in the column of its kind, and nothing in the others.
    #[verifier::opaque]
    pub open spec fn columns_filled(
        &self,
        before: AttributesBuilder,
        start: int,
        end: int,
        processed: ProcessedValue,
    ) -> bool {
        &&& crate::value_column::slot_filled(
            before.strings_dict,
            self.strings_dict,
            start,
            end,
            processed.text(),
        )
        &&& crate::value_column::slot_filled(
            before.ints_dict,
            self.ints_dict,
            start,
            end,
            processed.integer(),
        )
        &&& crate::value_column::slot_filled(
            before.bytes_dict,
            self.bytes_dict,
            start,
            end,
            processed.bytes(),
        )
        &&& crate::value_column::slot_filled(
            before.sers_dict,
            self.sers_dict,
            start,
            end,
            processed.serialized(),
        )
        &&& crate::value_column::plain_filled(
            before.doubles_array,
            self.doubles_array,
            start,
            end,
            processed.double(),
        )
        &&& crate::value_column::plain_filled(
            before.bools_array,
            self.bools_array,
            start,
            end,
            processed.boolean(),
        )
    }

    /// Fills the rows from the position up to `end` of every column, and moves the position there.
    fn fill_columns(&mut self, end: usize, processed: ProcessedValue)
        requires
            old(self).wf(),
            old(self).attribute_position <= end <= old(self).capacity(),
            old(self).rows_wf(end as int),
            processed.wf(),
        ensures
            final(self).wf(),
            final(self).attribute_position == end,
            final(self).ids_array == old(self).ids_array,
            final(self).next_parent_id == old(self).next_parent_id,
            final(self).types_array == old(self).types_array,
            final(self).keys_array == old(self).keys_array,
            final(self).parent_ids_array == old(self).parent_ids_array,
            final(self).keys_value_builder == old(self).keys_value_builder,
            final(self).keeps(*old(self), old(self).attribute_position as int),
            final(self).columns_filled(
                *old(self),
                old(self).attribute_position as int,
                end as int,
                processed,
            ),
            forall|i: int|
                old(self).attribute_position <= i < end && (
                #[trigger] final(self).types_array@[i] == processed.attribute_type()
                    || processed is Empty) ==> final(self).row_holds(i, processed),
            processed.content() is Some ==> final(self).present(processed.attribute_type()),
            forall|attribute_type: u8|
                #[trigger] final(self).present(attribute_type) == (old(self).present(attribute_type)
                    || (processed.content() is Some && same_column(
                    attribute_type,
                    processed.attribute_type(),
                ))),
    {
        let ghost before = *self;
        let ghost content = processed;
        let count: usize = self.types_array.len();
        let start: usize = self.attribute_position;
        let mut text: Option<ValueOrRef> = None;
        let mut integer: Option<ValueOrRef> = None;
        let mut double: Option<u64> = None;
        let mut boolean: Option<bool> = None;
        let mut bytes: Option<ValueOrRef> = None;
        let mut serialized: Option<ValueOrRef> = None;
        match processed {
            ProcessedValue::Empty => {},
            ProcessedValue::String(value) => {
                text = value;
            },
            ProcessedValue::Integer(value) => {
                integer = value;
            },
            ProcessedValue::Double(value) => {
                double = value;
            },
            ProcessedValue::Boolean(value) => {
                boolean = Some(value);
            },
            ProcessedValue::Bytes(value) => {
                bytes = value;
            },
            ProcessedValue::Slice(value) => {
                serialized = value;
            },
            ProcessedValue::MapValue(value) => {
                serialized = value;
            },
        }
        fill_dictionay_range_unchecked(&mut self.strings_dict, count, start, end, text);
        fill_dictionay_range_unchecked(&mut self.ints_dict, count, start, end, integer);
        fill_plain_range(&mut self.doubles_array, count, start, end, double, 0u64);
        fill_plain_range(&mut self.bools_array, count, start, end, boolean, false);
        fill_dictionay_range_unchecked(&mut self.bytes_dict, count, start, end, bytes);
        fill_dictionay_range_unchecked(&mut self.sers_dict, count, start, end, serialized);
        self.attribute_position = end;
        proof {
            reveal(AttributesBuilder::columns_filled);
            crate::value_column::lemma_slot_kind_filled(
                before.strings_dict,
                self.strings_dict,
                start as int,
                end as int,
                content.text(),
                1,
            );
            crate::value_column::lemma_slot_kind_filled(
                before.ints_dict,
                self.ints_dict,
                start as int,
                end as int,
                content.integer(),
                2,
            );
            crate::value_column::lemma_slot_kind_filled(
                before.bytes_dict,
                self.bytes_dict,
                start as int,
                end as int,
                content.bytes(),
                7,
            );
            crate::value_column::lemma_slot_kind_filled(
                before.sers_dict,
                self.sers_dict,
                start as int,
                end as int,
                content.serialized(),
                7,
            );
            assert forall|i: int| 0 <= i < start implies #[trigger] self.value_at(i)
                == before.value_at(i) by {
                assert(crate::value_column::slot_read(self.strings_dict, i)
                    == crate::value_column::slot_read(before.strings_dict, i));
                assert(crate::value_column::slot_read(self.ints_dict, i)
                    == crate::value_column::slot_read(before.ints_dict, i));
                assert(crate::value_column::slot_read(self.bytes_dict, i)
                    == crate::value_column::slot_read(before.bytes_dict, i));
                assert(crate::value_column::slot_read(self.sers_dict, i)
                    == crate::value_column::slot_read(before.sers_dict, i));
                assert(crate::attribute_columns::nullable_cell(self.doubles_array, i)
                    == crate::attribute_columns::nullable_cell(before.doubles_array, i));
                assert(crate::attribute_columns::nullable_cell(self.bools_array, i)
                    == crate::attribute_columns::nullable_cell(before.bools_array, i));
            }
            assert forall|i: int|
                start <= i < end && (#[trigger] self.types_array@[i] == content.attribute_type()
                    || content is Empty) implies self.row_holds(i, content) by {
                let s = crate::value_column::slot_read(self.strings_dict, i);
                let n = crate::value_column::slot_read(self.ints_dict, i);
                let b = crate::value_column::slot_read(self.bytes_dict, i);
                let c = crate::value_column::slot_read(self.sers_dict, i);
                let d = crate::attribute_columns::nullable_cell(self.doubles_array, i);
                let e = crate::attribute_columns::nullable_cell(self.bools_array, i);
            }
        }
    }

    /// Adds one attribute of a kind.
    pub fn push_row(
        &mut self,
        record_index: usize,
        key_index: usize,
        attribute_type: u8,
        processed: ProcessedValue,
    )
        requires
            old(self).wf(),
            record_index < old(self).records(),
            old(self).id_at_hand(record_index as int),
            old(self).attribute_position < old(self).capacity(),
            processed is Empty || attribute_type == processed.attribute_type(),
            attribute_type <= 7,
            key_index < old(self).keys_value_builder@.len(),
            processed.wf(),
        ensures
            final(self).wf(),
            final(self).keeps(*old(self), old(self).attribute_position as int),
            final(self).pushed(*old(self), record_index as int, key_index, attribute_type, processed),
    {
        let ghost before = *self;
        let count: usize = self.types_array.len();
        let attribute_index: usize = self.attribute_position;
        assert(attribute_index < count);
        let key: u16 = write_key(self.keys_array_u16, key_index);
        self.keys_array.set(attribute_index, key);
        self.types_array.set(attribute_index, attribute_type);
        let parent_id: u16 = self.assign_parent_id(record_index);
        self.parent_ids_array.set(attribute_index, parent_id);
        let ghost ready = *self;
        self.fill_columns(attribute_index + 1, processed);
        proof {
            assert(self.types_array@[attribute_index as int] == attribute_type);
            assert(self.columns_filled(
                before,
                attribute_index as int,
                attribute_index + 1,
                processed,
            )) by {
                reveal(AttributesBuilder::columns_filled);
            }
            assert forall|i: int| 0 <= i < attribute_index implies #[trigger] self.value_at(i)
                == before.value_at(i) by {
                assert(ready.types_array@[i] == before.types_array@[i]);
                assert(ready.value_at(i) == before.value_at(i));
            }
            assert forall|attribute_type: u8| before.present(
                attribute_type,
            ) implies #[trigger] self.present(attribute_type) by {
                assert(ready.present(attribute_type) == before.present(attribute_type));
            }
            assert forall|other: u8| #[trigger] self.present(other) == (before.present(other) || (
            processed.content() is Some && same_column(other, processed.attribute_type()))) by {
                assert(ready.present(other) == before.present(other));
            }
        }
    }

    /// Whether one attribute has been added: a row with the key, the kind, the id of the record and
    /// the value.
    pub open spec fn pushed(
        &self,
        before: AttributesBuilder,
        record_index: int,
        key_index: usize,
        attribute_type: u8,
        processed: ProcessedValue,
    ) -> bool {
        let row = before.attribute_position as int;
        &&& self.attribute_position == row + 1
        &&& self.keys_array@[row] == key_cell(self.keys_array_u16, key_index)
        &&& self.types_array@[row] == attribute_type
        &&& self.ids_grown(before)
        &&& self.ids_array.valid(record_index)
        &&& self.parent_ids_array@[row] == self.ids_array.cells@[record_index]
        &&& !before.ids_array.valid(record_index) ==> self.ids_array.cells@[record_index]
            == before.next_parent_id && self.next_parent_id == before.next_parent_id + 1
        &&& before.ids_array.valid(record_index) ==> self.next_parent_id == before.next_parent_id
        &&& forall|r: int|
            0 <= r < before.records() && r != record_index ==> #[trigger] self.ids_array.valid(r)
                == before.ids_array.valid(r)
        &&& self.row_holds(row, processed)
        &&& self.columns_filled(before, row, row + 1, processed)
        &&& self.keys_value_builder == before.keys_value_builder
        &&& forall|other: u8|
            #[trigger] self.present(other) == (before.present(other) || (processed.content() is Some
                && same_column(other, processed.attribute_type())))
    }

    /// Adding an attribute gives its record an id if it had none, and no other.
    pub proof fn lemma_pushed_ids(
        &self,
        before: AttributesBuilder,
        record_index: int,
        key_index: usize,
        attribute_type: u8,
        processed: ProcessedValue,
        ids: Seq<Option<u16>>,
        next: int,
        records: Seq<int>,
    )
        requires
            self.pushed(before, record_index, key_index, attribute_type, processed),
            0 <= record_index < before.records(),
            given_ids(ids, next, records) == (
                before.ids_array.options(),
                before.next_parent_id as int,
            ),
        ensures
            given_ids(ids, next, records.push(record_index)) == (
                self.ids_array.options(),
                self.next_parent_id as int,
            ),
    {
        assert(records.push(record_index).drop_last() =~= records);
        let known = before.ids_array.options();
        let after = if known[record_index] is Some {
            known
        } else {
            known.update(record_index, Some(before.next_parent_id))
        };
        assert forall|r: int| 0 <= r < before.records() implies #[trigger] self.ids_array.options()[r]
            == after[r] by {
            assert(self.ids_array.valid(r) == (r == record_index || before.ids_array.valid(r)));
            if before.ids_array.valid(r) {
                assert(self.ids_array.cells@[r] == before.ids_array.cells@[r]);
            }
        }
        assert(self.ids_array.options() =~= after);
    }

    /// Adding an attribute to each record gives each of them an id.
    pub proof fn lemma_pushed_ids_for_all(
        &self,
        before: AttributesBuilder,
        key: Seq<char>,
        processed: ProcessedValue,
    )
        requires
            before.wf(),
            self.pushed_for_all(before, key, processed),
        ensures
            given_ids(
                before.ids_array.options(),
                before.next_parent_id as int,
                Seq::new(before.records(), |r: int| r),
            ) == (self.ids_array.options(), self.next_parent_id as int),
    {
        lemma_given_ids_all(before, before.records() as int);
        let given = given_ids(
            before.ids_array.options(),
            before.next_parent_id as int,
            Seq::new(before.records(), |r: int| r),
        );
        assert forall|r: int| 0 <= r < before.records() implies #[trigger] given.0[r]
            == self.ids_array.options()[r] by {
            assert(self.row_for_all(before, r, processed));
        }
        assert(given.0 =~= self.ids_array.options());
    }

    /// Adds one attribute to a record, under a key that was added before.
    pub fn push_value_for_key<C: ValueCodec>(
        &mut self,
        codec: &C,
        record_index: usize,
        key_index: usize,
        value: &ValueOrRef,
    )
        requires
            old(self).wf(),
            record_index < old(self).records(),
            old(self).id_at_hand(record_index as int),
            old(self).attribute_position < old(self).capacity(),
            key_index < old(self).keys_value_builder@.len(),
        ensures
            final(self).wf(),
            final(self).keeps(*old(self), old(self).attribute_position as int),
            exists|processed: ProcessedValue|
                #[trigger] crate::processed_value::processes(codec, *value, processed)
                    && final(self).pushed(
                    *old(self),
                    record_index as int,
                    key_index,
                    processed.attribute_type(),
                    processed,
                ),
    {
        let processed = process_value(codec, value);
        let ghost content = processed;
        assert(crate::processed_value::processes(codec, *value, content));
        let attribute_type: u8 = processed.get_attribute_type();
        self.push_row(record_index, key_index, attribute_type, processed);
    }

    /// Adds a key, and under it one attribute with the same value to each record.
    pub fn push_key_value_for_all_records<C: ValueCodec>(
        &mut self,
        codec: &C,
        key: &str,
        value: &ValueOrRef,
    )
        requires
            old(self).wf(),
            old(self).attribute_position + old(self).records() <= old(self).capacity(),
            old(self).next_parent_id + missing_ids(
                old(self).ids_array,
                old(self).records() as int,
            ) <= 0xFFFF,
        ensures
            final(self).wf(),
            final(self).keeps(*old(self), old(self).attribute_position as int),
            exists|processed: ProcessedValue|
                #[trigger] crate::processed_value::processes(codec, *value, processed)
                    && final(self).pushed_for_all(*old(self), key@, processed),
    {
        let ghost before = *self;
        let record_count: usize = self.ids_array.cells.len();
        let count: usize = self.types_array.len();
        let start: usize = self.attribute_position;
        assert(start + record_count <= count);
        let end: usize = start + record_count;
        let key_index: usize = self.push_key(key);
        let key_written: u16 = write_key(self.keys_array_u16, key_index);
        fill_cells(&mut self.keys_array, start, end, key_written);
        let processed = process_value(codec, value);
        let ghost content = processed;
        assert(crate::processed_value::processes(codec, *value, content));
        let attribute_type: u8 = processed.get_attribute_type();
        fill_cells(&mut self.types_array, start, end, attribute_type);
        let ghost keyed = *self;
        let mut record_index: usize = 0;
        while record_index < record_count
            invariant
                record_index <= record_count,
                record_count == self.records(),
                record_count == keyed.records(),
                start == keyed.attribute_position,
                end == start + record_count,
                end <= keyed.capacity(),
                keyed.next_parent_id + missing_ids(keyed.ids_array, keyed.records() as int)
                    <= 0xFFFF,
                self.wf(),
                *self == (AttributesBuilder {
                    ids_array: self.ids_array,
                    next_parent_id: self.next_parent_id,
                    parent_ids_array: self.parent_ids_array,
                    ..keyed
                }),
                self.ids_grown(keyed),
                forall|r: int|
                    0 <= r < record_index ==> #[trigger] self.ids_array.valid(r)
                        && self.ids_array.cells@[r] == all_assigned(keyed, r)
                        && self.parent_ids_array@[start + r] == self.ids_array.cells@[r],
                forall|r: int|
                    record_index <= r < record_count ==> #[trigger] self.ids_array.valid(r)
                        == keyed.ids_array.valid(r),
                self.next_parent_id == keyed.next_parent_id + missing_ids(
                    keyed.ids_array,
                    record_index as int,
                ),
                forall|i: int|
                    0 <= i < start ==> #[trigger] self.parent_ids_array@[i]
                        == keyed.parent_ids_array@[i],
            decreases record_count - record_index,
        {
            let ghost at = *self;
            assert(self.id_at_hand(record_index as int)) by {
                if !keyed.ids_array.valid(record_index as int) {
                    lemma_missing_at(
                        keyed.ids_array,
                        record_index as int,
                        keyed.records() as int,
                    );
                }
            }
            let parent_id: u16 = self.assign_parent_id(record_index);
            self.parent_ids_array.set(start + record_index, parent_id);
            record_index = record_index + 1;
            proof {
                assert forall|r: int| 0 <= r < record_index implies #[trigger] self.ids_array.valid(
                    r,
                ) && self.ids_array.cells@[r] == all_assigned(keyed, r)
                    && self.parent_ids_array@[start + r] == self.ids_array.cells@[r] by {
                    if r < record_index - 1 {
                        assert(at.ids_array.valid(r));
                    }
                }
                assert(keyed.ids_grown(keyed));
            }
        }
        let ghost ready = *self;
        self.fill_columns(end, processed);
        proof {
            assert forall|i: int| 0 <= i < start implies #[trigger] self.value_at(i)
                == before.value_at(i) by {
                assert(ready.types_array@[i] == before.types_array@[i]);
                assert(ready.value_at(i) == before.value_at(i));
            }
            assert forall|attribute_type: u8| before.present(
                attribute_type,
            ) implies #[trigger] self.present(attribute_type) by {
                assert(ready.present(attribute_type) == before.present(attribute_type));
            }
            assert forall|r: int| 0 <= r < before.records() implies #[trigger] self.row_for_all(
                before,
                r,
                content,
            ) by {
                assert(self.ids_array.valid(r));
                assert(self.types_array@[start + r] == content.attribute_type());
            }
            assert forall|other: u8| #[trigger] self.present(other) == (before.present(other) || (
            content.content() is Some && same_column(other, content.attribute_type()))) by {
                assert(ready.present(other) == before.present(other));
            }
            assert(self.columns_filled(before, start as int, end as int, content)) by {
                reveal(AttributesBuilder::columns_filled);
            }
            assert(self.pushed_for_all(before, key@, content));
        }
    }

    /// Whether the row that was added for record `r` has the new key, the kind, the id of the record
    /// and the value.
    pub open spec fn row_for_all(
        &self,
        before: AttributesBuilder,
        r: int,
        processed: ProcessedValue,
    ) -> bool {
        let row = before.attribute_position + r;
        &&& self.ids_array.valid(r)
        &&& self.ids_array.cells@[r] == all_assigned(before, r)
        &&& self.parent_ids_array@[row] == self.ids_array.cells@[r]
        &&& self.keys_array@[row] == key_cell(
            self.keys_array_u16,
            before.keys_value_builder@.len() as usize,
        )
        &&& self.types_array@[row] == processed.attribute_type()
        &&& self.row_holds(row, processed)
    }

    /// Whether a key has been added, and under it one attribute with the value to each record.
    pub open spec fn pushed_for_all(
        &self,
        before: AttributesBuilder,
        key: Seq<char>,
        processed: ProcessedValue,
    ) -> bool {
        &&& self.attribute_position == before.attribute_position + before.records()
        &&& self.keys_value_builder@.len() == before.keys_value_builder@.len() + 1
        &&& self.keys_value_builder@.last()@ == key
        &&& forall|k: int|
            0 <= k < before.keys_value_builder@.len() ==> #[trigger] self.keys_value_builder@[k]
                == before.keys_value_builder@[k]
        &&& self.ids_grown(before)
        &&& self.next_parent_id == before.next_parent_id + missing_ids(
            before.ids_array,
            before.records() as int,
        )
        &&& forall|r: int|
            0 <= r < before.records() ==> #[trigger] self.row_for_all(before, r, processed)
        &&& self.columns_filled(
            before,
            before.attribute_position as int,
            before.attribute_position + before.records(),
            processed,
        )
        &&& forall|other: u8|
            #[trigger] self.present(other) == (before.present(other) || (processed.content() is Some
                && same_column(other, processed.attribute_type())))
    }
}

/// Whether a column holds the keys and the values with which it was filled.
pub open spec fn slot_finished(
    slot: Option<ValueColumn>,
    finished: Option<DictionaryColumn>,
) -> bool {
    &&& finished is Some == slot is Some
    &&& slot matches Some(column) ==> finished->0.keys == column.column && finished->0.values@
        == column.kept()
}

/// The filled column, if it is there.
fn finish_slot(slot: Option<ValueColumn>) -> (r: Option<DictionaryColumn>)
    ensures
        slot_finished(slot, r),
{
    match slot {
        Some(column) => Some(column.finish()),
        None => None,
    }
}

impl AttributesBuilder {
    /// The ids of the records, and the attributes.
    pub fn finish(self) -> (r: (Vec<Option<u16>>, AttributeColumns))
        requires
            self.wf(),
        ensures
            r.0@ == self.ids_array.options(),
            r.1.parent_ids == self.parent_ids_array,
            r.1.types == self.types_array,
            r.1.keys.keys_u16 == self.keys_array_u16,
            r.1.keys.keys == self.keys_array,
            r.1.keys.values == self.keys_value_builder,
            slot_finished(self.strings_dict, r.1.strings),
            slot_finished(self.ints_dict, r.1.ints),
            r.1.doubles == self.doubles_array,
            r.1.bools == self.bools_array,
            slot_finished(self.bytes_dict, r.1.bytes),
            slot_finished(self.sers_dict, r.1.sers),
            forall|i: int|
                0 <= i < self.attribute_position ==> #[trigger] r.1.stored(i) == self.value_at(i),
            self.attribute_position == self.capacity() ==> r.1.wf(),
    {
        let ghost builder = self;
        let ids: Vec<Option<u16>> = self.ids_array.to_options();
        let columns = AttributeColumns {
            parent_ids: self.parent_ids_array,
            keys: AdaptiveDictionaryReader {
                keys_u16: self.keys_array_u16,
                keys: self.keys_array,
                values: self.keys_value_builder,
            },
            types: self.types_array,
            strings: finish_slot(self.strings_dict),
            ints: finish_slot(self.ints_dict),
            doubles: self.doubles_array,
            bools: self.bools_array,
            bytes: finish_slot(self.bytes_dict),
            sers: finish_slot(self.sers_dict),
        };
        proof {
            assert forall|i: int| 0 <= i < builder.attribute_position implies #[trigger] columns.stored(i)
                == builder.value_at(i) by {
                lemma_finished(builder.strings_dict, columns.strings, builder.capacity(), builder.attribute_position as int, i);
                lemma_finished(builder.ints_dict, columns.ints, builder.capacity(), builder.attribute_position as int, i);
                lemma_finished(builder.bytes_dict, columns.bytes, builder.capacity(), builder.attribute_position as int, i);
                lemma_finished(builder.sers_dict, columns.sers, builder.capacity(), builder.attribute_position as int, i);
            }
        }
        (ids, columns)
    }
}

/// A filled column reads as it was filled.
proof fn lemma_finished(
    slot: Option<ValueColumn>,
    finished: Option<DictionaryColumn>,
    count: nat,
    position: int,
    i: int,
)
    requires
        crate::value_column::slot_wf(slot, count, position),
        slot_finished(slot, finished),
        0 <= i < position,
    ensures
        crate::attribute_columns::dictionary_value(finished, i) == crate::value_column::slot_read(
            slot,
            i,
        ),
{
    if slot is Some && slot->0.column.valid(i) {
        assert(!(slot->0.kept()[slot->0.column.cells@[i] as int] is Null));
    }
}

/// The id that record `r` has once every record has one: ids are given out in the order of the
/// records.
pub open spec fn all_assigned(builder: AttributesBuilder, r: int) -> int {
    if builder.ids_array.valid(r) {
        builder.ids_array.cells@[r] as int
    } else {
        builder.next_parent_id + missing_ids(builder.ids_array, r)
    }
}

/// Whether a value of the dictionary for a kind of attribute is among the contents.
pub open spec fn comes_of(contents: Set<ProcessedValue>, kind: u8, value: ValueOrRef) -> bool {
    exists|processed: ProcessedValue|
        #[trigger] contents.contains(processed) && processed.part(kind) == Some(value)
}

/// Whether attributes of the two kinds are kept in one column.
pub open spec fn same_column(left: u8, right: u8) -> bool {
    left == right || (5 <= left <= 6 && 5 <= right <= 6)
}

/// Whether a dictionary that may be missing has no more values than there are keys of two bytes.
pub open spec fn slot_fits(slot: Option<ValueColumn>) -> bool {
    slot matches Some(column) ==> column.kept().len() <= 0x10000
}

} // verus!
