//! Dictionary encoded columns: keys that lead to values.

use std::rc::Rc;

use roaring::RoaringBitmap;
use vstd::prelude::*;

use crate::collections::{
    position_map_get, position_map_insert, position_map_new, value_set_get_index, value_set_len,
    PositionMap, ValueOrRefSet,
};
use crate::column_array::ColumnArray;
use crate::dictionary_keys::{DictionaryKeyArray, DictionaryKeyArrayBuilder, KeyDataType};
use crate::dictionary_values::DictionaryValueArray;
use crate::interning::{insert_value, lemma_filled_push, lemma_filled_start, IndexLookup};
use crate::row_bitmap::bitmap_to_vec;
use crate::value::ValueOrRef;

verus! {

/// A column of values, each of which is held once.
pub struct Dictionary {
    pub keys: DictionaryKeyArray,
    pub values: DictionaryValueArray,
}

impl Dictionary {
    /// The value of each record.
    pub open spec fn rows(self) -> Seq<ValueOrRef> {
        Seq::new(self.keys.spec_len(), |i: int| self.row(i))
    }

    /// The value of record `i`.
    pub open spec fn row(self, i: int) -> ValueOrRef {
        match self.keys.position(i) {
            Some(position) => self.values.value_at(position),
            None => ValueOrRef::Null,
        }
    }

    /// Whether every position that a key leads to is that of a value.
    pub open spec fn wf(self) -> bool {
        forall|i: int|
            0 <= i < self.keys.spec_len() ==> (#[trigger] self.keys.position(i) matches Some(position)
                ==> position < self.values.values().len())
    }

    /// Whether this is the dictionary in which every record has the one value, or none has any if that
    /// is null.
    pub open spec fn is_scalar(
        self,
        key_data_type: KeyDataType,
        key_count: nat,
        value: ValueOrRef,
    ) -> bool {
        &&& self.keys == (DictionaryKeyArray::SingleValue {
            data_type: key_data_type,
            length: key_count as usize,
            value_index: if value is Null {
                None
            } else {
                Some(0)
            },
        })
        &&& self.values.values() == (if value is Null {
            Seq::empty()
        } else {
            seq![value]
        })
    }

    /// A dictionary of the given keys and values.
    pub fn new(keys: DictionaryKeyArray, values: DictionaryValueArray) -> (r: Dictionary)
        ensures
            r.keys == keys,
            r.values == values,
    {
        Dictionary { keys, values }
    }

    /// A dictionary in which every record has a value of its own, in the order of the column.
    pub fn from_array(key_data_type: KeyDataType, values: Rc<ColumnArray>) -> (r: Dictionary)
        ensures
            r.wf(),
            r.keys == (DictionaryKeyArray::UniqueValues {
                data_type: key_data_type,
                length: values.spec_len() as usize,
            }),
            r.values == DictionaryValueArray::Array(values),
            r.rows() == r.values.values(),
    {
        let length: usize = values.len();
        let r = Dictionary {
            keys: DictionaryKeyArray::UniqueValues { data_type: key_data_type, length },
            values: DictionaryValueArray::Array(values),
        };
        assert(r.rows() =~= r.values.values());
        r
    }

    /// A dictionary in which every record has the same value.
    pub fn new_scalar_with_data_type(
        key_data_type: KeyDataType,
        key_count: usize,
        value: ValueOrRef,
    ) -> (r: Dictionary)
        ensures
            r.wf(),
            r.keys == (DictionaryKeyArray::SingleValue {
                data_type: key_data_type,
                length: key_count,
                value_index: Some(0),
            }),
            r.values.values() == seq![value],
            r.values is Vec,
            r.rows() == Seq::new(key_count as nat, |i: int| value),
    {
        let mut values: Vec<ValueOrRef> = Vec::new();
        let ghost scalar = value;
        values.push(value);
        let r = Dictionary {
            keys: DictionaryKeyArray::SingleValue {
                data_type: key_data_type,
                length: key_count,
                value_index: Some(0),
            },
            values: DictionaryValueArray::Vec(Rc::new(values)),
        };
        assert(r.rows() =~= Seq::new(key_count as nat, |i: int| scalar));
        r
    }

    /// A dictionary in which no record has a value.
    pub fn new_null_with_data_type(count: usize, data_type: KeyDataType) -> (r: Dictionary)
        ensures
            r.wf(),
            r.keys == (DictionaryKeyArray::SingleValue {
                data_type,
                length: count,
                value_index: None,
            }),
            r.values.values() == Seq::<ValueOrRef>::empty(),
            r.values is Vec,
            r.rows() == Seq::new(count as nat, |i: int| ValueOrRef::Null),
    {
        let r = Dictionary {
            keys: DictionaryKeyArray::SingleValue { data_type, length: count, value_index: None },
            values: DictionaryValueArray::Vec(Rc::new(Vec::new())),
        };
        assert(r.rows() =~= Seq::new(count as nat, |i: int| ValueOrRef::Null));
        r
    }

    /// The number of records.
    pub fn len(&self) -> (r: usize)
        ensures
            r == self.rows().len(),
    {
        self.keys.len()
    }

    /// Whether there is no record.
    pub fn is_empty(&self) -> (r: bool)
        ensures
            r == (self.rows().len() == 0),
    {
        self.keys.is_empty()
    }

    /// Whether no key leads anywhere, or every value is null.
    pub open spec fn nothing(self) -> bool {
        self.keys.spec_is_null() || forall|i: int|
            0 <= i < self.values.values().len() ==> #[trigger] self.values.values()[i] is Null
    }

    /// Whether no key leads anywhere, or every value is null.
    pub fn is_null(&self) -> (r: bool)
        ensures
            r == self.nothing(),
    {
        self.keys.is_null() || self.values.is_null()
    }

    /// The keys.
    pub fn keys(&self) -> (r: &DictionaryKeyArray)
        ensures
            *r == self.keys,
    {
        &self.keys
    }

    /// The values.
    pub fn values(&self) -> (r: &DictionaryValueArray)
        ensures
            *r == self.values,
    {
        &self.values
    }

    /// The keys and the values.
    pub fn into_parts(self) -> (r: (DictionaryKeyArray, DictionaryValueArray))
        ensures
            r == (self.keys, self.values),
    {
        (self.keys, self.values)
    }

    /// The position of the value of a record.
    pub fn get_value_index(&self, key_index: usize) -> (r: Option<usize>)
        ensures
            r == self.keys.position_for(key_index),
            key_index < self.rows().len() ==> r == self.keys.position(key_index as int),
    {
        self.keys.get_value_index_for_key_index(key_index)
    }

    /// What [`Self::get_value`] answers for a record, which may lie past the last one.
    pub open spec fn row_for(self, key_index: usize) -> ValueOrRef {
        match self.keys.position_for(key_index) {
            Some(position) => self.values.value_at(position),
            None => ValueOrRef::Null,
        }
    }

    /// The value of a record.
    pub fn get_value(&self, key_index: usize) -> (r: ValueOrRef)
        ensures
            r == self.row_for(key_index),
            key_index < self.rows().len() ==> r == self.rows()[key_index as int],
    {
        match self.get_value_index(key_index) {
            Some(value_index) => self.values.get_value_at(value_index),
            None => ValueOrRef::Null,
        }
    }

    /// Which records have a value that is not null, if there are nulls among the keys or the values.
    pub fn nulls(&self) -> (r: Option<Vec<bool>>)
        requires
            self.wf(),
        ensures
            r is None ==> forall|i: int|
                0 <= i < self.rows().len() ==> !(#[trigger] self.rows()[i] is Null),
            r matches Some(valid) ==> valid@ == Seq::new(
                self.rows().len(),
                |i: int| !(self.rows()[i] is Null),
            ),
            r is Some == ((exists|i: int|
                0 <= i < self.keys.spec_len() && #[trigger] self.keys.position(i) is None) || (
            exists|i: int|
                0 <= i < self.values.values().len() && #[trigger] self.values.values()[i] is Null)),
    {
        let key_nulls = self.keys.nulls();
        let value_nulls = self.values.nulls();
        match value_nulls {
            None => {
                match key_nulls {
                    None => {
                        assert forall|i: int| 0 <= i < self.rows().len() implies !(
                        #[trigger] self.rows()[i] is Null) by {
                            assert(self.keys.position(i) is Some);
                            assert(!(self.values.values()[self.keys.position(i)->0 as int] is Null));
                        }
                        None
                    },
                    Some(valid) => {
                        assert forall|i: int| 0 <= i < self.rows().len() implies valid@[i] == !(
                        #[trigger] self.rows()[i] is Null) by {
                            if self.keys.position(i) is Some {
                                assert(!(self.values.values()[self.keys.position(i)->0 as int] is Null));
                            }
                        }
                        assert(valid@ =~= Seq::new(
                            self.rows().len(),
                            |i: int| !(self.rows()[i] is Null),
                        ));
                        Some(valid)
                    },
                }
            },
            Some(value_valid) => {
                let key_length: usize = self.keys.len();
                let mut valid: Vec<bool> = Vec::new();
                let mut i: usize = 0;
                while i < key_length
                    invariant
                        self.wf(),
                        i <= key_length == self.keys.spec_len(),
                        value_valid@ == Seq::new(
                            self.values.values().len(),
                            |j: int| !(self.values.values()[j] is Null),
                        ),
                        valid@ == Seq::new(i as nat, |j: int| !(self.rows()[j] is Null)),
                    decreases key_length - i,
                {
                    let is_valid: bool = match self.keys.get_value_index_for_key_index(i) {
                        Some(position) => {
                            assert(self.keys.position(i as int) == Some(position));
                            value_valid[position]
                        },
                        None => false,
                    };
                    valid.push(is_valid);
                    i = i + 1;
                }
                Some(valid)
            },
        }
    }
}

/// The value that record `i` takes from `values`: null if it has none there.
pub open spec fn replacement(values: Dictionary, i: int) -> ValueOrRef {
    values.row_for(i as usize)
}

/// Whether `i` is one of the rows.
pub open spec fn holds_row(rows: Seq<u32>, i: int) -> bool {
    0 <= i <= u32::MAX && rows.contains(i as u32)
}

/// Whether `stored` is what a dictionary holds for `value`: the value or one equal to it, and null
/// for null alone.
pub open spec fn held_for(stored: ValueOrRef, value: ValueOrRef) -> bool {
    if value is Null {
        stored is Null
    } else {
        crate::interning::interned(stored, value) && !(stored is Null)
    }
}

/// Whether the key holds what the value asks for.
pub open spec fn key_holds(kept: Seq<ValueOrRef>, key: Option<usize>, value: ValueOrRef) -> bool {
    match key {
        None => value is Null,
        Some(position) => {
            &&& position < kept.len()
            &&& held_for(kept[position as int], value)
        },
    }
}

/// How the values of some records are replaced: what is kept of the values that were there, and where
/// these have gone; what is to be kept of the new ones, record by record, and where these have gone;
/// then the keys and the values that there are in the end.
pub struct ReplaceLayout {
    pub kept: Seq<ValueOrRef>,
    pub lookup: IndexLookup,
    pub inputs: Seq<crate::interning::Input>,
    pub positions: Seq<Option<usize>>,
    pub keys: Seq<Option<usize>>,
    pub values: Seq<ValueOrRef>,
}

/// The records whose values are replaced, in order.
pub open spec fn replaced_records(key_filter: Option<&RoaringBitmap>, count: nat) -> Seq<int> {
    match key_filter {
        None => Seq::new(count, |i: int| i),
        Some(filter) => Seq::new(
            crate::row_bitmap::bitmap_values(*filter).len(),
            |k: int| crate::row_bitmap::bitmap_values(*filter)[k] as int,
        ),
    }
}

/// Whether input `n` is what is to be kept of the value of the record: that of an earlier record, if
/// one has the same position, else the value.
pub open spec fn replaces(
    values: Dictionary,
    records: Seq<int>,
    inputs: Seq<crate::interning::Input>,
    n: int,
) -> bool {
    let position = values.keys.position_for(records[n] as usize);
    if position is None {
        inputs[n] == crate::interning::Input::Nothing
    } else {
        match inputs[n] {
            crate::interning::Input::Again(m) => 0 <= m < n && values.keys.position_for(records[m] as usize) == position,
            input => {
                &&& input == crate::interning::value_input(replacement(values, records[n]))
                &&& forall|m: int|
                    0 <= m < n ==> values.keys.position_for(#[trigger] records[m] as usize) != position
            },
        }
    }
}

/// Whether these are the keys and the values of the dictionary. One in which every record has the only
/// value, or that has no value, is held as such.
pub open spec fn finished(
    after: Dictionary,
    data_type: KeyDataType,
    keys: Seq<Option<usize>>,
    values: Seq<ValueOrRef>,
) -> bool {
    if values.len() == 0 {
        after.is_scalar(data_type, keys.len(), ValueOrRef::Null)
    } else if values.len() == 1 && (forall|i: int|
        0 <= i < keys.len() ==> #[trigger] keys[i] is Some) {
        &&& after.keys == (DictionaryKeyArray::SingleValue {
            data_type,
            length: keys.len() as usize,
            value_index: Some(0),
        })
        &&& after.values.values() == values
    } else {
        &&& after.keys is KeyArray
        &&& after.keys.key_type() == data_type
        &&& after.keys.positions() == keys
        &&& after.values.values() == values
    }
}

/// Whether the position of each value that was read is remembered.
spec fn visited_ok(
    values: Dictionary,
    records: Seq<int>,
    positions: Seq<Option<usize>>,
    visited: PositionMap,
) -> bool {
    &&& forall|key: usize|
        #[trigger] crate::collections::position_entries(visited).contains_key(key) ==> exists|m: int|
            #![trigger positions[m]]
            0 <= m < positions.len() && values.keys.position_for(records[m] as usize) == Some(key)
                && crate::collections::position_entries(visited)[key] == positions[m]
    &&& forall|m: int|
        #![trigger positions[m]]
        0 <= m < positions.len() ==> (values.keys.position_for(records[m] as usize) matches Some(key)
            ==> crate::collections::position_entries(visited).contains_key(key))
}

/// The records whose values are replaced, in order.
fn list_replaced(key_filter: Option<&RoaringBitmap>, count: usize) -> (rows: Vec<usize>)
    ensures
        rows@.len() == replaced_records(key_filter, count as nat).len(),
        forall|k: int|
            0 <= k < rows@.len() ==> #[trigger] rows@[k] == replaced_records(
                key_filter,
                count as nat,
            )[k],
        forall|a: int, b: int| 0 <= a < b < rows@.len() ==> rows@[a] < rows@[b],
{
    let mut rows: Vec<usize> = Vec::new();
    match key_filter {
        None => {
            let mut i: usize = 0;
            while i < count
                invariant
                    i <= count,
                    rows@.len() == i,
                    forall|k: int| 0 <= k < i ==> #[trigger] rows@[k] == k,
                decreases count - i,
            {
                rows.push(i);
                i = i + 1;
            }
        },
        Some(filter) => {
            let list: Vec<u32> = bitmap_to_vec(filter);
            let mut i: usize = 0;
            while i < list.len()
                invariant
                    i <= list@.len(),
                    rows@.len() == i,
                    forall|k: int| 0 <= k < i ==> #[trigger] rows@[k] == list@[k],
                decreases list@.len() - i,
            {
                rows.push(list[i] as usize);
                i = i + 1;
            }
        },
    }
    rows
}

impl Dictionary {
    /// Whether record `i` is among those that the filter lets through.
    pub open spec fn selected(key_filter: Option<&RoaringBitmap>, i: int) -> bool {
        match key_filter {
            None => true,
            Some(filter) => holds_row(crate::row_bitmap::bitmap_values(*filter), i),
        }
    }

    /// Whether the values are interned so, leaving nulls out. The values of a set are taken as they
    /// are.
    pub open spec fn interned_so(self, kept: Seq<ValueOrRef>, lookup: IndexLookup) -> bool {
        match self.values {
            DictionaryValueArray::SetValues(_) => kept == self.values.values() && lookup is None,
            DictionaryValueArray::Boolean => kept == self.values.values() && lookup is None,
            _ => crate::interning::interning(
                Seq::new(
                    self.values.values().len(),
                    |k: int| crate::dictionary_values::non_null(self.values.values()[k]),
                ),
                None,
                kept,
                lookup,
            ),
        }
    }

    /// Whether the replacement of values is laid out so.
    pub open spec fn laid_out_with(
        self,
        key_filter: Option<&RoaringBitmap>,
        values: Dictionary,
        layout: ReplaceLayout,
        after: Dictionary,
    ) -> bool {
        let records = replaced_records(key_filter, self.keys.spec_len());
        &&& self.interned_so(layout.kept, layout.lookup)
        &&& layout.inputs.len() == records.len()
        &&& forall|n: int|
            0 <= n < records.len() ==> #[trigger] replaces(values, records, layout.inputs, n)
        &&& crate::interning::filled(
            layout.kept,
            layout.inputs,
            layout.positions,
            layout.values,
        )
        &&& layout.keys.len() == self.keys.spec_len()
        &&& forall|n: int|
            0 <= n < records.len() ==> layout.keys[#[trigger] records[n]] == layout.positions[n]
        &&& forall|i: int|
            0 <= i < layout.keys.len() && !Self::selected(key_filter, i)
                ==> #[trigger] layout.keys[i] == self.keys.remapped(layout.lookup)[i]
        &&& finished(after, self.keys.key_type(), layout.keys, layout.values)
    }

    /// Whether `after` is this dictionary with the values of the selected records replaced by those in
    /// `values`. The values that were there stay, each once, even if no record has them any more; new
    /// ones come behind them, in the order of the records.
    pub open spec fn replaced(
        self,
        key_filter: Option<&RoaringBitmap>,
        values: Dictionary,
        after: Dictionary,
    ) -> bool {
        if key_filter is None && values.keys is SingleValue {
            &&& after.keys.key_type() == values.keys.key_type()
            &&& after.rows() == values.rows()
            &&& after.is_scalar(
                values.keys.key_type(),
                values.keys.spec_len(),
                match values.keys.position(0) {
                    Some(position) => values.values.value_at(position),
                    None => ValueOrRef::Null,
                },
            )
        } else {
            &&& after.keys.key_type() == self.keys.key_type()
            &&& after.rows().len() == self.rows().len()
            &&& exists|layout: ReplaceLayout| #[trigger]
                self.laid_out_with(key_filter, values, layout, after)
            &&& forall|i: int|
                0 <= i < self.rows().len() ==> held_for(
                    #[trigger] after.rows()[i],
                    if Self::selected(key_filter, i) {
                        replacement(values, i)
                    } else {
                        self.rows()[i]
                    },
                )
        }
    }

    /// The dictionary with the values of the selected records replaced by those in `values`.
    ///
    /// Without a filter, `values` that are the same for every record are taken as they are, with
    /// their number of records. Else the number of records stays.
    pub fn with_values(self, key_filter: Option<&RoaringBitmap>, values: &Dictionary) -> (r:
        Dictionary)
        requires
            self.wf(),
            key_filter matches Some(filter) ==> forall|k: int|
                0 <= k < crate::row_bitmap::bitmap_values(*filter).len()
                    ==> #[trigger] crate::row_bitmap::bitmap_values(*filter)[k]
                    < self.keys.spec_len(),
        ensures
            r.wf(),
            self.replaced(key_filter, *values, r),
    {
        if key_filter.is_none() {
            if let DictionaryKeyArray::SingleValue { data_type, length, value_index } = &values.keys {
                return match value_index {
                    Some(value_index) => {
                        let value = values.values.get_value_at(*value_index);
                        if value.is_null() {
                            let r = Dictionary::new_null_with_data_type(*length, *data_type);
                            assert(r.rows() =~= values.rows());
                            r
                        } else {
                            let r = Dictionary::new_scalar_with_data_type(
                                *data_type,
                                *length,
                                value,
                            );
                            assert(r.rows() =~= values.rows());
                            r
                        }
                    },
                    None => {
                        let r = Dictionary::new_null_with_data_type(*length, *data_type);
                        assert(r.rows() =~= values.rows());
                        r
                    },
                };
            }
        }
        let ghost source = self;
        let data_type: KeyDataType = self.keys.data_type();
        let (source_keys, values_array) = self.into_parts();
        let (source_values, lookup) = values_array.into_set();
        let ghost found = lookup;
        let mut source_values = source_values;
        let ghost initial = crate::collections::set_values(source_values);
        let mut builder = source_keys.transform_into_key_builder(data_type, lookup);
        let key_length: usize = builder.get_key_length();
        let rows: Vec<usize> = list_replaced(key_filter, key_length);
        let ghost records = replaced_records(key_filter, key_length as nat);
        let ghost mut inputs: Seq<crate::interning::Input> = Seq::empty();
        let ghost mut positions: Seq<Option<usize>> = Seq::empty();
        proof {
            assert(source.interned_so(initial, found));
            lemma_filled_start(initial);
            assert forall|i: int| 0 <= i < key_length implies key_holds(
                initial,
                #[trigger] builder.keys()[i],
                source.rows()[i],
            ) by {
                source.lemma_interned_key(initial, found, i);
            }
            assert forall|k: int| 0 <= k < records.len() implies 0 <= #[trigger] records[k]
                < key_length by {}
        }
        let mut visited_values: PositionMap = position_map_new();
        let mut n: usize = 0;
        while n < rows.len()
            invariant
                n <= rows@.len() == records.len(),
                forall|k: int| 0 <= k < rows@.len() ==> #[trigger] rows@[k] == records[k],
                forall|k: int| 0 <= k < records.len() ==> 0 <= #[trigger] records[k] < key_length,
                forall|a: int, b: int| 0 <= a < b < rows@.len() ==> rows@[a] < rows@[b],
                builder.wf(),
                builder.key_type() == data_type,
                builder.keys().len() == key_length == source.keys.spec_len(),
                inputs.len() == n,
                forall|m: int| 0 <= m < n ==> #[trigger] replaces(*values, records, inputs, m),
                crate::interning::filled(
                    initial,
                    inputs,
                    positions,
                    crate::collections::set_values(source_values),
                ),
                visited_ok(*values, records, positions, visited_values),
                forall|m: int| 0 <= m < n ==> builder.keys()[#[trigger] records[m]] == positions[m],
                forall|i: int|
                    0 <= i < key_length && !records.subrange(0, n as int).contains(i)
                        ==> #[trigger] builder.keys()[i] == source.keys.remapped(found)[i],
                forall|i: int|
                    0 <= i < key_length ==> key_holds(
                        crate::collections::set_values(source_values),
                        #[trigger] builder.keys()[i],
                        if records.subrange(0, n as int).contains(i) {
                            replacement(*values, i)
                        } else {
                            source.rows()[i]
                        },
                    ),
            decreases rows@.len() - n,
        {
            let ghost kept = crate::collections::set_values(source_values);
            let ghost keys = builder.keys();
            let ghost done = records.subrange(0, n as int);
            let ghost inputs_before = inputs;
            let ghost positions_before = positions;
            let row: usize = rows[n];
            let ghost mut input = crate::interning::Input::Nothing;
            let position: Option<usize> = match values.get_value_index(row) {
                None => None,
                Some(value_key) => match position_map_get(&visited_values, value_key) {
                    Some(position) => {
                        proof {
                            let m = choose|m: int|
                                #![trigger positions[m]]
                                0 <= m < positions.len() && values.keys.position_for(
                                    records[m] as usize,
                                ) == Some(value_key) && crate::collections::position_entries(
                                    visited_values,
                                )[value_key] == positions[m];
                            input = crate::interning::Input::Again(m);
                            assert(builder.keys()[records[m]] == positions[m]);
                            assert(done[m] == records[m]);
                            assert(done.contains(records[m]));
                            assert(replacement(*values, records[m]) == replacement(
                                *values,
                                row as int,
                            ));
                        }
                        position
                    },
                    None => {
                        let value = values.values.get_value_at(value_key);
                        proof {
                            input = crate::interning::value_input(value);
                        }
                        let position: Option<usize> = if value.is_null() {
                            None
                        } else {
                            let position: usize = insert_value(&mut source_values, value);
                            Some(position)
                        };
                        position_map_insert(&mut visited_values, value_key, position);
                        position
                    },
                },
            };
            match position {
                None => {
                    builder.set_null_unchecked(row);
                },
                Some(position) => {
                    builder.set_value_index_unchecked(row, position);
                    builder.set_nonnull_unchecked(row);
                },
            }
            n = n + 1;
            proof {
                let now = crate::collections::set_values(source_values);
                lemma_filled_push(initial, inputs, positions, kept, input, position, now);
                inputs = inputs.push(input);
                positions = positions.push(position);
                let done_now = records.subrange(0, n as int);
                assert(done_now =~= done.push(row as int));
                assert(builder.keys() =~= keys.update(row as int, position));
                assert forall|m: int| 0 <= m < n implies #[trigger] replaces(
                    *values,
                    records,
                    inputs,
                    m,
                ) by {
                    if m < n - 1 {
                        assert(replaces(*values, records, inputs_before, m));
                        assert(inputs[m] == inputs_before[m]);
                    } else {
                        assert forall|l: int|
                            0 <= l < m && !(input is Again) && values.keys.position_for(
                                row,
                            ) is Some implies values.keys.position_for(
                            #[trigger] records[l] as usize,
                        ) != values.keys.position_for(row) by {
                            assert(positions_before[l] == positions_before[l]);
                        }
                    }
                }
                assert forall|m: int| 0 <= m < n implies builder.keys()[#[trigger] records[m]]
                    == positions[m] by {
                    if m < n - 1 {
                        assert(rows@[m] < rows@[n - 1]);
                        assert(keys[records[m]] == positions_before[m]);
                    }
                }
                assert(visited_ok(*values, records, positions, visited_values)) by {
                    assert forall|key: usize|
                        #[trigger] crate::collections::position_entries(
                            visited_values,
                        ).contains_key(key) implies exists|m: int|
                        #![trigger positions[m]]
                        0 <= m < positions.len() && values.keys.position_for(records[m] as usize)
                            == Some(key) && crate::collections::position_entries(
                            visited_values,
                        )[key] == positions[m] by {
                        if values.keys.position_for(row) == Some(key) && !(input is Again) {
                            assert(positions[n - 1] == position);
                        } else {
                            let m = choose|m: int|
                                #![trigger positions_before[m]]
                                0 <= m < positions_before.len() && values.keys.position_for(
                                    records[m] as usize,
                                ) == Some(key) && crate::collections::position_entries(
                                    visited_values,
                                )[key] == positions_before[m];
                            assert(positions[m] == positions_before[m]);
                        }
                    }
                    assert forall|m: int|
                        #![trigger positions[m]]
                        0 <= m < positions.len() implies (values.keys.position_for(
                        records[m] as usize,
                    ) matches Some(key) ==> crate::collections::position_entries(
                        visited_values,
                    ).contains_key(key)) by {
                        if m < n - 1 {
                            assert(positions[m] == positions_before[m]);
                        }
                    }
                }
                assert forall|i: int|
                    0 <= i < key_length && !done_now.contains(i) implies #[trigger] builder.keys()[i]
                    == source.keys.remapped(found)[i] by {
                    if done.contains(i) {
                        let k = done.index_of(i);
                        assert(done_now[k] == i);
                    }
                    assert(done_now[n - 1] == row);
                    assert(builder.keys()[i] == keys[i]);
                }
                assert forall|i: int| 0 <= i < key_length implies key_holds(
                    now,
                    #[trigger] builder.keys()[i],
                    if done_now.contains(i) {
                        replacement(*values, i)
                    } else {
                        source.rows()[i]
                    },
                ) by {
                    if i == row {
                        assert(done_now[n - 1] == i);
                        assert(done_now.contains(i));
                    } else {
                        if done.contains(i) {
                            let k = done.index_of(i);
                            assert(done_now[k] == i);
                        }
                        if done_now.contains(i) {
                            let k = done_now.index_of(i);
                            assert(done[k] == i);
                        }
                        assert(keys[i] == builder.keys()[i]);
                        assert(key_holds(
                            kept,
                            keys[i],
                            if done.contains(i) {
                                replacement(*values, i)
                            } else {
                                source.rows()[i]
                            },
                        ));
                    }
                }
            }
        }
        let ghost kept = crate::collections::set_values(source_values);
        let ghost keys = builder.keys();
        proof {
            assert(records.subrange(0, records.len() as int) =~= records);
            assert forall|i: int| 0 <= i < key_length implies records.contains(i) == Self::selected(
                key_filter,
                i,
            ) by {
                lemma_replaced_records(key_filter, key_length as nat, i);
            }
        }
        let r = finish_dictionary(data_type, builder, source_values);
        proof {
            let layout = ReplaceLayout {
                kept: initial,
                lookup: found,
                inputs,
                positions,
                keys,
                values: kept,
            };
            assert(source.laid_out_with(key_filter, *values, layout, r));
            assert forall|i: int| 0 <= i < source.rows().len() implies held_for(
                #[trigger] r.rows()[i],
                if Self::selected(key_filter, i) {
                    replacement(*values, i)
                } else {
                    source.rows()[i]
                },
            ) by {
                assert(key_holds(
                    kept,
                    keys[i],
                    if records.contains(i) {
                        replacement(*values, i)
                    } else {
                        source.rows()[i]
                    },
                ));
            }
        }
        r
    }
}

/// The records whose values are replaced are those that are selected.
pub proof fn lemma_replaced_records(key_filter: Option<&RoaringBitmap>, count: nat, i: int)
    requires
        0 <= i < count,
    ensures
        replaced_records(key_filter, count).contains(i) == Dictionary::selected(key_filter, i),
{
    let records = replaced_records(key_filter, count);
    match key_filter {
        None => {
            assert(records[i] == i);
        },
        Some(filter) => {
            let list = crate::row_bitmap::bitmap_values(*filter);
            if records.contains(i) {
                let k = records.index_of(i);
                assert(list[k] == i as u32);
            }
            if holds_row(list, i) {
                let k = list.index_of(i as u32);
                assert(records[k] == i);
            }
        },
    }
}

impl Dictionary {
    /// The key of record `i` leads, after its values were interned, to what was kept for its value.
    pub proof fn lemma_interned_key(
        self,
        kept: Seq<ValueOrRef>,
        lookup: IndexLookup,
        i: int,
    )
        requires
            self.wf(),
            0 <= i < self.keys.spec_len(),
            self.interned_so(kept, lookup),
        ensures
            key_holds(kept, self.keys.remapped(lookup)[i], self.rows()[i]),
    {
        match self.keys.position(i) {
            None => {},
            Some(position) => {
                let optional = Seq::new(
                    self.values.values().len(),
                    |k: int| crate::dictionary_values::non_null(self.values.values()[k]),
                );
                if !(self.values is SetValues) && !(self.values is Boolean) {
                    assert(crate::interning::interned_at(
                        optional,
                        None,
                        kept,
                        lookup,
                        position as int,
                    ));
                }
            },
        }
    }
}

/// The dictionary of the keys that were built and the values that were kept. One in which every
/// record has the only value, or none has any, is held as such.
fn finish_dictionary(
    data_type: KeyDataType,
    builder: DictionaryKeyArrayBuilder,
    values: ValueOrRefSet,
) -> (r: Dictionary)
    requires
        builder.wf(),
        builder.key_type() == data_type,
        forall|i: int|
            0 <= i < builder.keys().len() ==> (#[trigger] builder.keys()[i] matches Some(position)
                ==> position < crate::collections::set_values(values).len()),
    ensures
        r.wf(),
        r.keys.key_type() == data_type,
        finished(r, data_type, builder.keys(), crate::collections::set_values(values)),
        r.rows() == Seq::new(
            builder.keys().len(),
            |i: int|
                match builder.keys()[i] {
                    Some(position) => crate::collections::set_values(values)[position as int],
                    None => ValueOrRef::Null,
                },
        ),
{
    let ghost rows = Seq::new(
        builder.keys().len(),
        |i: int|
            match builder.keys()[i] {
                Some(position) => crate::collections::set_values(values)[position as int],
                None => ValueOrRef::Null,
            },
    );
    let ghost keys = builder.keys();
    let length: usize = value_set_len(&values);
    let key_length: usize = builder.get_key_length();
    if length == 0 {
        let r = Dictionary::new_null_with_data_type(key_length, data_type);
        assert(r.rows() =~= rows);
        return r;
    }
    if length == 1 && !builder.has_nulls() {
        let value = value_set_get_index(&values, 0).unwrap().clone();
        let r = Dictionary::new_scalar_with_data_type(data_type, key_length, value);
        assert(r.rows() =~= rows);
        assert(r.values.values() =~= crate::collections::set_values(values));
        return r;
    }
    let r = Dictionary::new(builder.finish(), DictionaryValueArray::SetValues(Rc::new(values)));
    proof {
        assert forall|i: int| 0 <= i < r.keys.spec_len() implies (#[trigger] r.keys.position(
            i,
        ) matches Some(position) ==> position < r.values.values().len()) by {
            assert(r.keys.positions()[i] == keys[i]);
        }
        assert forall|i: int| 0 <= i < rows.len() implies #[trigger] r.rows()[i] == rows[i] by {
            assert(r.keys.positions()[i] == keys[i]);
        }
        assert(r.rows() =~= rows);
    }
    r
}

impl Clone for Dictionary {
    fn clone(&self) -> (copy: Self)
        ensures
            copy == *self,
    {
        Dictionary { keys: self.keys.clone(), values: self.values.clone() }
    }
}

/// Dictionaries are equal if their keys and their values are, whatever their records read as.
impl PartialEq for Dictionary {
    fn eq(&self, other: &Self) -> (r: bool) {
        self.keys.is_like(&other.keys) && self.values.is_like(&other.values)
    }
}

impl vstd::std_specs::cmp::PartialEqSpecImpl for Dictionary {
    open spec fn obeys_eq_spec() -> bool {
        true
    }

    open spec fn eq_spec(&self, other: &Self) -> bool {
        &&& self.keys.alike(other.keys)
        &&& self.values.alike(other.values)
    }
}

}
