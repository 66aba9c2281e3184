//! Carrying attributes that are there already over into a builder.

use vstd::prelude::*;

use crate::attribute_columns::{
    AttributeColumns, DictionaryColumn, ValueCodec, BOOL_ATTRIBUTE_VALUE_TYPE,
    DOUBLE_ATTRIBUTE_VALUE_TYPE, EMPTY_ATTRIBUTE_VALUE_TYPE, INT_ATTRIBUTE_VALUE_TYPE,
    MAP_ATTRIBUTE_VALUE_TYPE, SLICE_ATTRIBUTE_VALUE_TYPE, STRING_ATTRIBUTE_VALUE_TYPE,
};
use crate::attributes_batch::{get_id_to_record_index_map, OtapAttributesBatch};
use crate::attributes_builder::AttributesBuilder;
use crate::interning::{apply_lookup, iter_into_set, IndexLookup};
use crate::nullable_column::NullableColumn;
use crate::processed_value::{process_value, ProcessedValue};
use crate::value::{ArrayValueOrRef, ValueOrRef};
use crate::value_column::ValueColumn;

verus! {

/// How many of the first `n` flags are set.
pub open spec fn count_set(flags: Seq<bool>, n: int) -> nat
    decreases n,
{
    if n <= 0 {
        0
    } else if flags[n - 1] {
        count_set(flags, n - 1) + 1
    } else {
        count_set(flags, n - 1)
    }
}

/// How many of the first `n` flags are not set.
pub open spec fn count_unset(flags: Seq<bool>, n: int) -> nat
    decreases n,
{
    if n <= 0 {
        0
    } else if flags[n - 1] {
        count_unset(flags, n - 1)
    } else {
        count_unset(flags, n - 1) + 1
    }
}

/// More flags are set among more flags.
pub proof fn lemma_count_set(flags: Seq<bool>, m: int, n: int)
    requires
        0 <= m <= n,
    ensures
        count_set(flags, m) <= count_set(flags, n),
        m < n && flags[m] ==> count_set(flags, m) < count_set(flags, n),
        count_set(flags, n) <= n,
    decreases n,
{
    if m < n {
        lemma_count_set(flags, m, n - 1);
    } else if n > 0 {
        lemma_count_set(flags, n - 1, n - 1);
    }
}

/// Whether a value has been carried over from a dictionary into another.
pub open spec fn carried(from: Option<ValueOrRef>, to: Option<ValueOrRef>) -> bool {
    match (from, to) {
        (Some(value), Some(held)) => crate::interning::interned(held, value),
        (None, None) => true,
        _ => false,
    }
}

/// The values as options, null left out.
fn nonnull_options(values: &Vec<ValueOrRef>) -> (r: Vec<Option<ValueOrRef>>)
    ensures
        r@.len() == values@.len(),
        forall|i: int|
            0 <= i < values@.len() ==> #[trigger] r@[i] == (if values@[i] is Null {
                None
            } else {
                Some(values@[i])
            }),
{
    let mut r: Vec<Option<ValueOrRef>> = Vec::new();
    let mut i: usize = 0;
    while i < values.len()
        invariant
            i <= values@.len(),
            r@.len() == i,
            forall|j: int|
                0 <= j < i ==> #[trigger] r@[j] == (if values@[j] is Null {
                    None
                } else {
                    Some(values@[j])
                }),
        decreases values@.len() - i,
    {
        if values[i].is_null() {
            r.push(None);
        } else {
            r.push(Some(values[i].clone()));
        }
        i = i + 1;
    }
    r
}

/// A column that starts with the rows of another and has `count` of them. Each distinct value is
/// kept once, and null values go.
pub fn value_column_from(existing: &DictionaryColumn, count: usize) -> (r: ValueColumn)
    requires
        existing.wf(),
        existing.keys.spec_len() <= count,
    ensures
        r.wf(count as nat, existing.keys.spec_len() as int),
        r.kept().len() <= existing.values@.len(),
        r.kept().len() <= 0x10000 ==> forall|i: int|
            0 <= i < existing.keys.spec_len() ==> carried(existing.value(i), #[trigger] r.read(i)),
        forall|k: int|
            0 <= k < r.kept().len() ==> existing.values@.contains(#[trigger] r.kept()[k]),
{
    let options: Vec<Option<ValueOrRef>> = nonnull_options(&existing.values);
    let ghost inputs = options@;
    let (values, lookup) = iter_into_set(options, None);
    let ghost kept = crate::collections::set_values(values);
    proof {
        assert forall|k: int| 0 <= k < kept.len() implies !(#[trigger] kept[k] is Null) by {
            assert(crate::interning::kept_from(
                inputs,
                None,
                kept,
                lookup,
                inputs.len() as int,
                k,
            ));
            let i = choose|i: int|
                0 <= i < inputs.len() && crate::interning::interning_input(inputs, None, i) == Some(
                    kept[k],
                ) && #[trigger] crate::interning::lookup_position(lookup, i as usize) == Some(
                    k as usize,
                );
            assert(inputs[i] == Some(kept[k]));
        }
        assert forall|k: int| 0 <= k < kept.len() implies existing.values@.contains(
            #[trigger] kept[k],
        ) by {
            assert(crate::interning::kept_from(
                inputs,
                None,
                kept,
                lookup,
                inputs.len() as int,
                k,
            ));
            let i = choose|i: int|
                0 <= i < inputs.len() && crate::interning::interning_input(inputs, None, i) == Some(
                    kept[k],
                ) && #[trigger] crate::interning::lookup_position(lookup, i as usize) == Some(
                    k as usize,
                );
            assert(inputs[i] == Some(kept[k]));
            assert(existing.values@[i] == kept[k]);
        }
    }
    let rows: usize = existing.keys.cells.len();
    let column: NullableColumn<u16> = match &lookup {
        None => {
            let column = existing.keys.extended(count, 0u16);
            proof {
                assert forall|i: int| 0 <= i < rows && #[trigger] column.valid(i) implies column.cells@[i]
                    < kept.len() by {
                    assert(existing.keys.valid(i));
                }
                assert forall|i: int| 0 <= i < rows implies carried(
                    existing.value(i),
                    #[trigger] (ValueColumn { column, values }).read(i),
                ) by {
                    assert(column.valid(i) == existing.keys.valid(i));
                    if existing.keys.valid(i) {
                        let k = existing.keys.cells@[i] as int;
                        assert(crate::interning::interned_at(inputs, None, kept, lookup, k));
                        assert(inputs[k] == (if existing.values@[k] is Null {
                            None
                        } else {
                            Some(existing.values@[k])
                        }));
                    }
                }
            }
            column
        },
        Some(_) => {
            let column = remap_keys(existing, count, &lookup);
            proof {
                assert forall|i: int| 0 <= i < rows && #[trigger] column.valid(i) implies column.cells@[i]
                    < kept.len() by {
                    assert(existing.keys.valid(i));
                    let k = existing.keys.cells@[i] as int;
                    assert(crate::interning::interned_at(inputs, None, kept, lookup, k));
                    let p = crate::interning::lookup_position(lookup, k as usize)->0;
                    assert((p as u16) <= p) by (bit_vector);
                }
                assert forall|i: int|
                    0 <= i < rows && kept.len() <= 0x10000 implies carried(
                    existing.value(i),
                    #[trigger] (ValueColumn { column, values }).read(i),
                ) by {
                    assert(remapped_row(existing, lookup, column, i));
                    if existing.keys.valid(i) {
                        let k = existing.keys.cells@[i] as int;
                        assert(crate::interning::interned_at(inputs, None, kept, lookup, k));
                        assert(inputs[k] == (if existing.values@[k] is Null {
                            None
                        } else {
                            Some(existing.values@[k])
                        }));
                        if crate::interning::lookup_position(lookup, k as usize) is Some {
                            let p = crate::interning::lookup_position(lookup, k as usize)->0;
                            assert(p < 0x10000 ==> (p as u16) == p) by (bit_vector);
                        }
                    }
                }
            }
            column
        },
    };
    ValueColumn { column, values }
}

/// Whether row `i` leads where the lookup leads the key that it had.
spec fn remapped_row(
    existing: &DictionaryColumn,
    lookup: IndexLookup,
    column: NullableColumn<u16>,
    i: int,
) -> bool {
    if existing.keys.valid(i) {
        match crate::interning::lookup_position(lookup, existing.keys.cells@[i] as usize) {
            Some(position) => column.valid(i) && column.cells@[i] == position as u16,
            None => !column.valid(i),
        }
    } else {
        !column.valid(i)
    }
}

/// The keys of a column, each led to where the lookup leads it, in a column of `count` rows.
fn remap_keys(existing: &DictionaryColumn, count: usize, lookup: &IndexLookup) -> (column: NullableColumn<u16>)
    requires
        existing.wf(),
        existing.keys.spec_len() <= count,
    ensures
        column.wf(),
        column.spec_len() == count,
        column.open_from(existing.keys.spec_len() as int),
        forall|i: int|
            0 <= i < existing.keys.spec_len() ==> #[trigger] remapped_row(
                existing,
                *lookup,
                column,
                i,
            ),
        forall|i: int|
            0 <= i < existing.keys.spec_len() && #[trigger] column.valid(i) ==> {
                &&& existing.keys.valid(i)
                &&& crate::interning::lookup_position(
                    *lookup,
                    existing.keys.cells@[i] as usize,
                ) matches Some(position) && column.cells@[i] == position as u16
            },
{
    let rows: usize = existing.keys.cells.len();
    let mut column: NullableColumn<u16> = NullableColumn::new(count, 0u16);
    let mut i: usize = 0;
    while i < rows
        invariant
            i <= rows <= count,
            existing.wf(),
            rows == existing.keys.spec_len(),
            column.wf(),
            column.spec_len() == count,
            column.open_from(i as int),
            forall|j: int|
                0 <= j < i ==> #[trigger] remapped_row(existing, *lookup, column, j),
        decreases rows - i,
    {
        let ghost before = column;
        let position: Option<usize> = match existing.keys.get(i) {
            Some(key) => apply_lookup(lookup, key as usize),
            None => None,
        };
        match position {
            Some(position) => {
                column.set(i, #[verifier::truncate] (position as u16));
            },
            None => {
                column.ensure_nulls(i);
                assert(!column.valid(i as int));
            },
        }
        proof {
            assert forall|j: int| 0 <= j < i + 1 implies #[trigger] remapped_row(
                existing,
                *lookup,
                column,
                j,
            ) by {
                if j < i {
                    assert(remapped_row(existing, *lookup, before, j));
                    assert(column.valid(j) == before.valid(j));
                }
            }
            assert forall|j: int| i + 1 <= j < count && column.nulls is Some implies
                !#[trigger] column.valid(j) by {
                if before.nulls is Some {
                    assert(!before.valid(j));
                }
            }
        }
        i = i + 1;
    }
    proof {
        assert forall|j: int| 0 <= j < rows && #[trigger] column.valid(j) implies existing.keys.valid(
            j,
        ) && crate::interning::lookup_position(*lookup, existing.keys.cells@[j] as usize) is Some
            && column.cells@[j] == (crate::interning::lookup_position(
            *lookup,
            existing.keys.cells@[j] as usize,
        )->0) as u16 by {
            assert(remapped_row(existing, *lookup, column, j));
        }
    }
    column
}

/// One more than the largest of the first `n` ids; zero if there is none.
pub open spec fn next_after(ids: Seq<u16>, n: int) -> int
    decreases n,
{
    if n <= 0 {
        0
    } else if ids[n - 1] >= next_after(ids, n - 1) {
        ids[n - 1] + 1
    } else {
        next_after(ids, n - 1)
    }
}

/// One more than the largest of the ids; zero if there is none.
fn next_id(ids: &Vec<u16>) -> (r: u16)
    requires
        next_after(ids@, ids@.len() as int) <= 0xFFFF,
    ensures
        r == next_after(ids@, ids@.len() as int),
{
    let mut r: u16 = 0;
    let mut i: usize = 0;
    while i < ids.len()
        invariant
            i <= ids@.len(),
            r == next_after(ids@, i as int),
            next_after(ids@, ids@.len() as int) <= 0xFFFF,
        decreases ids@.len() - i,
    {
        proof {
            lemma_next_after(ids@, i + 1, ids@.len() as int);
        }
        if ids[i] >= r {
            r = ids[i] + 1;
        }
        i = i + 1;
    }
    r
}

/// One more than the largest of the ids, where that need not be an id; zero if there is none.
pub fn next_place(ids: &Vec<u16>) -> (r: usize)
    ensures
        r == next_after(ids@, ids@.len() as int),
        r <= 0x10000,
{
    let mut r: usize = 0;
    let mut i: usize = 0;
    while i < ids.len()
        invariant
            i <= ids@.len(),
            r == next_after(ids@, i as int),
            r <= 0x10000,
        decreases ids@.len() - i,
    {
        if ids[i] as usize >= r {
            r = ids[i] as usize + 1;
        }
        i = i + 1;
    }
    r
}

/// The next id is past every id.
pub proof fn lemma_next_after(ids: Seq<u16>, m: int, n: int)
    requires
        0 <= m <= n,
    ensures
        next_after(ids, m) <= next_after(ids, n),
        forall|i: int| 0 <= i < m ==> #[trigger] ids[i] < next_after(ids, n),
    decreases n,
{
    if m < n {
        lemma_next_after(ids, m, n - 1);
    } else if n > 0 {
        lemma_next_after(ids, n - 1, n - 1);
    }
}

/// The first `count` entries.
fn first_options(ids: &Vec<Option<u16>>, count: usize) -> (r: Vec<Option<u16>>)
    requires
        count <= ids@.len(),
    ensures
        r@ == ids@.subrange(0, count as int),
{
    let mut r: Vec<Option<u16>> = Vec::new();
    let mut i: usize = 0;
    while i < count
        invariant
            i <= count <= ids@.len(),
            r@ == ids@.subrange(0, i as int),
        decreases count - i,
    {
        r.push(ids[i]);
        i = i + 1;
        proof {
            assert(ids@.subrange(0, i as int) =~= ids@.subrange(0, i - 1).push(ids@[i - 1]));
        }
    }
    r
}

/// A list that starts with the entries of another and is filled up to `count`.
fn padded<T: Copy>(entries: &Vec<T>, count: usize, value: T) -> (r: Vec<T>)
    requires
        entries@.len() <= count,
    ensures
        r@.len() == count,
        forall|i: int| 0 <= i < entries@.len() ==> #[trigger] r@[i] == entries@[i],
{
    let mut r: Vec<T> = Vec::new();
    let mut i: usize = 0;
    while i < count
        invariant
            i <= count,
            entries@.len() <= count,
            r@.len() == i,
            forall|j: int| 0 <= j < i && j < entries@.len() ==> #[trigger] r@[j] == entries@[j],
        decreases count - i,
    {
        if i < entries.len() {
            r.push(entries[i]);
        } else {
            r.push(value);
        }
        i = i + 1;
    }
    r
}

/// Copies of the texts.
fn copy_texts(texts: &Vec<String>) -> (r: Vec<String>)
    ensures
        r@.len() == texts@.len(),
        forall|i: int| 0 <= i < texts@.len() ==> (#[trigger] r@[i])@ == texts@[i]@,
{
    let mut r: Vec<String> = Vec::new();
    let mut i: usize = 0;
    while i < texts.len()
        invariant
            i <= texts@.len(),
            r@.len() == i,
            forall|j: int| 0 <= j < i ==> (#[trigger] r@[j])@ == texts@[j]@,
        decreases texts@.len() - i,
    {
        r.push(texts[i].as_str().to_owned());
        i = i + 1;
    }
    r
}

/// A column that may be missing, carried over.
fn slot_from(existing: &Option<DictionaryColumn>, count: usize) -> (r: Option<ValueColumn>)
    requires
        existing matches Some(column) ==> column.wf() && column.keys.spec_len() <= count,
    ensures
        r is Some == existing is Some,
        r matches Some(made) ==> made.kept().len() <= existing->0.values@.len(),
        r matches Some(made) ==> forall|k: int|
            0 <= k < made.kept().len() ==> existing->0.values@.contains(#[trigger] made.kept()[k])
                && !(made.kept()[k] is Null),
        existing matches Some(column) ==> crate::value_column::slot_wf(
            r,
            count as nat,
            column.keys.spec_len() as int,
        ),
        existing is Some && crate::attributes_builder::slot_fits(r) ==> forall|i: int|
            0 <= i < existing->0.keys.spec_len() ==> carried(
                crate::attribute_columns::dictionary_value(*existing, i),
                #[trigger] crate::value_column::slot_read(r, i),
            ),
{
    match existing {
        Some(column) => {
            let made = value_column_from(column, count);
            proof {
                if made.kept().len() <= 0x10000 {
                    assert forall|i: int| 0 <= i < column.keys.spec_len() implies carried(
                        crate::attribute_columns::dictionary_value(*existing, i),
                        #[trigger] crate::value_column::slot_read(Some(made), i),
                    ) by {
                        assert(carried(column.value(i), made.read(i)));
                    }
                }
            }
            Some(made)
        },
        None => None,
    }
}

/// A column that may be missing, carried over.
fn plain_from<T: Copy>(existing: &Option<NullableColumn<T>>, count: usize, value: T) -> (r: Option<
    NullableColumn<T>,
>)
    requires
        existing matches Some(column) ==> column.wf() && column.spec_len() <= count,
    ensures
        r is Some == existing is Some,
        existing matches Some(column) ==> crate::value_column::plain_wf(
            r,
            count as nat,
            column.spec_len() as int,
        ) && forall|i: int|
            0 <= i < column.spec_len() ==> #[trigger] crate::attribute_columns::nullable_cell(r, i)
                == crate::attribute_columns::nullable_cell(*existing, i),
{
    match existing {
        Some(column) => {
            let made = column.extended(count, value);
            proof {
                assert forall|i: int| 0 <= i < column.spec_len() implies #[trigger] crate::attribute_columns::nullable_cell(
                    Some(made),
                    i,
                ) == crate::attribute_columns::nullable_cell(*existing, i) by {
                    assert(made.valid(i) == column.valid(i));
                }
            }
            Some(made)
        },
        None => None,
    }
}

/// Values that come from a column of one kind are of that kind.
proof fn lemma_slot_kind(existing: Option<DictionaryColumn>, slot: Option<ValueColumn>, kind: u8)
    requires
        slot is Some ==> existing is Some,
        existing matches Some(column) ==> forall|k: int|
            0 <= k < column.values@.len() ==> #[trigger] column.values@[k] is Null
                || crate::attribute_columns::dictionary_kind(column.values@[k]) == kind,
        slot matches Some(made) ==> forall|k: int|
            0 <= k < made.kept().len() ==> existing->0.values@.contains(#[trigger] made.kept()[k])
                && !(made.kept()[k] is Null),
    ensures
        crate::value_column::slot_kind(slot, kind),
{
    if slot is Some {
        let made = slot->0;
        assert forall|k: int| 0 <= k < made.kept().len() implies crate::attribute_columns::dictionary_kind(
            #[trigger] made.kept()[k],
        ) == kind by {
            let values = existing->0.values@;
            let j = values.index_of(made.kept()[k]);
            assert(values[j] == made.kept()[k]);
        }
    }
}

impl AttributesBuilder {
    /// Whether row `i` is that row of the attributes.
    pub open spec fn same_row(&self, columns: AttributeColumns, i: int) -> bool {
        &&& self.types_array@[i] == columns.types@[i]
        &&& self.parent_ids_array@[i] == columns.parent_ids@[i]
        &&& self.keys_array@[i] == crate::attributes_builder::key_cell(
            self.keys_array_u16,
            columns.keys.keys@[i] as usize,
        )
        &&& self.fits() ==> carried(columns.stored(i), self.value_at(i))
    }

    /// A builder that starts with all of the attributes that are there already.
    pub fn new_from_existing(
        record_count: usize,
        attribute_key_count: usize,
        attribute_count: usize,
        attributes_batch: &OtapAttributesBatch,
    ) -> (builder: AttributesBuilder)
        requires
            attributes_batch.columns.wf(),
            record_count <= attributes_batch.ids@.len(),
            attributes_batch.columns.types@.len() <= attribute_count,
            next_after(
                attributes_batch.columns.parent_ids@,
                attributes_batch.columns.parent_ids@.len() as int,
            ) <= 0xFFFF,
        ensures
            builder.wf(),
            builder.records() == record_count,
            builder.capacity() == attribute_count,
            builder.attribute_position == attributes_batch.columns.types@.len(),
            builder.keys_array_u16 == (attribute_key_count > 0xFF),
            builder.next_parent_id == next_after(
                attributes_batch.columns.parent_ids@,
                attributes_batch.columns.parent_ids@.len() as int,
            ),
            forall|r: int|
                0 <= r < record_count ==> #[trigger] builder.ids_array.cell(r)
                    == attributes_batch.ids@[r],
            builder.keys_value_builder@.len() == attributes_batch.columns.keys.values@.len(),
            forall|k: int|
                0 <= k < attributes_batch.columns.keys.values@.len() ==> (
                #[trigger] builder.keys_value_builder@[k])@
                    == attributes_batch.columns.keys.values@[k]@,
            forall|i: int|
                0 <= i < attributes_batch.columns.types@.len() ==> #[trigger] builder.same_row(
                    attributes_batch.columns,
                    i,
                ),
            forall|kind: u8|
                (#[trigger] builder.held(kind)).len() <= attributes_batch.columns.held(kind).len(),
            forall|kind: u8, k: int|
                0 <= k < builder.held(kind).len() ==> attributes_batch.columns.held(kind).contains(
                    #[trigger] builder.held(kind)[k],
                ),
            (forall|kind: u8| (#[trigger] attributes_batch.columns.held(kind)).len() <= 0x10000)
                ==> builder.fits(),
            builder.present(1) == attributes_batch.columns.strings is Some,
            builder.present(2) == attributes_batch.columns.ints is Some,
            builder.present(3) == attributes_batch.columns.doubles is Some,
            builder.present(4) == attributes_batch.columns.bools is Some,
            builder.present(5) == attributes_batch.columns.sers is Some,
            builder.present(7) == attributes_batch.columns.bytes is Some,
    {
        let columns = &attributes_batch.columns;
        let existing_attributes_count: usize = columns.types.len();
        let existing_ids: Vec<Option<u16>> = first_options(&attributes_batch.ids, record_count);
        let ids_array: NullableColumn<u16> = NullableColumn::from_options(
            &existing_ids,
            record_count,
            0u16,
        );
        let keys_array_u16: bool = attribute_key_count > 0xFF;
        let mut keys_array: Vec<u16> = Vec::new();
        let mut i: usize = 0;
        while i < attribute_count
            invariant
                i <= attribute_count,
                columns.wf(),
                keys_array@.len() == i,
                existing_attributes_count == columns.types@.len(),
                forall|j: int|
                    0 <= j < i && j < existing_attributes_count ==> #[trigger] keys_array@[j]
                        == crate::attributes_builder::key_cell(
                        keys_array_u16,
                        columns.keys.keys@[j] as usize,
                    ) && keys_array@[j] <= columns.keys.keys@[j] && (keys_array_u16 || keys_array@[j]
                        < 0x100),
            decreases attribute_count - i,
        {
            if i < existing_attributes_count {
                let key: u16 = crate::attributes_builder::write_key(
                    keys_array_u16,
                    columns.keys.keys[i] as usize,
                );
                keys_array.push(key);
            } else {
                keys_array.push(0);
            }
            i = i + 1;
        }
        proof {
            assert forall|r: int| 0 <= r < record_count implies #[trigger] ids_array.cell(r)
                == attributes_batch.ids@[r] by {
                assert(existing_ids@[r] == attributes_batch.ids@[r]);
            }
        }
        let builder = AttributesBuilder {
            ids_array,
            types_array: padded(&columns.types, attribute_count, 0u8),
            parent_ids_array: padded(&columns.parent_ids, attribute_count, 0u16),
            keys_array_u16,
            keys_array,
            keys_value_builder: copy_texts(&columns.keys.values),
            strings_dict: slot_from(&columns.strings, attribute_count),
            ints_dict: slot_from(&columns.ints, attribute_count),
            doubles_array: plain_from(&columns.doubles, attribute_count, 0u64),
            bools_array: plain_from(&columns.bools, attribute_count, false),
            sers_dict: slot_from(&columns.sers, attribute_count),
            bytes_dict: slot_from(&columns.bytes, attribute_count),
            attribute_position: existing_attributes_count,
            next_parent_id: next_id(&columns.parent_ids),
        };
        proof {
            assert forall|kind: u8, k: int| 0 <= k < builder.held(kind).len() implies columns.held(
                kind,
            ).contains(#[trigger] builder.held(kind)[k]) by {}
            if forall|kind: u8| (#[trigger] columns.held(kind)).len() <= 0x10000 {
                assert forall|kind: u8| (#[trigger] builder.held(kind)).len() <= 0x10000 by {
                    assert(columns.held(kind).len() <= 0x10000);
                }
                builder.lemma_fits();
            }
            lemma_slot_kind(columns.strings, builder.strings_dict, 1);
            lemma_slot_kind(columns.ints, builder.ints_dict, 2);
            lemma_slot_kind(columns.sers, builder.sers_dict, 7);
            lemma_slot_kind(columns.bytes, builder.bytes_dict, 7);
            assert forall|i: int| 0 <= i < existing_attributes_count implies #[trigger] builder.same_row(
                *columns,
                i,
            ) by {
                assert(columns.types@[i] <= 7);
                assert(builder.types_array@[i] == columns.types@[i]);
                assert(builder.keys_array@[i] <= columns.keys.keys@[i]);
            }
            assert forall|i: int| 0 <= i < existing_attributes_count implies #[trigger] builder.types_array@[i]
                <= 7 by {
                assert(columns.types@[i] <= 7);
            }
            assert forall|i: int| 0 <= i < existing_attributes_count implies #[trigger] builder.keys_array@[i]
                < builder.keys_value_builder@.len() && (builder.keys_array_u16
                || builder.keys_array@[i] < 0x100) by {
                assert(columns.keys.keys@[i] < columns.keys.values@.len());
            }
        }
        builder
    }
}

/// Whether `processed` is what a builder takes from a value that is there already.
pub open spec fn taken<C: ValueCodec>(
    codec: &C,
    value: Option<ValueOrRef>,
    processed: ProcessedValue,
) -> bool {
    match value {
        Some(value) => crate::processed_value::processes(codec, value, processed),
        None => processed is Empty,
    }
}

/// Whether `processed` is what a builder takes from a serialized value that is there already.
pub open spec fn taken_serialized(
    value: Option<ValueOrRef>,
    is_map: bool,
    processed: ProcessedValue,
) -> bool {
    match value {
        Some(value) => {
            let content = if crate::attribute_columns::value_bytes(value) matches Some(bytes)
                && bytes@.len() == 0 {
                None
            } else {
                Some(value)
            };
            processed == if is_map {
                ProcessedValue::MapValue(content)
            } else {
                ProcessedValue::Slice(content)
            }
        },
        None => processed is Empty,
    }
}

/// Whether `processed` is what a builder takes from row `i` of the attributes.
pub open spec fn existing_content<C: ValueCodec>(
    codec: &C,
    columns: AttributeColumns,
    i: int,
    processed: ProcessedValue,
) -> bool {
    match columns.types@[i] {
        0 => processed is Empty,
        5 => taken_serialized(columns.stored(i), true, processed),
        6 => taken_serialized(columns.stored(i), false, processed),
        _ => taken(codec, columns.stored(i), processed),
    }
}

/// What a builder takes from a serialized value that is there already.
fn take_serialized(value: Option<ValueOrRef>, is_map: bool) -> (processed: ProcessedValue)
    requires
        value matches Some(value) ==> crate::attribute_columns::dictionary_kind(value) == 7,
    ensures
        taken_serialized(value, is_map, processed),
        processed.wf(),
        processed is Empty || processed.attribute_type() == (if is_map {
            5u8
        } else {
            6u8
        }),
{
    match value {
        Some(value) => {
            let empty: bool = match &value {
                ValueOrRef::Array(ArrayValueOrRef::Buffer(bytes)) => bytes.len() == 0,
                _ => false,
            };
            let content: Option<ValueOrRef> = if empty {
                None
            } else {
                Some(value)
            };
            if is_map {
                ProcessedValue::MapValue(content)
            } else {
                ProcessedValue::Slice(content)
            }
        },
        None => ProcessedValue::Empty,
    }
}

/// What a builder takes from a value that is there already.
fn take_value<C: ValueCodec>(codec: &C, value: Option<ValueOrRef>) -> (processed: ProcessedValue)
    ensures
        taken(codec, value, processed),
        processed.wf(),
{
    match value {
        Some(value) => process_value(codec, &value),
        None => ProcessedValue::Empty,
    }
}

/// The value of a row of a column that may be missing.
fn value_of_row(column: &Option<DictionaryColumn>, row: usize, Ghost(kind): Ghost<u8>) -> (r: Option<
    ValueOrRef,
>)
    requires
        column matches Some(held) ==> row < held.keys.spec_len(),
        column matches Some(held) ==> crate::attribute_columns::dictionary_wf(
            *column,
            held.keys.spec_len(),
            kind,
        ),
    ensures
        r == crate::attribute_columns::dictionary_value(*column, row as int),
        r matches Some(value) ==> crate::attribute_columns::dictionary_kind(value) == kind,
{
    match column {
        Some(held) => match held.get_value_index_null_safe(row) {
            Some(index) => {
                assert(!(held.values@[index as int] is Null));
                Some(held.values[index].clone())
            },
            None => None,
        },
        None => None,
    }
}

/// What a builder takes from a row of the attributes.
pub fn take_existing<C: ValueCodec>(
    codec: &C,
    columns: &AttributeColumns,
    row: usize,
) -> (processed: ProcessedValue)
    requires
        columns.wf(),
        row < columns.types@.len(),
    ensures
        existing_content(codec, *columns, row as int, processed),
        processed.wf(),
        processed is Empty || processed.attribute_type() == columns.types@[row as int],
{
    assert(columns.types@[row as int] <= 7);
    match columns.types[row] {
        EMPTY_ATTRIBUTE_VALUE_TYPE => ProcessedValue::Empty,
        STRING_ATTRIBUTE_VALUE_TYPE => take_value(
            codec,
            value_of_row(&columns.strings, row, Ghost(1)),
        ),
        INT_ATTRIBUTE_VALUE_TYPE => take_value(codec, value_of_row(&columns.ints, row, Ghost(2))),
        DOUBLE_ATTRIBUTE_VALUE_TYPE => {
            let cell: Option<u64> = match &columns.doubles {
                Some(doubles) => doubles.get(row),
                None => None,
            };
            let value: Option<ValueOrRef> = match cell {
                Some(bits) => Some(ValueOrRef::Double(bits)),
                None => None,
            };
            take_value(codec, value)
        },
        BOOL_ATTRIBUTE_VALUE_TYPE => {
            let cell: Option<bool> = match &columns.bools {
                Some(bools) => bools.get(row),
                None => None,
            };
            let value: Option<ValueOrRef> = match cell {
                Some(flag) => Some(ValueOrRef::Boolean(flag)),
                None => None,
            };
            take_value(codec, value)
        },
        MAP_ATTRIBUTE_VALUE_TYPE => take_serialized(
            value_of_row(&columns.sers, row, Ghost(7)),
            true,
        ),
        SLICE_ATTRIBUTE_VALUE_TYPE => take_serialized(
            value_of_row(&columns.sers, row, Ghost(7)),
            false,
        ),
        _ => take_value(codec, value_of_row(&columns.bytes, row, Ghost(7))),
    }
}

/// The records of those of the first `n` attributes that are kept, in order.
pub open spec fn kept_records(batch: OtapAttributesBatch, keep: Seq<bool>, n: int) -> Seq<int>
    decreases n,
{
    if n <= 0 {
        Seq::empty()
    } else if keep[n - 1] {
        kept_records(batch, keep, n - 1).push(batch.record_of(n - 1))
    } else {
        kept_records(batch, keep, n - 1)
    }
}

/// What may be taken from those of the first `n` attributes that are kept.
pub open spec fn kept_contents<C: ValueCodec>(
    codec: &C,
    columns: AttributeColumns,
    keep: Seq<bool>,
    n: int,
) -> Set<ProcessedValue> {
    Set::new(
        |processed: ProcessedValue|
            exists|i: int|
                0 <= i < n && keep[i] && #[trigger] existing_content(codec, columns, i, processed),
    )
}

/// Those of the first `n` keys that are not skipped, in order.
pub open spec fn unskipped(keys: Seq<String>, skip: Seq<bool>, n: int) -> Seq<Seq<char>>
    decreases n,
{
    if n <= 0 {
        Seq::empty()
    } else if skip[n - 1] {
        unskipped(keys, skip, n - 1)
    } else {
        unskipped(keys, skip, n - 1).push(keys[n - 1]@)
    }
}

proof fn lemma_kept_ids_grow(
    ids: Seq<Option<u16>>,
    next: int,
    batch: OtapAttributesBatch,
    keep: Seq<bool>,
    m: int,
    n: int,
)
    requires
        0 <= m <= n,
    ensures
        crate::attributes_builder::given_ids(ids, next, kept_records(batch, keep, m)).1
            <= crate::attributes_builder::given_ids(ids, next, kept_records(batch, keep, n)).1,
    decreases n,
{
    if m < n {
        lemma_kept_ids_grow(ids, next, batch, keep, m, n - 1);
        let before = kept_records(batch, keep, n - 1);
        assert(before.push(batch.record_of(n - 1)).drop_last() =~= before);
    }
}

/// Whether a builder has gone through these states as it took one attribute after another.
pub open spec fn existing_steps<C: ValueCodec>(
    codec: &C,
    batch: OtapAttributesBatch,
    keep: Seq<bool>,
    key_mapping: Seq<Option<usize>>,
    states: Seq<AttributesBuilder>,
) -> bool {
    forall|i: int|
        0 <= i < states.len() - 1 ==> (#[trigger] states[i + 1]).existing_step(
            states[i],
            codec,
            batch,
            keep,
            key_mapping,
            i,
        )
}

proof fn lemma_existing_steps<C: ValueCodec>(
    codec: &C,
    batch: OtapAttributesBatch,
    keep: Seq<bool>,
    key_mapping: Seq<Option<usize>>,
    states: Seq<AttributesBuilder>,
    next: AttributesBuilder,
)
    requires
        states.len() > 0,
        existing_steps(codec, batch, keep, key_mapping, states),
        next.existing_step(states.last(), codec, batch, keep, key_mapping, states.len() - 1),
    ensures
        existing_steps(codec, batch, keep, key_mapping, states.push(next)),
{
    let more = states.push(next);
    assert forall|i: int| 0 <= i < more.len() - 1 implies (#[trigger] more[i + 1]).existing_step(
        more[i],
        codec,
        batch,
        keep,
        key_mapping,
        i,
    ) by {
        if i < states.len() - 1 {
            assert(states[i + 1].existing_step(states[i], codec, batch, keep, key_mapping, i));
        }
    }
}

impl AttributesBuilder {
    /// Adds the keys that are not skipped, and gives the position of each.
    pub fn push_keys(
        &mut self,
        attributes_batch: &OtapAttributesBatch,
        keys_to_skip: &Vec<bool>,
    ) -> (key_mappings: Vec<Option<usize>>)
        requires
            old(self).wf(),
            keys_to_skip@.len() == attributes_batch.columns.keys.values@.len(),
        ensures
            final(self).wf(),
            *final(self) == (AttributesBuilder {
                keys_value_builder: final(self).keys_value_builder,
                ..*old(self)
            }),
            key_mappings@.len() == keys_to_skip@.len(),
            final(self).keys_value_builder@.len() == old(self).keys_value_builder@.len()
                + count_unset(keys_to_skip@, keys_to_skip@.len() as int),
            crate::attributes_builder::key_texts(final(self).keys_value_builder@)
                == crate::attributes_builder::key_texts(old(self).keys_value_builder@) + unskipped(
                attributes_batch.columns.keys.values@,
                keys_to_skip@,
                keys_to_skip@.len() as int,
            ),
            forall|k: int|
                0 <= k < old(self).keys_value_builder@.len()
                    ==> #[trigger] final(self).keys_value_builder@[k]
                    == old(self).keys_value_builder@[k],
            forall|k: int|
                0 <= k < keys_to_skip@.len() ==> if keys_to_skip@[k] {
                    #[trigger] key_mappings@[k] is None
                } else {
                    &&& key_mappings@[k] matches Some(position)
                    &&& position == old(self).keys_value_builder@.len() + count_unset(
                        keys_to_skip@,
                        k,
                    )
                    &&& position < final(self).keys_value_builder@.len()
                    &&& final(self).keys_value_builder@[position as int]@
                        == attributes_batch.columns.keys.values@[k]@
                },
    {
        let ghost before = *self;
        let mut key_mappings: Vec<Option<usize>> = Vec::new();
        let mut key_index: usize = 0;
        while key_index < keys_to_skip.len()
            invariant
                key_index <= keys_to_skip@.len(),
                keys_to_skip@.len() == attributes_batch.columns.keys.values@.len(),
                self.wf(),
                *self == (AttributesBuilder {
                    keys_value_builder: self.keys_value_builder,
                    ..before
                }),
                key_mappings@.len() == key_index,
                crate::attributes_builder::key_texts(self.keys_value_builder@)
                    == crate::attributes_builder::key_texts(before.keys_value_builder@)
                    + unskipped(
                    attributes_batch.columns.keys.values@,
                    keys_to_skip@,
                    key_index as int,
                ),
                self.keys_value_builder@.len() == before.keys_value_builder@.len() + count_unset(
                    keys_to_skip@,
                    key_index as int,
                ),
                forall|k: int|
                    0 <= k < before.keys_value_builder@.len()
                        ==> #[trigger] self.keys_value_builder@[k] == before.keys_value_builder@[k],
                forall|k: int|
                    0 <= k < key_index ==> if keys_to_skip@[k] {
                        #[trigger] key_mappings@[k] is None
                    } else {
                        &&& key_mappings@[k] matches Some(position)
                        &&& position == before.keys_value_builder@.len() + count_unset(
                            keys_to_skip@,
                            k,
                        )
                        &&& position < self.keys_value_builder@.len()
                        &&& self.keys_value_builder@[position as int]@
                            == attributes_batch.columns.keys.values@[k]@
                    },
            decreases keys_to_skip@.len() - key_index,
        {
            if keys_to_skip[key_index] {
                key_mappings.push(None);
            } else {
                let key = attributes_batch.columns.keys.values[key_index].as_str();
                let ghost texts = crate::attributes_builder::key_texts(self.keys_value_builder@);
                let new_key_index: usize = self.push_key(key);
                proof {
                    assert(crate::attributes_builder::key_texts(self.keys_value_builder@)
                        =~= texts.push(key@));
                    assert(crate::attributes_builder::key_texts(self.keys_value_builder@)
                        =~= crate::attributes_builder::key_texts(before.keys_value_builder@)
                        + unskipped(
                        attributes_batch.columns.keys.values@,
                        keys_to_skip@,
                        key_index + 1,
                    ));
                }
                key_mappings.push(Some(new_key_index));
            }
            key_index = key_index + 1;
        }
        key_mappings
    }

    /// Whether row `row` is what a builder takes from row `i` of the attributes, under the key at
    /// `key_index`.
    pub open spec fn carries<C: ValueCodec>(
        &self,
        codec: &C,
        batch: OtapAttributesBatch,
        i: int,
        key_index: usize,
        row: int,
    ) -> bool {
        &&& self.types_array@[row] == batch.columns.types@[i]
        &&& self.keys_array@[row] == crate::attributes_builder::key_cell(
            self.keys_array_u16,
            key_index,
        )
        &&& self.ids_array.valid(batch.record_of(i))
        &&& self.parent_ids_array@[row] == self.ids_array.cells@[batch.record_of(i)]
        &&& exists|processed: ProcessedValue|
            #[trigger] existing_content(codec, batch.columns, i, processed)
                && self.row_holds(row, processed)
    }

    /// A row that was carried over stays so while more is added.
    proof fn lemma_carries<C: ValueCodec>(
        &self,
        codec: &C,
        batch: OtapAttributesBatch,
        before: AttributesBuilder,
        i: int,
        key_index: usize,
        row: int,
    )
        requires
            0 <= row < before.attribute_position,
            0 <= batch.record_of(i) < before.records(),
            before.wf(),
            before.carries(codec, batch, i, key_index, row),
            self.keeps(before, before.attribute_position as int),
            self.ids_grown(before),
        ensures
            self.carries(codec, batch, i, key_index, row),
    {
        assert(self.types_array@[row] == before.types_array@[row]);
        assert(self.keys_array@[row] == before.keys_array@[row]);
        assert(self.parent_ids_array@[row] == before.parent_ids_array@[row]);
        assert(before.ids_array.valid(batch.record_of(i)));
        let processed = choose|processed: ProcessedValue|
            #[trigger] existing_content(codec, batch.columns, i, processed)
                && before.row_holds(row, processed);
        self.lemma_row_holds(before, row, processed);
        assert(existing_content(codec, batch.columns, i, processed));
    }

    /// Whether a builder has taken attribute `i` if it is kept, and is as it was if not.
    pub open spec fn existing_step<C: ValueCodec>(
        &self,
        before: AttributesBuilder,
        codec: &C,
        batch: OtapAttributesBatch,
        keep: Seq<bool>,
        key_mapping: Seq<Option<usize>>,
        i: int,
    ) -> bool {
        if keep[i] {
            exists|processed: ProcessedValue|
                #[trigger] existing_content(codec, batch.columns, i, processed) && self.pushed(
                    before,
                    batch.record_of(i),
                    key_mapping[batch.columns.keys.keys@[i] as int]->0,
                    batch.columns.types@[i],
                    processed,
                )
        } else {
            *self == before
        }
    }

    /// Adds the attributes that are kept, each under the position that its key has been given and
    /// for the record that it belonged to. Records get ids in the order in which their attributes come;
    /// one without an attribute that is kept gets none.
    pub fn push_existing_attributes<C: ValueCodec>(
        &mut self,
        codec: &C,
        attributes_batch: &OtapAttributesBatch,
        attributes_to_keep: &Vec<bool>,
        key_mapping: &Vec<Option<usize>>,
    )
        requires
            old(self).wf(),
            attributes_batch.wf(),
            old(self).records() == attributes_batch.ids@.len(),
            attributes_to_keep@.len() == attributes_batch.columns.types@.len(),
            key_mapping@.len() == attributes_batch.columns.keys.values@.len(),
            old(self).attribute_position + count_set(
                attributes_to_keep@,
                attributes_to_keep@.len() as int,
            ) <= old(self).capacity(),
            forall|i: int|
                0 <= i < attributes_to_keep@.len() && attributes_to_keep@[i] ==> {
                    &&& key_mapping@[#[trigger] attributes_batch.columns.keys.keys@[i] as int] matches Some(
                        position,
                    )
                    &&& position < old(self).keys_value_builder@.len()
                },
            crate::attributes_builder::given_ids(
                old(self).ids_array.options(),
                old(self).next_parent_id as int,
                kept_records(
                    *attributes_batch,
                    attributes_to_keep@,
                    attributes_to_keep@.len() as int,
                ),
            ).1 <= 0xFFFF,
        ensures
            final(self).wf(),
            final(self).keeps(*old(self), old(self).attribute_position as int),
            final(self).ids_grown(*old(self)),
            (final(self).ids_array.options(), final(self).next_parent_id as int)
                == crate::attributes_builder::given_ids(
                old(self).ids_array.options(),
                old(self).next_parent_id as int,
                kept_records(
                    *attributes_batch,
                    attributes_to_keep@,
                    attributes_to_keep@.len() as int,
                ),
            ),
            final(self).keys_value_builder == old(self).keys_value_builder,
            final(self).attribute_position == old(self).attribute_position + count_set(
                attributes_to_keep@,
                attributes_to_keep@.len() as int,
            ),
            final(self).grew(
                *old(self),
                count_set(attributes_to_keep@, attributes_to_keep@.len() as int) as int,
                kept_contents(
                    codec,
                    attributes_batch.columns,
                    attributes_to_keep@,
                    attributes_to_keep@.len() as int,
                ),
            ),
            forall|i: int|
                0 <= i < attributes_to_keep@.len() && #[trigger] attributes_to_keep@[i]
                    ==> final(self).carries(
                    codec,
                    *attributes_batch,
                    i,
                    key_mapping@[attributes_batch.columns.keys.keys@[i] as int]->0,
                    old(self).attribute_position + count_set(attributes_to_keep@, i),
                ),
            exists|states: Seq<AttributesBuilder>| #[trigger]
                existing_steps(
                    codec,
                    *attributes_batch,
                    attributes_to_keep@,
                    key_mapping@,
                    states,
                ) && states.len() == attributes_to_keep@.len() + 1 && states[0] == *old(self)
                    && states.last() == *final(self),
    {
        let ghost start = *self;
        let ghost mut states: Seq<AttributesBuilder> = seq![start];
        let id_to_record_index_map: Vec<u16> = get_id_to_record_index_map(&attributes_batch.ids);
        let columns = &attributes_batch.columns;
        let mut i: usize = 0;
        proof {
            self.lemma_grew_same(
                start,
                0,
                kept_contents(codec, attributes_batch.columns, attributes_to_keep@, 0),
            );
        }
        while i < attributes_to_keep.len()
            invariant
                self.grew(
                    start,
                    count_set(attributes_to_keep@, i as int) as int,
                    kept_contents(codec, attributes_batch.columns, attributes_to_keep@, i as int),
                ),
                i <= attributes_to_keep@.len(),
                attributes_batch.wf(),
                *columns == attributes_batch.columns,
                start.records() == attributes_batch.ids@.len(),
                attributes_to_keep@.len() == columns.types@.len(),
                key_mapping@.len() == columns.keys.values@.len(),
                start.attribute_position + count_set(
                    attributes_to_keep@,
                    attributes_to_keep@.len() as int,
                ) <= start.capacity(),
                forall|j: int|
                    0 <= j < attributes_to_keep@.len() && attributes_to_keep@[j] ==> {
                        &&& key_mapping@[#[trigger] columns.keys.keys@[j] as int] matches Some(
                            position,
                        )
                        &&& position < start.keys_value_builder@.len()
                    },
                id_to_record_index_map@.len() == crate::attributes_batch::id_space(
                    attributes_batch.ids@,
                    attributes_batch.ids@.len() as int,
                ),
                forall|id: int|
                    0 <= id < id_to_record_index_map@.len()
                        ==> #[trigger] id_to_record_index_map@[id]
                        == crate::attributes_batch::record_with_id(
                        attributes_batch.ids@,
                        id,
                        attributes_batch.ids@.len() as int,
                    ),
                states.len() == i + 1,
                states[0] == start,
                states.last() == *self,
                existing_steps(
                    codec,
                    *attributes_batch,
                    attributes_to_keep@,
                    key_mapping@,
                    states,
                ),
                self.wf(),
                self.keeps(start, start.attribute_position as int),
                self.ids_grown(start),
                crate::attributes_builder::given_ids(
                    start.ids_array.options(),
                    start.next_parent_id as int,
                    kept_records(
                        *attributes_batch,
                        attributes_to_keep@,
                        attributes_to_keep@.len() as int,
                    ),
                ).1 <= 0xFFFF,
                crate::attributes_builder::given_ids(
                    start.ids_array.options(),
                    start.next_parent_id as int,
                    kept_records(*attributes_batch, attributes_to_keep@, i as int),
                ) == (self.ids_array.options(), self.next_parent_id as int),
                self.keys_value_builder == start.keys_value_builder,
                self.attribute_position == start.attribute_position + count_set(
                    attributes_to_keep@,
                    i as int,
                ),
                forall|j: int|
                    0 <= j < i && #[trigger] attributes_to_keep@[j] ==> self.carries(
                        codec,
                        *attributes_batch,
                        j,
                        key_mapping@[columns.keys.keys@[j] as int]->0,
                        start.attribute_position + count_set(attributes_to_keep@, j),
                    ),
            decreases attributes_to_keep@.len() - i,
        {
            let ghost known = states;
            let ghost contents = kept_contents(
                codec,
                attributes_batch.columns,
                attributes_to_keep@,
                i as int,
            );
            let ghost more = kept_contents(
                codec,
                attributes_batch.columns,
                attributes_to_keep@,
                i + 1,
            );
            let ghost before = *self;
            if attributes_to_keep[i] {
                let key: usize = columns.keys.keys[i] as usize;
                assert(columns.keys.keys@[i as int] < columns.keys.values@.len());
                let key_index: usize = match key_mapping[key] {
                    Some(key_index) => key_index,
                    None => 0,
                };
                let parent_id: usize = columns.parent_ids[i] as usize;
                let record_index: usize = id_to_record_index_map[parent_id] as usize;
                proof {
                    lemma_count_set(
                        attributes_to_keep@,
                        i as int,
                        attributes_to_keep@.len() as int,
                    );
                    crate::attributes_batch::lemma_record_with_id(
                        attributes_batch.ids@,
                        parent_id as int,
                        attributes_batch.ids@.len() as int,
                    );
                    assert(record_index == attributes_batch.record_of(i as int));
                    lemma_kept_ids_grow(
                        start.ids_array.options(),
                        start.next_parent_id as int,
                        *attributes_batch,
                        attributes_to_keep@,
                        i + 1,
                        attributes_to_keep@.len() as int,
                    );
                    let records = kept_records(*attributes_batch, attributes_to_keep@, i as int);
                    assert(records.push(record_index as int).drop_last() =~= records);
                    assert(self.ids_array.options()[record_index as int] == self.ids_array.cell(
                        record_index as int,
                    ));
                    assert(self.id_at_hand(record_index as int));
                }
                let processed = take_existing(codec, columns, i);
                let ghost content = processed;
                let attribute_type: u8 = columns.types[i];
                assert(columns.types@[i as int] <= 7);
                self.push_row(record_index, key_index, attribute_type, processed);
                proof {
                    self.lemma_pushed_ids(
                        before,
                        record_index as int,
                        key_index,
                        attribute_type,
                        content,
                        start.ids_array.options(),
                        start.next_parent_id as int,
                        kept_records(*attributes_batch, attributes_to_keep@, i as int),
                    );
                    assert(existing_content(
                        codec,
                        attributes_batch.columns,
                        i as int,
                        content,
                    ));
                    assert(self.existing_step(
                        before,
                        codec,
                        *attributes_batch,
                        attributes_to_keep@,
                        key_mapping@,
                        i as int,
                    ));
                    assert(self.carries(
                        codec,
                        *attributes_batch,
                        i as int,
                        key_index,
                        before.attribute_position as int,
                    ));
                    assert forall|j: int|
                        0 <= j < i && #[trigger] attributes_to_keep@[j] implies self.carries(
                        codec,
                        *attributes_batch,
                        j,
                        key_mapping@[columns.keys.keys@[j] as int]->0,
                        start.attribute_position + count_set(attributes_to_keep@, j),
                    ) by {
                        lemma_count_set(attributes_to_keep@, j, i as int);
                        crate::attributes_batch::lemma_record_with_id(
                            attributes_batch.ids@,
                            columns.parent_ids@[j] as int,
                            attributes_batch.ids@.len() as int,
                        );
                        self.lemma_carries(
                            codec,
                            *attributes_batch,
                            before,
                            j,
                            key_mapping@[columns.keys.keys@[j] as int]->0,
                            start.attribute_position + count_set(attributes_to_keep@, j),
                        );
                    }
                    self.lemma_keeps(before, start);
                    self.lemma_filled_grew(
                        before,
                        before.attribute_position as int,
                        before.attribute_position + 1,
                        content,
                    );
                    assert(set![content].subset_of(more));
                    self.lemma_grew_more(
                        before,
                        start,
                        count_set(attributes_to_keep@, i as int) as int,
                        contents,
                        1,
                        set![content],
                        more,
                    );
                }
            } else {
                proof {
                    self.lemma_grew_same(before, 0, more);
                    self.lemma_grew_more(
                        before,
                        start,
                        count_set(attributes_to_keep@, i as int) as int,
                        contents,
                        0,
                        more,
                        more,
                    );
                }
            }
            proof {
                states = known.push(*self);
                lemma_existing_steps(
                    codec,
                    *attributes_batch,
                    attributes_to_keep@,
                    key_mapping@,
                    known,
                    *self,
                );
            }
            i = i + 1;
        }
    }

    /// What was kept by one addition and by those before it is kept by all.
    pub proof fn lemma_keeps(&self, before: AttributesBuilder, start: AttributesBuilder)
        requires
            start.attribute_position <= before.attribute_position,
            before.keeps(start, start.attribute_position as int),
            before.ids_grown(start),
            before.wf(),
            self.keeps(before, before.attribute_position as int),
            self.ids_grown(before),
        ensures
            self.keeps(start, start.attribute_position as int),
            self.ids_grown(start),
    {
        let n = start.attribute_position as int;
        assert forall|i: int| 0 <= i < n implies #[trigger] self.types_array@[i]
            == start.types_array@[i] by {
            assert(before.types_array@[i] == start.types_array@[i]);
        }
        assert forall|i: int| 0 <= i < n implies #[trigger] self.keys_array@[i]
            == start.keys_array@[i] by {
            assert(before.keys_array@[i] == start.keys_array@[i]);
        }
        assert forall|i: int| 0 <= i < n implies #[trigger] self.parent_ids_array@[i]
            == start.parent_ids_array@[i] by {
            assert(before.parent_ids_array@[i] == start.parent_ids_array@[i]);
        }
        assert forall|i: int| 0 <= i < n implies #[trigger] self.value_at(i) == start.value_at(i) by {
            assert(before.value_at(i) == start.value_at(i));
        }
        assert forall|attribute_type: u8| start.present(attribute_type) implies #[trigger] self.present(
            attribute_type,
        ) by {
            assert(before.present(attribute_type));
        }
        assert forall|r: int|
            0 <= r < start.records() && #[trigger] start.ids_array.valid(r) implies self.ids_array.valid(
            r,
        ) && self.ids_array.cells@[r] == start.ids_array.cells@[r] by {
            assert(before.ids_array.valid(r));
        }
        assert forall|r: int|
            0 <= r < start.records() && !start.ids_array.valid(r)
                && #[trigger] self.ids_array.valid(r) implies start.next_parent_id
            <= self.ids_array.cells@[r] < self.next_parent_id by {
            if before.ids_array.valid(r) {
                assert(self.ids_array.cells@[r] == before.ids_array.cells@[r]);
            }
        }
    }
}

} // verus!
