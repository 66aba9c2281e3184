//! What reading attributes gives back of what was written.

use vstd::prelude::*;

use crate::attribute_columns::ValueCodec;
use crate::attributes_batch::OtapAttributesBatch;
use crate::dictionary::Dictionary;
use crate::named_values::NamedValues;
use crate::otap_value::OtapValue;
use crate::processed_value::ProcessedValue;
use crate::value::ValueOrRef;

verus! {

/// Whether `value` is what reading gives back of what was kept: the value, or the one that a missing
/// entry stands for, or what a serialized form reads as. Empty lists, maps and byte sequences have no
/// entry, and read as null.
pub open spec fn reads_back<C: ValueCodec>(
    codec: &C,
    processed: ProcessedValue,
    value: ValueOrRef,
) -> bool {
    match processed {
        ProcessedValue::String(None) => crate::attribute_columns::is_empty_text(value),
        ProcessedValue::Integer(None) => value == ValueOrRef::Integer(0),
        ProcessedValue::Double(None) => value == ValueOrRef::Double(0),
        ProcessedValue::Empty => value is Null,
        ProcessedValue::Slice(None) => value is Null,
        ProcessedValue::MapValue(None) => value is Null,
        ProcessedValue::Bytes(None) => value is Null,
        ProcessedValue::Slice(Some(form)) => reads_form(codec, form, value),
        ProcessedValue::MapValue(Some(form)) => reads_form(codec, form, value),
        _ => processed.content() matches Some(content) && crate::interning::interned(
            value,
            content,
        ),
    }
}

/// Whether a serialized form reads as `value`.
pub open spec fn reads_form<C: ValueCodec>(
    codec: &C,
    form: ValueOrRef,
    value: ValueOrRef,
) -> bool {
    exists|held: ValueOrRef|
        crate::interning::interned(held, form) && #[trigger] crate::attribute_columns::decodes(
            codec,
            held,
            value,
        )
}

/// Whether a row is the only one that gives its record a value under its key.
pub open spec fn only_row(batch: OtapAttributesBatch, record: int, row: int) -> bool {
    forall|i: int|
        0 <= i < batch.columns.types@.len() && i != row ==> !#[trigger] batch.gives(
            batch.columns.keys.keys@[row] as int,
            record,
            i,
        )
}

/// Whether a record is the only one with its id.
pub open spec fn own_id(ids: Seq<Option<u16>>, record: int) -> bool {
    forall|r: int|
        0 <= r < ids.len() && r != record ==> #[trigger] ids[r] != ids[record]
}

proof fn lemma_last_row(batch: OtapAttributesBatch, key: int, record: int, row: int, n: int)
    requires
        0 <= row < n <= batch.columns.types@.len(),
        batch.gives(key, record, row),
        forall|i: int|
            0 <= i < batch.columns.types@.len() && i != row ==> !#[trigger] batch.gives(
                key,
                record,
                i,
            ),
    ensures
        batch.last_row(key, record, n) == Some(row),
    decreases n,
{
    if n - 1 > row {
        assert(!batch.gives(key, record, n - 1));
        lemma_last_row(batch, key, record, row, n - 1);
    }
}

proof fn lemma_no_row(batch: OtapAttributesBatch, key: int, record: int, n: int)
    requires
        n <= batch.columns.types@.len(),
        forall|i: int|
            0 <= i < batch.columns.types@.len() ==> !#[trigger] batch.gives(key, record, i),
    ensures
        batch.last_row(key, record, n) is None,
    decreases n,
{
    if n > 0 {
        assert(!batch.gives(key, record, n - 1));
        lemma_no_row(batch, key, record, n - 1);
    }
}

/// What a record reads as under a key is what was written for it there, if it shares its id with no
/// other and has one attribute under the key, and the columns can tell all values apart.
proof fn lemma_written_reads_back<C: ValueCodec>(
    codec: &C,
    batch: OtapAttributesBatch,
    name: Seq<char>,
    record: int,
    value: ValueOrRef,
    row: int,
    read: ValueOrRef,
)
    requires
        batch.wf(),
        0 <= record < batch.ids@.len(),
        0 <= row < batch.columns.types@.len(),
        batch.columns.fits(),
        crate::attributes_writer::written_attribute(
            codec,
            batch.ids@,
            batch.columns,
            name,
            record,
            value,
            row,
        ),
        own_id(batch.ids@, record),
        only_row(batch, record, row),
        batch.record_reads(codec, batch.columns.keys.keys@[row] as int, record, read),
    ensures
        batch.columns.key(row) == name,
        exists|processed: ProcessedValue|
            #[trigger] crate::processed_value::processes(codec, value, processed) && reads_back(
                codec,
                processed,
                read,
            ),
{
    let columns = batch.columns;
    let key = columns.keys.keys@[row] as int;
    crate::attributes_batch::lemma_record_with_id(
        batch.ids@,
        columns.parent_ids@[row] as int,
        batch.ids@.len() as int,
    );
    assert(batch.ids@[record] == Some(columns.parent_ids@[row]));
    assert(batch.record_of(row) == record);
    if columns.has_value(row) {
        assert(batch.gives(key, record, row));
        lemma_last_row(batch, key, record, row, columns.types@.len() as int);
        assert(columns.reads(codec, row, read));
    } else {
        lemma_no_row(batch, key, record, columns.types@.len() as int);
        assert(read is Null);
    }
    let processed = choose|processed: ProcessedValue|
        #[trigger] crate::processed_value::processes(codec, value, processed)
            && columns.types@[row] == processed.attribute_type()
            && crate::attributes_writer::column_row_holds(columns, row, processed);
    assert(crate::processed_value::processes(codec, value, processed));
    match processed.content() {
        Some(content) => {
            let held = columns.stored(row)->0;
            assert(crate::interning::interned(held, content));
            if columns.types@[row] == 5 || columns.types@[row] == 6 {
                assert(crate::attribute_columns::decodes(codec, held, read));
            }
        },
        None => {},
    }
    assert(reads_back(codec, processed, read));
}

/// What a value of a dictionary is told apart from others by: its type, and its characters, its bytes
/// or the integer.
pub open spec fn form(value: ValueOrRef) -> (crate::value::ValueType, Seq<int>) {
    (
        value.value_type(),
        match value {
            ValueOrRef::String(text) => Seq::new(text@.len(), |i: int| text@[i] as int),
            ValueOrRef::Integer(n) => seq![n as int],
            _ => match crate::attribute_columns::value_bytes(value) {
                Some(bytes) => Seq::new(bytes@.len(), |i: int| bytes@[i] as int),
                None => Seq::empty(),
            },
        },
    )
}

/// Whether the forms are those of all values that may come into the dictionary for a kind of attribute:
/// of the attributes that stay, and of what has been written.
pub open spec fn forms_cover<C: ValueCodec>(
    codec: &C,
    values: NamedValues<OtapValue>,
    attributes_batch: Option<&OtapAttributesBatch>,
    kind: u8,
    forms: Set<(crate::value::ValueType, Seq<int>)>,
) -> bool {
    forall|value: ValueOrRef|
        crate::attributes_writer::started_value(codec, values, attributes_batch, kind, value)
            || crate::attributes_builder::comes_of(
            crate::attributes_writer::written_contents(
                codec,
                values,
                values.names().len() as int,
            ),
            kind,
            value,
        ) ==> forms.contains(#[trigger] form(value))
}

/// Whether there is a key of two bytes for each value that comes into the dictionary for a kind of
/// attribute: there are few attributes, or they have few different values.
pub open spec fn room_for<C: ValueCodec>(
    codec: &C,
    values: NamedValues<OtapValue>,
    attributes_batch: Option<&OtapAttributesBatch>,
    kind: u8,
) -> bool {
    ||| crate::attributes_writer::started_size(values, attributes_batch, kind)
        + crate::attributes_writer::count_written(values, values.names().len() as int) <= 0x10000
    ||| exists|forms: Set<(crate::value::ValueType, Seq<int>)>|
        forms.finite() && forms.len() <= 0x10000 && #[trigger] forms_cover(
            codec,
            values,
            attributes_batch,
            kind,
            forms,
        )
}

/// Whether columns can tell all keys and values of attributes apart.
pub open spec fn room<C: ValueCodec>(
    codec: &C,
    values: NamedValues<OtapValue>,
    attributes_batch: Option<&OtapAttributesBatch>,
) -> bool {
    &&& crate::attributes_writer::all_keys(values, attributes_batch).len() <= 0x10000
    &&& forall|kind: u8| #[trigger] room_for(codec, values, attributes_batch, kind)
}

proof fn lemma_written_key_count(values: NamedValues<OtapValue>, n: int)
    ensures
        crate::attributes_writer::written_keys(values, n).len()
            <= crate::attributes_writer::count_written_names(values, n),
    decreases n,
{
    if n > 0 {
        lemma_written_key_count(values, n - 1);
    }
}

/// Values that are told apart by nothing are the same.
proof fn lemma_same_form(kind: u8, a: ValueOrRef, b: ValueOrRef)
    requires
        a is Null || crate::attribute_columns::dictionary_kind(a) == kind,
        b is Null || crate::attribute_columns::dictionary_kind(b) == kind,
        kind == 1 || kind == 2 || kind == 7,
        form(a) == form(b),
    ensures
        crate::value::value_same(a, b),
{
    match (a, b) {
        (ValueOrRef::String(l), ValueOrRef::String(r)) => {
            assert(form(a).1.len() == l@.len() && form(b).1.len() == r@.len());
            assert forall|i: int| 0 <= i < l@.len() implies l@[i] == r@[i] by {
                assert(form(a).1[i] == l@[i] as int && form(b).1[i] == r@[i] as int);
            }
            assert(l@ =~= r@);
        },
        (ValueOrRef::Integer(l), ValueOrRef::Integer(r)) => {
            assert(form(a).1[0] == l as int && form(b).1[0] == r as int);
            assert(crate::value::value_same(a, b));
        },
        (ValueOrRef::Array(_), ValueOrRef::Array(_)) => {
            let l = crate::attribute_columns::value_bytes(a)->0;
            let r = crate::attribute_columns::value_bytes(b)->0;
            assert(form(a).1.len() == l@.len() && form(b).1.len() == r@.len());
            assert forall|i: int| 0 <= i < l@.len() implies l@[i] == r@[i] by {
                assert(form(a).1[i] == l@[i] as int && form(b).1[i] == r@[i] as int);
            }
            assert(l@ =~= r@);
            assert(crate::value::value_same(a, b));
        },
        _ => {
            assert(a is Null && b is Null);
        },
    }
}

/// There are no more values in a dictionary than there are forms of them.
proof fn lemma_forms(
    held: Seq<ValueOrRef>,
    kind: u8,
    forms: Set<(crate::value::ValueType, Seq<int>)>,
)
    requires
        kind == 1 || kind == 2 || kind == 7,
        crate::interning::all_distinct(held),
        forall|k: int|
            0 <= k < held.len() ==> #[trigger] held[k] is Null
                || crate::attribute_columns::dictionary_kind(held[k]) == kind,
        forms.finite(),
        forall|k: int| 0 <= k < held.len() ==> forms.contains(form(#[trigger] held[k])),
    ensures
        held.len() <= forms.len(),
{
    let all = Seq::new(held.len(), |k: int| form(held[k]));
    assert forall|a: int, b: int|
        0 <= a < all.len() && 0 <= b < all.len() && a != b implies all[a] != all[b] by {
        if all[a] == all[b] {
            if a < b {
                lemma_same_form(kind, held[a], held[b]);
            } else {
                lemma_same_form(kind, held[b], held[a]);
            }
        }
    }
    all.unique_seq_to_set();
    assert forall|told| all.to_set().contains(told) implies forms.contains(told) by {
        let k = all.index_of(told);
        assert(forms.contains(form(held[k])));
    }
    vstd::set_lib::lemma_len_subset(all.to_set(), forms);
}

/// Columns that attributes have been written out to can tell all keys and values apart, if there is
/// room for them.
pub proof fn lemma_written_fits<C: ValueCodec>(
    codec: &C,
    record_count: nat,
    values: NamedValues<OtapValue>,
    attributes_batch: Option<&OtapAttributesBatch>,
    ids: Seq<Option<u16>>,
    columns: crate::attribute_columns::AttributeColumns,
)
    requires
        crate::attributes_writer::written_out(
            codec,
            record_count,
            values,
            attributes_batch,
            ids,
            columns,
        ),
        room(codec, values, attributes_batch),
    ensures
        columns.fits(),
{
    let count = values.names().len() as int;
    lemma_written_key_count(values, count);
    assert(columns.keys.values@.len() == crate::attributes_builder::key_texts(
        columns.keys.values@,
    ).len());
    lemma_dictionary_fits(codec, values, attributes_batch, columns, 1, 1);
    lemma_dictionary_fits(codec, values, attributes_batch, columns, 2, 2);
    lemma_dictionary_fits(codec, values, attributes_batch, columns, 5, 7);
    lemma_dictionary_fits(codec, values, attributes_batch, columns, 7, 7);
}

proof fn lemma_dictionary_fits<C: ValueCodec>(
    codec: &C,
    values: NamedValues<OtapValue>,
    attributes_batch: Option<&OtapAttributesBatch>,
    columns: crate::attribute_columns::AttributeColumns,
    kind: u8,
    value_kind: u8,
)
    requires
        columns.wf(),
        kind == 1 && value_kind == 1 || kind == 2 && value_kind == 2 || kind == 5 && value_kind == 7
            || kind == 7 && value_kind == 7,
        forall|kind: u8| #[trigger]
            crate::attributes_writer::dictionary_filled(
                codec,
                values,
                attributes_batch,
                columns,
                kind,
            ),
        forall|kind: u8| #[trigger] room_for(codec, values, attributes_batch, kind),
    ensures
        columns.held(kind).len() <= 0x10000,
{
    let held = columns.held(kind);
    assert(crate::attributes_writer::dictionary_filled(
        codec,
        values,
        attributes_batch,
        columns,
        kind,
    ));
    assert(room_for(codec, values, attributes_batch, kind));
    if held.len() > 0x10000 {
        let forms = choose|forms: Set<(crate::value::ValueType, Seq<int>)>|
            forms.finite() && forms.len() <= 0x10000 && #[trigger] forms_cover(
                codec,
                values,
                attributes_batch,
                kind,
                forms,
            );
        assert forall|k: int| 0 <= k < held.len() implies forms.contains(
            form(#[trigger] held[k]),
        ) by {}
        lemma_forms(held, value_kind, forms);
    }
}

/// Whether no two records have one id, and the next id is past all of them.
pub open spec fn ids_apart(ids: Seq<Option<u16>>, next: int) -> bool {
    &&& forall|r: int| 0 <= r < ids.len() ==> (#[trigger] ids[r] matches Some(id) ==> id < next)
    &&& forall|r: int, s: int|
        0 <= r < s < ids.len() && #[trigger] ids[r] is Some && #[trigger] ids[s] is Some ==> ids[r]
            != ids[s]
}

/// Records that are given ids in turn have ids of their own, if they had before.
pub proof fn lemma_given_ids_apart(ids: Seq<Option<u16>>, next: int, records: Seq<int>)
    requires
        0 <= next,
        ids_apart(ids, next),
        crate::attributes_builder::given_ids(ids, next, records).1 <= 0xFFFF,
        forall|k: int| 0 <= k < records.len() ==> 0 <= #[trigger] records[k] < ids.len(),
    ensures
        ({
            let given = crate::attributes_builder::given_ids(ids, next, records);
            &&& given.0.len() == ids.len()
            &&& next <= given.1
            &&& ids_apart(given.0, given.1)
        }),
    decreases records.len(),
{
    if records.len() > 0 {
        let fewer = records.drop_last();
        assert forall|k: int| 0 <= k < fewer.len() implies 0 <= #[trigger] fewer[k] < ids.len() by {
            assert(fewer[k] == records[k]);
        }
        lemma_given_ids_apart(ids, next, fewer);
        let record = records.last();
        assert(record == records[records.len() - 1]);
    }
}

/// Whether the names are those that have a value, each once.
pub open spec fn names_valid(values: NamedValues<OtapValue>) -> bool {
    &&& forall|name: Seq<char>| #[trigger]
        values@.contains_key(name) == values.names().contains(name)
    &&& values.names().no_duplicates()
}

/// Whether the records have ids of their own before attributes that have been written are added. This
/// is so unless all attributes stay, and with them ids that are shared or past those of the attributes.
pub open spec fn starts_apart(
    values: NamedValues<OtapValue>,
    attributes_batch: Option<&OtapAttributesBatch>,
) -> bool {
    attributes_batch matches Some(batch) ==> crate::attributes_writer::keeps_any(values, *batch)
        && !crate::attributes_writer::skips_any(values, *batch) ==> ids_apart(
        batch.ids@,
        crate::existing_attributes::next_after(
            batch.columns.parent_ids@,
            batch.columns.parent_ids@.len() as int,
        ),
    )
}

proof fn lemma_next_after(ids: Seq<u16>, n: int)
    ensures
        0 <= crate::existing_attributes::next_after(ids, n),
    decreases n,
{
    if n > 0 {
        lemma_next_after(ids, n - 1);
    }
}

proof fn lemma_kept_records(batch: OtapAttributesBatch, keep: Seq<bool>, n: int)
    requires
        batch.ids@.len() > 0,
    ensures
        forall|k: int|
            0 <= k < crate::existing_attributes::kept_records(batch, keep, n).len() ==> 0
                <= #[trigger] crate::existing_attributes::kept_records(batch, keep, n)[k]
                < batch.ids@.len(),
    decreases n,
{
    if n > 0 {
        lemma_kept_records(batch, keep, n - 1);
        crate::attributes_batch::lemma_record_with_id(
            batch.ids@,
            batch.columns.parent_ids@[n - 1] as int,
            batch.ids@.len() as int,
        );
        let before = crate::existing_attributes::kept_records(batch, keep, n - 1);
        let all = crate::existing_attributes::kept_records(batch, keep, n);
        assert forall|k: int| 0 <= k < all.len() implies 0 <= #[trigger] all[k]
            < batch.ids@.len() by {
            if k < before.len() {
                assert(all[k] == before[k]);
            }
        }
    }
}

proof fn lemma_value_records(rows: Seq<ValueOrRef>, n: int)
    ensures
        forall|k: int|
            0 <= k < crate::attributes_writer::value_records(rows, n).len() ==> 0
                <= #[trigger] crate::attributes_writer::value_records(rows, n)[k] < n,
    decreases n,
{
    if n > 0 {
        lemma_value_records(rows, n - 1);
        let before = crate::attributes_writer::value_records(rows, n - 1);
        let all = crate::attributes_writer::value_records(rows, n);
        assert forall|k: int| 0 <= k < all.len() implies 0 <= #[trigger] all[k] < n by {
            if k < before.len() {
                assert(all[k] == before[k]);
            }
        }
    }
}

proof fn lemma_written_records(values: NamedValues<OtapValue>, record_count: nat, n: int)
    requires
        crate::attributes_writer::values_wf(values, record_count),
        n <= values.names().len(),
    ensures
        forall|k: int|
            0 <= k < crate::attributes_writer::written_records(values, n).len() ==> 0
                <= #[trigger] crate::attributes_writer::written_records(values, n)[k]
                < record_count,
    decreases n,
{
    if n > 0 {
        lemma_written_records(values, record_count, n - 1);
        let rows = crate::attributes_writer::written_rows(values, n - 1);
        lemma_value_records(rows, rows.len() as int);
        let before = crate::attributes_writer::written_records(values, n - 1);
        let more = crate::attributes_writer::value_records(rows, rows.len() as int);
        let all = crate::attributes_writer::written_records(values, n);
        assert(values.names()[n - 1] == values.names()[n - 1]);
        assert forall|k: int| 0 <= k < all.len() implies 0 <= #[trigger] all[k] < record_count by {
            if k < before.len() {
                assert(all[k] == before[k]);
            } else {
                assert(all[k] == more[k - before.len()]);
            }
        }
    }
}

/// Records that attributes are written out for have ids of their own.
proof fn lemma_written_ids_apart(
    record_count: nat,
    values: NamedValues<OtapValue>,
    attributes_batch: Option<&OtapAttributesBatch>,
)
    requires
        0 < record_count,
        crate::attributes_writer::ids_last(record_count, values, attributes_batch),
        crate::attributes_writer::values_wf(values, record_count),
        attributes_batch matches Some(batch) ==> batch.ids@.len() == record_count,
        starts_apart(values, attributes_batch),
    ensures
        exists|next: int| #[trigger]
            ids_apart(
                crate::attributes_writer::written_ids(record_count, values, attributes_batch),
                next,
            ),
{
    let count = values.names().len() as int;
    let started = crate::attributes_writer::started_ids(record_count, values, attributes_batch);
    let none = Seq::new(record_count, |r: int| None::<u16>);
    let records = crate::attributes_writer::written_records(values, count);
    crate::attributes_builder::lemma_given_ids_grow(started.0, started.1, records);
    if let Some(batch) = attributes_batch {
        let keep = crate::attributes_writer::keep_flags(values, *batch);
        lemma_next_after(batch.columns.parent_ids@, batch.columns.parent_ids@.len() as int);
        if crate::attributes_writer::keeps_any(values, *batch)
            && crate::attributes_writer::skips_any(values, *batch) {
            let kept = crate::existing_attributes::kept_records(*batch, keep, keep.len() as int);
            lemma_kept_records(*batch, keep, keep.len() as int);
            lemma_given_ids_apart(none, 0, kept);
        }
    }
    lemma_written_records(values, record_count, count);
    lemma_given_ids_apart(started.0, started.1, records);
    let given = crate::attributes_builder::given_ids(started.0, started.1, records);
    assert(ids_apart(
        crate::attributes_writer::written_ids(record_count, values, attributes_batch),
        given.1,
    ));
}

proof fn lemma_id_space(before: Seq<Option<u16>>, after: Seq<Option<u16>>, n: int)
    requires
        before.len() == after.len(),
        0 <= n <= before.len(),
        forall|r: int|
            0 <= r < before.len() && #[trigger] before[r] is Some ==> after[r] == before[r],
    ensures
        crate::attributes_batch::id_space(before, n) <= crate::attributes_batch::id_space(after, n),
    decreases n,
{
    if n > 0 {
        lemma_id_space(before, after, n - 1);
    }
}

proof fn lemma_in_id_space(ids: Seq<Option<u16>>, record: int, n: int)
    requires
        0 <= record < n <= ids.len(),
        ids[record] is Some,
    ensures
        ids[record]->0 < crate::attributes_batch::id_space(ids, n),
    decreases n,
{
    if record < n - 1 {
        lemma_in_id_space(ids, record, n - 1);
    }
}

proof fn lemma_given_ids_stay(ids: Seq<Option<u16>>, next: int, records: Seq<int>)
    requires
        forall|k: int| 0 <= k < records.len() ==> 0 <= #[trigger] records[k] < ids.len(),
    ensures
        crate::attributes_builder::given_ids(ids, next, records).0.len() == ids.len(),
        forall|r: int|
            0 <= r < ids.len() && #[trigger] ids[r] is Some
                ==> crate::attributes_builder::given_ids(ids, next, records).0[r] == ids[r],
    decreases records.len(),
{
    if records.len() > 0 {
        let fewer = records.drop_last();
        assert forall|k: int| 0 <= k < fewer.len() implies 0 <= #[trigger] fewer[k] < ids.len() by {
            assert(fewer[k] == records[k]);
        }
        lemma_given_ids_stay(ids, next, fewer);
    }
}

/// Attributes that have been written out can be read.
pub proof fn lemma_written_wf<C: ValueCodec>(
    codec: &C,
    record_count: nat,
    values: NamedValues<OtapValue>,
    attributes_batch: Option<&OtapAttributesBatch>,
    batch: OtapAttributesBatch,
)
    requires
        record_count <= 0x10000,
        crate::attributes_writer::values_wf(values, record_count),
        attributes_batch matches Some(existing) ==> {
            &&& existing.wf()
            &&& existing.ids@.len() == record_count
        },
        crate::attributes_writer::written_out(
            codec,
            record_count,
            values,
            attributes_batch,
            batch.ids@,
            batch.columns,
        ),
    ensures
        batch.wf(),
{
    let columns = batch.columns;
    let count = values.names().len() as int;
    let kept = crate::attributes_writer::kept_count(values, attributes_batch);
    let started = crate::attributes_writer::started_ids(record_count, values, attributes_batch);
    lemma_written_records(values, record_count, count);
    assert forall|i: int| 0 <= i < columns.parent_ids@.len() implies #[trigger] columns.parent_ids@[i]
        < crate::attributes_batch::id_space(batch.ids@, batch.ids@.len() as int) by {
        if i < kept {
            let existing = attributes_batch->0;
            let keep = crate::attributes_writer::keep_flags(values, *existing);
            let m = lemma_set_onto(keep, existing.columns.keys.keys@.len() as int, i);
            assert(keep[m]);
            assert(crate::attributes_writer::kept_attribute(
                codec,
                batch.ids@,
                columns,
                values,
                *existing,
                m,
                i,
            ));
            assert(existing.columns.parent_ids@[m] < crate::attributes_batch::id_space(
                existing.ids@,
                existing.ids@.len() as int,
            ));
            if crate::attributes_writer::skips_any(values, *existing) {
                crate::attributes_batch::lemma_record_with_id(
                    existing.ids@,
                    existing.columns.parent_ids@[m] as int,
                    existing.ids@.len() as int,
                );
                lemma_in_id_space(batch.ids@, existing.record_of(m), batch.ids@.len() as int);
            } else {
                assert(started.0 == existing.ids@);
                lemma_given_ids_stay(
                    started.0,
                    started.1,
                    crate::attributes_writer::written_records(values, count),
                );
                lemma_id_space(existing.ids@, batch.ids@, record_count as int);
            }
        } else {
            let (other, at) = lemma_written_onto(values, kept, count, i);
            assert(!(crate::attributes_writer::written_rows(values, other)[at] is Null));
            assert(crate::attributes_writer::written_attribute(
                codec,
                batch.ids@,
                columns,
                values.names()[other],
                at,
                crate::attributes_writer::written_rows(values, other)[at],
                i,
            ));
            assert(values@[values.names()[other]] is Written);
            lemma_in_id_space(batch.ids@, at, batch.ids@.len() as int);
        }
    }
}

proof fn lemma_unskipped(keys: Seq<String>, skip: Seq<bool>, n: int, text: Seq<char>)
    requires
        0 <= n <= keys.len(),
        forall|k: int| 0 <= k < n && (#[trigger] keys[k])@ == text ==> skip[k],
    ensures
        !crate::existing_attributes::unskipped(keys, skip, n).contains(text),
    decreases n,
{
    if n > 0 {
        lemma_unskipped(keys, skip, n - 1, text);
        let before = crate::existing_attributes::unskipped(keys, skip, n - 1);
        let all = crate::existing_attributes::unskipped(keys, skip, n);
        if all.contains(text) {
            let k = all.index_of(text);
            if k < before.len() {
                assert(before[k] == text);
            } else {
                assert(keys[n - 1]@ == text);
            }
        }
    }
}

/// A key under which something has been written is not among those that stay.
proof fn lemma_started_keys(
    values: NamedValues<OtapValue>,
    attributes_batch: Option<&OtapAttributesBatch>,
    name: Seq<char>,
)
    requires
        crate::attributes_writer::skipped(values, name),
    ensures
        !crate::attributes_writer::started_keys(values, attributes_batch).contains(name),
{
    if let Some(batch) = attributes_batch {
        let keys = batch.columns.keys.values@;
        let skip = crate::attributes_writer::skip_flags(values, *batch);
        assert forall|k: int| 0 <= k < keys.len() && (#[trigger] keys[k])@ == name implies skip[k] by {}
        lemma_unskipped(keys, skip, keys.len() as int, name);
        if !crate::attributes_writer::skips_any(values, *batch) {
            let texts = crate::attributes_builder::key_texts(keys);
            if texts.contains(name) {
                let k = texts.index_of(name);
                assert(keys[k]@ == name);
            }
        }
    }
}

/// Every name that is added as a key is one of the first names, and comes once.
proof fn lemma_written_keys(values: NamedValues<OtapValue>, n: int)
    requires
        0 <= n <= values.names().len(),
        values.names().no_duplicates(),
    ensures
        crate::attributes_writer::written_keys(values, n).no_duplicates(),
        forall|k: int|
            0 <= k < crate::attributes_writer::written_keys(values, n).len() ==> exists|j: int|
                0 <= j < n && #[trigger] values.names()[j]
                    == #[trigger] crate::attributes_writer::written_keys(values, n)[k],
    decreases n,
{
    if n > 0 {
        lemma_written_keys(values, n - 1);
        let before = crate::attributes_writer::written_keys(values, n - 1);
        let all = crate::attributes_writer::written_keys(values, n);
        assert forall|k: int| 0 <= k < all.len() implies exists|j: int|
            0 <= j < n && #[trigger] values.names()[j] == #[trigger] all[k] by {
            if k < before.len() {
                assert(all[k] == before[k]);
                let j = choose|j: int| 0 <= j < n - 1 && #[trigger] values.names()[j] == before[k];
                assert(values.names()[j] == all[k]);
            } else {
                assert(values.names()[n - 1] == all[k]);
            }
        }
        assert forall|a: int, b: int|
            0 <= a < all.len() && 0 <= b < all.len() && a != b implies all[a] != all[b] by {
            if a < before.len() && b < before.len() {
                assert(before[a] != before[b]);
            } else {
                let other = if a < before.len() {
                    a
                } else {
                    b
                };
                assert(all[other] == before[other]);
                let j = choose|j: int|
                    0 <= j < n - 1 && #[trigger] values.names()[j] == before[other];
                assert(values.names()[j] != values.names()[n - 1]);
            }
        }
    }
}

/// A key under which something has been written occurs once.
proof fn lemma_key_once(
    values: NamedValues<OtapValue>,
    attributes_batch: Option<&OtapAttributesBatch>,
    name: Seq<char>,
    a: int,
    b: int,
)
    requires
        values.names().no_duplicates(),
        crate::attributes_writer::skipped(values, name),
        0 <= a < crate::attributes_writer::all_keys(values, attributes_batch).len(),
        0 <= b < crate::attributes_writer::all_keys(values, attributes_batch).len(),
        crate::attributes_writer::all_keys(values, attributes_batch)[a] == name,
        crate::attributes_writer::all_keys(values, attributes_batch)[b] == name,
    ensures
        a == b,
{
    let count = values.names().len() as int;
    let all = crate::attributes_writer::all_keys(values, attributes_batch);
    let started = crate::attributes_writer::started_keys(values, attributes_batch);
    let written = crate::attributes_writer::written_keys(values, count);
    lemma_started_keys(values, attributes_batch, name);
    lemma_written_keys(values, count);
    if a < started.len() {
        assert(started[a] == name);
    }
    if b < started.len() {
        assert(started[b] == name);
    }
    assert(written[a - started.len()] == written[b - started.len()]);
}

proof fn lemma_set_onto(flags: Seq<bool>, n: int, i: int) -> (m: int)
    requires
        0 <= i < crate::existing_attributes::count_set(flags, n),
    ensures
        0 <= m < n,
        flags[m],
        crate::existing_attributes::count_set(flags, m) == i,
    decreases n,
{
    if n > 0 && i >= crate::existing_attributes::count_set(flags, n - 1) {
        n - 1
    } else {
        lemma_set_onto(flags, n - 1, i)
    }
}

proof fn lemma_value_onto(rows: Seq<ValueOrRef>, n: int, i: int) -> (r: int)
    requires
        0 <= i < crate::attributes_writer::count_values(rows, n),
    ensures
        0 <= r < n,
        !(rows[r] is Null),
        crate::attributes_writer::count_values(rows, r) == i,
    decreases n,
{
    if n > 0 && i >= crate::attributes_writer::count_values(rows, n - 1) {
        n - 1
    } else {
        lemma_value_onto(rows, n - 1, i)
    }
}

proof fn lemma_written_onto(values: NamedValues<OtapValue>, kept: int, n: int, i: int) -> (at: (
    int,
    int,
))
    requires
        kept <= i < kept + crate::attributes_writer::count_written(values, n),
    ensures
        0 <= at.0 < n,
        0 <= at.1 < crate::attributes_writer::written_rows(values, at.0).len(),
        !(crate::attributes_writer::written_rows(values, at.0)[at.1] is Null),
        crate::attributes_writer::row_of(values, kept, at.0, at.1) == i,
    decreases n,
{
    if n > 0 && i - kept >= crate::attributes_writer::count_written(values, n - 1) {
        let rows = crate::attributes_writer::written_rows(values, n - 1);
        let r = lemma_value_onto(
            rows,
            rows.len() as int,
            i - kept - crate::attributes_writer::count_written(values, n - 1),
        );
        (n - 1, r)
    } else {
        lemma_written_onto(values, kept, n - 1, i)
    }
}

/// What has been written for a record under a name is what the record reads as under that name once
/// the attributes have been written out.
///
/// This holds as long as there is room for all keys and values, and the records had ids of their own.
pub proof fn lemma_attributes_read_back<C: ValueCodec>(
    codec: &C,
    record_count: nat,
    values: NamedValues<OtapValue>,
    attributes_batch: Option<&OtapAttributesBatch>,
    batch: OtapAttributesBatch,
    j: int,
    record: int,
    dictionary: Dictionary,
)
    requires
        crate::attributes_writer::ids_last(record_count, values, attributes_batch),
        names_valid(values),
        crate::attributes_writer::values_wf(values, record_count),
        attributes_batch matches Some(existing) ==> {
            &&& existing.wf()
            &&& existing.ids@.len() == record_count
        },
        starts_apart(values, attributes_batch),
        crate::attributes_writer::written_out(
            codec,
            record_count,
            values,
            attributes_batch,
            batch.ids@,
            batch.columns,
        ),
        record_count <= 0x10000,
        room(codec, values, attributes_batch),
        0 <= j < values.names().len(),
        0 <= record < crate::attributes_writer::written_rows(values, j).len(),
        !(crate::attributes_writer::written_rows(values, j)[record] is Null),
        batch.gathered(codec, values.names()[j], dictionary),
    ensures
        exists|processed: ProcessedValue|
            #[trigger] crate::processed_value::processes(
                codec,
                crate::attributes_writer::written_rows(values, j)[record],
                processed,
            ) && reads_back(codec, processed, dictionary.rows()[record]),
{
    lemma_written_fits(codec, record_count, values, attributes_batch, batch.ids@, batch.columns);
    lemma_written_wf(codec, record_count, values, attributes_batch, batch);
    let name = values.names()[j];
    let columns = batch.columns;
    let count = values.names().len() as int;
    let kept = crate::attributes_writer::kept_count(values, attributes_batch);
    let row = crate::attributes_writer::row_of(values, kept, j, record);
    let value = crate::attributes_writer::written_rows(values, j)[record];
    assert(values@[name] is Written);
    assert(values.names().contains(name));
    assert(crate::attributes_writer::skipped(values, name));
    assert(record < record_count);
    crate::attributes_writer::lemma_row_of(values, kept, j, record, count);
    assert(crate::attributes_writer::written_attribute(
        codec,
        batch.ids@,
        columns,
        name,
        record,
        value,
        row,
    ));
    lemma_written_ids_apart(record_count, values, attributes_batch);
    let next = choose|next: int| #[trigger] ids_apart(batch.ids@, next);
    assert(own_id(batch.ids@, record));
    let key = columns.keys.keys@[row] as int;
    assert(columns.key(row) == name);
    let texts = crate::attributes_builder::key_texts(columns.keys.values@);
    assert(key < columns.keys.values@.len());
    assert(texts[key] == name);
    assert forall|m: int| 0 <= m < key implies (#[trigger] columns.keys.values@[m])@ != name by {
        if columns.keys.values@[m]@ == name {
            assert(texts[m] == name);
            lemma_key_once(values, attributes_batch, name, m, key);
        }
    }
    assert(columns.keys.first_at(name, key));
    assert forall|i: int| 0 <= i < columns.types@.len() && i != row implies !#[trigger] batch.gives(
        key,
        record,
        i,
    ) by {
        if batch.gives(key, record, i) {
            assert(columns.key(i) == name);
            if i < kept {
                let existing = attributes_batch->0;
                let keep = crate::attributes_writer::keep_flags(values, *existing);
                let m = lemma_set_onto(keep, existing.columns.keys.keys@.len() as int, i);
                assert(keep[m]);
                assert(crate::attributes_writer::kept_attribute(
                    codec,
                    batch.ids@,
                    columns,
                    values,
                    *existing,
                    m,
                    i,
                ));
                assert(existing.columns.key(m) == name);
            } else {
                let (other, at) = lemma_written_onto(values, kept, count, i);
                assert(!(crate::attributes_writer::written_rows(values, other)[at] is Null));
                assert(crate::attributes_writer::written_attribute(
                    codec,
                    batch.ids@,
                    columns,
                    values.names()[other],
                    at,
                    crate::attributes_writer::written_rows(values, other)[at],
                    i,
                ));
                assert(values.names()[other] == name);
                assert(other == j);
                crate::attributes_batch::lemma_record_with_id(
                    batch.ids@,
                    columns.parent_ids@[i] as int,
                    batch.ids@.len() as int,
                );
                assert(batch.ids@[at] == Some(columns.parent_ids@[i]));
                assert(batch.ids@[record] is Some);
            }
        }
    }
    assert(batch.record_reads(codec, key, record, dictionary.rows()[record]));
    lemma_written_reads_back(codec, batch, name, record, value, row, dictionary.rows()[record]);
}

/// A record for which nothing has been written under a name reads as null under it once the attributes
/// have been written out, if something was written there for others, or what was there was removed.
///
/// This holds as long as there is room for all keys and values, and the records had ids of their own.
pub proof fn lemma_removed_attributes_read_null<C: ValueCodec>(
    codec: &C,
    record_count: nat,
    values: NamedValues<OtapValue>,
    attributes_batch: Option<&OtapAttributesBatch>,
    batch: OtapAttributesBatch,
    name: Seq<char>,
    record: int,
    dictionary: Dictionary,
)
    requires
        crate::attributes_writer::ids_last(record_count, values, attributes_batch),
        names_valid(values),
        crate::attributes_writer::values_wf(values, record_count),
        attributes_batch matches Some(existing) ==> {
            &&& existing.wf()
            &&& existing.ids@.len() == record_count
        },
        starts_apart(values, attributes_batch),
        crate::attributes_writer::written_out(
            codec,
            record_count,
            values,
            attributes_batch,
            batch.ids@,
            batch.columns,
        ),
        record_count <= 0x10000,
        room(codec, values, attributes_batch),
        crate::attributes_writer::skipped(values, name),
        0 <= record < record_count,
        values@[name] matches OtapValue::Written(written) ==> written.rows()[record] is Null,
        exists|key: int| #[trigger] batch.columns.keys.first_at(name, key),
        batch.gathered(codec, name, dictionary),
    ensures
        dictionary.rows()[record] is Null,
{
    lemma_written_fits(codec, record_count, values, attributes_batch, batch.ids@, batch.columns);
    lemma_written_wf(codec, record_count, values, attributes_batch, batch);
    lemma_written_ids_apart(record_count, values, attributes_batch);
    let next = choose|next: int| #[trigger] ids_apart(batch.ids@, next);
    let columns = batch.columns;
    let count = values.names().len() as int;
    let kept = crate::attributes_writer::kept_count(values, attributes_batch);
    let key = choose|key: int| #[trigger] columns.keys.first_at(name, key);
    assert forall|i: int| 0 <= i < columns.types@.len() implies !#[trigger] batch.gives(
        key,
        record,
        i,
    ) by {
        if batch.gives(key, record, i) {
            assert(columns.key(i) == name);
            if i < kept {
                let existing = attributes_batch->0;
                let keep = crate::attributes_writer::keep_flags(values, *existing);
                let m = lemma_set_onto(keep, existing.columns.keys.keys@.len() as int, i);
                assert(keep[m]);
                assert(crate::attributes_writer::kept_attribute(
                    codec,
                    batch.ids@,
                    columns,
                    values,
                    *existing,
                    m,
                    i,
                ));
                assert(existing.columns.key(m) == name);
            } else {
                let (other, at) = lemma_written_onto(values, kept, count, i);
                assert(!(crate::attributes_writer::written_rows(values, other)[at] is Null));
                assert(crate::attributes_writer::written_attribute(
                    codec,
                    batch.ids@,
                    columns,
                    values.names()[other],
                    at,
                    crate::attributes_writer::written_rows(values, other)[at],
                    i,
                ));
                assert(values.names()[other] == name);
                assert(values@[values.names()[other]] is Written);
                crate::attributes_batch::lemma_record_with_id(
                    batch.ids@,
                    columns.parent_ids@[i] as int,
                    batch.ids@.len() as int,
                );
                assert(batch.ids@[at] == Some(columns.parent_ids@[i]));
                assert(batch.ids@[record] == Some(columns.parent_ids@[i]));
                assert(at == record);
            }
        }
    }
    lemma_no_row(batch, key, record, columns.types@.len() as int);
    assert(batch.record_reads(codec, key, record, dictionary.rows()[record]));
}

/// Whether a value that has been read is read as `after` once it has been written out again: as an
/// equal value, or as what its serialized form reads as. An empty byte sequence or serialized form that
/// is taken over has no entry, and reads as null.
pub open spec fn reads_again<C: ValueCodec>(codec: &C, before: ValueOrRef, after: ValueOrRef) -> bool {
    ||| crate::interning::interned(after, before)
    ||| no_bytes(before) && after is Null
    ||| exists|form: ValueOrRef|
        #[trigger] crate::attribute_columns::decodes(codec, form, before) && (reads_form(
            codec,
            form,
            after,
        ) || (no_bytes(form) && after is Null))
}

/// Whether a value is an empty byte sequence.
pub open spec fn no_bytes(value: ValueOrRef) -> bool {
    crate::attribute_columns::value_bytes(value) matches Some(bytes) && bytes@.len() == 0
}

/// Whether a record has at most one attribute with a value under the key at position `key`.
pub open spec fn one_row(batch: OtapAttributesBatch, key: int, record: int) -> bool {
    forall|a: int, b: int|
        0 <= a < batch.columns.types@.len() && 0 <= b < batch.columns.types@.len()
            && #[trigger] batch.gives(key, record, a) && #[trigger] batch.gives(key, record, b)
            ==> a == b
}

/// Whether every attribute belongs to a record.
pub open spec fn all_owned(batch: OtapAttributesBatch) -> bool {
    forall|i: int| 0 <= i < batch.columns.types@.len() ==> #[trigger] batch.owned(i)
}

proof fn lemma_last_row_gives(batch: OtapAttributesBatch, key: int, record: int, n: int)
    requires
        n <= batch.columns.types@.len(),
    ensures
        match batch.last_row(key, record, n) {
            Some(i) => 0 <= i < n && batch.gives(key, record, i),
            None => forall|i: int| 0 <= i < n ==> !#[trigger] batch.gives(key, record, i),
        },
    decreases n,
{
    if n > 0 {
        lemma_last_row_gives(batch, key, record, n - 1);
    }
}

/// A key that stays is among those that are written out, once.
proof fn lemma_unskipped_once(keys: Seq<String>, skip: Seq<bool>, n: int, text: Seq<char>)
    requires
        0 <= n <= keys.len(),
        crate::attributes_builder::key_texts(keys).no_duplicates(),
    ensures
        crate::existing_attributes::unskipped(keys, skip, n).no_duplicates(),
        crate::existing_attributes::unskipped(keys, skip, n).contains(text) == (exists|k: int|
            0 <= k < n && (#[trigger] keys[k])@ == text && !skip[k]),
    decreases n,
{
    let all = crate::existing_attributes::unskipped(keys, skip, n);
    if n > 0 {
        let before = crate::existing_attributes::unskipped(keys, skip, n - 1);
        let last = keys[n - 1]@;
        lemma_unskipped_once(keys, skip, n - 1, text);
        lemma_unskipped_once(keys, skip, n - 1, last);
        if before.contains(last) {
            let k = choose|k: int| 0 <= k < n - 1 && (#[trigger] keys[k])@ == last && !skip[k];
            let texts = crate::attributes_builder::key_texts(keys);
            assert(texts[k] == texts[n - 1]);
        }
        if !skip[n - 1] {
            assert(all == before.push(last));
            assert forall|a: int, b: int|
                0 <= a < all.len() && 0 <= b < all.len() && a != b implies all[a] != all[b] by {
                if a < before.len() && b < before.len() {
                    assert(before[a] != before[b]);
                } else if a < before.len() {
                    assert(before.contains(before[a]));
                } else {
                    assert(before.contains(before[b]));
                }
            }
            if before.contains(text) {
                let k = before.index_of(text);
                assert(all[k] == text);
            }
            if last == text {
                assert(all[before.len() as int] == text);
            }
            if all.contains(text) {
                let k = all.index_of(text);
                if k < before.len() {
                    assert(before[k] == text);
                } else {
                    assert(keys[n - 1]@ == text);
                }
            }
        }
    }
}

/// A key that stays is written out once.
proof fn lemma_kept_key(
    values: NamedValues<OtapValue>,
    existing: &OtapAttributesBatch,
    name: Seq<char>,
    k: int,
)
    requires
        names_valid(values),
        !crate::attributes_writer::skipped(values, name),
        name.len() > 0,
        crate::attributes_builder::key_texts(existing.columns.keys.values@).no_duplicates(),
        0 <= k < existing.columns.keys.values@.len(),
        existing.columns.keys.values@[k]@ == name,
    ensures
        crate::attributes_writer::keeps_any(values, *existing),
        crate::attributes_writer::all_keys(values, Some(existing)).contains(name),
        forall|a: int, b: int|
            0 <= a < b < crate::attributes_writer::all_keys(values, Some(existing)).len() ==> !(
            #[trigger] crate::attributes_writer::all_keys(values, Some(existing))[a] == name
                && #[trigger] crate::attributes_writer::all_keys(values, Some(existing))[b] == name),
{
    let keys = existing.columns.keys.values@;
    let texts = crate::attributes_builder::key_texts(keys);
    let skip = crate::attributes_writer::skip_flags(values, *existing);
    let count = values.names().len() as int;
    let started = crate::attributes_writer::started_keys(values, Some(existing));
    let written = crate::attributes_writer::written_keys(values, count);
    let all = crate::attributes_writer::all_keys(values, Some(existing));
    assert(!crate::attributes_writer::skipped(values, keys[k]@));
    lemma_unskipped_once(keys, skip, keys.len() as int, name);
    assert(texts[k] == name);
    assert(!skip[k]);
    assert(started.contains(name));
    let at = started.index_of(name);
    assert(all[at] == name);
    lemma_written_under(values, count);
    assert forall|a: int, b: int| 0 <= a < b < all.len() implies !(#[trigger] all[a] == name
        && #[trigger] all[b] == name) by {
        if all[a] == name && all[b] == name {
            if b >= started.len() {
                assert(written[b - started.len()] == name);
            } else {
                assert(started[a] != started[b]);
            }
        }
    }
}

/// Every name that is added as a key has been written under.
proof fn lemma_written_under(values: NamedValues<OtapValue>, n: int)
    requires
        names_valid(values),
        0 <= n <= values.names().len(),
    ensures
        forall|k: int|
            0 <= k < crate::attributes_writer::written_keys(values, n).len()
                ==> crate::attributes_writer::skipped(
                values,
                #[trigger] crate::attributes_writer::written_keys(values, n)[k],
            ),
    decreases n,
{
    if n > 0 {
        lemma_written_under(values, n - 1);
        let before = crate::attributes_writer::written_keys(values, n - 1);
        let all = crate::attributes_writer::written_keys(values, n);
        assert forall|k: int| 0 <= k < all.len() implies crate::attributes_writer::skipped(
            values,
            #[trigger] all[k],
        ) by {
            if k < before.len() {
                assert(all[k] == before[k]);
            } else {
                assert(values.names().contains(values.names()[n - 1]));
            }
        }
    }
}

/// A value that stays reads again as it did.
proof fn lemma_kept_value<C: ValueCodec>(
    codec: &C,
    ids: Seq<Option<u16>>,
    columns: crate::attribute_columns::AttributeColumns,
    values: NamedValues<OtapValue>,
    existing: OtapAttributesBatch,
    i: int,
    row: int,
    before: ValueOrRef,
    after: ValueOrRef,
)
    requires
        existing.columns.wf(),
        columns.wf(),
        columns.fits(),
        0 <= i < existing.columns.types@.len(),
        0 <= row < columns.types@.len(),
        crate::attributes_writer::kept_attribute(
            codec,
            ids,
            columns,
            values,
            existing,
            i,
            row,
        ),
        existing.columns.has_value(i),
        existing.columns.reads(codec, i, before),
        if columns.has_value(row) {
            columns.reads(codec, row, after)
        } else {
            after is Null
        },
    ensures
        reads_again(codec, before, after),
{
    let from = existing.columns;
    let kind = from.types@[i];
    if crate::attribute_columns::is_empty_text(before)
        && crate::attribute_columns::is_empty_text(after) {
        assert(before->String_0@ =~= after->String_0@);
        assert(crate::value::value_eq(before, after));
    }
    if crate::attributes_writer::skips_any(values, existing) {
        let processed = choose|processed: ProcessedValue|
            #[trigger] crate::existing_attributes::existing_content(codec, from, i, processed)
                && crate::attributes_writer::column_row_holds(columns, row, processed);
        assert(crate::existing_attributes::existing_content(codec, from, i, processed));
        assert(crate::attributes_writer::column_row_holds(columns, row, processed));
        if kind == 5 || kind == 6 {
            let form = from.stored(i)->0;
            assert(crate::attribute_columns::decodes(codec, form, before));
            match processed.content() {
                Some(content) => {
                    assert(content == form);
                    let held = columns.stored(row)->0;
                    assert(crate::attribute_columns::decodes(codec, held, after));
                    assert(reads_form(codec, form, after));
                },
                None => {
                    assert(no_bytes(form));
                },
            }
        } else {
            lemma_kept_content(codec, columns, existing, i, row, processed, before, after);
        }
    } else if kind == 5 || kind == 6 {
        let form = from.stored(i)->0;
        let held = columns.stored(row)->0;
        assert(crate::attribute_columns::decodes(codec, form, before));
        assert(crate::attribute_columns::decodes(codec, held, after));
        assert(reads_form(codec, form, after));
    }
}

proof fn lemma_kept_content<C: ValueCodec>(
    codec: &C,
    columns: crate::attribute_columns::AttributeColumns,
    existing: OtapAttributesBatch,
    i: int,
    row: int,
    processed: ProcessedValue,
    before: ValueOrRef,
    after: ValueOrRef,
)
    requires
        existing.columns.wf(),
        columns.wf(),
        columns.fits(),
        0 <= i < existing.columns.types@.len(),
        0 <= row < columns.types@.len(),
        columns.types@[row] == existing.columns.types@[i],
        existing.columns.types@[i] != 5,
        existing.columns.types@[i] != 6,
        crate::existing_attributes::existing_content(codec, existing.columns, i, processed),
        crate::attributes_writer::column_row_holds(columns, row, processed),
        existing.columns.has_value(i),
        existing.columns.reads(codec, i, before),
        if columns.has_value(row) {
            columns.reads(codec, row, after)
        } else {
            after is Null
        },
    ensures
        reads_again(codec, before, after),
{
    let from = existing.columns;
    if crate::attribute_columns::is_empty_text(before)
        && crate::attribute_columns::is_empty_text(after) {
        assert(before->String_0@ =~= after->String_0@);
        assert(crate::value::value_eq(before, after));
    }
    match from.stored(i) {
        Some(value) => {
            assert(crate::processed_value::processes(codec, value, processed));
            assert(before == value);
        },
        None => {
            assert(columns.stored(row) is None);
        },
    }
}

/// What a record reads as under a key that nothing has been written under is what it reads as once the
/// attributes have been written out.
///
/// This holds as long as there is room for all keys and values, the records had ids of their own, every
/// attribute belongs to a record, no key is there twice, and the record has one attribute under the key.
pub proof fn lemma_kept_attributes_read_back<C: ValueCodec>(
    codec: &C,
    record_count: nat,
    values: NamedValues<OtapValue>,
    existing: &OtapAttributesBatch,
    batch: OtapAttributesBatch,
    name: Seq<char>,
    k: int,
    record: int,
    before: Dictionary,
    after: Dictionary,
)
    requires
        crate::attributes_writer::ids_last(record_count, values, Some(existing)),
        names_valid(values),
        crate::attributes_writer::values_wf(values, record_count),
        existing.wf(),
        existing.ids@.len() == record_count,
        starts_apart(values, Some(existing)),
        all_owned(*existing),
        crate::attributes_builder::key_texts(existing.columns.keys.values@).no_duplicates(),
        crate::attributes_writer::written_out(
            codec,
            record_count,
            values,
            Some(existing),
            batch.ids@,
            batch.columns,
        ),
        room(codec, values, Some(existing)),
        name.len() > 0,
        !crate::attributes_writer::skipped(values, name),
        existing.columns.keys.first_at(name, k),
        0 <= record < record_count,
        one_row(*existing, k, record),
        existing.gathered(codec, name, before),
        batch.gathered(codec, name, after),
    ensures
        reads_again(codec, before.rows()[record], after.rows()[record]),
{
    lemma_written_fits(codec, record_count, values, Some(existing), batch.ids@, batch.columns);
    lemma_written_wf(codec, record_count, values, Some(existing), batch);
    let columns = batch.columns;
    let all = crate::attributes_writer::all_keys(values, Some(existing));
    let keep = crate::attributes_writer::keep_flags(values, *existing);
    lemma_kept_key(values, existing, name, k);
    lemma_written_ids_apart(record_count, values, Some(existing));
    let key = all.index_of(name);
    assert(all[key] == name);
    assert(crate::attributes_builder::key_texts(columns.keys.values@)[key] == name);
    assert forall|m: int| 0 <= m < key implies (#[trigger] columns.keys.values@[m])@ != name by {
        assert(crate::attributes_builder::key_texts(columns.keys.values@)[m] == all[m]);
    }
    assert(columns.keys.first_at(name, key));
    let count = existing.columns.types@.len() as int;
    assert forall|row: int|
        0 <= row < columns.types@.len() && #[trigger] batch.gives(key, record, row) implies exists|
        i: int,
    |
        0 <= i < count && #[trigger] existing.gives(k, record, i) && row
            == crate::existing_attributes::count_set(keep, i) by {
        let i = lemma_given_from(
            codec,
            record_count,
            values,
            existing,
            batch,
            name,
            k,
            key,
            record,
            row,
        );
        assert(existing.gives(k, record, i));
    }
    lemma_last_row_gives(*existing, k, record, count);
    assert(existing.record_reads(codec, k, record, before.rows()[record]));
    assert(batch.record_reads(codec, key, record, after.rows()[record]));
    match existing.last_row(k, record, count) {
        Some(i) => {
            let row = crate::existing_attributes::count_set(keep, i) as int;
            assert(keep[i]);
            crate::existing_attributes::lemma_count_set(keep, i, keep.len() as int);
            assert(crate::attributes_writer::kept_attribute(
                codec,
                batch.ids@,
                columns,
                values,
                *existing,
                i,
                row,
            ));
            assert(existing.owned(i));
            let next = choose|next: int| #[trigger] ids_apart(batch.ids@, next);
            crate::attributes_batch::lemma_record_with_id(
                batch.ids@,
                columns.parent_ids@[row] as int,
                batch.ids@.len() as int,
            );
            assert(batch.ids@[record] == Some(columns.parent_ids@[row]));
            assert(batch.record_of(row) == record);
            assert(columns.key(row) == name);
            let at = columns.keys.keys@[row] as int;
            assert(crate::attributes_builder::key_texts(columns.keys.values@)[at] == all[at]);
            assert(at == key);
            if columns.has_value(row) {
                assert(batch.gives(key, record, row));
                lemma_last_row(batch, key, record, row, columns.types@.len() as int);
            } else {
                lemma_no_row(batch, key, record, columns.types@.len() as int);
            }
            lemma_kept_value(
                codec,
                batch.ids@,
                columns,
                values,
                *existing,
                i,
                row,
                before.rows()[record],
                after.rows()[record],
            );
        },
        None => {
            lemma_no_row(batch, key, record, columns.types@.len() as int);
        },
    }
}

/// The attribute that a row under a key that nothing has been written under comes from.
proof fn lemma_given_from<C: ValueCodec>(
    codec: &C,
    record_count: nat,
    values: NamedValues<OtapValue>,
    existing: &OtapAttributesBatch,
    batch: OtapAttributesBatch,
    name: Seq<char>,
    k: int,
    key: int,
    record: int,
    row: int,
) -> (i: int)
    requires
        crate::attributes_writer::ids_last(record_count, values, Some(existing)),
        names_valid(values),
        crate::attributes_writer::values_wf(values, record_count),
        existing.wf(),
        existing.ids@.len() == record_count,
        starts_apart(values, Some(existing)),
        all_owned(*existing),
        crate::attributes_builder::key_texts(existing.columns.keys.values@).no_duplicates(),
        crate::attributes_writer::written_out(
            codec,
            record_count,
            values,
            Some(existing),
            batch.ids@,
            batch.columns,
        ),
        batch.wf(),
        batch.columns.fits(),
        crate::attributes_writer::keeps_any(values, *existing),
        !crate::attributes_writer::skipped(values, name),
        existing.columns.keys.first_at(name, k),
        batch.columns.keys.first_at(name, key),
        0 <= record < record_count,
        0 <= row < batch.columns.types@.len(),
        batch.gives(key, record, row),
    ensures
        0 <= i < existing.columns.types@.len(),
        existing.gives(k, record, i),
        row == crate::existing_attributes::count_set(
            crate::attributes_writer::keep_flags(values, *existing),
            i,
        ),
{
    let columns = batch.columns;
    let keep = crate::attributes_writer::keep_flags(values, *existing);
    let kept = crate::attributes_writer::kept_count(values, Some(existing));
    let count = values.names().len() as int;
    assert(columns.key(row) == name);
    if row >= kept {
        let (other, at) = lemma_written_onto(values, kept, count, row);
        assert(!(crate::attributes_writer::written_rows(values, other)[at] is Null));
        assert(crate::attributes_writer::written_attribute(
            codec,
            batch.ids@,
            columns,
            values.names()[other],
            at,
            crate::attributes_writer::written_rows(values, other)[at],
            row,
        ));
        assert(values.names().contains(values.names()[other]));
        assert(crate::attributes_writer::skipped(values, name));
        0
    } else {
        let i = lemma_set_onto(keep, existing.columns.keys.keys@.len() as int, row);
        assert(keep[i]);
        assert(crate::attributes_writer::kept_attribute(
            codec,
            batch.ids@,
            columns,
            values,
            *existing,
            i,
            row,
        ));
        assert(existing.owned(i));
        lemma_written_ids_apart(record_count, values, Some(existing));
        let next = choose|next: int| #[trigger] ids_apart(batch.ids@, next);
        crate::attributes_batch::lemma_record_with_id(
            existing.ids@,
            existing.columns.parent_ids@[i] as int,
            existing.ids@.len() as int,
        );
        crate::attributes_batch::lemma_record_with_id(
            batch.ids@,
            columns.parent_ids@[row] as int,
            batch.ids@.len() as int,
        );
        let from = existing.record_of(i);
        assert(batch.ids@[from] == Some(columns.parent_ids@[row]));
        assert(batch.ids@[record] == Some(columns.parent_ids@[row]));
        assert(from == record);
        let texts = crate::attributes_builder::key_texts(existing.columns.keys.values@);
        let at = existing.columns.keys.keys@[i] as int;
        assert(texts[at] == name);
        assert(texts[k] == name);
        assert(at == k);
        i
    }
}

} // verus!
