//! Writing changed attributes out.

use vstd::prelude::*;

use crate::attribute_columns::{AttributeColumns, ValueCodec};
use crate::attributes_batch::{get_id_to_record_index_map, OtapAttributesBatch};
use crate::attributes_builder::AttributesBuilder;
use crate::dictionary::Dictionary;
use crate::dictionary_keys::DictionaryKeyArray;
use crate::named_values::NamedValues;
use crate::otap_value::OtapValue;
use crate::processed_value::ProcessedValue;
use crate::value::ValueOrRef;

verus! {

/// How many of the first `n` values are not null.
pub open spec fn count_values(rows: Seq<ValueOrRef>, n: int) -> nat
    decreases n,
{
    if n <= 0 {
        0
    } else if rows[n - 1] is Null {
        count_values(rows, n - 1)
    } else {
        count_values(rows, n - 1) + 1
    }
}

/// There are more values among more.
pub proof fn lemma_count_values(rows: Seq<ValueOrRef>, m: int, n: int)
    requires
        0 <= m <= n,
    ensures
        count_values(rows, m) <= count_values(rows, n),
        m < n && !(rows[m] is Null) ==> count_values(rows, m) < count_values(rows, n),
        count_values(rows, n) <= n,
        count_values(rows, n) == count_values(rows, m) ==> forall|r: int|
            m <= r < n ==> #[trigger] rows[r] is Null,
    decreases n,
{
    if m < n {
        lemma_count_values(rows, m, n - 1);
    } else if n > 0 {
        lemma_count_values(rows, n - 1, n - 1);
    }
}

/// What has been written under the name at position `j`, one value for each record.
pub open spec fn written_rows(values: NamedValues<OtapValue>, j: int) -> Seq<ValueOrRef> {
    match values@[values.names()[j]] {
        OtapValue::Written(dictionary) => dictionary.rows(),
        _ => Seq::<ValueOrRef>::empty(),
    }
}

/// Whether writing the values of a dictionary adds the key that they are under: not if it is known
/// from the start that there is none.
pub open spec fn adds_key(dictionary: Dictionary) -> bool {
    match dictionary.keys {
        DictionaryKeyArray::SingleValue { value_index: None, .. } => false,
        DictionaryKeyArray::SingleValue { value_index: Some(index), .. } => !(
        dictionary.values.value_at(index) is Null),
        _ => true,
    }
}

/// Those of the first `n` names that are added as keys, in order.
pub open spec fn written_keys(values: NamedValues<OtapValue>, n: int) -> Seq<Seq<char>>
    decreases n,
{
    if n <= 0 {
        Seq::empty()
    } else if values@[values.names()[n - 1]] matches OtapValue::Written(dictionary) && adds_key(
        dictionary,
    ) {
        written_keys(values, n - 1).push(values.names()[n - 1])
    } else {
        written_keys(values, n - 1)
    }
}

/// Those of the first `n` records that have a value, in order.
pub open spec fn value_records(rows: Seq<ValueOrRef>, n: int) -> Seq<int>
    decreases n,
{
    if n <= 0 {
        Seq::empty()
    } else if rows[n - 1] is Null {
        value_records(rows, n - 1)
    } else {
        value_records(rows, n - 1).push(n - 1)
    }
}

/// The records of the attributes that have been written under the first `n` names, in order.
pub open spec fn written_records(values: NamedValues<OtapValue>, n: int) -> Seq<int>
    decreases n,
{
    if n <= 0 {
        Seq::empty()
    } else {
        written_records(values, n - 1) + value_records(
            written_rows(values, n - 1),
            written_rows(values, n - 1).len() as int,
        )
    }
}

/// What may be kept of those of the first `n` values that are not null.
pub open spec fn rows_contents<C: ValueCodec>(
    codec: &C,
    rows: Seq<ValueOrRef>,
    n: int,
) -> Set<ProcessedValue> {
    Set::new(
        |processed: ProcessedValue|
            exists|r: int|
                0 <= r < n && !(rows[r] is Null) && #[trigger] crate::processed_value::processes(
                    codec,
                    rows[r],
                    processed,
                ),
    )
}

/// What may be kept of what has been written under the first `n` names.
pub open spec fn written_contents<C: ValueCodec>(
    codec: &C,
    values: NamedValues<OtapValue>,
    n: int,
) -> Set<ProcessedValue> {
    Set::new(
        |processed: ProcessedValue|
            exists|j: int|
                0 <= j < n && #[trigger] rows_contents(
                    codec,
                    written_rows(values, j),
                    written_rows(values, j).len() as int,
                ).contains(processed),
    )
}

/// How many attributes have been written under the first `n` names.
pub open spec fn count_written(values: NamedValues<OtapValue>, n: int) -> nat
    decreases n,
{
    if n <= 0 {
        0
    } else {
        count_written(values, n - 1) + count_values(
            written_rows(values, n - 1),
            written_rows(values, n - 1).len() as int,
        )
    }
}

/// How many of the first `n` names have been written under.
pub open spec fn count_written_names(values: NamedValues<OtapValue>, n: int) -> nat
    decreases n,
{
    if n <= 0 {
        0
    } else if values@[values.names()[n - 1]] is Written {
        count_written_names(values, n - 1) + 1
    } else {
        count_written_names(values, n - 1)
    }
}

/// Whether what has been written has one value for each record.
pub open spec fn values_wf(values: NamedValues<OtapValue>, record_count: nat) -> bool {
    forall|j: int|
        0 <= j < values.names().len() ==> (values@[#[trigger] values.names()[j]] matches OtapValue::Written(
            dictionary,
        ) ==> dictionary.wf() && dictionary.rows().len() == record_count)
}

/// Whether attributes that are there already under the key go: something else than having been read
/// is known of it.
pub open spec fn skipped(values: NamedValues<OtapValue>, key: Seq<char>) -> bool {
    values@.contains_key(key) && !(values@[key] is Read)
}

/// Which keys go.
pub open spec fn skip_flags(values: NamedValues<OtapValue>, batch: OtapAttributesBatch) -> Seq<bool> {
    Seq::new(
        batch.columns.keys.values@.len(),
        |k: int| skipped(values, batch.columns.keys.values@[k]@),
    )
}

/// Which attributes stay.
pub open spec fn keep_flags(values: NamedValues<OtapValue>, batch: OtapAttributesBatch) -> Seq<bool> {
    Seq::new(
        batch.columns.keys.keys@.len(),
        |i: int| !skip_flags(values, batch)[batch.columns.keys.keys@[i] as int],
    )
}

/// Whether any key other than the empty text stays.
pub open spec fn keeps_any(values: NamedValues<OtapValue>, batch: OtapAttributesBatch) -> bool {
    exists|k: int|
        0 <= k < batch.columns.keys.values@.len() && !skipped(
            values,
            (#[trigger] batch.columns.keys.values@[k])@,
        ) && batch.columns.keys.values@[k]@.len() > 0
}

/// Whether any key goes.
pub open spec fn skips_any(values: NamedValues<OtapValue>, batch: OtapAttributesBatch) -> bool {
    exists|k: int|
        0 <= k < batch.columns.keys.values@.len() && skipped(
            values,
            (#[trigger] batch.columns.keys.values@[k])@,
        )
}

/// The number of attributes that stay.
pub open spec fn count_kept(
    values: NamedValues<OtapValue>,
    batch: Option<OtapAttributesBatch>,
) -> nat {
    match batch {
        Some(batch) => if keeps_any(values, batch) {
            crate::existing_attributes::count_set(
                keep_flags(values, batch),
                batch.columns.keys.keys@.len() as int,
            )
        } else {
            0
        },
        None => 0,
    }
}

/// Counts the names that have been written under and the attributes.
fn count_upserts(values: &NamedValues<OtapValue>, record_count: usize) -> (r: (usize, usize))
    requires
        values_wf(*values, record_count as nat),
        values.names().len() * record_count <= usize::MAX,
    ensures
        r.0 == count_written_names(*values, values.names().len() as int),
        r.1 == count_written(*values, values.names().len() as int),
        r.0 <= values.names().len(),
        r.1 <= values.names().len() * record_count,
{
    let mut names: usize = 0;
    let mut attributes: usize = 0;
    let mut j: usize = 0;
    while j < values.len()
        invariant
            j <= values.names().len(),
            values_wf(*values, record_count as nat),
            values.names().len() * record_count <= usize::MAX,
            names == count_written_names(*values, j as int),
            attributes == count_written(*values, j as int),
            names <= j,
            attributes <= j * record_count,
        decreases values.names().len() - j,
    {
        let (_, value) = values.entry(j);
        proof {
            assert((j + 1) * record_count == j * record_count + record_count) by (nonlinear_arith);
            assert((j + 1) * record_count <= values.names().len() * record_count)
                by (nonlinear_arith)
                requires
                    j + 1 <= values.names().len(),
            ;
            lemma_count_values(
                written_rows(*values, j as int),
                0,
                written_rows(*values, j as int).len() as int,
            );
        }
        if let OtapValue::Written(dictionary) = value {
            let count: usize = count_rows(dictionary);
            names = names + 1;
            attributes = attributes + count;
        }
        j = j + 1;
    }
    (names, attributes)
}

/// Counts the records that have a value.
fn count_rows(dictionary: &Dictionary) -> (r: usize)
    requires
        dictionary.wf(),
    ensures
        r == count_values(dictionary.rows(), dictionary.rows().len() as int),
{
    let count: usize = dictionary.len();
    let nulls: Option<Vec<bool>> = dictionary.nulls();
    match nulls {
        None => {
            proof {
                lemma_all_values(dictionary.rows(), count as int);
            }
            count
        },
        Some(valid) => {
            let mut r: usize = 0;
            let mut i: usize = 0;
            while i < count
                invariant
                    i <= count,
                    count == dictionary.rows().len(),
                    valid@ == Seq::new(
                        dictionary.rows().len(),
                        |i: int| !(dictionary.rows()[i] is Null),
                    ),
                    r == count_values(dictionary.rows(), i as int),
                    r <= i,
                decreases count - i,
            {
                if valid[i] {
                    r = r + 1;
                }
                i = i + 1;
            }
            r
        },
    }
}

proof fn lemma_all_values(rows: Seq<ValueOrRef>, n: int)
    requires
        0 <= n <= rows.len(),
        forall|i: int| 0 <= i < n ==> !(#[trigger] rows[i] is Null),
    ensures
        count_values(rows, n) == n,
    decreases n,
{
    if n > 0 {
        lemma_all_values(rows, n - 1);
    }
}

/// Finds out which keys go and whether any stay.
fn find_skipped(values: &NamedValues<OtapValue>, batch: &OtapAttributesBatch) -> (r: (
    Vec<bool>,
    bool,
    bool,
))
    ensures
        r.0@ == skip_flags(*values, *batch),
        r.1 == skips_any(*values, *batch),
        r.2 == keeps_any(*values, *batch),
{
    let keys = &batch.columns.keys.values;
    let mut flags: Vec<bool> = Vec::new();
    let mut any_skipped: bool = false;
    let mut any_kept: bool = false;
    let mut k: usize = 0;
    while k < keys.len()
        invariant
            k <= keys@.len(),
            keys@ == batch.columns.keys.values@,
            flags@ == skip_flags(*values, *batch).subrange(0, k as int),
            any_skipped == (exists|j: int|
                0 <= j < k && skipped(*values, (#[trigger] keys@[j])@)),
            any_kept == (exists|j: int|
                0 <= j < k && !skipped(*values, (#[trigger] keys@[j])@) && keys@[j]@.len() > 0),
        decreases keys@.len() - k,
    {
        let skip: bool = match values.get(keys[k].as_str()) {
            None => false,
            Some(OtapValue::Read(_)) => false,
            Some(_) => true,
        };
        assert(skip == skipped(*values, keys@[k as int]@));
        flags.push(skip);
        if skip {
            any_skipped = true;
        } else if crate::slicing::char_len(keys[k].as_str()) > 0 {
            any_kept = true;
        }
        k = k + 1;
        proof {
            assert(skip_flags(*values, *batch).subrange(0, k as int) =~= skip_flags(
                *values,
                *batch,
            ).subrange(0, k - 1).push(skip));
        }
    }
    proof {
        assert(skip_flags(*values, *batch).subrange(0, k as int) =~= skip_flags(*values, *batch));
    }
    (flags, any_skipped, any_kept)
}

/// Finds out which attributes stay, and counts them.
fn find_kept(values: Ghost<NamedValues<OtapValue>>, batch: &OtapAttributesBatch, skip: &Vec<bool>) -> (r: (
    Vec<bool>,
    usize,
))
    requires
        batch.wf(),
        skip@ == skip_flags(values@, *batch),
    ensures
        r.0@ == keep_flags(values@, *batch),
        r.1 == crate::existing_attributes::count_set(
            keep_flags(values@, *batch),
            batch.columns.keys.keys@.len() as int,
        ),
{
    let keys = &batch.columns.keys.keys;
    let mut flags: Vec<bool> = Vec::new();
    let mut count: usize = 0;
    let mut i: usize = 0;
    let ghost all = keep_flags(values@, *batch);
    while i < keys.len()
        invariant
            i <= keys@.len(),
            keys@ == batch.columns.keys.keys@,
            batch.wf(),
            skip@ == skip_flags(values@, *batch),
            all == keep_flags(values@, *batch),
            flags@ == all.subrange(0, i as int),
            count == crate::existing_attributes::count_set(all, i as int),
            count <= i,
        decreases keys@.len() - i,
    {
        assert(keys@[i as int] < batch.columns.keys.values@.len());
        let keep: bool = !skip[keys[i] as usize];
        flags.push(keep);
        if keep {
            count = count + 1;
        }
        i = i + 1;
        proof {
            assert(all.subrange(0, i as int) =~= all.subrange(0, i - 1).push(keep));
        }
    }
    proof {
        assert(all.subrange(0, i as int) =~= all);
    }
    (flags, count)
}

/// Whether row `row` of the builder is what has been kept of row `i` of the attributes.
pub open spec fn kept_row<C: ValueCodec>(
    builder: AttributesBuilder,
    codec: &C,
    values: NamedValues<OtapValue>,
    batch: OtapAttributesBatch,
    i: int,
    row: int,
) -> bool {
    &&& builder.types_array@[row] == batch.columns.types@[i]
    &&& builder.has_key(
        row,
        batch.columns.keys.values@[batch.columns.keys.keys@[i] as int]@,
    )
    &&& skips_any(values, batch) || batch.owned(i) ==> builder.ids_array.cell(batch.record_of(i))
        == Some(builder.parent_ids_array@[row])
    &&& !skips_any(values, batch) ==> builder.parent_ids_array@[row]
        == batch.columns.parent_ids@[i]
    &&& if skips_any(values, batch) {
        exists|processed: ProcessedValue|
            #[trigger] crate::existing_attributes::existing_content(
                codec,
                batch.columns,
                i,
                processed,
            ) && builder.row_holds(row, processed)
    } else {
        builder.fits() ==> crate::existing_attributes::carried(
            batch.columns.stored(i),
            builder.value_at(row),
        )
    }
}

/// Whether row `row` of the builder is the attribute of a record under a name.
#[verifier::opaque]
pub open spec fn written_row<C: ValueCodec>(
    builder: AttributesBuilder,
    codec: &C,
    name: Seq<char>,
    record: int,
    value: ValueOrRef,
    row: int,
) -> bool {
    &&& builder.has_key(row, name)
    &&& builder.ids_array.cell(record) == Some(builder.parent_ids_array@[row])
    &&& exists|processed: ProcessedValue|
        #[trigger] crate::processed_value::processes(codec, value, processed)
            && builder.types_array@[row] == processed.attribute_type() && builder.row_holds(
            row,
            processed,
        )
}

/// Whether a builder has given out ids to these records, in order.
#[verifier::opaque]
pub open spec fn gave(
    builder: AttributesBuilder,
    before: AttributesBuilder,
    records: Seq<int>,
) -> bool {
    crate::attributes_builder::given_ids(
        before.ids_array.options(),
        before.next_parent_id as int,
        records,
    ) == (builder.ids_array.options(), builder.next_parent_id as int)
}

/// Whether there are ids for these records, in so far as they have none.
pub open spec fn ids_left(builder: AttributesBuilder, records: Seq<int>) -> bool {
    crate::attributes_builder::given_ids(
        builder.ids_array.options(),
        builder.next_parent_id as int,
        records,
    ).1 <= 0xFFFF
}

proof fn lemma_value_ids_grow(
    ids: Seq<Option<u16>>,
    next: int,
    rows: Seq<ValueOrRef>,
    m: int,
    n: int,
)
    requires
        0 <= m <= n,
    ensures
        crate::attributes_builder::given_ids(ids, next, value_records(rows, m)).1
            <= crate::attributes_builder::given_ids(ids, next, value_records(rows, n)).1,
    decreases n,
{
    if m < n {
        lemma_value_ids_grow(ids, next, rows, m, n - 1);
        let before = value_records(rows, n - 1);
        assert(before.push(n - 1).drop_last() =~= before);
    }
}

proof fn lemma_written_ids_grow(
    ids: Seq<Option<u16>>,
    next: int,
    values: NamedValues<OtapValue>,
    m: int,
    n: int,
)
    requires
        0 <= m <= n,
    ensures
        crate::attributes_builder::given_ids(ids, next, written_records(values, m)).1
            <= crate::attributes_builder::given_ids(ids, next, written_records(values, n)).1,
    decreases n,
{
    if m < n {
        lemma_written_ids_grow(ids, next, values, m, n - 1);
        let before = written_records(values, n - 1);
        let rows = written_rows(values, n - 1);
        let more = value_records(rows, rows.len() as int);
        crate::attributes_builder::lemma_given_ids_more(ids, next, before, more);
        let given = crate::attributes_builder::given_ids(ids, next, before);
        crate::attributes_builder::lemma_given_ids_grow(given.0, given.1, more);
    }
}

/// There is an id for a record with a value, if there are for all of them.
proof fn lemma_id_at_hand(
    builder: AttributesBuilder,
    start: AttributesBuilder,
    rows: Seq<ValueOrRef>,
    record: int,
)
    requires
        0 <= record < rows.len(),
        rows.len() == builder.records(),
        !(rows[record] is Null),
        gave(builder, start, value_records(rows, record)),
        ids_left(start, value_records(rows, rows.len() as int)),
    ensures
        builder.id_at_hand(record),
{
    reveal(gave);
    lemma_value_ids_grow(
        start.ids_array.options(),
        start.next_parent_id as int,
        rows,
        record + 1,
        rows.len() as int,
    );
    let before = value_records(rows, record);
    assert(before.push(record).drop_last() =~= before);
    assert(builder.ids_array.options()[record] == builder.ids_array.cell(record));
}

/// There are ids for the records of a name, if there are for those of all.
proof fn lemma_ids_left(
    builder: AttributesBuilder,
    start: AttributesBuilder,
    values: NamedValues<OtapValue>,
    j: int,
)
    requires
        0 <= j < values.names().len(),
        gave(builder, start, written_records(values, j)),
        ids_left(start, written_records(values, values.names().len() as int)),
    ensures
        ids_left(
            builder,
            value_records(written_rows(values, j), written_rows(values, j).len() as int),
        ),
{
    reveal(gave);
    let rows = written_rows(values, j);
    lemma_written_ids_grow(
        start.ids_array.options(),
        start.next_parent_id as int,
        values,
        j + 1,
        values.names().len() as int,
    );
    crate::attributes_builder::lemma_given_ids_more(
        start.ids_array.options(),
        start.next_parent_id as int,
        written_records(values, j),
        value_records(rows, rows.len() as int),
    );
}

proof fn lemma_gave_nothing(builder: AttributesBuilder, before: AttributesBuilder)
    requires
        builder.ids_array == before.ids_array,
        builder.next_parent_id == before.next_parent_id,
    ensures
        gave(builder, before, Seq::empty()),
{
    reveal(gave);
}

proof fn lemma_gave_more(
    builder: AttributesBuilder,
    before: AttributesBuilder,
    start: AttributesBuilder,
    records: Seq<int>,
    more: Seq<int>,
)
    requires
        gave(before, start, records),
        gave(builder, before, more),
    ensures
        gave(builder, start, records + more),
{
    reveal(gave);
    crate::attributes_builder::lemma_given_ids_more(
        start.ids_array.options(),
        start.next_parent_id as int,
        records,
        more,
    );
}

proof fn lemma_gave_pushed<C: ValueCodec>(
    builder: AttributesBuilder,
    before: AttributesBuilder,
    start: AttributesBuilder,
    codec: &C,
    record: int,
    key_index: usize,
    value: ValueOrRef,
    records: Seq<int>,
)
    requires
        0 <= record < before.records(),
        exists|processed: ProcessedValue|
            #[trigger] crate::processed_value::processes(codec, value, processed)
                && builder.pushed(
                before,
                record,
                key_index,
                processed.attribute_type(),
                processed,
            ),
        gave(before, start, records),
    ensures
        gave(builder, start, records.push(record)),
{
    reveal(gave);
    let processed = choose|processed: ProcessedValue|
        #[trigger] crate::processed_value::processes(codec, value, processed) && builder.pushed(
            before,
            record,
            key_index,
            processed.attribute_type(),
            processed,
        );
    builder.lemma_pushed_ids(
        before,
        record,
        key_index,
        processed.attribute_type(),
        processed,
        start.ids_array.options(),
        start.next_parent_id as int,
        records,
    );
}

proof fn lemma_gave_all<C: ValueCodec>(
    builder: AttributesBuilder,
    before: AttributesBuilder,
    codec: &C,
    name: Seq<char>,
    value: ValueOrRef,
    rows: Seq<ValueOrRef>,
)
    requires
        before.wf(),
        exists|processed: ProcessedValue|
            #[trigger] crate::processed_value::processes(codec, value, processed)
                && builder.pushed_for_all(before, name, processed),
        rows.len() == before.records(),
        forall|r: int| 0 <= r < rows.len() ==> !(#[trigger] rows[r] is Null),
    ensures
        gave(builder, before, value_records(rows, rows.len() as int)),
{
    reveal(gave);
    let processed = choose|processed: ProcessedValue|
        #[trigger] crate::processed_value::processes(codec, value, processed)
            && builder.pushed_for_all(before, name, processed);
    builder.lemma_pushed_ids_for_all(before, name, processed);
    lemma_all_value_records(rows, rows.len() as int);
}

proof fn lemma_all_value_records(rows: Seq<ValueOrRef>, n: int)
    requires
        0 <= n <= rows.len(),
        forall|r: int| 0 <= r < rows.len() ==> !(#[trigger] rows[r] is Null),
    ensures
        value_records(rows, n) == Seq::new(n as nat, |r: int| r),
    decreases n,
{
    if n > 0 {
        lemma_all_value_records(rows, n - 1);
    }
    assert(value_records(rows, n) =~= Seq::new(n as nat, |r: int| r));
}

proof fn lemma_no_value_records(rows: Seq<ValueOrRef>, n: int)
    requires
        n <= rows.len(),
        forall|r: int| 0 <= r < n ==> (#[trigger] rows[r] is Null),
    ensures
        value_records(rows, n) == Seq::<int>::empty(),
    decreases n,
{
    if n > 0 {
        lemma_no_value_records(rows, n - 1);
    }
}

/// Whether a builder has only been added to.
#[verifier::opaque]
pub open spec fn grown(builder: AttributesBuilder, before: AttributesBuilder) -> bool {
    &&& builder.keeps(before, before.attribute_position as int)
    &&& builder.ids_grown(before)
    &&& builder.keys_grown(before)
    &&& before.attribute_position <= builder.attribute_position
}

proof fn lemma_grown(
    builder: AttributesBuilder,
    before: AttributesBuilder,
    start: AttributesBuilder,
)
    requires
        grown(before, start),
        grown(builder, before),
        before.wf(),
    ensures
        grown(builder, start),
{
    reveal(grown);
    builder.lemma_keeps(before, start);
    assert forall|k: int| 0 <= k < start.keys_value_builder@.len() implies (
    #[trigger] builder.keys_value_builder@[k])@ == start.keys_value_builder@[k]@ by {
        assert(before.keys_value_builder@[k]@ == start.keys_value_builder@[k]@);
    }
}

/// A builder that has been added to has room for as much as before.
proof fn lemma_grown_sizes(builder: AttributesBuilder, before: AttributesBuilder)
    requires
        grown(builder, before),
    ensures
        builder.capacity() == before.capacity(),
        builder.records() == before.records(),
        before.attribute_position <= builder.attribute_position,
        builder.keys_value_builder@.len() >= before.keys_value_builder@.len(),
        builder.keys_array_u16 == before.keys_array_u16,
{
    reveal(grown);
}

/// Adding one attribute adds what is kept of its value to the dictionaries.
proof fn lemma_grew_pushed<C: ValueCodec>(
    builder: AttributesBuilder,
    before: AttributesBuilder,
    start: AttributesBuilder,
    codec: &C,
    rows: Seq<ValueOrRef>,
    record: int,
    key_index: usize,
)
    requires
        0 <= record < rows.len(),
        !(rows[record] is Null),
        exists|processed: ProcessedValue|
            #[trigger] crate::processed_value::processes(codec, rows[record], processed)
                && builder.pushed(
                before,
                record,
                key_index,
                processed.attribute_type(),
                processed,
            ),
        before.grew(
            start,
            count_values(rows, record) as int,
            rows_contents(codec, rows, record),
        ),
    ensures
        builder.grew(
            start,
            count_values(rows, record + 1) as int,
            rows_contents(codec, rows, record + 1),
        ),
{
    let processed = choose|processed: ProcessedValue|
        #[trigger] crate::processed_value::processes(codec, rows[record], processed)
            && builder.pushed(before, record, key_index, processed.attribute_type(), processed);
    let row = before.attribute_position as int;
    builder.lemma_filled_grew(before, row, row + 1, processed);
    let more = rows_contents(codec, rows, record + 1);
    assert(crate::processed_value::processes(codec, rows[record], processed));
    assert(set![processed].subset_of(more));
    assert(rows_contents(codec, rows, record).subset_of(more));
    builder.lemma_grew_more(
        before,
        start,
        count_values(rows, record) as int,
        rows_contents(codec, rows, record),
        1,
        set![processed],
        more,
    );
}

/// A record without a value adds nothing to the dictionaries.
proof fn lemma_grew_passed<C: ValueCodec>(
    builder: AttributesBuilder,
    start: AttributesBuilder,
    codec: &C,
    rows: Seq<ValueOrRef>,
    record: int,
)
    requires
        0 <= record < rows.len(),
        rows[record] is Null,
        builder.grew(
            start,
            count_values(rows, record) as int,
            rows_contents(codec, rows, record),
        ),
    ensures
        builder.grew(
            start,
            count_values(rows, record + 1) as int,
            rows_contents(codec, rows, record + 1),
        ),
{
    let more = rows_contents(codec, rows, record + 1);
    assert(rows_contents(codec, rows, record).subset_of(more));
    builder.lemma_grew_same(builder, 0, more);
    builder.lemma_grew_more(
        builder,
        start,
        count_values(rows, record) as int,
        rows_contents(codec, rows, record),
        0,
        more,
        more,
    );
}

/// Adding one attribute to every record adds what is kept of its value to the dictionaries.
proof fn lemma_grew_for_all<C: ValueCodec>(
    builder: AttributesBuilder,
    before: AttributesBuilder,
    codec: &C,
    name: Seq<char>,
    value: ValueOrRef,
    rows: Seq<ValueOrRef>,
)
    requires
        exists|processed: ProcessedValue|
            #[trigger] crate::processed_value::processes(codec, value, processed)
                && builder.pushed_for_all(before, name, processed),
        rows.len() > 0,
        forall|r: int| 0 <= r < rows.len() ==> #[trigger] rows[r] == value,
        !(value is Null),
    ensures
        builder.grew(
            before,
            count_values(rows, rows.len() as int) as int,
            rows_contents(codec, rows, rows.len() as int),
        ),
{
    let processed = choose|processed: ProcessedValue|
        #[trigger] crate::processed_value::processes(codec, value, processed)
            && builder.pushed_for_all(before, name, processed);
    let contents = rows_contents(codec, rows, rows.len() as int);
    builder.lemma_filled_grew(
        before,
        before.attribute_position as int,
        before.attribute_position + before.records(),
        processed,
    );
    assert(rows[0] == value);
    assert(crate::processed_value::processes(codec, rows[0], processed));
    assert(set![processed].subset_of(contents));
    lemma_all_values(rows, rows.len() as int);
    builder.lemma_grew_same(builder, rows.len() - 1, contents);
    builder.lemma_grew_more(
        builder,
        before,
        1,
        set![processed],
        rows.len() - 1,
        contents,
        contents,
    );
}

/// Adding one attribute adds to a builder, and writes that attribute.
proof fn lemma_pushed<C: ValueCodec>(
    builder: AttributesBuilder,
    before: AttributesBuilder,
    codec: &C,
    name: Seq<char>,
    record: int,
    key_index: usize,
    value: ValueOrRef,
)
    requires
        before.wf(),
        builder.keeps(before, before.attribute_position as int),
        0 <= record < before.records(),
        key_index < before.keys_value_builder@.len(),
        before.keys_value_builder@[key_index as int]@ == name,
        exists|processed: ProcessedValue|
            #[trigger] crate::processed_value::processes(codec, value, processed)
                && builder.pushed(
                before,
                record,
                key_index,
                processed.attribute_type(),
                processed,
            ),
    ensures
        grown(builder, before),
        builder.keys_value_builder == before.keys_value_builder,
        builder.attribute_position == before.attribute_position + 1,
        written_row(builder, codec, name, record, value, before.attribute_position as int),
{
    reveal(grown);
    reveal(written_row);
    let processed = choose|processed: ProcessedValue|
        #[trigger] crate::processed_value::processes(codec, value, processed) && builder.pushed(
            before,
            record,
            key_index,
            processed.attribute_type(),
            processed,
        );
    if builder.fits_keys() {
        crate::attributes_builder::lemma_key_cell(builder.keys_array_u16, key_index);
    }
    assert(crate::processed_value::processes(codec, value, processed));
}

/// Adding one attribute to every record adds to a builder, and writes those attributes.
proof fn lemma_pushed_for_all<C: ValueCodec>(
    builder: AttributesBuilder,
    before: AttributesBuilder,
    codec: &C,
    name: Seq<char>,
    value: ValueOrRef,
)
    requires
        before.wf(),
        builder.keeps(before, before.attribute_position as int),
        exists|processed: ProcessedValue|
            #[trigger] crate::processed_value::processes(codec, value, processed)
                && builder.pushed_for_all(before, name, processed),
    ensures
        grown(builder, before),
        builder.keys_value_builder@.len() == before.keys_value_builder@.len() + 1,
        builder.attribute_position == before.attribute_position + before.records(),
        forall|r: int|
            0 <= r < before.records() ==> #[trigger] written_row(
                builder,
                codec,
                name,
                r,
                value,
                before.attribute_position + r,
            ),
{
    reveal(grown);
    reveal(written_row);
    let processed = choose|processed: ProcessedValue|
        #[trigger] crate::processed_value::processes(codec, value, processed)
            && builder.pushed_for_all(before, name, processed);
    assert forall|r: int| 0 <= r < before.records() implies #[trigger] written_row(
        builder,
        codec,
        name,
        r,
        value,
        before.attribute_position + r,
    ) by {
        assert(builder.row_for_all(before, r, processed));
        if builder.fits_keys() {
            crate::attributes_builder::lemma_key_cell(
                builder.keys_array_u16,
                before.keys_value_builder@.len() as usize,
            );
        }
        assert(crate::processed_value::processes(codec, value, processed));
    }
}

/// The key and the record of a row stay with it while more is added.
proof fn lemma_row_stays(
    builder: AttributesBuilder,
    before: AttributesBuilder,
    row: int,
    key: Seq<char>,
)
    requires
        before.wf(),
        grown(builder, before),
        0 <= row < before.attribute_position,
        before.has_key(row, key),
    ensures
        builder.has_key(row, key),
        builder.types_array@[row] == before.types_array@[row],
        builder.keys_array@[row] == before.keys_array@[row],
        builder.parent_ids_array@[row] == before.parent_ids_array@[row],
{
    reveal(grown);
    assert(builder.keys_array@[row] == before.keys_array@[row]);
    assert(builder.types_array@[row] == before.types_array@[row]);
    assert(builder.parent_ids_array@[row] == before.parent_ids_array@[row]);
    let k = before.keys_array@[row] as int;
    assert(k < before.keys_value_builder@.len());
    assert(builder.keys_value_builder@[k]@ == before.keys_value_builder@[k]@);
}

/// An attribute that was written stays while more is added.
proof fn lemma_written_row<C: ValueCodec>(
    builder: AttributesBuilder,
    before: AttributesBuilder,
    codec: &C,
    name: Seq<char>,
    record: int,
    value: ValueOrRef,
    row: int,
)
    requires
        before.wf(),
        grown(builder, before),
        0 <= row < before.attribute_position,
        0 <= record < before.records(),
        written_row(before, codec, name, record, value, row),
    ensures
        written_row(builder, codec, name, record, value, row),
{
    reveal(grown);
    reveal(written_row);
    lemma_row_stays(builder, before, row, name);
    assert(before.ids_array.valid(record));
    let processed = choose|processed: ProcessedValue|
        #[trigger] crate::processed_value::processes(codec, value, processed)
            && before.types_array@[row] == processed.attribute_type() && before.row_holds(
            row,
            processed,
        );
    builder.lemma_row_holds(before, row, processed);
    assert(crate::processed_value::processes(codec, value, processed));
}

/// There is a record where there is an attribute.
proof fn lemma_records_there(batch: OtapAttributesBatch, i: int)
    requires
        batch.wf(),
        0 <= i < batch.columns.types@.len(),
    ensures
        batch.ids@.len() > 0,
{
    assert(batch.columns.parent_ids@[i] < crate::attributes_batch::id_space(
        batch.ids@,
        batch.ids@.len() as int,
    ));
}

/// An attribute that was kept stays while more is added.
proof fn lemma_kept_row<C: ValueCodec>(
    builder: AttributesBuilder,
    before: AttributesBuilder,
    codec: &C,
    values: NamedValues<OtapValue>,
    batch: OtapAttributesBatch,
    i: int,
    row: int,
)
    requires
        before.wf(),
        batch.wf(),
        batch.ids@.len() == before.records(),
        0 <= i < batch.columns.types@.len(),
        grown(builder, before),
        0 <= row < before.attribute_position,
        kept_row(before, codec, values, batch, i, row),
    ensures
        kept_row(builder, codec, values, batch, i, row),
{
    reveal(grown);
    let key = batch.columns.keys.values@[batch.columns.keys.keys@[i] as int]@;
    lemma_row_stays(builder, before, row, key);
    if skips_any(values, batch) || batch.owned(i) {
        lemma_records_there(batch, i);
        crate::attributes_batch::lemma_record_with_id(
            batch.ids@,
            batch.columns.parent_ids@[i] as int,
            batch.ids@.len() as int,
        );
        assert(before.ids_array.valid(batch.record_of(i)));
    }
    if skips_any(values, batch) {
        if builder.fits_keys() {
            let processed = choose|processed: ProcessedValue|
                #[trigger] crate::existing_attributes::existing_content(
                    codec,
                    batch.columns,
                    i,
                    processed,
                ) && before.row_holds(row, processed);
            builder.lemma_row_holds(before, row, processed);
            assert(crate::existing_attributes::existing_content(
                codec,
                batch.columns,
                i,
                processed,
            ));
        }
    } else {
        assert(builder.value_at(row) == before.value_at(row));
    }
}

/// Adds the attributes that have been written under a name.
#[verifier::rlimit(60)]
#[verifier::spinoff_prover]
fn push_written<C: ValueCodec>(
    builder: &mut AttributesBuilder,
    codec: &C,
    name: &str,
    dictionary: &Dictionary,
)
    requires
        old(builder).wf(),
        dictionary.wf(),
        dictionary.rows().len() == old(builder).records(),
        old(builder).attribute_position + count_values(
            dictionary.rows(),
            dictionary.rows().len() as int,
        ) <= old(builder).capacity(),
        ids_left(
            *old(builder),
            value_records(dictionary.rows(), dictionary.rows().len() as int),
        ),
    ensures
        final(builder).wf(),
        grown(*final(builder), *old(builder)),
        dictionary.rows().len() > 0 ==> final(builder).grew(
            *old(builder),
            count_values(dictionary.rows(), dictionary.rows().len() as int) as int,
            rows_contents(codec, dictionary.rows(), dictionary.rows().len() as int),
        ),
        gave(
            *final(builder),
            *old(builder),
            value_records(dictionary.rows(), dictionary.rows().len() as int),
        ),
        crate::attributes_builder::key_texts(final(builder).keys_value_builder@)
            == crate::attributes_builder::key_texts(old(builder).keys_value_builder@) + (if adds_key(
            *dictionary,
        ) {
            seq![name@]
        } else {
            Seq::empty()
        }),
        final(builder).keys_value_builder@.len() <= old(builder).keys_value_builder@.len() + 1,
        final(builder).attribute_position == old(builder).attribute_position + count_values(
            dictionary.rows(),
            dictionary.rows().len() as int,
        ),
        forall|r: int|
            0 <= r < dictionary.rows().len() && !(#[trigger] dictionary.rows()[r] is Null)
                ==> written_row(
                *final(builder),
                codec,
                name@,
                r,
                dictionary.rows()[r],
                old(builder).attribute_position + count_values(dictionary.rows(), r),
            ),
{
    let ghost start = *builder;
    let ghost rows = dictionary.rows();
    let ghost texts = crate::attributes_builder::key_texts(start.keys_value_builder@);
    assert(texts =~= texts + Seq::empty());
    let record_count: usize = dictionary.len();
    if let DictionaryKeyArray::SingleValue { value_index, .. } = &dictionary.keys {
        match value_index {
            None => {
                proof {
                    assert forall|r: int| 0 <= r < rows.len() implies #[trigger] rows[r] is Null by {}
                    lemma_no_values(rows, rows.len() as int);
                    lemma_no_value_records(rows, rows.len() as int);
                    lemma_gave_nothing(start, start);
                    lemma_grown_same(start);
                    start.lemma_grew_same(start, 0, rows_contents(codec, rows, rows.len() as int));
                }
            },
            Some(index) => {
                let value = dictionary.values.get_value_at(*index);
                proof {
                    assert forall|r: int| 0 <= r < rows.len() implies #[trigger] rows[r] == value by {}
                }
                if value.is_null() {
                    proof {
                        lemma_no_values(rows, rows.len() as int);
                        lemma_no_value_records(rows, rows.len() as int);
                        lemma_gave_nothing(start, start);
                        lemma_grown_same(start);
                        start.lemma_grew_same(start, 0, rows_contents(codec, rows, rows.len() as int));
                    }
                } else {
                    proof {
                        lemma_all_values(rows, rows.len() as int);
                        lemma_all_value_records(rows, rows.len() as int);
                        crate::attributes_builder::lemma_given_ids_all(start, rows.len() as int);
                    }
                    builder.push_key_value_for_all_records(codec, name, &value);
                    proof {
                        lemma_gave_all(*builder, start, codec, name@, value, rows);
                        if rows.len() > 0 {
                            lemma_grew_for_all(*builder, start, codec, name@, value, rows);
                        }
                        assert(crate::attributes_builder::key_texts(builder.keys_value_builder@)
                            =~= texts + seq![name@]);
                        lemma_pushed_for_all(*builder, start, codec, name@, value);
                        assert forall|r: int|
                            0 <= r < rows.len() && !(#[trigger] rows[r] is Null) implies written_row(
                            *builder,
                            codec,
                            name@,
                            r,
                            rows[r],
                            start.attribute_position + count_values(rows, r),
                        ) by {
                            lemma_all_values(rows, r);
                            assert(written_row(
                                *builder,
                                codec,
                                name@,
                                r,
                                value,
                                start.attribute_position + r,
                            ));
                        }
                    }
                }
            },
        }
        return;
    }
    let key_index: usize = builder.push_key(name);
    let ghost keyed = *builder;
    proof {
        lemma_grown_key(keyed, start);
        lemma_gave_nothing(keyed, start);
        keyed.lemma_grew_same(start, 0, rows_contents(codec, rows, 0));
        assert(crate::attributes_builder::key_texts(keyed.keys_value_builder@) =~= texts
            + seq![name@]);
    }
    let mut record_index: usize = 0;
    while record_index < record_count
        invariant
            record_index <= record_count,
            dictionary.wf(),
            rows == dictionary.rows(),
            record_count == rows.len(),
            record_count == start.records(),
            start.wf(),
            keyed.keys_value_builder@.len() == start.keys_value_builder@.len() + 1,
            start.attribute_position + count_values(rows, rows.len() as int) <= start.capacity(),
            builder.wf(),
            grown(*builder, start),
            builder.grew(
                start,
                count_values(rows, record_index as int) as int,
                rows_contents(codec, rows, record_index as int),
            ),
            ids_left(start, value_records(rows, rows.len() as int)),
            gave(*builder, start, value_records(rows, record_index as int)),
            builder.keys_value_builder == keyed.keys_value_builder,
            key_index < keyed.keys_value_builder@.len(),
            keyed.keys_value_builder@[key_index as int]@ == name@,
            builder.attribute_position == start.attribute_position + count_values(
                rows,
                record_index as int,
            ),
            forall|r: int|
                0 <= r < record_index && !(#[trigger] rows[r] is Null) ==> written_row(
                    *builder,
                    codec,
                    name@,
                    r,
                    rows[r],
                    start.attribute_position + count_values(rows, r),
                ),
        decreases record_count - record_index,
    {
        let ghost before = *builder;
        proof {
            lemma_grown_sizes(before, start);
        }
        let value = dictionary.get_value(record_index);
        if !value.is_null() {
            proof {
                lemma_count_values(rows, record_index as int, rows.len() as int);
                lemma_id_at_hand(before, start, rows, record_index as int);
            }
            builder.push_value_for_key(codec, record_index, key_index, &value);
            proof {
                lemma_grew_pushed(
                    *builder,
                    before,
                    start,
                    codec,
                    rows,
                    record_index as int,
                    key_index,
                );
                lemma_gave_pushed(
                    *builder,
                    before,
                    start,
                    codec,
                    record_index as int,
                    key_index,
                    value,
                    value_records(rows, record_index as int),
                );
                lemma_pushed(
                    *builder,
                    before,
                    codec,
                    name@,
                    record_index as int,
                    key_index,
                    value,
                );
                lemma_grown(*builder, before, start);
                assert forall|r: int|
                    0 <= r < record_index && !(#[trigger] rows[r] is Null) implies written_row(
                    *builder,
                    codec,
                    name@,
                    r,
                    rows[r],
                    start.attribute_position + count_values(rows, r),
                ) by {
                    lemma_count_values(rows, r, record_index as int);
                    lemma_written_row(
                        *builder,
                        before,
                        codec,
                        name@,
                        r,
                        rows[r],
                        start.attribute_position + count_values(rows, r),
                    );
                }
            }
        } else {
            proof {
                lemma_grew_passed(before, start, codec, rows, record_index as int);
            }
        }
        record_index = record_index + 1;
    }
}

proof fn lemma_no_values(rows: Seq<ValueOrRef>, n: int)
    requires
        0 <= n <= rows.len(),
        forall|i: int| 0 <= i < n ==> (#[trigger] rows[i] is Null),
    ensures
        count_values(rows, n) == 0,
    decreases n,
{
    if n > 0 {
        lemma_no_values(rows, n - 1);
    }
}

proof fn lemma_grown_same(builder: AttributesBuilder)
    requires
        builder.wf(),
    ensures
        grown(builder, builder),
{
    reveal(grown);
}

proof fn lemma_grown_key(builder: AttributesBuilder, before: AttributesBuilder)
    requires
        before.wf(),
        builder == (AttributesBuilder {
            keys_value_builder: builder.keys_value_builder,
            ..before
        }),
        before.keys_value_builder@.len() <= builder.keys_value_builder@.len(),
        forall|k: int|
            0 <= k < before.keys_value_builder@.len() ==> #[trigger] builder.keys_value_builder@[k]
                == before.keys_value_builder@[k],
    ensures
        grown(builder, before),
{
    reveal(grown);
    lemma_grown_same(before);
    assert forall|i: int| 0 <= i < before.attribute_position implies #[trigger] builder.value_at(i)
        == before.value_at(i) by {}
    assert forall|attribute_type: u8| #[trigger] builder.present(attribute_type) == before.present(
        attribute_type,
    ) by {}
}

/// Nothing is left out where no key goes.
proof fn lemma_keeps_all(values: NamedValues<OtapValue>, batch: OtapAttributesBatch, n: int)
    requires
        batch.wf(),
        !skips_any(values, batch),
        0 <= n <= batch.columns.keys.keys@.len(),
    ensures
        crate::existing_attributes::count_set(keep_flags(values, batch), n) == n,
    decreases n,
{
    if n > 0 {
        lemma_keeps_all(values, batch, n - 1);
        let k = batch.columns.keys.keys@[n - 1] as int;
        assert(k < batch.columns.keys.values@.len());
        assert(!skipped(values, batch.columns.keys.values@[k]@));
        assert(keep_flags(values, batch)[n - 1]);
    }
}

/// A row that was carried over under the position of its key has been kept.
proof fn lemma_carried_row<C: ValueCodec>(
    builder: AttributesBuilder,
    codec: &C,
    values: NamedValues<OtapValue>,
    batch: OtapAttributesBatch,
    i: int,
    position: usize,
    row: int,
)
    requires
        skips_any(values, batch),
        builder.carries(codec, batch, i, position, row),
        position < builder.keys_value_builder@.len(),
        builder.keys_value_builder@[position as int]@
            == batch.columns.keys.values@[batch.columns.keys.keys@[i] as int]@,
    ensures
        kept_row(builder, codec, values, batch, i, row),
{
    if builder.fits_keys() {
        crate::attributes_builder::lemma_key_cell(builder.keys_array_u16, position);
        let processed = choose|processed: ProcessedValue|
            #[trigger] crate::existing_attributes::existing_content(
                codec,
                batch.columns,
                i,
                processed,
            ) && builder.row_holds(row, processed);
        assert(crate::existing_attributes::existing_content(
            codec,
            batch.columns,
            i,
            processed,
        ));
    }
}

/// A row that is the one that was there has been kept.
proof fn lemma_same_row<C: ValueCodec>(
    builder: AttributesBuilder,
    codec: &C,
    values: NamedValues<OtapValue>,
    batch: OtapAttributesBatch,
    i: int,
)
    requires
        batch.wf(),
        !skips_any(values, batch),
        0 <= i < batch.columns.types@.len(),
        builder.same_row(batch.columns, i),
        builder.records() == batch.ids@.len(),
        forall|r: int|
            0 <= r < builder.records() ==> #[trigger] builder.ids_array.cell(r) == batch.ids@[r],
        builder.keys_value_builder@.len() == batch.columns.keys.values@.len(),
        forall|k: int|
            0 <= k < batch.columns.keys.values@.len() ==> (
            #[trigger] builder.keys_value_builder@[k])@ == batch.columns.keys.values@[k]@,
    ensures
        kept_row(builder, codec, values, batch, i, i),
{
    let k = batch.columns.keys.keys@[i];
    assert(k < batch.columns.keys.values@.len());
    if builder.fits_keys() {
        crate::attributes_builder::lemma_key_cell(builder.keys_array_u16, k as usize);
        assert(builder.keys_value_builder@[k as int]@ == batch.columns.keys.values@[k as int]@);
    }
    if batch.owned(i) {
        crate::attributes_batch::lemma_record_with_id(
            batch.ids@,
            batch.columns.parent_ids@[i] as int,
            batch.ids@.len() as int,
        );
        let record = batch.record_of(i);
        assert(builder.ids_array.cell(record) == batch.ids@[record]);
    }
}

/// Whether a builder holds what has been kept of the attributes.
pub open spec fn holds_kept<C: ValueCodec>(
    builder: AttributesBuilder,
    codec: &C,
    values: NamedValues<OtapValue>,
    batch: OtapAttributesBatch,
) -> bool {
    forall|i: int|
        0 <= i < batch.columns.types@.len() && #[trigger] keep_flags(values, batch)[i] ==> kept_row(
            builder,
            codec,
            values,
            batch,
            i,
            crate::existing_attributes::count_set(keep_flags(values, batch), i) as int,
        )
}

/// The ids that records have, and the next id, before attributes that have been written are added:
/// those that the records had if all attributes stay, those given out to the records of the attributes
/// that stay if some go, and none if all go.
pub open spec fn started_ids(
    record_count: nat,
    values: NamedValues<OtapValue>,
    attributes_batch: Option<&OtapAttributesBatch>,
) -> (Seq<Option<u16>>, int) {
    let none = (Seq::new(record_count, |r: int| None::<u16>), 0int);
    match attributes_batch {
        Some(batch) => if !keeps_any(values, *batch) {
            none
        } else if skips_any(values, *batch) {
            crate::attributes_builder::given_ids(
                none.0,
                none.1,
                crate::existing_attributes::kept_records(
                    *batch,
                    keep_flags(values, *batch),
                    keep_flags(values, *batch).len() as int,
                ),
            )
        } else {
            (
                batch.ids@,
                crate::existing_attributes::next_after(
                    batch.columns.parent_ids@,
                    batch.columns.parent_ids@.len() as int,
                ),
            )
        },
        None => none,
    }
}

/// The keys before those of attributes that have been written: those that stay.
pub open spec fn started_keys(
    values: NamedValues<OtapValue>,
    attributes_batch: Option<&OtapAttributesBatch>,
) -> Seq<Seq<char>> {
    match attributes_batch {
        Some(batch) => if !keeps_any(values, *batch) {
            Seq::empty()
        } else if skips_any(values, *batch) {
            crate::existing_attributes::unskipped(
                batch.columns.keys.values@,
                skip_flags(values, *batch),
                skip_flags(values, *batch).len() as int,
            )
        } else {
            crate::attributes_builder::key_texts(batch.columns.keys.values@)
        },
        None => Seq::empty(),
    }
}

/// The most values that the dictionary for a kind of attribute has before those of attributes that have
/// been written: as many as it had if all attributes stay, one for each that stays if some go, and none
/// if all go.
pub open spec fn started_size(
    values: NamedValues<OtapValue>,
    attributes_batch: Option<&OtapAttributesBatch>,
    kind: u8,
) -> int {
    match attributes_batch {
        Some(batch) => if keeps_any(values, *batch) && !skips_any(values, *batch) {
            batch.columns.held(kind).len() as int
        } else {
            count_kept(values, Some(*batch)) as int
        },
        None => 0,
    }
}

/// Whether a value of the dictionary for a kind of attribute comes of the attributes that stay.
pub open spec fn started_value<C: ValueCodec>(
    codec: &C,
    values: NamedValues<OtapValue>,
    attributes_batch: Option<&OtapAttributesBatch>,
    kind: u8,
    value: ValueOrRef,
) -> bool {
    &&& attributes_batch matches Some(batch)
    &&& keeps_any(values, *batch)
    &&& if skips_any(values, *batch) {
        crate::attributes_builder::comes_of(
            crate::existing_attributes::kept_contents(
                codec,
                batch.columns,
                keep_flags(values, *batch),
                keep_flags(values, *batch).len() as int,
            ),
            kind,
            value,
        )
    } else {
        batch.columns.held(kind).contains(value)
    }
}

/// Whether the dictionary for a kind of attribute holds only what comes of the attributes that stay.
pub open spec fn dictionary_started<C: ValueCodec>(
    builder: AttributesBuilder,
    codec: &C,
    values: NamedValues<OtapValue>,
    attributes_batch: Option<&OtapAttributesBatch>,
    kind: u8,
) -> bool {
    let held = builder.held(kind);
    &&& held.len() <= started_size(values, attributes_batch, kind)
    &&& forall|k: int|
        0 <= k < held.len() ==> started_value(
            codec,
            values,
            attributes_batch,
            kind,
            #[trigger] held[k],
        )
}

/// Whether the dictionaries hold only what comes of the attributes that stay.
#[verifier::opaque]
pub open spec fn dictionaries_started<C: ValueCodec>(
    builder: AttributesBuilder,
    codec: &C,
    values: NamedValues<OtapValue>,
    attributes_batch: Option<&OtapAttributesBatch>,
) -> bool {
    forall|kind: u8| #[trigger]
        dictionary_started(builder, codec, values, attributes_batch, kind)
}

/// A builder whose dictionaries were empty before it took the attributes that stay holds only what
/// comes of them.
proof fn lemma_kept_started<C: ValueCodec>(
    builder: AttributesBuilder,
    empty: AttributesBuilder,
    codec: &C,
    values: NamedValues<OtapValue>,
    batch: &OtapAttributesBatch,
)
    requires
        keeps_any(values, *batch),
        skips_any(values, *batch),
        forall|kind: u8| (#[trigger] empty.held(kind)).len() == 0,
        builder.grew(
            empty,
            crate::existing_attributes::count_set(
                keep_flags(values, *batch),
                keep_flags(values, *batch).len() as int,
            ) as int,
            crate::existing_attributes::kept_contents(
                codec,
                batch.columns,
                keep_flags(values, *batch),
                keep_flags(values, *batch).len() as int,
            ),
        ),
    ensures
        dictionaries_started(builder, codec, values, Some(batch)),
{
    reveal(dictionaries_started);
    reveal(AttributesBuilder::grew);
    assert forall|kind: u8| #[trigger]
        dictionary_started(builder, codec, values, Some(batch), kind) by {
        let contents = crate::existing_attributes::kept_contents(
            codec,
            batch.columns,
            keep_flags(values, *batch),
            keep_flags(values, *batch).len() as int,
        );
        let count = crate::existing_attributes::count_set(
            keep_flags(values, *batch),
            keep_flags(values, *batch).len() as int,
        ) as int;
        assert(builder.dictionary_grew(empty, count, contents, kind));
        assert(empty.held(kind).len() == 0);
    }
}

/// A builder without attributes has no dictionary.
proof fn lemma_none_held(builder: AttributesBuilder)
    requires
        forall|attribute_type: u8|
            #[trigger] builder.present(attribute_type) == (attribute_type == 0 || attribute_type
                > 7),
    ensures
        forall|kind: u8| (#[trigger] builder.held(kind)).len() == 0,
{
    assert(!builder.present(1));
    assert(!builder.present(2));
    assert(!builder.present(5));
    assert(!builder.present(7));
}

/// A builder that starts with the attributes whose keys are not skipped, and has room for more.
fn keep_some<C: ValueCodec>(
    codec: &C,
    record_count: usize,
    attributes_batch: &OtapAttributesBatch,
    upsert_key_count: usize,
    upsert_attribute_count: usize,
    keys_to_skip: &Vec<bool>,
    values: Ghost<NamedValues<OtapValue>>,
) -> (builder: AttributesBuilder)
    requires
        attributes_batch.wf(),
        keeps_any(values@, *attributes_batch),
        started_ids(record_count as nat, values@, Some(attributes_batch)).1 <= 0xFFFF,
        record_count == attributes_batch.ids@.len(),
        upsert_key_count + attributes_batch.columns.keys.values@.len() <= usize::MAX,
        upsert_attribute_count + attributes_batch.columns.types@.len() <= usize::MAX,
        keys_to_skip@ == skip_flags(values@, *attributes_batch),
        skips_any(values@, *attributes_batch),
    ensures
        builder.wf(),
        builder.records() == record_count,
        builder.attribute_position == crate::existing_attributes::count_set(
            keep_flags(values@, *attributes_batch),
            attributes_batch.columns.keys.keys@.len() as int,
        ),
        builder.capacity() == builder.attribute_position + upsert_attribute_count,
        builder.keys_array_u16 == (builder.keys_value_builder@.len() + upsert_key_count > 0xFF),
        dictionaries_started(builder, codec, values@, Some(attributes_batch)),
        holds_kept(builder, codec, values@, *attributes_batch),
        started_keys(values@, Some(attributes_batch))
            == crate::attributes_builder::key_texts(builder.keys_value_builder@),
        started_ids(
            record_count as nat,
            values@,
            Some(attributes_batch),
        ) == (builder.ids_array.options(), builder.next_parent_id as int),
{
    let ghost batch = *attributes_batch;
    let ghost keep = keep_flags(values@, batch);
    let (attributes_to_keep, kept) = find_kept(values, attributes_batch, keys_to_skip);
    proof {
        crate::existing_attributes::lemma_count_set(keep, 0, batch.columns.keys.keys@.len() as int);
    }
    let kept_keys: usize = count_unset_keys(keys_to_skip);
    let mut builder = AttributesBuilder::new(
        record_count,
        upsert_key_count + kept_keys,
        kept + upsert_attribute_count,
    );
    let ghost empty = builder;
    let key_mapping: Vec<Option<usize>> = builder.push_keys(attributes_batch, keys_to_skip);
    let ghost keyed = builder;
    proof {
        assert(keyed.ids_array.options() =~= Seq::new(record_count as nat, |r: int| None::<u16>));
        assert forall|i: int| 0 <= i < attributes_to_keep@.len() && attributes_to_keep@[i] implies {
            &&& key_mapping@[#[trigger] batch.columns.keys.keys@[i] as int] matches Some(position)
            &&& position < keyed.keys_value_builder@.len()
        } by {
            let k = batch.columns.keys.keys@[i] as int;
            assert(k < batch.columns.keys.values@.len());
            assert(!keys_to_skip@[k]);
        }
    }
    builder.push_existing_attributes(codec, attributes_batch, &attributes_to_keep, &key_mapping);
    proof {
        lemma_none_held(empty);
        assert forall|kind: u8| (#[trigger] keyed.held(kind)).len() == 0 by {
            assert(keyed.held(kind) == empty.held(kind));
        }
        lemma_kept_started(builder, keyed, codec, values@, attributes_batch);
        assert forall|i: int| 0 <= i < batch.columns.types@.len() && #[trigger] keep[i] implies kept_row(
            builder,
            codec,
            values@,
            batch,
            i,
            crate::existing_attributes::count_set(keep, i) as int,
        ) by {
            let k = batch.columns.keys.keys@[i] as int;
            assert(k < batch.columns.keys.values@.len());
            assert(!keys_to_skip@[k]);
            let position = key_mapping@[k]->0;
            let row = crate::existing_attributes::count_set(keep, i) as int;
            assert(builder.carries(codec, batch, i, position, row));
            lemma_carried_row(builder, codec, values@, batch, i, position, row);
        }
    }
    proof {
        assert(crate::attributes_builder::key_texts(builder.keys_value_builder@)
            =~= crate::existing_attributes::unskipped(
            batch.columns.keys.values@,
            keys_to_skip@,
            keys_to_skip@.len() as int,
        ));
    }
    builder
}

/// A builder that starts with all of the attributes, and has room for more.
fn keep_all<C: ValueCodec>(
    codec: &C,
    record_count: usize,
    attributes_batch: &OtapAttributesBatch,
    upsert_key_count: usize,
    upsert_attribute_count: usize,
    values: Ghost<NamedValues<OtapValue>>,
) -> (builder: AttributesBuilder)
    requires
        attributes_batch.wf(),
        record_count == attributes_batch.ids@.len(),
        keeps_any(values@, *attributes_batch),
        started_ids(record_count as nat, values@, Some(attributes_batch)).1 <= 0xFFFF,
        upsert_key_count + attributes_batch.columns.keys.values@.len() <= usize::MAX,
        upsert_attribute_count + attributes_batch.columns.types@.len() <= usize::MAX,
        !skips_any(values@, *attributes_batch),
    ensures
        builder.wf(),
        builder.records() == record_count,
        builder.attribute_position == crate::existing_attributes::count_set(
            keep_flags(values@, *attributes_batch),
            attributes_batch.columns.keys.keys@.len() as int,
        ),
        builder.capacity() == builder.attribute_position + upsert_attribute_count,
        builder.keys_array_u16 == (builder.keys_value_builder@.len() + upsert_key_count > 0xFF),
        dictionaries_started(builder, codec, values@, Some(attributes_batch)),
        holds_kept(builder, codec, values@, *attributes_batch),
        started_keys(values@, Some(attributes_batch))
            == crate::attributes_builder::key_texts(builder.keys_value_builder@),
        started_ids(
            record_count as nat,
            values@,
            Some(attributes_batch),
        ) == (builder.ids_array.options(), builder.next_parent_id as int),
{
    let ghost batch = *attributes_batch;
    let ghost keep = keep_flags(values@, batch);
    let key_count: usize = attributes_batch.columns.keys.values.len();
    let attribute_count: usize = attributes_batch.columns.types.len();
    let builder = AttributesBuilder::new_from_existing(
        record_count,
        upsert_key_count + key_count,
        attribute_count + upsert_attribute_count,
        attributes_batch,
    );
    proof {
        lemma_keeps_all(values@, batch, batch.columns.keys.keys@.len() as int);
        reveal(dictionaries_started);
        assert forall|i: int| 0 <= i < batch.columns.types@.len() && #[trigger] keep[i] implies kept_row(
            builder,
            codec,
            values@,
            batch,
            i,
            crate::existing_attributes::count_set(keep, i) as int,
        ) by {
            lemma_keeps_all(values@, batch, i);
            assert(builder.same_row(batch.columns, i));
            lemma_same_row(builder, codec, values@, batch, i);
        }
    }
    proof {
        assert(crate::attributes_builder::key_texts(builder.keys_value_builder@)
            =~= crate::attributes_builder::key_texts(batch.columns.keys.values@));
        assert(builder.ids_array.options() =~= batch.ids@);
    }
    builder
}

/// A builder that starts with the attributes that stay, and has room for more; nothing if none stay.
fn process_attributes_batch<C: ValueCodec>(
    codec: &C,
    record_count: usize,
    attributes_batch: &OtapAttributesBatch,
    upsert_key_count: usize,
    upsert_attribute_count: usize,
    values: &NamedValues<OtapValue>,
) -> (r: Option<AttributesBuilder>)
    requires
        attributes_batch.wf(),
        record_count == attributes_batch.ids@.len(),
        started_ids(record_count as nat, *values, Some(attributes_batch)).1 <= 0xFFFF,
        upsert_key_count + attributes_batch.columns.keys.values@.len() <= usize::MAX,
        upsert_attribute_count + attributes_batch.columns.types@.len() <= usize::MAX,
    ensures
        r is Some == keeps_any(*values, *attributes_batch),
        r matches Some(builder) ==> {
            &&& builder.wf()
            &&& builder.records() == record_count
            &&& builder.attribute_position == count_kept(*values, Some(*attributes_batch))
            &&& builder.capacity() == builder.attribute_position + upsert_attribute_count
            &&& builder.keys_array_u16 == (builder.keys_value_builder@.len() + upsert_key_count
                > 0xFF)
            &&& holds_kept(builder, codec, *values, *attributes_batch)
            &&& dictionaries_started(builder, codec, *values, Some(attributes_batch))
            &&& started_keys(*values, Some(attributes_batch))
                == crate::attributes_builder::key_texts(builder.keys_value_builder@)
            &&& started_ids(record_count as nat, *values, Some(attributes_batch)) == (
                builder.ids_array.options(),
                builder.next_parent_id as int,
            )
        },
{
    let (keys_to_skip, any_skipped, any_kept) = find_skipped(values, attributes_batch);
    if !any_kept {
        return None;
    }
    if any_skipped {
        let builder = keep_some(
            codec,
            record_count,
            attributes_batch,
            upsert_key_count,
            upsert_attribute_count,
            &keys_to_skip,
            Ghost(*values),
        );
        return Some(builder);
    }
    let builder = keep_all(
        codec,
        record_count,
        attributes_batch,
        upsert_key_count,
        upsert_attribute_count,
        Ghost(*values),
    );
    Some(builder)
}

/// Counts the keys that stay.
fn count_unset_keys(flags: &Vec<bool>) -> (r: usize)
    ensures
        r == crate::existing_attributes::count_unset(flags@, flags@.len() as int),
        r <= flags@.len(),
{
    let mut r: usize = 0;
    let mut i: usize = 0;
    while i < flags.len()
        invariant
            i <= flags@.len(),
            r == crate::existing_attributes::count_unset(flags@, i as int),
            r <= i,
        decreases flags@.len() - i,
    {
        if !flags[i] {
            r = r + 1;
        }
        i = i + 1;
    }
    r
}

/// Whether row `i` holds what has been pushed for it.
pub open spec fn column_row_holds(
    columns: AttributeColumns,
    i: int,
    processed: ProcessedValue,
) -> bool {
    match processed.content() {
        Some(value) => columns.stored(i) matches Some(held) && (columns.fits()
            ==> crate::interning::interned(held, value)),
        None => columns.stored(i) is None,
    }
}

/// Whether row `row` is the attribute of a record under a name.
pub open spec fn written_attribute<C: ValueCodec>(
    codec: &C,
    ids: Seq<Option<u16>>,
    columns: AttributeColumns,
    name: Seq<char>,
    record: int,
    value: ValueOrRef,
    row: int,
) -> bool {
    &&& columns.fits() ==> columns.key(row) == name
    &&& ids[record] == Some(columns.parent_ids@[row])
    &&& exists|processed: ProcessedValue|
        #[trigger] crate::processed_value::processes(codec, value, processed)
            && columns.types@[row] == processed.attribute_type() && column_row_holds(
            columns,
            row,
            processed,
        )
}

/// Whether row `row` is what has been kept of row `i` of the attributes that were there. Where some
/// keys went, a value is taken over by what it is; else the columns are.
pub open spec fn kept_attribute<C: ValueCodec>(
    codec: &C,
    ids: Seq<Option<u16>>,
    columns: AttributeColumns,
    values: NamedValues<OtapValue>,
    batch: OtapAttributesBatch,
    i: int,
    row: int,
) -> bool {
    &&& columns.types@[row] == batch.columns.types@[i]
    &&& columns.fits() ==> columns.key(row) == batch.columns.key(i)
    &&& skips_any(values, batch) || batch.owned(i) ==> ids[batch.record_of(i)] == Some(
        columns.parent_ids@[row],
    )
    &&& !skips_any(values, batch) ==> columns.parent_ids@[row] == batch.columns.parent_ids@[i]
    &&& if skips_any(values, batch) {
        columns.fits() ==> exists|processed: ProcessedValue|
            #[trigger] crate::existing_attributes::existing_content(
                codec,
                batch.columns,
                i,
                processed,
            ) && column_row_holds(columns, row, processed)
    } else {
        columns.fits() ==> crate::existing_attributes::carried(
            batch.columns.stored(i),
            columns.stored(row),
        )
    }
}

/// Whether the ids and the columns are what a builder has been filled with.
spec fn finishes(
    builder: AttributesBuilder,
    ids: Seq<Option<u16>>,
    columns: AttributeColumns,
) -> bool {
    &&& ids == builder.ids_array.options()
    &&& columns.parent_ids == builder.parent_ids_array
    &&& columns.types == builder.types_array
    &&& columns.keys.keys_u16 == builder.keys_array_u16
    &&& columns.keys.keys == builder.keys_array
    &&& columns.keys.values == builder.keys_value_builder
    &&& crate::attributes_builder::slot_finished(builder.strings_dict, columns.strings)
    &&& crate::attributes_builder::slot_finished(builder.ints_dict, columns.ints)
    &&& crate::attributes_builder::slot_finished(builder.bytes_dict, columns.bytes)
    &&& crate::attributes_builder::slot_finished(builder.sers_dict, columns.sers)
    &&& columns.doubles == builder.doubles_array
    &&& columns.bools == builder.bools_array
    &&& forall|i: int|
        0 <= i < builder.attribute_position ==> #[trigger] columns.stored(i) == builder.value_at(i)
}

proof fn lemma_finished_row(
    builder: AttributesBuilder,
    ids: Seq<Option<u16>>,
    columns: AttributeColumns,
    i: int,
    processed: ProcessedValue,
)
    requires
        finishes(builder, ids, columns),
        0 <= i < builder.attribute_position,
        builder.row_holds(i, processed),
    ensures
        column_row_holds(columns, i, processed),
{
    assert(columns.stored(i) == builder.value_at(i));
    assert(columns.fits() ==> builder.fits());
}

/// Whether a builder holds what has been written under the first `n` names, after `kept` rows.
pub open spec fn holds_written<C: ValueCodec>(
    builder: AttributesBuilder,
    codec: &C,
    values: NamedValues<OtapValue>,
    kept: int,
    n: int,
) -> bool {
    forall|j: int, record: int|
        0 <= j < n && 0 <= record < written_rows(values, j).len() && !(
        #[trigger] written_rows(values, j)[record] is Null) ==> written_row(
            builder,
            codec,
            values.names()[j],
            record,
            written_rows(values, j)[record],
            row_of(values, kept, j, record),
        )
}

/// The row of the attribute that a record has under the name at position `j`: those that are kept
/// come first, then those of the names before it, then those of the records before.
pub open spec fn row_of(values: NamedValues<OtapValue>, kept: int, j: int, record: int) -> int {
    kept + count_written(values, j) + count_values(written_rows(values, j), record)
}

/// The row of an attribute is behind those that stay, among those that have been written.
pub proof fn lemma_row_of(values: NamedValues<OtapValue>, kept: int, j: int, record: int, n: int)
    requires
        0 <= kept,
        0 <= j < n,
        0 <= record < written_rows(values, j).len(),
        !(written_rows(values, j)[record] is Null),
    ensures
        kept <= row_of(values, kept, j, record) < kept + count_written(values, n),
{
    let rows = written_rows(values, j);
    lemma_count_values(rows, record, rows.len() as int);
    lemma_count_written(values, j + 1, n);
}

/// Adds the attributes that have been written, name by name.
fn push_all_written<C: ValueCodec>(
    builder: &mut AttributesBuilder,
    codec: &C,
    values: &NamedValues<OtapValue>,
)
    requires
        old(builder).wf(),
        old(builder).records() > 0,
        values_wf(*values, old(builder).records()),
        old(builder).capacity() == old(builder).attribute_position + count_written(
            *values,
            values.names().len() as int,
        ),
        ids_left(*old(builder), written_records(*values, values.names().len() as int)),
    ensures
        final(builder).wf(),
        grown(*final(builder), *old(builder)),
        final(builder).grew(
            *old(builder),
            count_written(*values, values.names().len() as int) as int,
            written_contents(codec, *values, values.names().len() as int),
        ),
        gave(
            *final(builder),
            *old(builder),
            written_records(*values, values.names().len() as int),
        ),
        crate::attributes_builder::key_texts(final(builder).keys_value_builder@)
            == crate::attributes_builder::key_texts(old(builder).keys_value_builder@)
            + written_keys(*values, values.names().len() as int),
        final(builder).attribute_position == final(builder).capacity(),
        holds_written(
            *final(builder),
            codec,
            *values,
            old(builder).attribute_position as int,
            values.names().len() as int,
        ),
{
    let ghost start = *builder;
    let ghost kept = start.attribute_position as int;
    proof {
        lemma_grown_same(start);
        lemma_gave_nothing(start, start);
        start.lemma_grew_same(start, 0, written_contents(codec, *values, 0));
        assert(crate::attributes_builder::key_texts(start.keys_value_builder@)
            =~= crate::attributes_builder::key_texts(start.keys_value_builder@) + written_keys(
            *values,
            0,
        ));
    }
    let mut j: usize = 0;
    while j < values.len()
        invariant
            j <= values.names().len(),
            values_wf(*values, start.records()),
            start.wf(),
            start.records() > 0,
            builder.grew(
                start,
                count_written(*values, j as int) as int,
                written_contents(codec, *values, j as int),
            ),
            start.attribute_position == kept,
            start.capacity() == kept + count_written(*values, values.names().len() as int),
            builder.wf(),
            grown(*builder, start),
            ids_left(start, written_records(*values, values.names().len() as int)),
            gave(*builder, start, written_records(*values, j as int)),
            crate::attributes_builder::key_texts(builder.keys_value_builder@)
                == crate::attributes_builder::key_texts(start.keys_value_builder@) + written_keys(
                *values,
                j as int,
            ),
            builder.attribute_position == kept + count_written(*values, j as int),
            holds_written(*builder, codec, *values, kept, j as int),
        decreases values.names().len() - j,
    {
        let ghost before = *builder;
        let (name, value) = values.entry(j);
        proof {
            lemma_grown_sizes(before, start);
            lemma_count_written(*values, j + 1, values.names().len() as int);
            lemma_grown_same(before);
            lemma_gave_nothing(before, before);
            before.lemma_grew_same(
                before,
                0,
                rows_contents(
                    codec,
                    written_rows(*values, j as int),
                    written_rows(*values, j as int).len() as int,
                ),
            );
            lemma_ids_left(before, start, *values, j as int);
        }
        if let OtapValue::Written(dictionary) = value {
            push_written(builder, codec, name, dictionary);
            proof {
                let rows = dictionary.rows();
                assert(rows == written_rows(*values, j as int));
                assert forall|record: int| 0 <= record < rows.len() && !(#[trigger] rows[record] is Null) implies written_row(
                    *builder,
                    codec,
                    values.names()[j as int],
                    record,
                    rows[record],
                    row_of(*values, kept, j as int, record),
                ) by {
                    assert(written_row(
                        *builder,
                        codec,
                        name@,
                        record,
                        rows[record],
                        before.attribute_position + count_values(rows, record),
                    ));
                }
            }
        }
        proof {
            assert(crate::attributes_builder::key_texts(builder.keys_value_builder@)
                =~= crate::attributes_builder::key_texts(start.keys_value_builder@) + written_keys(
                *values,
                j + 1,
            ));
            lemma_gave_more(
                *builder,
                before,
                start,
                written_records(*values, j as int),
                value_records(
                    written_rows(*values, j as int),
                    written_rows(*values, j as int).len() as int,
                ),
            );
            lemma_grown(*builder, before, start);
            lemma_grew_name(*builder, before, start, codec, *values, j as int);
            assert forall|m: int, record: int|
                0 <= m < j + 1 && 0 <= record < written_rows(*values, m).len() && !(
                #[trigger] written_rows(*values, m)[record] is Null) implies written_row(
                *builder,
                codec,
                values.names()[m],
                record,
                written_rows(*values, m)[record],
                row_of(*values, kept, m, record),
            ) by {
                if m < j {
                    lemma_row_of(*values, kept, m, record, j as int);
                    assert(values@[values.names()[m]] is Written);
                    lemma_written_row(
                        *builder,
                        before,
                        codec,
                        values.names()[m],
                        record,
                        written_rows(*values, m)[record],
                        row_of(*values, kept, m, record),
                    );
                }
            }
        }
        j = j + 1;
    }
    proof {
        lemma_grown_sizes(*builder, start);
    }
}

/// Adding what has been written under one more name adds what is kept of it to the dictionaries.
proof fn lemma_grew_name<C: ValueCodec>(
    builder: AttributesBuilder,
    before: AttributesBuilder,
    start: AttributesBuilder,
    codec: &C,
    values: NamedValues<OtapValue>,
    j: int,
)
    requires
        0 <= j,
        before.grew(
            start,
            count_written(values, j) as int,
            written_contents(codec, values, j),
        ),
        builder.grew(
            before,
            count_values(written_rows(values, j), written_rows(values, j).len() as int) as int,
            rows_contents(codec, written_rows(values, j), written_rows(values, j).len() as int),
        ),
    ensures
        builder.grew(
            start,
            count_written(values, j + 1) as int,
            written_contents(codec, values, j + 1),
        ),
{
    let rows = written_rows(values, j);
    let known = written_contents(codec, values, j);
    let more = rows_contents(codec, rows, rows.len() as int);
    let all = written_contents(codec, values, j + 1);
    assert(more.subset_of(all));
    assert forall|processed: ProcessedValue| known.contains(processed) implies all.contains(
        processed,
    ) by {
        let m = choose|m: int|
            0 <= m < j && #[trigger] rows_contents(
                codec,
                written_rows(values, m),
                written_rows(values, m).len() as int,
            ).contains(processed);
        assert(rows_contents(
            codec,
            written_rows(values, m),
            written_rows(values, m).len() as int,
        ).contains(processed));
    }
    builder.lemma_grew_more(
        before,
        start,
        count_written(values, j) as int,
        known,
        count_values(rows, rows.len() as int) as int,
        more,
        all,
    );
}

/// What a builder holds of a written attribute, its columns hold.
proof fn lemma_finished_written<C: ValueCodec>(
    builder: AttributesBuilder,
    codec: &C,
    ids: Seq<Option<u16>>,
    columns: AttributeColumns,
    name: Seq<char>,
    record: int,
    value: ValueOrRef,
    row: int,
)
    requires
        finishes(builder, ids, columns),
        0 <= row < builder.attribute_position,
        0 <= record < builder.records(),
        written_row(builder, codec, name, record, value, row),
    ensures
        written_attribute(codec, ids, columns, name, record, value, row),
{
    reveal(written_row);
    assert(columns.fits() ==> builder.fits_keys() && builder.fits());
    let processed = choose|processed: ProcessedValue|
        #[trigger] crate::processed_value::processes(codec, value, processed)
            && builder.types_array@[row] == processed.attribute_type() && builder.row_holds(
            row,
            processed,
        );
    lemma_finished_row(builder, ids, columns, row, processed);
    assert(crate::processed_value::processes(codec, value, processed));
    assert(ids[record] == builder.ids_array.cell(record));
}

/// What a builder holds of a kept attribute, its columns hold.
proof fn lemma_finished_kept<C: ValueCodec>(
    builder: AttributesBuilder,
    codec: &C,
    ids: Seq<Option<u16>>,
    columns: AttributeColumns,
    values: NamedValues<OtapValue>,
    batch: OtapAttributesBatch,
    i: int,
    row: int,
)
    requires
        batch.wf(),
        builder.records() == batch.ids@.len(),
        0 <= i < batch.columns.types@.len(),
        finishes(builder, ids, columns),
        0 <= row < builder.attribute_position,
        kept_row(builder, codec, values, batch, i, row),
    ensures
        kept_attribute(codec, ids, columns, values, batch, i, row),
{
    assert(columns.fits() ==> builder.fits_keys() && builder.fits());
    assert(columns.stored(row) == builder.value_at(row));
    if skips_any(values, batch) || batch.owned(i) {
        lemma_records_there(batch, i);
        crate::attributes_batch::lemma_record_with_id(
            batch.ids@,
            batch.columns.parent_ids@[i] as int,
            batch.ids@.len() as int,
        );
        assert(ids[batch.record_of(i)] == builder.ids_array.cell(batch.record_of(i)));
    }
    if skips_any(values, batch) && columns.fits() {
        let processed = choose|processed: ProcessedValue|
            #[trigger] crate::existing_attributes::existing_content(
                codec,
                batch.columns,
                i,
                processed,
            ) && builder.row_holds(row, processed);
        lemma_finished_row(builder, ids, columns, row, processed);
        assert(crate::existing_attributes::existing_content(
            codec,
            batch.columns,
            i,
            processed,
        ));
    }
}

/// The number of attributes that stay.
pub open spec fn kept_count(
    values: NamedValues<OtapValue>,
    attributes_batch: Option<&OtapAttributesBatch>,
) -> int {
    match attributes_batch {
        Some(batch) => count_kept(values, Some(*batch)) as int,
        None => 0,
    }
}

/// Whether the ids and the columns hold what has been written, after the attributes that stay.
pub open spec fn all_written<C: ValueCodec>(
    codec: &C,
    ids: Seq<Option<u16>>,
    columns: AttributeColumns,
    values: NamedValues<OtapValue>,
    kept: int,
) -> bool {
    forall|j: int, record: int|
        0 <= j < values.names().len() && 0 <= record < written_rows(values, j).len() && !(
        #[trigger] written_rows(values, j)[record] is Null) ==> written_attribute(
            codec,
            ids,
            columns,
            values.names()[j],
            record,
            written_rows(values, j)[record],
            row_of(values, kept, j, record),
        )
}

/// Whether the ids and the columns start with the attributes that stay.
pub open spec fn all_kept<C: ValueCodec>(
    codec: &C,
    ids: Seq<Option<u16>>,
    columns: AttributeColumns,
    values: NamedValues<OtapValue>,
    batch: OtapAttributesBatch,
) -> bool {
    forall|i: int|
        0 <= i < batch.columns.types@.len() && #[trigger] keep_flags(values, batch)[i]
            ==> kept_attribute(
            codec,
            ids,
            columns,
            values,
            batch,
            i,
            crate::existing_attributes::count_set(keep_flags(values, batch), i) as int,
        )
}

/// The keys of attributes that are written out: those that stay, and those that are added if anything
/// has been written.
pub open spec fn all_keys(
    values: NamedValues<OtapValue>,
    attributes_batch: Option<&OtapAttributesBatch>,
) -> Seq<Seq<char>> {
    let count = values.names().len() as int;
    if count_written(values, count) > 0 {
        started_keys(values, attributes_batch) + written_keys(values, count)
    } else {
        started_keys(values, attributes_batch)
    }
}

/// The ids of records once their attributes have been written out: each gets the next id with its first
/// attribute, if it has none.
pub open spec fn written_ids(
    record_count: nat,
    values: NamedValues<OtapValue>,
    attributes_batch: Option<&OtapAttributesBatch>,
) -> Seq<Option<u16>> {
    let started = started_ids(record_count, values, attributes_batch);
    crate::attributes_builder::given_ids(
        started.0,
        started.1,
        written_records(values, values.names().len() as int),
    ).0
}

/// Whether there are ids for all records that need one.
pub open spec fn ids_last(
    record_count: nat,
    values: NamedValues<OtapValue>,
    attributes_batch: Option<&OtapAttributesBatch>,
) -> bool {
    let started = started_ids(record_count, values, attributes_batch);
    crate::attributes_builder::given_ids(
        started.0,
        started.1,
        written_records(values, values.names().len() as int),
    ).1 <= 0xFFFF
}

/// Whether the flags tell which records have an id, and the count is the next id, or the first that is
/// too large.
spec fn shows(held: Seq<bool>, next: usize, given: (Seq<Option<u16>>, int)) -> bool {
    &&& held.len() == given.0.len()
    &&& forall|r: int| 0 <= r < held.len() ==> #[trigger] held[r] == given.0[r] is Some
    &&& next == (if given.1 <= 0xFFFF {
        given.1
    } else {
        0x10000
    })
}

/// Gives a record an id if it has none.
fn hand_out(
    held: &mut Vec<bool>,
    next: usize,
    record: usize,
    ids: Ghost<Seq<Option<u16>>>,
    start: Ghost<int>,
    records: Ghost<Seq<int>>,
) -> (r: usize)
    requires
        record < old(held)@.len(),
        shows(
            old(held)@,
            next,
            crate::attributes_builder::given_ids(ids@, start@, records@),
        ),
    ensures
        shows(
            final(held)@,
            r,
            crate::attributes_builder::given_ids(ids@, start@, records@.push(record as int)),
        ),
        final(held)@.len() == old(held)@.len(),
{
    assert(records@.push(record as int).drop_last() =~= records@);
    if held[record] {
        return next;
    }
    held.set(record, true);
    if next < 0x10000 {
        next + 1
    } else {
        next
    }
}

/// Whether there are ids for all records that need one.
pub fn ids_suffice(
    record_count: usize,
    values: &NamedValues<OtapValue>,
    attributes_batch: Option<&OtapAttributesBatch>,
) -> (r: bool)
    requires
        values_wf(*values, record_count as nat),
        attributes_batch matches Some(batch) ==> batch.wf() && record_count == batch.ids@.len(),
    ensures
        r == ids_last(record_count as nat, *values, attributes_batch),
{
    let mut held: Vec<bool> = Vec::new();
    held.resize(record_count, false);
    assert(held@ =~= Seq::new(record_count as nat, |r: int| false));
    let mut next: usize = 0;
    if let Some(batch) = attributes_batch {
        let (keys_to_skip, any_skipped, any_kept) = find_skipped(values, batch);
        if any_kept && any_skipped {
            next = count_kept_ids(values, batch, &keys_to_skip, &mut held);
        } else if any_kept {
            let mut r: usize = 0;
            while r < record_count
                invariant
                    r <= record_count,
                    held@.len() == record_count,
                    record_count == batch.ids@.len(),
                    forall|s: int| 0 <= s < r ==> #[trigger] held@[s] == batch.ids@[s] is Some,
                decreases record_count - r,
            {
                held.set(r, batch.ids[r].is_some());
                r = r + 1;
            }
            next = crate::existing_attributes::next_place(&batch.columns.parent_ids);
        }
    }
    let ghost started = started_ids(record_count as nat, *values, attributes_batch);
    assert(shows(held@, next, started));
    let mut j: usize = 0;
    while j < values.len()
        invariant
            j <= values.names().len(),
            held@.len() == record_count,
            values_wf(*values, record_count as nat),
            shows(
                held@,
                next,
                crate::attributes_builder::given_ids(
                    started.0,
                    started.1,
                    written_records(*values, j as int),
                ),
            ),
        decreases values.names().len() - j,
    {
        let (_, value) = values.entry(j);
        let ghost before = written_records(*values, j as int);
        let ghost rows = written_rows(*values, j as int);
        assert(before + value_records(rows, 0) =~= before);
        if let OtapValue::Written(dictionary) = value {
            assert(values.names()[j as int] == values.names()[j as int]);
            let mut record: usize = 0;
            while record < record_count
                invariant
                    record <= record_count,
                    held@.len() == record_count,
                    dictionary.wf(),
                    rows == dictionary.rows(),
                    rows.len() == record_count,
                    shows(
                        held@,
                        next,
                        crate::attributes_builder::given_ids(
                            started.0,
                            started.1,
                            before + value_records(rows, record as int),
                        ),
                    ),
                decreases record_count - record,
            {
                let ghost known = before + value_records(rows, record as int);
                if !dictionary.get_value(record).is_null() {
                    next = hand_out(
                        &mut held,
                        next,
                        record,
                        Ghost(started.0),
                        Ghost(started.1),
                        Ghost(known),
                    );
                    assert(known.push(record as int) =~= before + value_records(
                        rows,
                        record + 1,
                    ));
                }
                record = record + 1;
            }
        }
        j = j + 1;
    }
    next <= 0xFFFF
}

/// Gives ids to the records of the attributes that stay.
fn count_kept_ids(
    values: &NamedValues<OtapValue>,
    batch: &OtapAttributesBatch,
    keys_to_skip: &Vec<bool>,
    held: &mut Vec<bool>,
) -> (next: usize)
    requires
        batch.wf(),
        keeps_any(*values, *batch),
        skips_any(*values, *batch),
        keys_to_skip@ == skip_flags(*values, *batch),
        old(held)@ == Seq::new(batch.ids@.len(), |r: int| false),
    ensures
        shows(final(held)@, next, started_ids(batch.ids@.len(), *values, Some(batch))),
        final(held)@.len() == old(held)@.len(),
{
    let ghost none = Seq::new(batch.ids@.len(), |r: int| None::<u16>);
    let ghost keep = keep_flags(*values, *batch);
    let map: Vec<u16> = get_id_to_record_index_map(&batch.ids);
    let mut next: usize = 0;
    let mut i: usize = 0;
    while i < batch.columns.types.len()
        invariant
            i <= batch.columns.types@.len(),
            batch.wf(),
            keep == keep_flags(*values, *batch),
            keys_to_skip@ == skip_flags(*values, *batch),
            held@.len() == batch.ids@.len(),
            map@.len() == crate::attributes_batch::id_space(batch.ids@, batch.ids@.len() as int),
            forall|id: int|
                0 <= id < map@.len() ==> #[trigger] map@[id]
                    == crate::attributes_batch::record_with_id(
                    batch.ids@,
                    id,
                    batch.ids@.len() as int,
                ),
            shows(
                held@,
                next,
                crate::attributes_builder::given_ids(
                    none,
                    0,
                    crate::existing_attributes::kept_records(*batch, keep, i as int),
                ),
            ),
        decreases batch.columns.types@.len() - i,
    {
        let key: usize = batch.columns.keys.keys[i] as usize;
        assert(batch.columns.keys.keys@[i as int] < batch.columns.keys.values@.len());
        if !keys_to_skip[key] {
            let parent_id: usize = batch.columns.parent_ids[i] as usize;
            let record: usize = map[parent_id] as usize;
            proof {
                crate::attributes_batch::lemma_record_with_id(
                    batch.ids@,
                    parent_id as int,
                    batch.ids@.len() as int,
                );
                assert(record == batch.record_of(i as int));
            }
            next = hand_out(
                held,
                next,
                record,
                Ghost(none),
                Ghost(0),
                Ghost(crate::existing_attributes::kept_records(*batch, keep, i as int)),
            );
        }
        i = i + 1;
    }
    next
}

/// Whether the dictionary for a kind of attribute holds only what comes of the attributes that stay and
/// of what has been written, each value once. There are no more of them than came with the attributes
/// that stay and one for each that has been written.
pub open spec fn dictionary_filled<C: ValueCodec>(
    codec: &C,
    values: NamedValues<OtapValue>,
    attributes_batch: Option<&OtapAttributesBatch>,
    columns: AttributeColumns,
    kind: u8,
) -> bool {
    let held = columns.held(kind);
    let count = values.names().len() as int;
    &&& crate::interning::all_distinct(held)
    &&& held.len() <= started_size(values, attributes_batch, kind) + count_written(values, count)
    &&& forall|k: int|
        0 <= k < held.len() ==> started_value(
            codec,
            values,
            attributes_batch,
            kind,
            #[trigger] held[k],
        ) || crate::attributes_builder::comes_of(
            written_contents(codec, values, count),
            kind,
            held[k],
        )
}

/// What a builder has filled its dictionaries with, its columns hold.
proof fn lemma_dictionaries_filled<C: ValueCodec>(
    builder: AttributesBuilder,
    start: AttributesBuilder,
    codec: &C,
    values: NamedValues<OtapValue>,
    attributes_batch: Option<&OtapAttributesBatch>,
    ids: Seq<Option<u16>>,
    columns: AttributeColumns,
)
    requires
        builder.wf(),
        dictionaries_started(start, codec, values, attributes_batch),
        builder.grew(
            start,
            count_written(values, values.names().len() as int) as int,
            written_contents(codec, values, values.names().len() as int),
        ),
        finishes(builder, ids, columns),
    ensures
        forall|kind: u8| #[trigger]
            dictionary_filled(codec, values, attributes_batch, columns, kind),
{
    let count = values.names().len() as int;
    let contents = written_contents(codec, values, count);
    reveal(dictionaries_started);
    reveal(AttributesBuilder::grew);
    assert forall|kind: u8| #[trigger]
        dictionary_filled(codec, values, attributes_batch, columns, kind) by {
        assert(dictionary_started(start, codec, values, attributes_batch, kind));
        assert(builder.dictionary_grew(start, count_written(values, count) as int, contents, kind));
        let held = columns.held(kind);
        assert(held =~= builder.held(kind));
        assert forall|k: int| 0 <= k < held.len() implies started_value(
            codec,
            values,
            attributes_batch,
            kind,
            #[trigger] held[k],
        ) || crate::attributes_builder::comes_of(contents, kind, held[k]) by {
            if k < start.held(kind).len() {
                assert(start.held(kind)[k] == held[k]);
            }
        }
    }
}

/// Whether the ids and the columns are what comes of writing attributes out.
pub open spec fn written_out<C: ValueCodec>(
    codec: &C,
    record_count: nat,
    values: NamedValues<OtapValue>,
    attributes_batch: Option<&OtapAttributesBatch>,
    ids: Seq<Option<u16>>,
    columns: AttributeColumns,
) -> bool {
    &&& ids.len() == record_count
    &&& ids == written_ids(record_count, values, attributes_batch)
    &&& crate::attributes_builder::key_texts(columns.keys.values@) == all_keys(
        values,
        attributes_batch,
    )
    &&& columns.keys.keys_u16 == (started_keys(values, attributes_batch).len()
        + count_written_names(values, values.names().len() as int) > 0xFF)
    &&& forall|kind: u8| #[trigger]
        dictionary_filled(codec, values, attributes_batch, columns, kind)
    &&& columns.wf()
    &&& columns.types@.len() == kept_count(values, attributes_batch) + count_written(
        values,
        values.names().len() as int,
    )
    &&& all_written(
        codec,
        ids,
        columns,
        values,
        kept_count(values, attributes_batch),
    )
    &&& attributes_batch matches Some(batch) ==> keeps_any(values, *batch) ==> all_kept(
        codec,
        ids,
        columns,
        values,
        *batch,
    )
}

/// Writes attributes out: those that are there already and stay, and those that have been written.
///
/// Nothing comes of it if there is neither. Attributes under a name that has been written or removed
/// do not stay. None stays either where the empty text would be their only key.
pub fn attributes_writer<C: ValueCodec>(
    codec: &C,
    record_count: usize,
    values: &NamedValues<OtapValue>,
    attributes_batch: Option<&OtapAttributesBatch>,
) -> (r: Option<(Vec<Option<u16>>, AttributeColumns)>)
    requires
        ids_last(record_count as nat, *values, attributes_batch),
        values_wf(*values, record_count as nat),
        values.names().len() * record_count + (match attributes_batch {
            Some(batch) => batch.columns.types@.len(),
            None => 0,
        }) <= usize::MAX,
        values.names().len() + (match attributes_batch {
            Some(batch) => batch.columns.keys.values@.len(),
            None => 0,
        }) <= usize::MAX,
        attributes_batch matches Some(batch) ==> {
            &&& batch.wf()
            &&& record_count == batch.ids@.len()
        },
    ensures
        r is Some == ((attributes_batch matches Some(batch) && keeps_any(*values, *batch))
            || count_written(*values, values.names().len() as int) > 0),
        r matches Some((ids, columns)) ==> written_out(
            codec,
            record_count as nat,
            *values,
            attributes_batch,
            ids@,
            columns,
        ),
{
    proof {
        assert(values.names().len() * record_count >= 0) by (nonlinear_arith);
    }
    proof {
        let started = started_ids(record_count as nat, *values, attributes_batch);
        crate::attributes_builder::lemma_given_ids_grow(
            started.0,
            started.1,
            written_records(*values, values.names().len() as int),
        );
    }
    let (upsert_key_count, upsert_attribute_count) = count_upserts(values, record_count);
    let started: Option<AttributesBuilder> = match attributes_batch {
        Some(batch) => process_attributes_batch(
            codec,
            record_count,
            batch,
            upsert_key_count,
            upsert_attribute_count,
            values,
        ),
        None => None,
    };
    let ghost any_kept = started is Some;
    if upsert_attribute_count == 0 && started.is_none() {
        return None;
    }
    let mut builder = match started {
        Some(builder) => builder,
        None => AttributesBuilder::new(record_count, upsert_key_count, upsert_attribute_count),
    };
    let ghost start = builder;
    let ghost kept = kept_count(*values, attributes_batch);
    proof {
        lemma_grown_same(start);
        lemma_gave_nothing(start, start);
        if !any_kept {
            assert(start.ids_array.options() =~= Seq::new(record_count as nat, |r: int| None::<u16>));
            assert(crate::attributes_builder::key_texts(start.keys_value_builder@)
                =~= started_keys(*values, attributes_batch));
            lemma_none_held(start);
            reveal(dictionaries_started);
            assert forall|kind: u8| #[trigger]
                dictionary_started(start, codec, *values, attributes_batch, kind) by {
                assert(start.held(kind).len() == 0);
            }
        }
        start.lemma_grew_same(
            start,
            0,
            written_contents(codec, *values, values.names().len() as int),
        );
        assert(start.keys_value_builder@.len() == started_keys(*values, attributes_batch).len());
    }
    if upsert_attribute_count > 0 {
        assert(record_count > 0) by (nonlinear_arith)
            requires
                0 < upsert_attribute_count <= values.names().len() * record_count,
        ;
        push_all_written(&mut builder, codec, values);
    } else {
        proof {
            lemma_none_written(*values, values.names().len() as int);
            lemma_no_written_records(*values, values.names().len() as int);
        }
    }
    let ghost built = builder;
    let (ids, columns) = builder.finish();
    proof {
        lemma_grown_sizes(built, start);
        assert(finishes(built, ids@, columns));
        lemma_dictionaries_filled(
            built,
            start,
            codec,
            *values,
            attributes_batch,
            ids@,
            columns,
        );
        reveal(gave);
        assert forall|j: int, record: int|
            0 <= j < values.names().len() && 0 <= record < written_rows(*values, j).len() && !(
            #[trigger] written_rows(*values, j)[record] is Null) implies written_attribute(
            codec,
            ids@,
            columns,
            values.names()[j],
            record,
            written_rows(*values, j)[record],
            row_of(*values, kept, j, record),
        ) by {
            lemma_row_of(*values, kept, j, record, values.names().len() as int);
            assert(values@[values.names()[j]] is Written);
            lemma_finished_written(
                built,
                codec,
                ids@,
                columns,
                values.names()[j],
                record,
                written_rows(*values, j)[record],
                row_of(*values, kept, j, record),
            );
        }
        if any_kept {
            lemma_all_kept(built, start, codec, ids@, columns, *values, *attributes_batch->0);
        }
    }
    Some((ids, columns))
}

proof fn lemma_all_kept<C: ValueCodec>(
    built: AttributesBuilder,
    start: AttributesBuilder,
    codec: &C,
    ids: Seq<Option<u16>>,
    columns: AttributeColumns,
    values: NamedValues<OtapValue>,
    batch: OtapAttributesBatch,
)
    requires
        batch.wf(),
        start.wf(),
        start.records() == batch.ids@.len(),
        keeps_any(values, batch),
        start.attribute_position == count_kept(values, Some(batch)),
        holds_kept(start, codec, values, batch),
        grown(built, start),
        finishes(built, ids, columns),
    ensures
        all_kept(codec, ids, columns, values, batch),
{
    lemma_grown_sizes(built, start);
    let keep = keep_flags(values, batch);
    assert forall|i: int| 0 <= i < batch.columns.types@.len() && #[trigger] keep[i] implies kept_attribute(
        codec,
        ids,
        columns,
        values,
        batch,
        i,
        crate::existing_attributes::count_set(keep, i) as int,
    ) by {
        let row = crate::existing_attributes::count_set(keep, i) as int;
        crate::existing_attributes::lemma_count_set(keep, i, keep.len() as int);
        assert(kept_row(start, codec, values, batch, i, row));
        lemma_kept_row(built, start, codec, values, batch, i, row);
        lemma_finished_kept(built, codec, ids, columns, values, batch, i, row);
    }
}

/// More is written under more names.
pub proof fn lemma_count_written(values: NamedValues<OtapValue>, m: int, n: int)
    requires
        0 <= m <= n,
    ensures
        count_written(values, m) <= count_written(values, n),
    decreases n,
{
    if m < n {
        lemma_count_written(values, m, n - 1);
    }
}

proof fn lemma_no_written_records(values: NamedValues<OtapValue>, n: int)
    requires
        forall|j: int, record: int|
            0 <= j < n && 0 <= record < written_rows(values, j).len()
                ==> #[trigger] written_rows(values, j)[record] is Null,
    ensures
        written_records(values, n) == Seq::<int>::empty(),
    decreases n,
{
    if n > 0 {
        lemma_no_written_records(values, n - 1);
        let rows = written_rows(values, n - 1);
        assert forall|r: int| 0 <= r < rows.len() implies #[trigger] rows[r] is Null by {
            assert(written_rows(values, n - 1)[r] is Null);
        }
        lemma_no_value_records(rows, rows.len() as int);
    }
    assert(written_records(values, n) =~= Seq::<int>::empty());
}

proof fn lemma_none_written(values: NamedValues<OtapValue>, n: int)
    requires
        0 <= n,
        count_written(values, n) == 0,
    ensures
        forall|j: int, record: int|
            0 <= j < n && 0 <= record < written_rows(values, j).len()
                ==> #[trigger] written_rows(values, j)[record] is Null,
    decreases n,
{
    if n > 0 {
        lemma_none_written(values, n - 1);
        let rows = written_rows(values, n - 1);
        lemma_count_values(rows, 0, rows.len() as int);
    }
}

} // verus!
