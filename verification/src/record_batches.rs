//! Filtering batches of log records, and the attributes that belong to them.

use arrow::array::{AsArray, BooleanArray, BooleanBuilder};
use vstd::prelude::*;

use crate::boolean_array::boolean_true_count;
use crate::id_bitmap::IdBitmap;

verus! {

/// A number of columns of one length, held as an `arrow::array::RecordBatch`.
#[verifier::external_body]
pub struct ColumnBatch {
    pub batch: arrow::array::RecordBatch,
}

/// `arrow::array::BooleanBuilder`, a boolean column that is being filled.
#[verifier::external_type_specification]
#[verifier::external_body]
pub struct ExBooleanBuilder(arrow::array::BooleanBuilder);

/// The number of rows of the batch.
pub uninterp spec fn batch_rows(batch: ColumnBatch) -> nat;

/// The entries of the column of ids of a name, if the batch has one.
pub uninterp spec fn batch_ids(
    batch: ColumnBatch,
    name: Seq<char>,
) -> Option<Seq<Option<u16>>>;

/// The entries of the column of ids inside the column of a name, if the batch has one.
pub uninterp spec fn batch_inner_ids(
    batch: ColumnBatch,
    name: Seq<char>,
    inner: Seq<char>,
) -> Option<Seq<Option<u16>>>;

/// The name of each column of the batch, and a number that stands for its type.
pub uninterp spec fn batch_fields(batch: ColumnBatch) -> Seq<(Seq<char>, int)>;

/// The entries of the column at a place, each as a number that stands for it: entries are told by one
/// number if and only if they hold the same.
pub uninterp spec fn batch_entries(batch: ColumnBatch, place: int) -> Seq<int>;

/// For each field of the batch, those inside others too, whether its entries are held as runs or as
/// views of a list.
pub uninterp spec fn batch_indirect(batch: ColumnBatch) -> Seq<bool>;

/// What `arrow::compute::filter_record_batch` leaves of a batch, if it can filter the batch.
pub uninterp spec fn filtered_batch(
    batch: ColumnBatch,
    mask: Seq<Option<bool>>,
) -> Option<ColumnBatch>;

/// The entries that the builder has been filled with.
pub uninterp spec fn builder_values(builder: arrow::array::BooleanBuilder) -> Seq<Option<bool>>;

/// `RecordBatch::num_rows`: the number of rows.
#[verifier::external_body]
pub(crate) fn record_batch_rows(batch: &ColumnBatch) -> (r: usize)
    ensures
        r == batch_rows(*batch),
{
    batch.batch.num_rows()
}

/// `RecordBatch::column_by_name`: the entries of the column of a name, if there is one and it is of
/// unsigned integers of two bytes. There is one for each row.
#[verifier::external_body]
pub(crate) fn record_batch_ids(batch: &ColumnBatch, name: &str) -> (r: Option<Vec<Option<u16>>>)
    ensures
        r is Some == batch_ids(*batch, name@) is Some,
        r matches Some(ids) ==> batch_ids(*batch, name@) == Some(ids@) && ids@.len() == batch_rows(
            *batch,
        ),
{
    batch.batch.column_by_name(name)
        .and_then(|c| c.as_primitive_opt::<arrow::datatypes::UInt16Type>())
        .map(|c| c.iter().collect())
}

/// `StructArray::column_by_name`: the entries of the column of the inner name inside the column of
/// the outer, if there is one and it is of unsigned integers of two bytes.
#[verifier::external_body]
pub(crate) fn record_batch_inner_ids(batch: &ColumnBatch, name: &str, inner: &str) -> (r: Option<
    Vec<Option<u16>>,
>)
    ensures
        r is Some == batch_inner_ids(*batch, name@, inner@) is Some,
        r matches Some(ids) ==> batch_inner_ids(*batch, name@, inner@) == Some(ids@),
{
    batch.batch.column_by_name(name)
        .and_then(|c| c.as_struct_opt())
        .and_then(|c| c.column_by_name(inner))
        .and_then(|c| c.as_primitive_opt::<arrow::datatypes::UInt16Type>())
        .map(|c| c.iter().collect())
}

/// `Schema::flattened_fields`: for each field of the batch, those inside others too, whether it is
/// run-end encoded or a list view. It leaves out the fields inside a list view.
#[verifier::external_body]
fn record_batch_indirect(batch: &ColumnBatch) -> (r: Vec<bool>)
    ensures
        r@ == batch_indirect(*batch),
{
    batch.batch.schema_ref().flattened_fields().iter()
        .map(|f| matches!(
            f.data_type(),
            arrow::datatypes::DataType::RunEndEncoded(..)
            | arrow::datatypes::DataType::ListView(_)
            | arrow::datatypes::DataType::LargeListView(_)
        ))
        .collect()
}

/// Whether no column of the batch holds runs or list views, nor anything inside a column.
pub open spec fn held_directly(batch: ColumnBatch) -> bool {
    forall|i: int| 0 <= i < batch_indirect(batch).len() ==> !#[trigger] batch_indirect(batch)[i]
}

/// Whether a column of the batch, or anything inside a column, holds runs or list views.
pub fn holds_indirectly(batch: &ColumnBatch) -> (r: bool)
    ensures
        r == !held_directly(*batch),
{
    let indirect: Vec<bool> = record_batch_indirect(batch);
    let mut i: usize = 0;
    while i < indirect.len()
        invariant
            i <= indirect@.len(),
            indirect@ == batch_indirect(*batch),
            forall|j: int| 0 <= j < i ==> !#[trigger] indirect@[j],
        decreases indirect@.len() - i,
    {
        if indirect[i] {
            assert(batch_indirect(*batch)[i as int]);
            return true;
        }
        i = i + 1;
    }
    false
}

/// The entries of those rows that the mask marks as true.
pub open spec fn masked<T>(entries: Seq<T>, mask: Seq<Option<bool>>) -> Seq<T>
    decreases mask.len(),
{
    if mask.len() == 0 {
        Seq::empty()
    } else if mask.last() == Some(true) {
        masked(entries, mask.drop_last()).push(entries[mask.len() - 1])
    } else {
        masked(entries, mask.drop_last())
    }
}

/// Whether `after` has as many rows as the mask marks as true, and the ids of those rows.
pub open spec fn rows_filtered(
    batch: ColumnBatch,
    mask: Seq<Option<bool>>,
    after: ColumnBatch,
) -> bool {
    &&& batch_rows(after) == crate::boolean_array::count_entries(mask, true)
    &&& forall|name: Seq<char>|
        #[trigger] batch_ids(after, name) == (match batch_ids(batch, name) {
            Some(ids) => Some(masked(ids, mask)),
            None => None,
        })
    &&& forall|name: Seq<char>, inner: Seq<char>|
        #[trigger] batch_inner_ids(after, name, inner) == (match batch_inner_ids(
            batch,
            name,
            inner,
        ) {
            Some(ids) => Some(masked(ids, mask)),
            None => None,
        })
}

/// Whether `after` is the batch without the rows that the mask does not mark as true: it has the same
/// fields, and in each column the entries of the rows that are left, in order. Nothing is said of the
/// entries where the batch holds runs or list views.
pub open spec fn batch_filtered(
    batch: ColumnBatch,
    mask: Seq<Option<bool>>,
    after: ColumnBatch,
) -> bool {
    &&& batch_fields(after) == batch_fields(batch)
    &&& held_directly(batch) ==> forall|place: int|
        0 <= place < batch_fields(batch).len() ==> #[trigger] batch_entries(after, place) == masked(
            batch_entries(batch, place),
            mask,
        )
    &&& rows_filtered(batch, mask, after)
}

/// `arrow::compute::filter_record_batch`: the batch without the rows that the mask does not mark as
/// true, with the same fields, and in every column the entries of those rows as long as no column holds
/// runs or list views: of a slice of runs it takes other rows, and of list views inside lists it leaves
/// the values behind. Whether it can filter the batch rests on the batch and the mask alone; nothing is
/// said of which batches those are.
#[verifier::external_body]
pub(crate) fn filter_record_batch(batch: &ColumnBatch, filter: &BooleanArray) -> (r: Option<ColumnBatch>)
    requires
        crate::boolean_array::boolean_values(*filter).len() == batch_rows(*batch),
    ensures
        r == filtered_batch(*batch, crate::boolean_array::boolean_values(*filter)),
        r matches Some(after) ==> batch_fields(after) == batch_fields(*batch),
        r matches Some(after) ==> held_directly(*batch) ==> forall|place: int|
            0 <= place < batch_fields(*batch).len() ==> #[trigger] batch_entries(after, place)
                == masked(
                batch_entries(*batch, place),
                crate::boolean_array::boolean_values(*filter),
            ),
        r matches Some(after) ==> rows_filtered(
            *batch,
            crate::boolean_array::boolean_values(*filter),
            after,
        ),
{
    arrow::compute::filter_record_batch(&batch.batch, filter).ok().map(|batch| ColumnBatch { batch })
}

/// `BooleanBuilder::with_capacity`: a builder without entries.
#[verifier::external_body]
fn boolean_builder_new(capacity: usize) -> (r: BooleanBuilder)
    ensures
        builder_values(r) == Seq::<Option<bool>>::empty(),
{
    BooleanBuilder::with_capacity(capacity)
}

/// `BooleanBuilder::append_n`: adds a number of entries of one value.
#[verifier::external_body]
fn boolean_builder_append_n(builder: &mut BooleanBuilder, count: usize, value: bool)
    ensures
        builder_values(*final(builder)) == builder_values(*old(builder)) + Seq::new(
            count as nat,
            |i: int| Some(value),
        ),
{
    builder.append_n(count, value)
}

/// `BooleanBuilder::finish`: the entries as a column.
#[verifier::external_body]
fn boolean_builder_finish(builder: &mut BooleanBuilder) -> (r: BooleanArray)
    ensures
        crate::boolean_array::boolean_values(r) == builder_values(*old(builder)),
{
    builder.finish()
}

/// Whether an id is in the set.
pub open spec fn id_kept(ids: Set<u32>, id: Option<u16>) -> bool {
    match id {
        Some(id) => ids.contains(id as u32),
        None => false,
    }
}

/// For each id, whether it is in the set.
pub open spec fn id_mask(column: Seq<Option<u16>>, ids: Set<u32>) -> Seq<Option<bool>> {
    Seq::new(column.len(), |i: int| Some(id_kept(ids, column[i])))
}

/// For each id, whether it is in the set. Runs of one answer are written at once.
pub fn build_uint16_id_filter(id_column: &Vec<Option<u16>>, id_set: &IdBitmap) -> (r: BooleanArray)
    ensures
        crate::boolean_array::boolean_values(r) == id_mask(id_column@, id_set@),
{
    let mut builder: BooleanBuilder = boolean_builder_new(id_column.len());
    let mut seg_val: bool = false;
    let mut seg_len: usize = 0;
    let ghost all = id_mask(id_column@, id_set@);
    let mut i: usize = 0;
    while i < id_column.len()
        invariant
            i <= id_column@.len(),
            all == id_mask(id_column@, id_set@),
            seg_len <= i,
            builder_values(builder) == all.subrange(0, i - seg_len),
            forall|j: int| i - seg_len <= j < i ==> #[trigger] all[j] == Some(seg_val),
        decreases id_column@.len() - i,
    {
        let valid: bool = match id_column[i] {
            Some(id) => id_set.contains(id as u32),
            None => false,
        };
        if valid != seg_val {
            if seg_len > 0 {
                boolean_builder_append_n(&mut builder, seg_len, seg_val);
            }
            proof {
                assert(builder_values(builder) =~= all.subrange(0, i as int));
            }
            seg_val = valid;
            seg_len = 0;
        }
        seg_len = seg_len + 1;
        i = i + 1;
    }
    if seg_len > 0 {
        boolean_builder_append_n(&mut builder, seg_len, seg_val);
    }
    proof {
        assert(builder_values(builder) =~= all);
    }
    boolean_builder_finish(&mut builder)
}

/// The ids that attributes belong to: those that are at hand in decoded form, else those in the
/// column of the batch.
pub open spec fn parents_of(
    parent_ids: Option<Seq<Option<u16>>>,
    child_batch: ColumnBatch,
) -> Seq<Option<u16>> {
    match parent_ids {
        Some(ids) => ids,
        None => batch_ids(child_batch, "parent_id"@)->0,
    }
}

/// Whether the ids that attributes belong to are known, one for each.
pub open spec fn parents_known(
    parent_ids: Option<Seq<Option<u16>>>,
    child_batch: ColumnBatch,
) -> bool {
    match parent_ids {
        Some(ids) => ids.len() == batch_rows(child_batch),
        None => batch_ids(child_batch, "parent_id"@) is Some,
    }
}

/// Whether `after` is what is left of attributes when only those ids are: the attributes that belong
/// to one of them, and nothing if there is none.
pub open spec fn child_filtered(
    ids: Set<u32>,
    parent_ids: Option<Seq<Option<u16>>>,
    child_batch: ColumnBatch,
    after: Option<ColumnBatch>,
) -> bool {
    let mask = id_mask(parents_of(parent_ids, child_batch), ids);
    if crate::boolean_array::count_entries(mask, true) > 0 {
        after matches Some(after) && batch_filtered(child_batch, mask, after)
    } else {
        after is None
    }
}

/// What is left of attributes when only those ids are, or an error if the batch cannot be filtered.
pub open spec fn child_left(
    ids: Set<u32>,
    parent_ids: Option<Seq<Option<u16>>>,
    child_batch: ColumnBatch,
) -> Result<Option<ColumnBatch>, ()> {
    let mask = id_mask(parents_of(parent_ids, child_batch), ids);
    if crate::boolean_array::count_entries(mask, true) == 0 {
        Ok(None)
    } else {
        match filtered_batch(child_batch, mask) {
            Some(after) => Ok(Some(after)),
            None => Err(()),
        }
    }
}

/// The view of ids that may be missing.
pub open spec fn optional_ids(ids: Option<Vec<Option<u16>>>) -> Option<Seq<Option<u16>>> {
    match ids {
        Some(ids) => Some(ids@),
        None => None,
    }
}

/// What is left of attributes when only those ids are. An error means that the batch cannot be
/// filtered.
pub fn filter_child_batch(
    ids: &IdBitmap,
    parent_ids: Option<Vec<Option<u16>>>,
    child_batch: &ColumnBatch,
) -> (r: Result<Option<ColumnBatch>, ()>)
    requires
        parents_known(optional_ids(parent_ids), *child_batch),
    ensures
        r == child_left(ids@, optional_ids(parent_ids), *child_batch),
        r matches Ok(after) ==> child_filtered(
            ids@,
            optional_ids(parent_ids),
            *child_batch,
            after,
        ),
{
    let ghost given = optional_ids(parent_ids);
    let parents: Vec<Option<u16>> = match parent_ids {
        Some(parent_ids) => parent_ids,
        None => match record_batch_ids(child_batch, "parent_id") {
            Some(parent_ids) => parent_ids,
            None => Vec::new(),
        },
    };
    assert(parents@ == parents_of(given, *child_batch));
    let filter = build_uint16_id_filter(&parents, ids);
    if boolean_true_count(&filter) > 0 {
        match filter_record_batch(child_batch, &filter) {
            Some(after) => Ok(Some(after)),
            None => Err(()),
        }
    } else {
        Ok(None)
    }
}

/// The batches of log records: the records, and the attributes of the records, of their resources
/// and of their scopes.
pub struct LogBatches {
    pub logs: Option<ColumnBatch>,
    pub log_attributes: Option<ColumnBatch>,
    pub resource_attributes: Option<ColumnBatch>,
    pub scope_attributes: Option<ColumnBatch>,
}

/// The ids that attributes belong to, as far as they are at hand in decoded form.
pub struct DecodedParentIds {
    pub log_attributes: Option<Vec<Option<u16>>>,
    pub resource_attributes: Option<Vec<Option<u16>>>,
    pub scope_attributes: Option<Vec<Option<u16>>>,
}

/// The ids that are there.
pub open spec fn present_ids(ids: Option<Seq<Option<u16>>>) -> Set<u32> {
    match ids {
        Some(ids) => Set::new(
            |id: u32|
                exists|i: int|
                    0 <= i < ids.len() && (#[trigger] ids[i] matches Some(known) && known == id),
        ),
        None => Set::empty(),
    }
}

/// Whether `after` is what is left of attributes of the rows that are left. Nothing is, if these
/// have no id.
pub open spec fn attributes_filtered(
    ids: Option<Seq<Option<u16>>>,
    parent_ids: Option<Seq<Option<u16>>>,
    batch: Option<ColumnBatch>,
    after: Option<ColumnBatch>,
) -> bool {
    match batch {
        Some(batch) => if present_ids(ids) == Set::<u32>::empty() {
            after is None
        } else {
            child_filtered(present_ids(ids), parent_ids, batch, after)
        },
        None => after is None,
    }
}

/// What is left of attributes of the rows that are left, or an error if the batch cannot be filtered.
pub open spec fn attributes_left(
    ids: Option<Seq<Option<u16>>>,
    parent_ids: Option<Seq<Option<u16>>>,
    batch: Option<ColumnBatch>,
) -> Result<Option<ColumnBatch>, ()> {
    match batch {
        Some(batch) => if present_ids(ids) == Set::<u32>::empty() {
            Ok(None)
        } else {
            child_left(present_ids(ids), parent_ids, batch)
        },
        None => Ok(None),
    }
}

/// Whether an id is among the first `n`.
spec fn among(ids: Seq<Option<u16>>, n: int, id: u32) -> bool {
    exists|i: int| 0 <= i < n && (#[trigger] ids[i] matches Some(known) && known == id)
}

/// The ids that are there, as a list.
fn list_ids(ids: &Option<Vec<Option<u16>>>) -> (r: Vec<u32>)
    ensures
        r@.to_set() == present_ids(optional_ids(*ids)),
        r@.len() == 0 <==> present_ids(optional_ids(*ids)) == Set::<u32>::empty(),
{
    let mut r: Vec<u32> = Vec::new();
    match ids {
        Some(ids) => {
            let mut i: usize = 0;
            while i < ids.len()
                invariant
                    i <= ids@.len(),
                    forall|k: int| 0 <= k < r@.len() ==> among(ids@, i as int, #[trigger] r@[k]),
                    forall|j: int|
                        0 <= j < i && (#[trigger] ids@[j]) is Some ==> r@.contains(
                            ids@[j]->0 as u32,
                        ),
                decreases ids@.len() - i,
            {
                let ghost before = r@;
                if let Some(id) = ids[i] {
                    r.push(id as u32);
                    assert(r@[before.len() as int] == id as u32);
                }
                proof {
                    assert forall|k: int| 0 <= k < r@.len() implies among(
                        ids@,
                        i + 1,
                        #[trigger] r@[k],
                    ) by {
                        if k < before.len() {
                            assert(among(ids@, i as int, before[k]));
                            let j = choose|j: int|
                                0 <= j < i && (#[trigger] ids@[j] matches Some(known) && known
                                    == before[k]);
                            assert(ids@[j] matches Some(known) && known == r@[k]);
                        } else {
                            assert(ids@[i as int] matches Some(known) && known == r@[k]);
                        }
                    }
                    assert forall|j: int|
                        0 <= j < i + 1 && (#[trigger] ids@[j]) is Some implies r@.contains(
                        ids@[j]->0 as u32,
                    ) by {
                        if j < i {
                            let k = before.index_of(ids@[j]->0 as u32);
                            assert(r@[k] == ids@[j]->0 as u32);
                        }
                    }
                }
                i = i + 1;
            }
            proof {
                let all = present_ids(Some(ids@));
                assert forall|id: u32| r@.to_set().contains(id) == all.contains(id) by {
                    if r@.contains(id) {
                        let k = r@.index_of(id);
                        assert(among(ids@, i as int, r@[k]));
                    }
                }
                assert(r@.to_set() =~= all);
                if r@.len() > 0 {
                    assert(r@.contains(r@[0]));
                    assert(all.contains(r@[0]));
                } else {
                    assert(all =~= Set::<u32>::empty());
                }
            }
        },
        None => {
            assert(r@.to_set() =~= Set::<u32>::empty());
        },
    }
    r
}

/// What is left of attributes of the rows that are left.
fn filter_attributes(
    bitmap: &mut IdBitmap,
    ids: &Option<Vec<Option<u16>>>,
    parent_ids: Option<Vec<Option<u16>>>,
    batch: Option<ColumnBatch>,
) -> (r: Result<Option<ColumnBatch>, ()>)
    requires
        old(bitmap).generation() < u64::MAX,
        batch matches Some(batch) ==> parents_known(optional_ids(parent_ids), batch),
    ensures
        final(bitmap).generation() <= old(bitmap).generation() + 1,
        r == attributes_left(optional_ids(*ids), optional_ids(parent_ids), batch),
        r matches Ok(after) ==> attributes_filtered(
            optional_ids(*ids),
            optional_ids(parent_ids),
            batch,
            after,
        ),
{
    match batch {
        Some(batch) => {
            let list: Vec<u32> = list_ids(ids);
            if list.len() == 0 {
                return Ok(None);
            }
            bitmap.populate(&list);
            filter_child_batch(bitmap, parent_ids, &batch)
        },
        None => Ok(None),
    }
}

/// Whether `after` is what is left of the batches when only the records that the filter marks as
/// true are: all of them if it marks every record, none if it marks none.
pub open spec fn batches_filtered(
    batches: LogBatches,
    parent_ids: DecodedParentIds,
    filter: Seq<Option<bool>>,
    after: LogBatches,
) -> bool {
    let kept = crate::boolean_array::count_entries(filter, true);
    if batches.logs is None || kept == 0 {
        &&& after.logs is None
        &&& after.log_attributes is None
        &&& after.resource_attributes is None
        &&& after.scope_attributes is None
    } else if kept == batch_rows(batches.logs->0) {
        after == batches
    } else {
        &&& after.logs matches Some(logs)
        &&& batch_filtered(batches.logs->0, filter, logs)
        &&& attributes_filtered(
            batch_ids(logs, "id"@),
            optional_ids(parent_ids.log_attributes),
            batches.log_attributes,
            after.log_attributes,
        )
        &&& attributes_filtered(
            batch_inner_ids(logs, "resource"@, "id"@),
            optional_ids(parent_ids.resource_attributes),
            batches.resource_attributes,
            after.resource_attributes,
        )
        &&& attributes_filtered(
            batch_inner_ids(logs, "scope"@, "id"@),
            optional_ids(parent_ids.scope_attributes),
            batches.scope_attributes,
            after.scope_attributes,
        )
    }
}

/// Whether the ids that the attributes belong to are known.
pub open spec fn batches_wf(batches: LogBatches, parent_ids: DecodedParentIds) -> bool {
    &&& batches.log_attributes matches Some(batch) ==> parents_known(
        optional_ids(parent_ids.log_attributes),
        batch,
    )
    &&& batches.resource_attributes matches Some(batch) ==> parents_known(
        optional_ids(parent_ids.resource_attributes),
        batch,
    )
    &&& batches.scope_attributes matches Some(batch) ==> parents_known(
        optional_ids(parent_ids.scope_attributes),
        batch,
    )
}

/// What is left of the batches when only the records that the filter marks as true are, or an error if
/// one of the batches cannot be filtered.
pub open spec fn batches_left(
    batches: LogBatches,
    parent_ids: DecodedParentIds,
    filter: Seq<Option<bool>>,
) -> Result<LogBatches, ()> {
    let kept = crate::boolean_array::count_entries(filter, true);
    if batches.logs is None || kept == 0 {
        Ok(
            LogBatches {
                logs: None,
                log_attributes: None,
                resource_attributes: None,
                scope_attributes: None,
            },
        )
    } else if kept == batch_rows(batches.logs->0) {
        Ok(batches)
    } else {
        match filtered_batch(batches.logs->0, filter) {
            Some(logs) => match (
                attributes_left(
                    batch_ids(logs, "id"@),
                    optional_ids(parent_ids.log_attributes),
                    batches.log_attributes,
                ),
                attributes_left(
                    batch_inner_ids(logs, "resource"@, "id"@),
                    optional_ids(parent_ids.resource_attributes),
                    batches.resource_attributes,
                ),
                attributes_left(
                    batch_inner_ids(logs, "scope"@, "id"@),
                    optional_ids(parent_ids.scope_attributes),
                    batches.scope_attributes,
                ),
            ) {
                (Ok(log_attributes), Ok(resource_attributes), Ok(scope_attributes)) => Ok(
                    LogBatches {
                        logs: Some(logs),
                        log_attributes,
                        resource_attributes,
                        scope_attributes,
                    },
                ),
                _ => Err(()),
            },
            None => Err(()),
        }
    }
}

/// What is left of the batches when only the records that the filter marks as true are. The ids in
/// the batch of records are plain. An error means that a batch cannot be filtered.
pub fn filter_batches(
    batches: LogBatches,
    parent_ids: DecodedParentIds,
    filter: &BooleanArray,
) -> (r: Result<LogBatches, ()>)
    requires
        batches_wf(batches, parent_ids),
        batches.logs matches Some(logs) ==> crate::boolean_array::boolean_values(*filter).len()
            == batch_rows(logs),
    ensures
        r == batches_left(
            batches,
            parent_ids,
            crate::boolean_array::boolean_values(*filter),
        ),
        r matches Ok(after) ==> batches_filtered(
            batches,
            parent_ids,
            crate::boolean_array::boolean_values(*filter),
            after,
        ),
{
    let kept: usize = boolean_true_count(filter);
    let logs: ColumnBatch = match batches.logs {
        Some(logs) => logs,
        None => {
            return Ok(
                LogBatches {
                    logs: None,
                    log_attributes: None,
                    resource_attributes: None,
                    scope_attributes: None,
                },
            );
        },
    };
    if kept == 0 {
        return Ok(
            LogBatches {
                logs: None,
                log_attributes: None,
                resource_attributes: None,
                scope_attributes: None,
            },
        );
    }
    if kept == record_batch_rows(&logs) {
        return Ok(
            LogBatches {
                logs: Some(logs),
                log_attributes: batches.log_attributes,
                resource_attributes: batches.resource_attributes,
                scope_attributes: batches.scope_attributes,
            },
        );
    }
    let filtered: ColumnBatch = match filter_record_batch(&logs, filter) {
        Some(filtered) => filtered,
        None => {
            return Err(());
        },
    };
    let mut bitmap = IdBitmap::new();
    let ids: Option<Vec<Option<u16>>> = record_batch_ids(&filtered, "id");
    let log_attributes: Option<ColumnBatch> = match filter_attributes(
        &mut bitmap,
        &ids,
        parent_ids.log_attributes,
        batches.log_attributes,
    ) {
        Ok(batch) => batch,
        Err(_) => {
            return Err(());
        },
    };
    let resource_ids: Option<Vec<Option<u16>>> = record_batch_inner_ids(
        &filtered,
        "resource",
        "id",
    );
    let resource_attributes: Option<ColumnBatch> = match filter_attributes(
        &mut bitmap,
        &resource_ids,
        parent_ids.resource_attributes,
        batches.resource_attributes,
    ) {
        Ok(batch) => batch,
        Err(_) => {
            return Err(());
        },
    };
    let scope_ids: Option<Vec<Option<u16>>> = record_batch_inner_ids(&filtered, "scope", "id");
    let scope_attributes: Option<ColumnBatch> = match filter_attributes(
        &mut bitmap,
        &scope_ids,
        parent_ids.scope_attributes,
        batches.scope_attributes,
    ) {
        Ok(batch) => batch,
        Err(_) => {
            return Err(());
        },
    };
    Ok(
        LogBatches { logs: Some(filtered), log_attributes, resource_attributes, scope_attributes },
    )
}

/// An attribute stays if and only if the id that it belongs to does.
pub proof fn lemma_attribute_stays(
    column: Seq<Option<u16>>,
    ids: Option<Seq<Option<u16>>>,
    i: int,
)
    requires
        0 <= i < column.len(),
        column[i] is Some,
    ensures
        (id_mask(column, present_ids(ids))[i] == Some(true)) == (ids matches Some(ids)
            && ids.contains(column[i])),
{
    if ids is Some {
        let left = ids->0;
        if left.contains(column[i]) {
            let j = left.index_of(column[i]);
            assert(left[j] matches Some(known) && known == column[i]->0);
        }
        if present_ids(ids).contains(column[i]->0 as u32) {
            let j = choose|j: int|
                0 <= j < left.len() && (#[trigger] left[j] matches Some(known) && known
                    == column[i]->0 as u32);
            assert(left[j] == column[i]);
        }
    }
}

} // verus!
