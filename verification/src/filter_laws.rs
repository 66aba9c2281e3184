//! What filtering the batches of log records leaves of them.

use vstd::prelude::*;

use crate::batches_factory::LogBatchFormat;
use crate::record_batches::{ColumnBatch, DecodedParentIds, LogBatches};

verus! {

/// Whether `rows` are the rows that are wanted, each once and in order.
pub open spec fn picks(rows: Seq<int>, wanted: Seq<bool>) -> bool {
    &&& forall|k: int|
        0 <= k < rows.len() ==> 0 <= #[trigger] rows[k] < wanted.len() && wanted[rows[k]]
    &&& forall|k: int, l: int| 0 <= k < l < rows.len() ==> #[trigger] rows[k] < #[trigger] rows[l]
    &&& forall|i: int| 0 <= i < wanted.len() && #[trigger] wanted[i] ==> rows.contains(i)
}

/// Whether the ids of `after` are those of the rows.
pub open spec fn ids_of_rows(
    before: Option<Seq<Option<u16>>>,
    rows: Seq<int>,
    after: Option<Seq<Option<u16>>>,
) -> bool {
    match (before, after) {
        (Some(before), Some(after)) => {
            &&& after.len() == rows.len()
            &&& forall|k: int| 0 <= k < rows.len() ==> #[trigger] after[k] == before[rows[k]]
        },
        (None, None) => true,
        _ => false,
    }
}

/// Whether `after` consists of those rows of a batch: it has the same fields, and row by row the same
/// entries and ids. Nothing is said of the entries where the batch holds runs or list views.
pub open spec fn has_rows(before: ColumnBatch, rows: Seq<int>, after: ColumnBatch) -> bool {
    &&& crate::record_batches::batch_rows(after) == rows.len()
    &&& crate::record_batches::batch_fields(after) == crate::record_batches::batch_fields(before)
    &&& crate::record_batches::held_directly(before) ==> forall|place: int|
        0 <= place < crate::record_batches::batch_fields(before).len() ==> {
            let entries = #[trigger] crate::record_batches::batch_entries(after, place);
            &&& entries.len() == rows.len()
            &&& forall|k: int|
                0 <= k < rows.len() ==> #[trigger] entries[k]
                    == crate::record_batches::batch_entries(before, place)[rows[k]]
        }
    &&& forall|name: Seq<char>|
        ids_of_rows(
            crate::record_batches::batch_ids(before, name),
            rows,
            #[trigger] crate::record_batches::batch_ids(after, name),
        )
    &&& forall|name: Seq<char>, inner: Seq<char>|
        ids_of_rows(
            crate::record_batches::batch_inner_ids(before, name, inner),
            rows,
            #[trigger] crate::record_batches::batch_inner_ids(after, name, inner),
        )
}

/// Whether a record that the filter marks as true has the id.
pub open spec fn id_stays(
    ids: Option<Seq<Option<u16>>>,
    filter: Seq<Option<bool>>,
    id: Option<u16>,
) -> bool {
    &&& id is Some
    &&& ids is Some
    &&& exists|record: int|
        0 <= record < filter.len() && filter[record] == Some(true) && #[trigger] ids->0[record]
            == id
}

/// The ids that attributes belong to.
pub open spec fn owners(
    decoded: Option<Vec<Option<u16>>>,
    attributes: ColumnBatch,
) -> Seq<Option<u16>> {
    match decoded {
        Some(ids) => ids@,
        None => crate::record_batches::batch_ids(attributes, "parent_id"@)->0,
    }
}

/// For each attribute, whether it belongs to a record that the filter marks as true, by the id that the
/// record has for such attributes.
pub open spec fn belonging(
    ids: Option<Seq<Option<u16>>>,
    filter: Seq<Option<bool>>,
    owners: Seq<Option<u16>>,
) -> Seq<bool> {
    Seq::new(owners.len(), |i: int| id_stays(ids, filter, owners[i]))
}

/// Whether `after` are the attributes that belong to the records that the filter marks as true, and
/// nothing if there are none.
pub open spec fn belonging_left(
    ids: Option<Seq<Option<u16>>>,
    filter: Seq<Option<bool>>,
    decoded: Option<Vec<Option<u16>>>,
    before: Option<ColumnBatch>,
    after: Option<ColumnBatch>,
) -> bool {
    match before {
        None => after is None,
        Some(attributes) => {
            let wanted = belonging(ids, filter, owners(decoded, attributes));
            exists|rows: Seq<int>| #[trigger]
                picks(rows, wanted) && match after {
                    Some(after) => rows.len() > 0 && has_rows(attributes, rows, after),
                    None => rows.len() == 0,
                }
        },
    }
}

/// For each record, whether the filter marks it as true.
pub open spec fn marked(filter: Seq<Option<bool>>) -> Seq<bool> {
    Seq::new(filter.len(), |record: int| filter[record] == Some(true))
}

/// Whether `after` holds the records that the filter marks as true and exactly what belongs to them:
/// their attributes by the ids of the records, those of their resources by the ids of the resources, and
/// those of their scopes by the ids of the scopes. If every record stays, everything does; if none does,
/// nothing.
pub open spec fn left_by(
    batches: LogBatches,
    parent_ids: DecodedParentIds,
    filter: Seq<Option<bool>>,
    after: LogBatches,
) -> bool {
    if batches.logs is None || !marked(filter).contains(true) {
        &&& after.logs is None
        &&& after.log_attributes is None
        &&& after.resource_attributes is None
        &&& after.scope_attributes is None
    } else if !marked(filter).contains(false) {
        after == batches
    } else {
        let logs = batches.logs->0;
        &&& exists|rows: Seq<int>| #[trigger]
            picks(rows, marked(filter)) && after.logs is Some && has_rows(
                logs,
                rows,
                after.logs->0,
            )
        &&& belonging_left(
            crate::record_batches::batch_ids(logs, "id"@),
            filter,
            parent_ids.log_attributes,
            batches.log_attributes,
            after.log_attributes,
        )
        &&& belonging_left(
            crate::record_batches::batch_inner_ids(logs, "resource"@, "id"@),
            filter,
            parent_ids.resource_attributes,
            batches.resource_attributes,
            after.resource_attributes,
        )
        &&& belonging_left(
            crate::record_batches::batch_inner_ids(logs, "scope"@, "id"@),
            filter,
            parent_ids.scope_attributes,
            batches.scope_attributes,
            after.scope_attributes,
        )
    }
}

/// The rows that a mask marks as true.
spec fn true_rows(mask: Seq<Option<bool>>) -> Seq<int>
    decreases mask.len(),
{
    if mask.len() == 0 {
        Seq::empty()
    } else if mask.last() == Some(true) {
        true_rows(mask.drop_last()).push(mask.len() - 1)
    } else {
        true_rows(mask.drop_last())
    }
}

proof fn lemma_true_rows(mask: Seq<Option<bool>>)
    ensures
        picks(true_rows(mask), marked(mask)),
        true_rows(mask).len() == crate::boolean_array::count_entries(mask, true),
    decreases mask.len(),
{
    if mask.len() > 0 {
        let shorter = mask.drop_last();
        lemma_true_rows(shorter);
        let rows = true_rows(mask);
        let known = true_rows(shorter);
        assert forall|k: int| 0 <= k < rows.len() implies 0 <= #[trigger] rows[k] < mask.len()
            && marked(mask)[rows[k]] by {
            if k < known.len() {
                assert(rows[k] == known[k]);
                assert(marked(shorter)[known[k]]);
            }
        }
        assert forall|k: int, l: int| 0 <= k < l < rows.len() implies #[trigger] rows[k]
            < #[trigger] rows[l] by {
            assert(rows[k] == known[k]);
            if l < known.len() {
                assert(rows[l] == known[l]);
            }
        }
        assert forall|i: int| 0 <= i < mask.len() && #[trigger] marked(mask)[i] implies rows.contains(
            i,
        ) by {
            if i < mask.len() - 1 {
                assert(marked(shorter)[i]);
                let k = known.index_of(i);
                assert(rows[k] == i);
            } else {
                assert(rows[known.len() as int] == i);
            }
        }
    }
}

proof fn lemma_masked_rows<T>(entries: Seq<T>, mask: Seq<Option<bool>>)
    ensures
        crate::record_batches::masked(entries, mask).len() == true_rows(mask).len(),
        forall|k: int|
            0 <= k < true_rows(mask).len() ==> #[trigger] crate::record_batches::masked(
                entries,
                mask,
            )[k] == entries[true_rows(mask)[k]],
    decreases mask.len(),
{
    if mask.len() > 0 {
        lemma_masked_rows(entries, mask.drop_last());
    }
}

/// A batch that was filtered consists of the rows that the mask marks as true.
pub proof fn lemma_filtered_rows(
    batch: ColumnBatch,
    mask: Seq<Option<bool>>,
    after: ColumnBatch,
)
    requires
        crate::record_batches::batch_filtered(batch, mask, after),
    ensures
        exists|rows: Seq<int>| #[trigger] picks(rows, marked(mask)) && has_rows(batch, rows, after),
{
    let rows = true_rows(mask);
    lemma_true_rows(mask);
    assert(has_rows(batch, rows, after)) by {
        if crate::record_batches::held_directly(batch) {
            assert forall|place: int|
                0 <= place < crate::record_batches::batch_fields(batch).len() implies {
                let entries = #[trigger] crate::record_batches::batch_entries(after, place);
                &&& entries.len() == rows.len()
                &&& forall|k: int|
                    0 <= k < rows.len() ==> #[trigger] entries[k]
                        == crate::record_batches::batch_entries(batch, place)[rows[k]]
            } by {
                lemma_masked_rows(crate::record_batches::batch_entries(batch, place), mask);
            }
        }
        assert forall|name: Seq<char>|
            ids_of_rows(
                crate::record_batches::batch_ids(batch, name),
                rows,
                #[trigger] crate::record_batches::batch_ids(after, name),
            ) by {
            if crate::record_batches::batch_ids(batch, name) is Some {
                lemma_masked_rows(crate::record_batches::batch_ids(batch, name)->0, mask);
            }
        }
        assert forall|name: Seq<char>, inner: Seq<char>|
            ids_of_rows(
                crate::record_batches::batch_inner_ids(batch, name, inner),
                rows,
                #[trigger] crate::record_batches::batch_inner_ids(after, name, inner),
            ) by {
            if crate::record_batches::batch_inner_ids(batch, name, inner) is Some {
                lemma_masked_rows(
                    crate::record_batches::batch_inner_ids(batch, name, inner)->0,
                    mask,
                );
            }
        }
    }
}

/// The ids of the rows that stay are those that some record that stays has.
proof fn lemma_present(ids: Seq<Option<u16>>, filter: Seq<Option<bool>>, id: u16)
    ensures
        crate::record_batches::present_ids(
            Some(crate::record_batches::masked(ids, filter)),
        ).contains(id as u32) == id_stays(Some(ids), filter, Some(id)),
{
    let left = crate::record_batches::masked(ids, filter);
    let rows = true_rows(filter);
    lemma_true_rows(filter);
    lemma_masked_rows(ids, filter);
    let present = crate::record_batches::present_ids(Some(left));
    if present.contains(id as u32) {
        let k = choose|k: int|
            0 <= k < left.len() && (#[trigger] left[k] matches Some(known) && known == id as u32);
        assert(left[k] == ids[rows[k]]);
        assert(marked(filter)[rows[k]]);
        let record = rows[k];
        assert(0 <= record < marked(filter).len());
        assert(filter[record] == Some(true));
        assert(ids[record] == Some(id));
        let all = Some(ids);
        let wanted = Some(id);
        assert(all->0[record] == wanted);
        assert(id_stays(all, filter, wanted));
    }
    if id_stays(Some(ids), filter, Some(id)) {
        let record = choose|record: int|
            0 <= record < filter.len() && filter[record] == Some(true) && #[trigger] ids[record]
                == Some(id);
        assert(marked(filter)[record]);
        let k = rows.index_of(record);
        assert(left[k] == Some(id));
        assert(left[k] matches Some(known) && known == id as u32);
        assert(present.contains(id as u32));
    }
}

proof fn lemma_attributes_left(
    ids: Option<Seq<Option<u16>>>,
    left: Option<Seq<Option<u16>>>,
    filter: Seq<Option<bool>>,
    decoded: Option<Vec<Option<u16>>>,
    before: Option<ColumnBatch>,
    after: Option<ColumnBatch>,
)
    requires
        left == (match ids {
            Some(ids) => Some(crate::record_batches::masked(ids, filter)),
            None => None,
        }),
        crate::record_batches::attributes_filtered(
            left,
            crate::record_batches::optional_ids(decoded),
            before,
            after,
        ),
    ensures
        belonging_left(ids, filter, decoded, before, after),
{
    if let Some(attributes) = before {
        let parents = owners(decoded, attributes);
        let wanted = belonging(ids, filter, parents);
        let present = crate::record_batches::present_ids(left);
        let mask = crate::record_batches::id_mask(parents, present);
        let rows = true_rows(mask);
        lemma_true_rows(mask);
        assert forall|i: int| 0 <= i < parents.len() implies marked(mask)[i] == #[trigger] wanted[i] by {
            match (parents[i], ids) {
                (Some(id), Some(ids)) => {
                    lemma_present(ids, filter, id);
                },
                _ => {},
            }
        }
        assert(marked(mask) =~= wanted);
        if present == Set::<u32>::empty() {
            assert forall|i: int| 0 <= i < parents.len() implies !#[trigger] wanted[i] by {
                assert(marked(mask)[i] == wanted[i]);
            }
            if rows.len() > 0 {
                assert(wanted[rows[0]]);
            }
        } else if rows.len() > 0 {
            lemma_filtered_rows(attributes, mask, after->0);
            let found = choose|found: Seq<int>| #[trigger]
                picks(found, marked(mask)) && has_rows(attributes, found, after->0);
            assert(picks(found, wanted));
        }
    }
}

/// Filtering batches by a predicate leaves the records that it marks as true, and exactly those
/// attributes of records, of resources and of scopes that belong to them.
pub proof fn lemma_filter_leaves_what_belongs(
    batches: LogBatches,
    parent_ids: DecodedParentIds,
    filter: Seq<Option<bool>>,
    after: LogBatches,
)
    requires
        batches.logs matches Some(logs) ==> filter.len() == crate::record_batches::batch_rows(logs),
        crate::record_batches::batches_filtered(batches, parent_ids, filter, after),
    ensures
        left_by(batches, parent_ids, filter, after),
{
    let rows = true_rows(filter);
    lemma_true_rows(filter);
    crate::boolean_array::lemma_count_all(filter, true);
    if marked(filter).contains(true) {
        let record = marked(filter).index_of(true);
        assert(marked(filter)[record]);
        assert(rows.contains(record));
    } else if rows.len() > 0 {
        assert(marked(filter)[rows[0]]);
        assert(marked(filter).contains(true));
    }
    if marked(filter).contains(false) {
        let record = marked(filter).index_of(false);
        assert(filter[record] != Some(true));
    } else {
        assert forall|i: int| 0 <= i < filter.len() implies #[trigger] filter[i] == Some(true) by {
            assert(marked(filter)[i] == (filter[i] == Some(true)));
            if filter[i] != Some(true) {
                assert(marked(filter).contains(false));
            }
        }
    }
    if batches.logs is Some && marked(filter).contains(true) && marked(filter).contains(false) {
        let logs = batches.logs->0;
        let left = after.logs->0;
        lemma_filtered_rows(logs, filter, left);
        lemma_attributes_left(
            crate::record_batches::batch_ids(logs, "id"@),
            crate::record_batches::batch_ids(left, "id"@),
            filter,
            parent_ids.log_attributes,
            batches.log_attributes,
            after.log_attributes,
        );
        lemma_attributes_left(
            crate::record_batches::batch_inner_ids(logs, "resource"@, "id"@),
            crate::record_batches::batch_inner_ids(left, "resource"@, "id"@),
            filter,
            parent_ids.resource_attributes,
            batches.resource_attributes,
            after.resource_attributes,
        );
        lemma_attributes_left(
            crate::record_batches::batch_inner_ids(logs, "scope"@, "id"@),
            crate::record_batches::batch_inner_ids(left, "scope"@, "id"@),
            filter,
            parent_ids.scope_attributes,
            batches.scope_attributes,
            after.scope_attributes,
        );
    }
}

proof fn lemma_count_none(filter: Seq<Option<bool>>)
    ensures
        crate::boolean_array::count_entries(filter, true) == 0 <==> (forall|i: int|
            0 <= i < filter.len() ==> #[trigger] filter[i] != Some(true)),
    decreases filter.len(),
{
    if filter.len() > 0 {
        let fewer = filter.drop_last();
        lemma_count_none(fewer);
        if crate::boolean_array::count_entries(filter, true) == 0 {
            assert forall|i: int| 0 <= i < filter.len() implies #[trigger] filter[i] != Some(
                true,
            ) by {
                if i < fewer.len() {
                    assert(fewer[i] != Some(true));
                }
            }
        }
        if forall|i: int| 0 <= i < filter.len() ==> #[trigger] filter[i] != Some(true) {
            assert(forall|i: int| 0 <= i < fewer.len() ==> fewer[i] == filter[i]);
            assert(filter[filter.len() - 1] != Some(true));
        }
    }
}

/// Whether `after` is what a filter leaves once the ids have been decoded, unless the batches cannot be
/// filtered.
pub open spec fn left_decoded<S: LogBatchFormat>(
    format: &S,
    batches: LogBatches,
    filter: Seq<Option<bool>>,
    after: LogBatches,
) -> bool {
    exists|decoded: LogBatches, parent_ids: DecodedParentIds| #[trigger]
        crate::batches_factory::decodes(format, batches, decoded, parent_ids) && (left_by(
            decoded,
            parent_ids,
            filter,
            after,
        ) || (!crate::batches_factory::filterable(decoded, parent_ids, filter) && call_ensures(
            S::refuse,
            (format,),
            after,
        )))
}

/// A filter that is true of every record leaves the batches as they are, one that is true of none leaves
/// nothing, and any other leaves those records that it is true of and what belongs to them.
pub proof fn lemma_filter_decides<S: LogBatchFormat>(
    format: &S,
    batches: LogBatches,
    filter: Seq<Option<bool>>,
    after: LogBatches,
)
    requires
        crate::batches_factory::leaves(format, batches, filter, after),
        batches.logs matches Some(logs) && filter.len() == crate::record_batches::batch_rows(logs),
    ensures
        (forall|i: int| 0 <= i < filter.len() ==> #[trigger] filter[i] == Some(true))
            && filter.len() > 0 ==> after == batches,
        (forall|i: int| 0 <= i < filter.len() ==> #[trigger] filter[i] != Some(true))
            ==> after.logs is None && after.log_attributes is None
            && after.resource_attributes is None && after.scope_attributes is None,
        (exists|i: int| 0 <= i < filter.len() && #[trigger] filter[i] == Some(true)) && (exists|
            i: int,
        |
            0 <= i < filter.len() && #[trigger] filter[i] != Some(true)) ==> left_decoded(
            format,
            batches,
            filter,
            after,
        ),
{
    lemma_count_none(filter);
    crate::boolean_array::lemma_count_all(filter, true);
    if (exists|i: int| 0 <= i < filter.len() && #[trigger] filter[i] == Some(true)) && (exists|
        i: int,
    |
        0 <= i < filter.len() && #[trigger] filter[i] != Some(true)) {
        let (decoded, parent_ids) = choose|decoded: LogBatches, parent_ids: DecodedParentIds|
            #[trigger] crate::batches_factory::decodes(format, batches, decoded, parent_ids)
                && if crate::batches_factory::filterable(decoded, parent_ids, filter) {
                left_by(decoded, parent_ids, filter, after)
            } else {
                call_ensures(S::refuse, (format,), after)
            };
        assert(crate::batches_factory::decodes(format, batches, decoded, parent_ids));
    }
}

}
