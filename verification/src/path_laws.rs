//! What reading along a path gives back of what was written at its end.

use roaring::RoaringBitmap;
use vstd::prelude::*;

use crate::columnar_records::ColumnarEngineSelectionPath;
use crate::dictionary::Dictionary;
use crate::engine_diagnostic::ColumnarEngineDiagnostic;
use crate::path_update::Step;
use crate::selection::Outcome;
use crate::value::{ArrayForm, ArrayValueOrRef, ValueOrRef};

verus! {

/// The selectors of steps.
pub open spec fn selectors(steps: Seq<Step>) -> Seq<ValueOrRef> {
    Seq::new(steps.len(), |k: int| steps[k].1)
}

/// The place in a list that an index means; a negative one counts from the end.
pub open spec fn list_place(index: i64, length: nat) -> int {
    if index < 0 {
        length + index
    } else {
        index as int
    }
}

/// Whether a value can be written into a value by a selector: it is a map that is owned and the selector
/// a key, or a list that is owned and the selector the index of an element.
pub open spec fn takes(value: ValueOrRef, selector: ValueOrRef) -> bool {
    match (value, selector) {
        (ValueOrRef::MapValue(map), ValueOrRef::String(_)) => map.owned,
        (
            ValueOrRef::Array(ArrayValueOrRef::List(ArrayForm::Owned, list)),
            ValueOrRef::Integer(index),
        ) => 0 <= list_place(index, list@.len()) < list@.len(),
        _ => false,
    }
}

/// What a selector leads to in a map or a list that is owned.
pub open spec fn inside(value: ValueOrRef, selector: ValueOrRef) -> Option<ValueOrRef> {
    match (value, selector) {
        (ValueOrRef::MapValue(map), ValueOrRef::String(key)) => if map.owned
            && map.map.contents().contains_key(key@) {
            Some(map.map.contents()[key@])
        } else {
            None
        },
        (
            ValueOrRef::Array(ArrayValueOrRef::List(ArrayForm::Owned, list)),
            ValueOrRef::Integer(index),
        ) => if 0 <= list_place(index, list@.len()) < list@.len() {
            Some(list@[list_place(index, list@.len())])
        } else {
            None
        },
        _ => None,
    }
}

/// What a path leads to in a value.
pub open spec fn followed(value: ValueOrRef, path: Seq<ValueOrRef>) -> Option<ValueOrRef>
    decreases path.len(),
{
    if path.len() == 0 {
        Some(value)
    } else {
        match inside(value, path[0]) {
            Some(found) => followed(found, path.drop_first()),
            None => None,
        }
    }
}

/// Whether there is a place for a value at the end of a path: all steps but the last lead somewhere, and
/// what they lead to takes the last.
pub open spec fn leads(value: ValueOrRef, path: Seq<ValueOrRef>) -> bool {
    &&& path.len() > 0
    &&& followed(value, path.drop_last()) matches Some(found) && takes(found, path.last())
}

/// Whether two selectors lead to one place in a value.
pub open spec fn one_place(value: ValueOrRef, left: ValueOrRef, right: ValueOrRef) -> bool {
    match (left, right) {
        (ValueOrRef::String(left), ValueOrRef::String(right)) => left@ == right@,
        (ValueOrRef::Integer(left), ValueOrRef::Integer(right)) => match value {
            ValueOrRef::Array(ArrayValueOrRef::List(_, list)) => list_place(left, list@.len())
                == list_place(right, list@.len()),
            _ => left == right,
        },
        _ => false,
    }
}

/// Whether a path leaves another at some step.
pub open spec fn apart(value: ValueOrRef, path: Seq<ValueOrRef>, other: Seq<ValueOrRef>) -> bool
    decreases path.len(),
{
    if path.len() == 0 || other.len() == 0 {
        false
    } else if one_place(value, path[0], other[0]) {
        match inside(value, path[0]) {
            Some(found) => apart(found, path.drop_first(), other.drop_first()),
            None => false,
        }
    } else {
        true
    }
}

/// What comes of following a path is told step by step.
proof fn lemma_leads_further(value: ValueOrRef, path: Seq<ValueOrRef>)
    requires
        path.len() > 1,
    ensures
        leads(value, path) == (inside(value, path[0]) matches Some(found) && leads(
            found,
            path.drop_first(),
        )),
{
    assert(path.drop_last().drop_first() =~= path.drop_first().drop_last());
    assert(path.drop_last()[0] == path[0]);
    assert(path.drop_first().last() == path.last());
}

/// Whether two paths lead to the same, or to maps or lists that are told apart no further.
pub open spec fn unchanged(before: Option<ValueOrRef>, after: Option<ValueOrRef>) -> bool {
    ||| before == after
    ||| match (before, after) {
        (Some(before), Some(after)) => before is MapValue && after is MapValue || before is Array
            && after is Array,
        _ => false,
    }
}

/// A write changes a value in one place.
proof fn lemma_one_step(
    before: ValueOrRef,
    steps: Seq<Step>,
    value: ValueOrRef,
    outcome: Outcome,
    selector: ValueOrRef,
)
    requires
        steps.len() > 0,
        crate::path_update::value_updated(before, steps, value, outcome),
    ensures
        !one_place(before, steps[0].1, selector) ==> inside(outcome.0, selector) == inside(
            before,
            selector,
        ),
        one_place(before, steps[0].1, selector) ==> inside(outcome.0, selector) == inside(
            outcome.0,
            steps[0].1,
        ) && inside(before, selector) == inside(before, steps[0].1),
{
    match (steps[0].1, before) {
        (
            ValueOrRef::Integer(index),
            ValueOrRef::Array(ArrayValueOrRef::List(ArrayForm::Owned, list)),
        ) => {
            let place = list_place(index, list@.len());
            assert(place == crate::selection::array_position(index, list@.len()));
            let after = match outcome.0 {
                ValueOrRef::Array(ArrayValueOrRef::List(_, after)) => after@,
                _ => Seq::empty(),
            };
            assert(after.len() == list@.len());
            assert forall|i: int| 0 <= i < list@.len() && i != place implies #[trigger] after[i]
                == list@[i] by {}
        },
        _ => {},
    }
}

/// What has been written at the end of a path is what following the path leads to, and following the
/// path and then further leads where it leads from the value that was written. Null that has been written
/// under a key takes the entry away. Every path that leaves that path leads where it did. If there is no
/// place at the end of the path, every path leads to the value that it did.
pub proof fn lemma_written_path_reads_back(
    before: ValueOrRef,
    steps: Seq<Step>,
    value: ValueOrRef,
    outcome: Outcome,
    other: Seq<ValueOrRef>,
    further: Seq<ValueOrRef>,
)
    requires
        steps.len() > 0,
        crate::path_update::value_updated(before, steps, value, outcome),
    ensures
        leads(before, selectors(steps)) ==> {
            &&& outcome.1 is None
            &&& followed(outcome.0, selectors(steps) + further) == (if value is Null
                && steps.last().1 is String {
                None
            } else {
                followed(value, further)
            })
        },
        apart(before, selectors(steps), other) ==> followed(outcome.0, other) == followed(
            before,
            other,
        ),
        !leads(before, selectors(steps)) ==> unchanged(
            followed(before, other),
            followed(outcome.0, other),
        ),
    decreases steps.len(),
{
    let path = selectors(steps);
    let rest = steps.drop_first();
    assert(selectors(rest) =~= path.drop_first());
    assert((path + further)[0] == path[0]);
    assert((path + further).drop_first() =~= path.drop_first() + further);
    if other.len() > 0 {
        lemma_one_step(before, steps, value, outcome, other[0]);
    }
    if steps.len() > 1 {
        lemma_leads_further(before, path);
        assert(rest.last() == steps.last());
        match inside(before, path[0]) {
            Some(found) => {
                let after = inside(outcome.0, path[0]);
                if after is Some && crate::path_update::value_updated(
                    found,
                    rest,
                    value,
                    (after->0, outcome.1),
                ) {
                    lemma_written_path_reads_back(
                        found,
                        rest,
                        value,
                        (after->0, outcome.1),
                        other.drop_first(),
                        further,
                    );
                }
            },
            None => {},
        }
    } else {
        reveal_with_fuel(apart, 2);
        assert(path.drop_last() =~= Seq::<ValueOrRef>::empty());
        assert(path.drop_first() + further =~= further);
    }
}

/// The key or index that a part of a path means for a record.
pub open spec fn selector_of(part: ColumnarEngineSelectionPath, record: int) -> ValueOrRef {
    match part {
        ColumnarEngineSelectionPath::Key { key, .. } => ValueOrRef::String(key),
        ColumnarEngineSelectionPath::Index { index, .. } => ValueOrRef::Integer(index),
        ColumnarEngineSelectionPath::Dictionary { values, .. } => values.rows()[record],
    }
}

/// The keys and indexes that a path, from `depth` on, means for a record.
pub open spec fn path_of(
    path: Seq<ColumnarEngineSelectionPath>,
    depth: int,
    record: int,
) -> Seq<ValueOrRef> {
    Seq::new((path.len() - depth) as nat, |k: int| selector_of(path[depth + k], record))
}

/// Whether each record has a key or an index in each part of a path.
pub open spec fn path_covers(path: Seq<ColumnarEngineSelectionPath>, count: nat) -> bool {
    forall|k: int|
        0 <= k < path.len() ==> (#[trigger] path[k] matches ColumnarEngineSelectionPath::Dictionary {
            values,
            ..
        } ==> values.rows().len() == count)
}

/// Whether a filter lets a record through: there is none, or the record is among its own.
pub open spec fn let_through(key_filter: Option<&RoaringBitmap>, record: int) -> bool {
    match key_filter {
        Some(filter) => exists|k: int|
            0 <= k < crate::row_bitmap::bitmap_values(*filter).len()
                && #[trigger] crate::row_bitmap::bitmap_values(*filter)[k] == record,
        None => true,
    }
}

/// Whether following a path in `after` tells that `value` has been written there and nowhere else in
/// `before`.
pub open spec fn reads_written(
    before: ValueOrRef,
    path: Seq<ValueOrRef>,
    value: ValueOrRef,
    after: ValueOrRef,
    other: Seq<ValueOrRef>,
    further: Seq<ValueOrRef>,
) -> bool {
    if leads(before, path) {
        &&& followed(after, path + further) == (if value is Null && path.last() is String {
            None
        } else {
            followed(value, further)
        })
        &&& apart(before, path, other) ==> followed(after, other) == followed(before, other)
    } else {
        unchanged(followed(before, other), followed(after, other))
    }
}

/// Whether `after` is `before` with `value` written at the end of a path.
pub open spec fn written_at(
    before: ValueOrRef,
    path: Seq<ValueOrRef>,
    value: ValueOrRef,
    after: ValueOrRef,
) -> bool {
    forall|other: Seq<ValueOrRef>, further: Seq<ValueOrRef>| #[trigger]
        reads_written(before, path, value, after, other, further)
}

/// Whether a column may hold one value for two.
pub open spec fn share(left: ValueOrRef, right: ValueOrRef) -> bool {
    exists|kept: ValueOrRef|
        #[trigger] crate::scalar_laws::stands_for(kept, left) && crate::scalar_laws::stands_for(
            kept,
            right,
        )
}

/// Whether what a record has after a write is what the write made of the value of `donor`, a record
/// that is written to, has the same value and starts with the same key or index.
pub open spec fn made_for(
    source: Dictionary,
    key_filter: Option<&RoaringBitmap>,
    path: Seq<ColumnarEngineSelectionPath>,
    depth: int,
    values: Dictionary,
    after: Dictionary,
    record: int,
    donor: int,
    before: ValueOrRef,
    made: ValueOrRef,
) -> bool {
    &&& 0 <= donor <= record
    &&& let_through(key_filter, donor)
    &&& !(source.rows()[donor] is Null)
    &&& share(source.rows()[donor], source.rows()[record])
    &&& donor == record || share(
        selector_of(path[depth], donor),
        selector_of(path[depth], record),
    )
    &&& crate::scalar_laws::stands_for(before, source.rows()[donor])
    &&& written_at(before, path_of(path, depth, donor), values.rows()[donor], made)
    &&& crate::scalar_laws::stands_for(after.rows()[record], made)
}

/// A filter lets through the records that it holds.
pub proof fn lemma_selected(key_filter: Option<&RoaringBitmap>, record: int)
    requires
        0 <= record,
    ensures
        Dictionary::selected(key_filter, record) == let_through(key_filter, record),
{
    if let Some(filter) = key_filter {
        let rows = crate::row_bitmap::bitmap_values(*filter);
        if Dictionary::selected(key_filter, record) {
            let k = choose|k: int| 0 <= k < rows.len() && #[trigger] rows[k] == record as u32;
            assert(rows[k] == record);
        }
        if let_through(key_filter, record) {
            let k = choose|k: int| 0 <= k < rows.len() && #[trigger] rows[k] == record;
            assert(rows[k] == record as u32);
        }
    }
}

proof fn lemma_share(left: ValueOrRef, right: ValueOrRef)
    requires
        crate::path_update::alike(left, right),
    ensures
        share(left, right),
{
    let kept = choose|kept: ValueOrRef|
        #[trigger] crate::dictionary::held_for(kept, left) && crate::dictionary::held_for(
            kept,
            right,
        );
    assert(crate::scalar_laws::stands_for(kept, left));
}

proof fn lemma_written_at(
    before: ValueOrRef,
    steps: Seq<Step>,
    value: ValueOrRef,
    outcome: Outcome,
)
    requires
        steps.len() > 0,
        crate::path_update::value_updated(before, steps, value, outcome),
    ensures
        written_at(before, selectors(steps), value, outcome.0),
{
    assert forall|other: Seq<ValueOrRef>, further: Seq<ValueOrRef>| #[trigger]
        reads_written(before, selectors(steps), value, outcome.0, other, further) by {
        lemma_written_path_reads_back(before, steps, value, outcome, other, further);
    }
}

/// A write into the values of a column leaves the records that the filter holds back, and those without
/// a value, as they are. Every other record has its value with what was written for it at the end of the
/// path; records that share their value, and the key or index that the path starts with, share what was
/// made for the first of them.
pub proof fn lemma_column_written_inside(
    source: Dictionary,
    key_filter: Option<&RoaringBitmap>,
    path: Seq<ColumnarEngineSelectionPath>,
    depth: int,
    values: Dictionary,
    after: Dictionary,
    added: Seq<ColumnarEngineDiagnostic>,
    record: int,
)
    requires
        crate::path_update::written_inside(source, key_filter, path, depth, values, after, added),
        0 <= depth < path.len(),
        0 <= record < source.rows().len(),
        source.rows().len() <= usize::MAX,
        values.rows().len() == source.rows().len(),
        path_covers(path, source.rows().len()),
    ensures
        after.rows().len() == source.rows().len(),
        !let_through(key_filter, record) || source.rows()[record] is Null
            ==> crate::scalar_laws::stands_for(after.rows()[record], source.rows()[record]),
        let_through(key_filter, record) && !(source.rows()[record] is Null) ==> exists|
            donor: int,
            before: ValueOrRef,
            made: ValueOrRef,
        | #[trigger]
            made_for(
                source,
                key_filter,
                path,
                depth,
                values,
                after,
                record,
                donor,
                before,
                made,
            ),
{
    let request = crate::path_update::PathRequest { source, path, depth, values };
    let calls = choose|calls: crate::path_update::PathCalls| #[trigger]
        calls.answer(request, key_filter) && crate::path_update::laid_out(
            calls,
            request,
            key_filter,
            after,
        ) && forall|i: int|
            0 <= i < source.rows().len() ==> calls.row(
                request,
                key_filter,
                i,
                #[trigger] after.rows()[i],
            );
    assert(after.keys.positions().len() == source.rows().len());
    lemma_selected(key_filter, record);
    assert(calls.row(request, key_filter, record, after.rows()[record]));
    if request.changes(key_filter, record) {
        let k = choose|k: int|
            0 <= k < calls.records.len() && #[trigger] request.serves(calls.records[k], record)
                && crate::dictionary::held_for(after.rows()[record], calls.outcomes[k].0);
        let donor = calls.records[k];
        let outcome = calls.outcomes[k];
        assert(request.changes(key_filter, donor) && request.makes(donor, outcome));
        lemma_selected(key_filter, donor);
        let steps = crate::path_update::steps_for(path, depth, donor as usize);
        let before = choose|before: ValueOrRef|
            #[trigger] crate::dictionary::held_for(before, source.rows()[donor])
                && crate::path_update::value_updated(
                before,
                steps,
                values.row_for(donor as usize),
                outcome,
            );
        assert(values.row_for(donor as usize) == values.rows()[donor]);
        lemma_written_at(before, steps, values.rows()[donor], outcome);
        assert forall|part: int| 0 <= part < path.len() && 0 <= donor < source.rows().len() implies
            crate::path_update::step_for(#[trigger] path[part], donor as usize).1 == selector_of(
            path[part],
            donor,
        ) by {}
        assert(selectors(steps) =~= path_of(path, depth, donor));
        lemma_share(source.rows()[donor], source.rows()[record]);
        if donor != record {
            lemma_share(request.selector(donor), request.selector(record));
            assert(path[depth] == path[depth]);
        }
        assert(made_for(
            source,
            key_filter,
            path,
            depth,
            values,
            after,
            record,
            donor,
            before,
            outcome.0,
        ));
    }
}

} // verus!
