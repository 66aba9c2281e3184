//! Columns that are filled row by row, each value kept once.

use vstd::prelude::*;

use crate::attribute_columns::DictionaryColumn;
use crate::collections::{
    value_set_get_index, value_set_len, value_set_new, ValueOrRefSet,
};
use crate::interning::insert_value;
use crate::nullable_column::NullableColumn;
use crate::value::ValueOrRef;

verus! {

/// A column of dictionary encoded values that is being filled.
pub struct ValueColumn {
    pub column: NullableColumn<u16>,
    pub values: ValueOrRefSet,
}

impl ValueColumn {
    /// The values that the keys lead to.
    pub open spec fn kept(&self) -> Seq<ValueOrRef> {
        crate::collections::set_values(self.values)
    }

    /// Whether the column has `count` rows, of which those before `position` are filled, and no value is
    /// there twice.
    pub open spec fn wf(&self, count: nat, position: int) -> bool {
        &&& self.column.wf()
        &&& self.column.spec_len() == count
        &&& forall|i: int|
            0 <= i < position && #[trigger] self.column.valid(i) ==> self.column.cells@[i]
                < self.kept().len()
        &&& self.column.open_from(position)
        &&& forall|k: int| 0 <= k < self.kept().len() ==> !(#[trigger] self.kept()[k] is Null)
        &&& crate::interning::all_distinct(self.kept())
    }

    /// What row `i` holds.
    pub open spec fn read(&self, i: int) -> Option<ValueOrRef> {
        match self.column.cell(i) {
            Some(key) => Some(self.kept()[key as int]),
            None => None,
        }
    }

    /// The filled column.
    pub fn finish(self) -> (r: DictionaryColumn)
        ensures
            r.keys == self.column,
            r.values@ == self.kept(),
    {
        let values: Vec<ValueOrRef> = set_to_vec(&self.values);
        DictionaryColumn { keys: self.column, values }
    }
}

/// The values of a set, in order.
pub fn set_to_vec(set: &ValueOrRefSet) -> (r: Vec<ValueOrRef>)
    ensures
        r@ == crate::collections::set_values(*set),
{
    let mut r: Vec<ValueOrRef> = Vec::new();
    let count: usize = value_set_len(set);
    let mut i: usize = 0;
    while i < count
        invariant
            i <= count,
            count == crate::collections::set_values(*set).len(),
            r@ == crate::collections::set_values(*set).subrange(0, i as int),
        decreases count - i,
    {
        let ghost shorter = r@;
        match value_set_get_index(set, i) {
            Some(value) => {
                r.push(value.clone());
            },
            None => {},
        }
        i = i + 1;
        proof {
            let all = crate::collections::set_values(*set);
            assert(all.subrange(0, i as int) =~= shorter.push(all[i - 1]));
        }
    }
    proof {
        let all = crate::collections::set_values(*set);
        assert(all.subrange(0, i as int) =~= all);
    }
    r
}

/// Whether a column that may be missing is well formed.
pub open spec fn slot_wf(slot: Option<ValueColumn>, count: nat, position: int) -> bool {
    slot matches Some(column) ==> column.wf(count, position)
}

/// What row `i` of a column that may be missing holds.
pub open spec fn slot_read(slot: Option<ValueColumn>, i: int) -> Option<ValueOrRef> {
    match slot {
        Some(column) => column.read(i),
        None => None,
    }
}

/// Whether a column that may be missing is well formed.
pub open spec fn plain_wf<T: Copy>(
    slot: Option<NullableColumn<T>>,
    count: nat,
    position: int,
) -> bool {
    slot matches Some(column) ==> column.wf() && column.spec_len() == count && column.open_from(
        position,
    )
}

/// The values that the keys of a column that may be missing lead to.
pub open spec fn slot_kept(slot: Option<ValueColumn>) -> Seq<ValueOrRef> {
    match slot {
        Some(column) => column.kept(),
        None => Seq::empty(),
    }
}

/// The key of row `i` of a column that may be missing.
pub open spec fn slot_key(slot: Option<ValueColumn>, i: int) -> Option<u16> {
    match slot {
        Some(column) => column.column.cell(i),
        None => None,
    }
}

/// Whether the rows `start..end` of a column have been filled with a value, or with null if there is
/// none, and the rows before them have kept what they held. A value that is not there yet comes behind
/// the others.
///
/// A value makes the column, if it is missing; the rows before hold nothing in it. A key is written as
/// two bytes, so a row is only sure to hold its value while there are no more of them than such keys.
pub open spec fn slot_filled(
    before: Option<ValueColumn>,
    after: Option<ValueColumn>,
    start: int,
    end: int,
    content: Option<ValueOrRef>,
) -> bool {
    &&& after is Some == (before is Some || content is Some)
    &&& forall|i: int|
        0 <= i < start ==> #[trigger] slot_read(after, i) == slot_read(before, i)
    &&& content is None ==> forall|i: int|
        start <= i < end ==> #[trigger] slot_read(after, i) is None
    &&& content matches Some(value) ==> forall|i: int|
        start <= i < end ==> (#[trigger] slot_read(after, i) matches Some(held) && (
        after->0.kept().len() <= 0x10000 ==> crate::interning::interned(held, value)))
    &&& forall|i: int| 0 <= i < start ==> #[trigger] slot_key(after, i) == slot_key(before, i)
    &&& match content {
        Some(value) => exists|position: usize| #[trigger]
            crate::interning::inserted(slot_kept(before), value, position, slot_kept(after))
                && forall|i: int|
                start <= i < end ==> #[trigger] slot_key(after, i) == Some(position as u16),
        None => slot_kept(after) == slot_kept(before),
    }
}

/// Whether a column that may be missing holds only values of the kind.
pub open spec fn slot_kind(slot: Option<ValueColumn>, kind: u8) -> bool {
    slot matches Some(column) ==> forall|k: int|
        0 <= k < column.kept().len() ==> crate::attribute_columns::dictionary_kind(
            #[trigger] column.kept()[k],
        ) == kind
}

/// Filling a column with a value of its kind keeps it to that kind.
pub proof fn lemma_slot_kind_filled(
    before: Option<ValueColumn>,
    after: Option<ValueColumn>,
    start: int,
    end: int,
    content: Option<ValueOrRef>,
    kind: u8,
)
    requires
        slot_kind(before, kind),
        slot_filled(before, after, start, end, content),
        content matches Some(value) ==> crate::attribute_columns::dictionary_kind(value) == kind,
    ensures
        slot_kind(after, kind),
{
    if after is Some {
        assert forall|k: int| 0 <= k < after->0.kept().len() implies crate::attribute_columns::dictionary_kind(
            #[trigger] after->0.kept()[k],
        ) == kind by {
            if k < slot_kept(before).len() {
                assert(after->0.kept()[k] == before->0.kept()[k]);
            }
        }
    }
}

/// Whether the rows `start..end` of a column have been filled with a cell, or with null if there is
/// none, and the rows before them have kept what they held.
pub open spec fn plain_filled<T: Copy>(
    before: Option<NullableColumn<T>>,
    after: Option<NullableColumn<T>>,
    start: int,
    end: int,
    content: Option<T>,
) -> bool {
    &&& after is Some == (before is Some || content is Some)
    &&& forall|i: int|
        0 <= i < start ==> #[trigger] crate::attribute_columns::nullable_cell(after, i)
            == crate::attribute_columns::nullable_cell(before, i)
    &&& forall|i: int|
        start <= i < end ==> #[trigger] crate::attribute_columns::nullable_cell(after, i) == content
}

/// Fills the rows `start..end` of a column with a value, or with null if there is none.
pub fn fill_dictionay_range_unchecked(
    slot: &mut Option<ValueColumn>,
    count: usize,
    start: usize,
    end: usize,
    content: Option<ValueOrRef>,
)
    requires
        start <= end <= count,
        slot_wf(*old(slot), count as nat, start as int),
        content matches Some(value) ==> !(value is Null),
    ensures
        slot_wf(*final(slot), count as nat, end as int),
        slot_filled(*old(slot), *final(slot), start as int, end as int, content),
{
    let ghost before = *slot;
    match content {
        Some(value) => {
            let taken: Option<ValueColumn> = slot.take();
            let mut column = match taken {
                Some(column) => column,
                None => ValueColumn {
                    column: if start == 0 {
                        NullableColumn::new(count, 0u16)
                    } else {
                        NullableColumn::new_null(count, 0u16)
                    },
                    values: value_set_new(),
                },
            };
            let ghost made = column;
            let ghost given = value;
            let position: usize = insert_value(&mut column.values, value);
            let key: u16 = #[verifier::truncate] (position as u16);
            proof {
                assert(key <= position) by (bit_vector)
                    requires
                        key == position as u16,
                ;
                assert(position < 0x10000 ==> key == position) by (bit_vector)
                    requires
                        key == position as u16,
                ;
            }
            column.column.fill(start, end, key);
            proof {
                let kept = made.kept();
                assert(kept.is_prefix_of(column.kept()));
                crate::interning::lemma_inserted_distinct(kept, given, position, column.kept());
                assert forall|i: int| 0 <= i < end && #[trigger] column.column.valid(
                    i,
                ) implies column.column.cells@[i] < column.kept().len() by {
                    if i < start {
                        assert(made.column.valid(i));
                    }
                }
                assert forall|i: int| 0 <= i < start implies #[trigger] slot_read(Some(column), i)
                    == slot_read(before, i) by {
                    assert(column.column.valid(i) == made.column.valid(i));
                }
                assert forall|i: int| 0 <= i < start implies #[trigger] slot_key(Some(column), i)
                    == slot_key(before, i) by {
                    assert(column.column.valid(i) == made.column.valid(i));
                }
                assert(slot_kept(before) =~= made.kept());
                assert(crate::interning::inserted(
                    slot_kept(before),
                    given,
                    position,
                    slot_kept(Some(column)),
                ));
                assert forall|i: int| start <= i < end implies #[trigger] slot_key(Some(column), i)
                    == Some(position as u16) by {
                    assert(column.column.valid(i));
                }
                assert forall|i: int| start <= i < end implies (#[trigger] slot_read(
                    Some(column),
                    i,
                ) matches Some(held) && (column.kept().len() <= 0x10000
                    ==> crate::interning::interned(held, value))) by {
                    assert(column.column.valid(i));
                }
                assert forall|i: int| end <= i < count && column.column.nulls is Some implies
                    !#[trigger] column.column.valid(i) by {
                    assert(!made.column.valid(i));
                }
            }
            *slot = Some(column);
        },
        None => {
            match slot.take() {
                None => {},
                Some(column) => {
                    let mut column = column;
                    column.column.ensure_nulls(start);
                    proof {
                        let made = before->0;
                        assert forall|i: int| 0 <= i < count implies #[trigger] column.column.valid(
                            i,
                        ) == (i < start && made.column.valid(i)) by {
                            if made.column.nulls is Some {
                                assert(i >= start ==> !made.column.valid(i));
                            }
                        }
                        assert forall|i: int| 0 <= i < start implies #[trigger] slot_read(
                            Some(column),
                            i,
                        ) == made.read(i) by {
                            assert(column.column.valid(i) == made.column.valid(i));
                        }
                        assert forall|i: int| 0 <= i < start implies #[trigger] slot_key(
                            Some(column),
                            i,
                        ) == slot_key(before, i) by {
                            assert(column.column.valid(i) == made.column.valid(i));
                        }
                        assert forall|i: int| start <= i < end implies #[trigger] slot_read(
                            Some(column),
                            i,
                        ) is None by {
                            assert(!column.column.valid(i));
                        }
                    }
                    *slot = Some(column);
                },
            }
        },
    }
}

/// Fills the rows `start..end` of a column with a cell, or with null if there is none.
pub fn fill_plain_range<T: Copy>(
    slot: &mut Option<NullableColumn<T>>,
    count: usize,
    start: usize,
    end: usize,
    content: Option<T>,
    default: T,
)
    requires
        start <= end <= count,
        plain_wf(*old(slot), count as nat, start as int),
    ensures
        plain_wf(*final(slot), count as nat, end as int),
        plain_filled(*old(slot), *final(slot), start as int, end as int, content),
{
    let ghost before = *slot;
    match content {
        Some(value) => {
            let taken: Option<NullableColumn<T>> = slot.take();
            let mut column = match taken {
                Some(column) => column,
                None => if start == 0 {
                    NullableColumn::new(count, default)
                } else {
                    NullableColumn::new_null(count, default)
                },
            };
            let ghost made = column;
            column.fill(start, end, value);
            proof {
                assert forall|i: int| 0 <= i < end implies #[trigger] column.cell(i) == (if start <= i {
                    Some(value)
                } else {
                    made.cell(i)
                }) by {
                    assert(column.valid(i) == (start <= i < end || made.valid(i)));
                }
                assert forall|i: int| end <= i < count && column.nulls is Some implies
                    !#[trigger] column.valid(i) by {
                    assert(!made.valid(i));
                }
            }
            *slot = Some(column);
        },
        None => {
            match slot.take() {
                None => {},
                Some(column) => {
                    let mut column = column;
                    column.ensure_nulls(start);
                    proof {
                        let made = before->0;
                        assert forall|i: int| 0 <= i < count implies #[trigger] column.valid(i) == (
                        i < start && made.valid(i)) by {
                            if made.nulls is Some {
                                assert(i >= start ==> !made.valid(i));
                            }
                        }
                    }
                    *slot = Some(column);
                },
            }
        },
    }
}

} // verus!
