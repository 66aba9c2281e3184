//! A column of cells, some of which may be null.

use vstd::prelude::*;

use crate::arrow_utils::{
    ensure_nulls_unchecked, fill_bit_range_unchecked, new_null_buffer,
};

verus! {

/// Cells with a validity buffer. Without one, every cell is valid.
pub struct NullableColumn<T> {
    pub cells: Vec<T>,
    pub nulls: Option<Vec<u8>>,
}

impl<T: Copy> NullableColumn<T> {
    /// Whether the validity buffer has the length that the cells ask for.
    pub open spec fn wf(&self) -> bool {
        self.nulls matches Some(buffer) ==> buffer@.len() == crate::arrow_utils::bytes_for_bits(
            self.cells@.len() as int,
        )
    }

    /// The number of cells.
    pub open spec fn spec_len(&self) -> nat {
        self.cells@.len()
    }

    /// Whether cell `i` is valid.
    pub open spec fn valid(&self, i: int) -> bool {
        match self.nulls {
            None => true,
            Some(buffer) => crate::arrow_utils::bit_at(buffer@, i),
        }
    }

    /// What cell `i` holds.
    pub open spec fn cell(&self, i: int) -> Option<T> {
        if self.valid(i) {
            Some(self.cells@[i])
        } else {
            None
        }
    }

    /// What the cells hold, in order.
    pub open spec fn options(&self) -> Seq<Option<T>> {
        Seq::new(self.cells@.len(), |i: int| self.cell(i))
    }

    /// Whether, if any cell may be null, those from `position` on are.
    pub open spec fn open_from(&self, position: int) -> bool {
        self.nulls is Some ==> forall|i: int|
            position <= i < self.cells@.len() ==> !#[trigger] self.valid(i)
    }

    /// A column of valid cells that all hold `value`.
    pub fn new(count: usize, value: T) -> (column: Self)
        ensures
            column.wf(),
            column.nulls is None,
            column.cells@.len() == count,
            forall|i: int| 0 <= i < count ==> column.cells@[i] == value,
    {
        NullableColumn { cells: filled(count, value), nulls: None }
    }

    /// A column of null cells.
    pub fn new_null(count: usize, value: T) -> (column: Self)
        ensures
            column.wf(),
            column.nulls is Some,
            column.cells@.len() == count,
            forall|i: int| 0 <= i < count ==> column.cells@[i] == value,
            forall|i: int| 0 <= i < count ==> !#[trigger] column.valid(i),
    {
        let nulls: Vec<u8> = new_null_buffer(count);
        let column = NullableColumn { cells: filled(count, value), nulls: Some(nulls) };
        proof {
            assert forall|i: int| 0 <= i < count implies !#[trigger] column.valid(i) by {
                assert(!crate::arrow_utils::bit_at(nulls@, i));
            }
        }
        column
    }

    /// The cell at `index`.
    pub fn get(&self, index: usize) -> (r: Option<T>)
        requires
            self.wf(),
            index < self.spec_len(),
        ensures
            r == self.cell(index as int),
    {
        match &self.nulls {
            None => Some(self.cells[index]),
            Some(buffer) => if arrow::util::bit_util::get_bit(buffer.as_slice(), index) {
                Some(self.cells[index])
            } else {
                None
            },
        }
    }

    /// Puts a value into a cell.
    pub fn set(&mut self, index: usize, value: T)
        requires
            old(self).wf(),
            index < old(self).spec_len(),
        ensures
            final(self).wf(),
            final(self).nulls is Some == old(self).nulls is Some,
            final(self).cells@ == old(self).cells@.update(index as int, value),
            forall|i: int|
                0 <= i < old(self).spec_len() ==> #[trigger] final(self).valid(i) == (i == index
                    || old(self).valid(i)),
    {
        let length: usize = self.cells.len();
        assert(index < length);
        let end: usize = index + 1;
        self.fill(index, end, value);
    }

    /// Puts one value into the cells `start..end`.
    pub fn fill(&mut self, start: usize, end: usize, value: T)
        requires
            old(self).wf(),
            start <= end <= old(self).spec_len(),
        ensures
            final(self).wf(),
            final(self).nulls is Some == old(self).nulls is Some,
            final(self).cells@.len() == old(self).cells@.len(),
            forall|i: int|
                0 <= i < old(self).spec_len() ==> #[trigger] final(self).cells@[i] == (if start <= i
                    < end {
                    value
                } else {
                    old(self).cells@[i]
                }),
            forall|i: int|
                0 <= i < old(self).spec_len() ==> #[trigger] final(self).valid(i) == (start <= i
                    < end || old(self).valid(i)),
    {
        let ghost before = *self;
        fill_cells(&mut self.cells, start, end, value);
        match self.nulls.take() {
            None => {},
            Some(buffer) => {
                let mut buffer = buffer;
                fill_bit_range_unchecked(&mut buffer, start, end);
                self.nulls = Some(buffer);
                proof {
                    assert forall|i: int| 0 <= i < before.spec_len() implies #[trigger] self.valid(i)
                        == (start <= i < end || before.valid(i)) by {
                        assert(crate::arrow_utils::bit_at(buffer@, i) == (start <= i < end
                            || crate::arrow_utils::bit_at(before.nulls->0@, i)));
                    }
                }
            },
        }
    }

    /// Gives the column a validity buffer whose first `fill_count` cells are valid, unless it has
    /// one already.
    pub fn ensure_nulls(&mut self, fill_count: usize)
        requires
            old(self).wf(),
            fill_count <= old(self).spec_len(),
        ensures
            final(self).wf(),
            final(self).nulls is Some,
            final(self).cells@ == old(self).cells@,
            old(self).nulls is Some ==> *final(self) == *old(self),
            old(self).nulls is None ==> forall|i: int|
                0 <= i < old(self).spec_len() ==> #[trigger] final(self).valid(i) == (i
                    < fill_count),
    {
        let ghost before = *self;
        let length: usize = self.cells.len();
        ensure_nulls_unchecked(&mut self.nulls, length, fill_count);
        proof {
            if before.nulls is None {
                assert forall|i: int| 0 <= i < before.spec_len() implies #[trigger] self.valid(i)
                    == (i < fill_count) by {
                    assert(crate::arrow_utils::bit_at(self.nulls->0@, i) == (i < fill_count));
                }
            }
        }
    }

    /// The cells as options.
    pub fn to_options(&self) -> (r: Vec<Option<T>>)
        requires
            self.wf(),
        ensures
            r@ == self.options(),
    {
        let mut r: Vec<Option<T>> = Vec::new();
        let mut i: usize = 0;
        while i < self.cells.len()
            invariant
                self.wf(),
                i <= self.cells@.len(),
                r@ == self.options().subrange(0, i as int),
            decreases self.cells@.len() - i,
        {
            let ghost shorter = r@;
            r.push(self.get(i));
            i = i + 1;
            proof {
                assert(self.options().subrange(0, i as int) =~= shorter.push(self.cell(i - 1)));
            }
        }
        proof {
            assert(self.options().subrange(0, i as int) =~= self.options());
        }
        r
    }

    /// A column of `count` cells whose first are those of this one. The rest are null, if any cell
    /// of this one may be.
    pub fn extended(&self, count: usize, value: T) -> (column: Self)
        requires
            self.wf(),
            self.spec_len() <= count,
        ensures
            column.wf(),
            column.spec_len() == count,
            column.nulls is Some == self.nulls is Some,
            forall|i: int| 0 <= i < self.spec_len() ==> #[trigger] column.cells@[i] == self.cells@[i],
            forall|i: int| self.spec_len() <= i < count ==> #[trigger] column.cells@[i] == value,
            forall|i: int| 0 <= i < self.spec_len() ==> #[trigger] column.valid(i) == self.valid(i),
            column.open_from(self.spec_len() as int),
    {
        let may_be_null: bool = self.nulls.is_some();
        let mut column = if may_be_null {
            Self::new_null(count, value)
        } else {
            Self::new(count, value)
        };
        let mut i: usize = 0;
        while i < self.cells.len()
            invariant
                self.wf(),
                i <= self.spec_len() <= count,
                may_be_null == self.nulls is Some,
                column.wf(),
                column.spec_len() == count,
                column.nulls is Some == may_be_null,
                forall|j: int| 0 <= j < i ==> #[trigger] column.cells@[j] == self.cells@[j],
                forall|j: int| i <= j < count ==> #[trigger] column.cells@[j] == value,
                forall|j: int| 0 <= j < i ==> #[trigger] column.valid(j) == self.valid(j),
                column.open_from(i as int),
            decreases self.cells@.len() - i,
        {
            let ghost before = column;
            match self.get(i) {
                Some(cell) => {
                    column.set(i, cell);
                },
                None => {
                    column.cells.set(i, self.cells[i]);
                    proof {
                        assert forall|j: int| 0 <= j < count implies #[trigger] column.valid(j)
                            == before.valid(j) by {}
                    }
                },
            }
            proof {
                assert forall|j: int| i + 1 <= j < count && column.nulls is Some implies
                    !#[trigger] column.valid(j) by {
                    assert(!before.valid(j));
                }
                assert forall|j: int| 0 <= j < i + 1 implies #[trigger] column.valid(j)
                    == self.valid(j) by {
                    if j < i {
                        assert(before.valid(j) == self.valid(j));
                    } else if may_be_null {
                        assert(!before.valid(j));
                    }
                }
            }
            i = i + 1;
        }
        column
    }

    /// A column of `count` cells whose first hold what the options hold. The rest are null, if any
    /// option is missing.
    pub fn from_options(options: &Vec<Option<T>>, count: usize, value: T) -> (column: Self)
        requires
            options@.len() <= count,
        ensures
            column.wf(),
            column.spec_len() == count,
            column.nulls is Some == (exists|i: int|
                0 <= i < options@.len() && #[trigger] options@[i] is None),
            forall|i: int| 0 <= i < options@.len() ==> #[trigger] column.cell(i) == options@[i],
            forall|i: int|
                0 <= i < count && (i >= options@.len() || options@[i] is None)
                    ==> #[trigger] column.cells@[i] == value,
            column.open_from(options@.len() as int),
    {
        let mut column = Self::new(count, value);
        let mut i: usize = 0;
        while i < options.len()
            invariant
                i <= options@.len() <= count,
                column.wf(),
                column.spec_len() == count,
                column.nulls is Some == (exists|j: int|
                    0 <= j < i && #[trigger] options@[j] is None),
                forall|j: int| 0 <= j < i ==> #[trigger] column.cell(j) == options@[j],
                forall|j: int|
                    0 <= j < count && (j >= i || options@[j] is None) ==> #[trigger] column.cells@[j]
                        == value,
                column.open_from(i as int),
            decreases options@.len() - i,
        {
            let ghost before = column;
            match options[i] {
                Some(cell) => {
                    column.set(i, cell);
                },
                None => {
                    column.ensure_nulls(i);
                    assert(options@[i as int] is None);
                },
            }
            proof {
                assert forall|j: int| 0 <= j < i + 1 implies #[trigger] column.cell(j)
                    == options@[j] by {
                    assert(column.valid(j) == column.valid(j));
                    if j < i {
                        assert(before.cell(j) == options@[j]);
                        assert(before.valid(j) == before.valid(j));
                    }
                }
                assert forall|j: int| i + 1 <= j < count && column.nulls is Some implies
                    !#[trigger] column.valid(j) by {
                    if before.nulls is Some {
                        assert(!before.valid(j));
                    }
                }
            }
            i = i + 1;
        }
        column
    }
}

/// A list of `count` copies of a value.
fn filled<T: Copy>(count: usize, value: T) -> (r: Vec<T>)
    ensures
        r@.len() == count,
        forall|i: int| 0 <= i < count ==> r@[i] == value,
{
    let mut r: Vec<T> = Vec::new();
    let mut i: usize = 0;
    while i < count
        invariant
            i <= count,
            r@.len() == i,
            forall|j: int| 0 <= j < i ==> r@[j] == value,
        decreases count - i,
    {
        r.push(value);
        i = i + 1;
    }
    r
}

/// Overwrites the entries `start..end` with a value.
pub fn fill_cells<T: Copy>(cells: &mut Vec<T>, start: usize, end: usize, value: T)
    requires
        start <= end <= old(cells)@.len(),
    ensures
        final(cells)@.len() == old(cells)@.len(),
        forall|i: int|
            0 <= i < old(cells)@.len() ==> #[trigger] final(cells)@[i] == (if start <= i < end {
                value
            } else {
                old(cells)@[i]
            }),
{
    let mut i: usize = start;
    while i < end
        invariant
            start <= i <= end <= cells@.len(),
            cells@.len() == old(cells)@.len(),
            forall|j: int|
                0 <= j < cells@.len() ==> #[trigger] cells@[j] == (if start <= j < i {
                    value
                } else {
                    old(cells)@[j]
                }),
        decreases end - i,
    {
        cells.set(i, value);
        i = i + 1;
    }
}

/// A copy of ids.
pub fn copy_ids(ids: &Vec<Option<u16>>) -> (r: Vec<Option<u16>>)
    ensures
        r@ == ids@,
{
    let mut r: Vec<Option<u16>> = Vec::new();
    let mut i: usize = 0;
    while i < ids.len()
        invariant
            i <= ids@.len(),
            r@ == ids@.subrange(0, i as int),
        decreases ids@.len() - i,
    {
        r.push(ids[i]);
        i = i + 1;
        assert(ids@.subrange(0, i as int) =~= ids@.subrange(0, i - 1).push(ids@[i - 1]));
    }
    assert(ids@.subrange(0, i as int) =~= ids@);
    r
}

} // verus!
