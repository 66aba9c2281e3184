//! Boolean columns and the operations on them.

use arrow::array::{Array, BooleanArray};
use arrow::buffer::{BooleanBuffer, Buffer, NullBuffer};
use vstd::prelude::*;

verus! {

/// `arrow::array::BooleanArray`, a column of booleans that may be missing.
#[verifier::external_type_specification]
#[verifier::external_body]
pub struct ExBooleanArray(arrow::array::BooleanArray);

/// The entries of the column.
pub uninterp spec fn boolean_values(array: arrow::array::BooleanArray) -> Seq<Option<bool>>;

/// `Array::len`: the number of entries.
#[verifier::external_body]
pub(crate) fn boolean_array_len(array: &BooleanArray) -> (r: usize)
    ensures
        r == boolean_values(*array).len(),
{
    array.len()
}

/// `BooleanArray::iter`: the entries, in order.
#[verifier::external_body]
pub(crate) fn boolean_array_to_values(array: &BooleanArray) -> (r: Vec<Option<bool>>)
    ensures
        r@ == boolean_values(*array),
{
    array.iter().collect()
}

/// `BooleanArray::value` and `Array::is_valid`: the entry at an index.
#[verifier::external_body]
pub(crate) fn boolean_array_get(array: &BooleanArray, index: usize) -> (r: Option<bool>)
    requires
        index < boolean_values(*array).len(),
    ensures
        r == boolean_values(*array)[index as int],
{
    array.is_valid(index).then_some(array.value(index))
}

/// `BooleanArray::new`: the column whose entry `i` is bit `i` of `values`, and is missing where bit
/// `i` of `nulls` is clear.
#[verifier::external_body]
pub(crate) fn boolean_array_from_buffers(
    values: Vec<u8>,
    nulls: Option<Vec<u8>>,
    length: usize,
) -> (r: BooleanArray)
    requires
        length <= values@.len() * 8,
        nulls matches Some(buffer) ==> length <= buffer@.len() * 8,
    ensures
        boolean_values(r) == Seq::new(
            length as nat,
            |i: int|
                if nulls is Some && !crate::arrow_utils::bit_at(nulls->0@, i) {
                    None
                } else {
                    Some(crate::arrow_utils::bit_at(values@, i))
                },
        ),
{
    BooleanArray::new(
        BooleanBuffer::new(Buffer::from_vec(values), 0, length),
        nulls.map(|n| NullBuffer::new(BooleanBuffer::new(Buffer::from_vec(n), 0, length))),
    )
}

/// The column with the given entries.
pub fn iter_into_boolean_array(values: &Vec<Option<bool>>) -> (r: BooleanArray)
    ensures
        boolean_values(r) == values@,
{
    let length: usize = values.len();
    let mut buffer: Vec<u8> = crate::arrow_utils::new_null_buffer(length);
    let mut nulls: Option<Vec<u8>> = None;
    let mut i: usize = 0;
    while i < length
        invariant
            i <= length == values@.len(),
            buffer@.len() == crate::arrow_utils::bytes_for_bits(length as int),
            nulls matches Some(n) ==> n@.len() == buffer@.len(),
            forall|j: int|
                0 <= j < length ==> #[trigger] crate::arrow_utils::bit_at(buffer@, j) == (j < i
                    && values@[j] == Some(true)),
            nulls is None ==> forall|j: int| 0 <= j < i ==> #[trigger] values@[j] is Some,
            nulls matches Some(n) ==> forall|j: int|
                0 <= j < length ==> #[trigger] crate::arrow_utils::bit_at(n@, j) == (j < i
                    && values@[j] is Some),
        decreases length - i,
    {
        match values[i] {
            None => {
                crate::arrow_utils::ensure_nulls_unchecked(&mut nulls, length, i);
            },
            Some(value) => {
                if value {
                    arrow::util::bit_util::set_bit(buffer.as_mut_slice(), i);
                }
                match nulls.take() {
                    Some(n) => {
                        let mut n = n;
                        arrow::util::bit_util::set_bit(n.as_mut_slice(), i);
                        nulls = Some(n);
                    },
                    None => {},
                }
            },
        }
        i = i + 1;
    }
    let ghost bits = buffer@;
    let ghost valid = nulls;
    let r = boolean_array_from_buffers(buffer, nulls, length);
    proof {
        assert forall|j: int| 0 <= j < length implies #[trigger] boolean_values(r)[j]
            == values@[j] by {
            assert(crate::arrow_utils::bit_at(bits, j) == (values@[j] == Some(true)));
            if valid is Some {
                assert(crate::arrow_utils::bit_at(valid->0@, j) == (values@[j] is Some));
            }
        }
        assert(boolean_values(r) =~= values@);
    }
    r
}

/// How many entries are present and equal to `value`.
pub open spec fn count_entries(entries: Seq<Option<bool>>, value: bool) -> nat
    decreases entries.len(),
{
    if entries.len() == 0 {
        0
    } else {
        count_entries(entries.drop_last(), value) + (if entries.last() == Some(value) {
            1nat
        } else {
            0nat
        })
    }
}

/// The count of a value is the number of entries if and only if every entry is that value.
pub proof fn lemma_count_all(entries: Seq<Option<bool>>, value: bool)
    ensures
        count_entries(entries, value) <= entries.len(),
        count_entries(entries, value) == entries.len() <==> (forall|i: int|
            0 <= i < entries.len() ==> #[trigger] entries[i] == Some(value)),
    decreases entries.len(),
{
    if entries.len() > 0 {
        let shorter = entries.drop_last();
        lemma_count_all(shorter, value);
        if forall|i: int| 0 <= i < entries.len() ==> #[trigger] entries[i] == Some(value) {
            assert(forall|i: int| 0 <= i < shorter.len() ==> shorter[i] == entries[i]);
        }
        if count_entries(entries, value) == entries.len() {
            assert forall|i: int| 0 <= i < entries.len() implies #[trigger] entries[i] == Some(
                value,
            ) by {
                if i < shorter.len() {
                    assert(shorter[i] == Some(value));
                }
            }
        }
    }
}

/// `BooleanArray::true_count`: how many entries are present and true.
#[verifier::external_body]
pub(crate) fn boolean_true_count(array: &BooleanArray) -> (r: usize)
    ensures
        r == count_entries(boolean_values(*array), true),
{
    array.true_count()
}

/// `BooleanArray::false_count`: how many entries are present and false.
#[verifier::external_body]
pub(crate) fn boolean_false_count(array: &BooleanArray) -> (r: usize)
    ensures
        r == count_entries(boolean_values(*array), false),
{
    array.false_count()
}

/// Whether every entry is present and equal to `value`.
pub fn all_entries_are(array: &BooleanArray, value: bool) -> (r: bool)
    ensures
        r == (forall|i: int|
            0 <= i < boolean_values(*array).len() ==> #[trigger] boolean_values(*array)[i] == Some(
                value,
            )),
{
    proof {
        lemma_count_all(boolean_values(*array), value);
    }
    let count: usize = if value {
        boolean_true_count(array)
    } else {
        boolean_false_count(array)
    };
    count == boolean_array_len(array)
}

/// The entries negated; a missing one stays missing.
pub open spec fn entries_not(entries: Seq<Option<bool>>) -> Seq<Option<bool>> {
    Seq::new(
        entries.len(),
        |i: int|
            match entries[i] {
                Some(b) => Some(!b),
                None => None,
            },
    )
}

/// The conjunction entry by entry; it is missing where either entry is.
pub open spec fn entries_and(left: Seq<Option<bool>>, right: Seq<Option<bool>>) -> Seq<
    Option<bool>,
> {
    Seq::new(
        left.len(),
        |i: int|
            match (left[i], right[i]) {
                (Some(l), Some(r)) => Some(l && r),
                _ => None,
            },
    )
}

/// The disjunction entry by entry; it is missing where either entry is.
pub open spec fn entries_or(left: Seq<Option<bool>>, right: Seq<Option<bool>>) -> Seq<Option<bool>> {
    Seq::new(
        left.len(),
        |i: int|
            match (left[i], right[i]) {
                (Some(l), Some(r)) => Some(l || r),
                _ => None,
            },
    )
}

/// `arrow::compute::not`: the entries negated.
#[verifier::external_body]
pub(crate) fn boolean_not(array: &BooleanArray) -> (r: BooleanArray)
    ensures
        boolean_values(r) == entries_not(boolean_values(*array)),
{
    arrow::compute::not(array).unwrap()
}

/// `arrow::compute::and`: the conjunction of two columns of one length.
#[verifier::external_body]
pub(crate) fn boolean_and(left: &BooleanArray, right: &BooleanArray) -> (r: BooleanArray)
    requires
        boolean_values(*left).len() == boolean_values(*right).len(),
    ensures
        boolean_values(r) == entries_and(boolean_values(*left), boolean_values(*right)),
{
    arrow::compute::and(left, right).unwrap()
}

/// `arrow::compute::or`: the disjunction of two columns of one length.
#[verifier::external_body]
pub(crate) fn boolean_or(left: &BooleanArray, right: &BooleanArray) -> (r: BooleanArray)
    requires
        boolean_values(*left).len() == boolean_values(*right).len(),
    ensures
        boolean_values(r) == entries_or(boolean_values(*left), boolean_values(*right)),
{
    arrow::compute::or(left, right).unwrap()
}

}
