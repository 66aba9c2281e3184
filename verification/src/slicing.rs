//! Parts of texts and arrays.

use std::rc::Rc;

use vstd::prelude::*;

use crate::value::{ArrayForm, ArrayValueOrRef, ValueOrRef};

verus! {

/// The characters `start..end` of a text, as far as there are any.
pub open spec fn text_slice(text: Seq<char>, start: int, end: int) -> Seq<char> {
    if end <= start || start >= text.len() {
        Seq::empty()
    } else if end <= text.len() {
        text.subrange(start, end)
    } else {
        text.subrange(start, text.len() as int)
    }
}

/// The elements `start..end` of an array; those past its end are null.
pub open spec fn array_slice(elements: Seq<ValueOrRef>, start: int, end: int) -> Seq<ValueOrRef> {
    Seq::new(
        (if end <= start {
            0
        } else {
            end - start
        }) as nat,
        |i: int|
            if start + i < elements.len() {
                elements[start + i]
            } else {
                ValueOrRef::Null
            },
    )
}

/// The number of characters of a text.
pub fn char_len(text: &str) -> (r: usize)
    ensures
        r == text@.len(),
{
    text.unicode_len()
}

/// The characters of a text from `range_start_inclusive` up to `range_end_exclusive`. The whole text
/// is handed back as it is.
pub fn new_string_slice(
    inner_value: &Rc<String>,
    range_start_inclusive: usize,
    range_end_exclusive: usize,
) -> (r: Rc<String>)
    ensures
        r@ == text_slice(
            inner_value@,
            range_start_inclusive as int,
            range_end_exclusive as int,
        ),
        range_start_inclusive == 0 && range_end_exclusive >= inner_value@.len() && inner_value@.len()
            > 0 ==> r == *inner_value,
{
    if range_end_exclusive <= range_start_inclusive {
        return Rc::new(String::new());
    }
    let text: &str = inner_value.as_str();
    let length: usize = text.unicode_len();
    if range_start_inclusive >= length {
        return Rc::new(String::new());
    }
    let end: usize = if range_end_exclusive <= length {
        range_end_exclusive
    } else {
        length
    };
    if range_start_inclusive == 0 && end == length {
        assert(inner_value@.subrange(0, length as int) =~= inner_value@);
        inner_value.clone()
    } else {
        Rc::new(text.substring_char(range_start_inclusive, end).to_owned())
    }
}

/// The elements of an array from `range_start_inclusive` up to `range_end_exclusive`.
pub fn new_array_slice(
    value: &ArrayValueOrRef,
    range_start_inclusive: usize,
    range_end_exclusive: usize,
) -> (r: ArrayValueOrRef)
    ensures
        r matches ArrayValueOrRef::List(form, _) && form is Slice,
        r.elements() == array_slice(
            value.elements(),
            range_start_inclusive as int,
            range_end_exclusive as int,
        ),
{
    let mut elements: Vec<ValueOrRef> = Vec::new();
    let mut i: usize = range_start_inclusive;
    while i < range_end_exclusive
        invariant
            range_start_inclusive <= i,
            range_start_inclusive < range_end_exclusive ==> i <= range_end_exclusive,
            range_start_inclusive >= range_end_exclusive ==> i == range_start_inclusive,
            elements@ == array_slice(value.elements(), range_start_inclusive as int, i as int),
        decreases range_end_exclusive - i,
    {
        elements.push(value.get(i));
        i = i + 1;
        assert(elements@ =~= array_slice(
            value.elements(),
            range_start_inclusive as int,
            i as int,
        ));
    }
    assert(elements@ =~= array_slice(
        value.elements(),
        range_start_inclusive as int,
        range_end_exclusive as int,
    ));
    ArrayValueOrRef::List(ArrayForm::Slice, Rc::new(elements))
}

/// A slice of a slice of a text is a slice of the text.
pub proof fn lemma_slice_of_slice(text: Seq<char>, a: int, b: int, c: int, d: int)
    requires
        0 <= a <= b <= text.len(),
        0 <= c <= d <= b - a,
    ensures
        text_slice(text_slice(text, a, b), c, d) == text_slice(text, a + c, a + d),
{
    assert(text_slice(text_slice(text, a, b), c, d) =~= text_slice(text, a + c, a + d));
}

/// Two slices that meet make up the slice that spans both.
pub proof fn lemma_slices_join(text: Seq<char>, a: int, b: int, c: int)
    requires
        0 <= a <= b <= c,
    ensures
        text_slice(text, a, b) + text_slice(text, b, c) == text_slice(text, a, c),
{
    assert(text_slice(text, a, b) + text_slice(text, b, c) =~= text_slice(text, a, c));
}

}
