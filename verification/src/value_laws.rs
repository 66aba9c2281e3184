//! When values are equal.

use vstd::prelude::*;

use crate::value::{ArrayValueOrRef, ValueOrRef};

verus! {

/// The element of an array at a place; a byte is an integer.
pub open spec fn item(array: ArrayValueOrRef, place: int) -> ValueOrRef {
    match array {
        ArrayValueOrRef::List(_, values) => values@[place],
        ArrayValueOrRef::Buffer(bytes) => ValueOrRef::Integer(bytes@[place] as i64),
    }
}

/// Whether the bits are those of a double that is not a number.
pub open spec fn not_a_number(bits: u64) -> bool {
    0x7FF0_0000_0000_0000 < bits < 0x8000_0000_0000_0000 || 0xFFF0_0000_0000_0000 < bits
}

/// Two arrays are equal exactly if they have as many elements, and these are equal one for one, however
/// the arrays are held.
pub proof fn lemma_arrays_equal_by_element(left: ArrayValueOrRef, right: ArrayValueOrRef)
    ensures
        crate::value::value_eq(ValueOrRef::Array(left), ValueOrRef::Array(right)) == (
        crate::scalar_laws::size(left) == crate::scalar_laws::size(right) && forall|i: int|
            0 <= i < crate::scalar_laws::size(left) ==> crate::value::value_eq(
                #[trigger] item(left, i),
                #[trigger] item(right, i),
            )),
{
    reveal_with_fuel(crate::value::value_eq, 2);
    let size = crate::scalar_laws::size(left);
    let equal = crate::value::value_eq(ValueOrRef::Array(left), ValueOrRef::Array(right));
    match (left, right) {
        (ArrayValueOrRef::List(_, l), ArrayValueOrRef::List(_, r)) => {
            if size == r@.len() && (forall|i: int|
                0 <= i < size ==> crate::value::value_eq(
                    #[trigger] item(left, i),
                    #[trigger] item(right, i),
                )) {
                assert forall|i: int| 0 <= i < l@.len() implies crate::value::value_eq(
                    #[trigger] l@[i],
                    r@[i],
                ) by {
                    assert(crate::value::value_eq(item(left, i), item(right, i)));
                }
            }
            if equal {
                assert forall|i: int| 0 <= i < size implies crate::value::value_eq(
                    #[trigger] item(left, i),
                    #[trigger] item(right, i),
                ) by {
                    assert(crate::value::value_eq(l@[i], r@[i]));
                }
            }
        },
        (ArrayValueOrRef::Buffer(l), ArrayValueOrRef::Buffer(r)) => {
            if size == r@.len() && (forall|i: int|
                0 <= i < size ==> crate::value::value_eq(
                    #[trigger] item(left, i),
                    #[trigger] item(right, i),
                )) {
                assert forall|i: int| 0 <= i < l@.len() implies l@[i] == r@[i] by {
                    assert(crate::value::value_eq(item(left, i), item(right, i)));
                }
                assert(l@ =~= r@);
            }
        },
        (ArrayValueOrRef::List(_, l), ArrayValueOrRef::Buffer(r)) => {
            if size == r@.len() && (forall|i: int|
                0 <= i < size ==> crate::value::value_eq(
                    #[trigger] item(left, i),
                    #[trigger] item(right, i),
                )) {
                assert forall|i: int| 0 <= i < l@.len() implies #[trigger] l@[i]
                    == ValueOrRef::Integer(r@[i] as i64) by {
                    assert(crate::value::value_eq(item(left, i), item(right, i)));
                }
            }
            if equal {
                assert forall|i: int| 0 <= i < size implies crate::value::value_eq(
                    #[trigger] item(left, i),
                    #[trigger] item(right, i),
                ) by {
                    assert(l@[i] == ValueOrRef::Integer(r@[i] as i64));
                }
            }
        },
        (ArrayValueOrRef::Buffer(l), ArrayValueOrRef::List(_, r)) => {
            if size == r@.len() && (forall|i: int|
                0 <= i < size ==> crate::value::value_eq(
                    #[trigger] item(left, i),
                    #[trigger] item(right, i),
                )) {
                assert forall|i: int| 0 <= i < l@.len() implies #[trigger] r@[i]
                    == ValueOrRef::Integer(l@[i] as i64) by {
                    assert(crate::value::value_eq(item(left, i), item(right, i)));
                }
            }
            if equal {
                assert forall|i: int| 0 <= i < size implies crate::value::value_eq(
                    #[trigger] item(left, i),
                    #[trigger] item(right, i),
                ) by {
                    assert(r@[i] == ValueOrRef::Integer(l@[i] as i64));
                }
            }
        },
    }
}

/// Values of two kinds are never equal. Texts, integers, booleans, spans and patterns are equal if
/// they are the same, points in time if they are the same moment, and doubles if they are the same number
/// or both zero; what is not a number equals nothing.
pub proof fn lemma_plain_values_equal(left: ValueOrRef, right: ValueOrRef)
    requires
        !(left is Array),
        !(left is MapValue),
    ensures
        crate::value::value_eq(left, right) == match left {
            ValueOrRef::Null => right is Null,
            ValueOrRef::String(text) => right is String && right->String_0@ == text@,
            ValueOrRef::Integer(n) => right == ValueOrRef::Integer(n),
            ValueOrRef::Boolean(b) => right == ValueOrRef::Boolean(b),
            ValueOrRef::DateTime(time) => right is DateTime && time.seconds
                == right->DateTime_0.seconds && time.nanoseconds == right->DateTime_0.nanoseconds,
            ValueOrRef::TimeSpan(span) => right == ValueOrRef::TimeSpan(span),
            ValueOrRef::Regex(pattern) => right is Regex && right->Regex_0@ == pattern@,
            ValueOrRef::Double(bits) => right is Double && !not_a_number(bits) && !not_a_number(
                right->Double_0,
            ) && (bits == right->Double_0 || ((bits == 0 || bits == 0x8000_0000_0000_0000) && (
            right->Double_0 == 0 || right->Double_0 == 0x8000_0000_0000_0000))),
            _ => false,
        },
{
}

/// Whether a map has an entry of the key with a value that is equal.
pub open spec fn has_equal_entry(map: ValueOrRef, key: Seq<char>, value: ValueOrRef) -> bool {
    map is MapValue && exists|j: int|
        0 <= j < map->MapValue_0.map.entries().len() && (
        #[trigger] map->MapValue_0.map.entries()[j]).0@ == key && crate::value::value_eq(
            value,
            map->MapValue_0.map.entries()[j].1,
        )
}

/// Maps that are equal have as many entries, and each entry of the one has its equal under its key in
/// the other. A map equals nothing but maps.
pub proof fn lemma_equal_maps(left: ValueOrRef, right: ValueOrRef)
    requires
        left is MapValue,
        crate::value::value_eq(left, right),
    ensures
        right is MapValue,
        left->MapValue_0.map.entries().len() == right->MapValue_0.map.entries().len(),
        forall|i: int|
            0 <= i < left->MapValue_0.map.entries().len() ==> has_equal_entry(
                right,
                (#[trigger] left->MapValue_0.map.entries()[i]).0@,
                left->MapValue_0.map.entries()[i].1,
            ),
{
    assert forall|i: int| 0 <= i < left->MapValue_0.map.entries().len() implies has_equal_entry(
        right,
        (#[trigger] left->MapValue_0.map.entries()[i]).0@,
        left->MapValue_0.map.entries()[i].1,
    ) by {
        let key = left->MapValue_0.map.entries()[i].0@;
        assert(right->MapValue_0.map.lookup(key) is Some);
        let j = right->MapValue_0.map.position(key);
        assert(right->MapValue_0.map.entries()[j].0@ == key);
    }
}

}
