//! The values that flow through the engine.

use std::rc::Rc;

use vstd::prelude::*;

use crate::collections::{
    text_position_map_get, text_position_map_insert, text_position_map_new, TextPositionMap,
};

verus! {

/// A point in time: seconds and nanoseconds since the Unix epoch, with the offset from UTC that it
/// is written in. Two of them are equal when they denote the same instant.
#[derive(Debug, Clone, Copy)]
pub struct DateTimeValue {
    pub seconds: i64,
    pub nanoseconds: u32,
    pub offset_seconds: i32,
}

impl std::hash::Hash for DateTimeValue {
    /// Hashes the instant alone: two values that denote the same one are hashed alike.
    fn hash<H: std::hash::Hasher>(&self, state: &mut H) {
        hash_instant((self.seconds, self.nanoseconds), state)
    }
}

/// `Hash::hash` of a pair of integers.
#[verifier::external_body]
fn hash_instant<H: std::hash::Hasher>(instant: (i64, u32), state: &mut H) {
    std::hash::Hash::hash(&instant, state)
}

/// A signed span of time.
#[derive(Debug, Clone, Copy, PartialEq, Eq, Hash, Structural)]
pub struct TimeSpanValue {
    pub seconds: i64,
    pub nanoseconds: u32,
}

/// The kind of a value.
#[derive(Debug, Clone, Copy, PartialEq, Eq, Hash, Structural)]
pub enum ValueType {
    Array,
    Boolean,
    DateTime,
    Double,
    Integer,
    MapValue,
    Null,
    Regex,
    String,
    TimeSpan,
}

/// A value of a record or of an expression.
///
/// A double is held as its IEEE 754 bits, a regular expression as its pattern.
#[derive(Debug, Hash)]
pub enum ValueOrRef {
    Array(ArrayValueOrRef),
    Boolean(bool),
    DateTime(DateTimeValue),
    Double(u64),
    Integer(i64),
    MapValue(MapValueOrRef),
    Null,
    Regex(Rc<String>),
    String(Rc<String>),
    TimeSpan(TimeSpanValue),
}

/// How a list of values is held: borrowed from the query, owned, or as a slice of another array. Only
/// an owned list is written into.
#[derive(Debug, Clone, Copy, PartialEq, Eq, Structural)]
pub enum ArrayForm {
    Ref,
    Owned,
    Slice,
}

/// An array: a list of values, or a buffer of bytes that reads as a list of integers.
#[derive(Debug)]
pub enum ArrayValueOrRef {
    List(ArrayForm, Rc<Vec<ValueOrRef>>),
    Buffer(Rc<Vec<u8>>),
}

/// A map, owned or borrowed from the query. Only an owned map is written into.
#[derive(Debug)]
pub struct MapValueOrRef {
    pub owned: bool,
    pub map: Rc<OwnedMapValue>,
}

impl std::hash::Hash for MapValueOrRef {
    /// Hashes the entries, however the map is held.
    fn hash<H: std::hash::Hasher>(&self, state: &mut H) {
        hash_entries(self.map.get_values(), state)
    }
}

/// `Hash::hash` of a list of entries: of their number and of each of them.
#[verifier::external_body]
fn hash_entries<H: std::hash::Hasher>(entries: &Vec<(Rc<String>, ValueOrRef)>, state: &mut H) {
    std::hash::Hash::hash(entries, state)
}

impl std::hash::Hash for ArrayValueOrRef {
    /// Hashes the elements, however the array is held.
    fn hash<H: std::hash::Hasher>(&self, state: &mut H) {
        match self {
            ArrayValueOrRef::List(_, values) => hash_values(values, state),
            ArrayValueOrRef::Buffer(bytes) => hash_values(&integers_of(bytes), state),
        }
    }
}

/// The bytes of a buffer as the integers that it reads as.
fn integers_of(bytes: &Vec<u8>) -> (r: Vec<ValueOrRef>)
    ensures
        r@ == Seq::new(bytes@.len(), |i: int| ValueOrRef::Integer(bytes@[i] as i64)),
{
    let mut integers: Vec<ValueOrRef> = Vec::new();
    for i in 0..bytes.len()
        invariant
            integers@ == Seq::new(i as nat, |j: int| ValueOrRef::Integer(bytes@[j] as i64)),
    {
        integers.push(ValueOrRef::Integer(bytes[i] as i64));
    }
    integers
}

/// `Hash::hash` of a list of values: of their number and of each of them.
#[verifier::external_body]
fn hash_values<H: std::hash::Hasher>(values: &Vec<ValueOrRef>, state: &mut H) {
    std::hash::Hash::hash(values, state)
}

/// A map from text to values. No key occurs twice; each is found by the position of its entry.
#[derive(Debug)]
pub struct OwnedMapValue {
    positions: TextPositionMap,
    values: Vec<(Rc<String>, ValueOrRef)>,
}

/// A value as a part of what is borrowed: an array and a map are then borrowed too.
pub open spec fn borrowed(value: ValueOrRef) -> ValueOrRef {
    match value {
        ValueOrRef::Array(ArrayValueOrRef::List(_, values)) => ValueOrRef::Array(
            ArrayValueOrRef::List(ArrayForm::Ref, values),
        ),
        ValueOrRef::MapValue(map) => ValueOrRef::MapValue(
            MapValueOrRef { owned: false, map: map.map },
        ),
        _ => value,
    }
}

/// Whether the bits are those of a double that is not a number.
pub open spec fn double_is_nan(bits: u64) -> bool {
    bits % 0x8000_0000_0000_0000 > 0x7FF0_0000_0000_0000
}

/// Whether the bits are those of a positive or negative zero.
pub open spec fn double_is_zero(bits: u64) -> bool {
    bits % 0x8000_0000_0000_0000 == 0
}

/// IEEE 754 equality of two doubles given by their bits.
pub open spec fn double_eq(left: u64, right: u64) -> bool {
    &&& !double_is_nan(left)
    &&& !double_is_nan(right)
    &&& left == right || (double_is_zero(left) && double_is_zero(right))
}

impl OwnedMapValue {
    /// The entries of the map, in the order in which their keys first came.
    pub closed spec fn entries(self) -> Seq<(Rc<String>, ValueOrRef)> {
        self.values@
    }

    /// Whether the map has an entry for `key`.
    pub open spec fn has_key(self, key: Seq<char>) -> bool {
        exists|i: int| 0 <= i < self.entries().len() && (#[trigger] self.entries()[i]).0@ == key
    }

    /// The position of the entry for `key`.
    pub open spec fn position(self, key: Seq<char>) -> int {
        choose|i: int| 0 <= i < self.entries().len() && (#[trigger] self.entries()[i]).0@ == key
    }

    /// The value under `key`.
    pub open spec fn lookup(self, key: Seq<char>) -> Option<ValueOrRef> {
        if self.has_key(key) {
            Some(self.entries()[self.position(key)].1)
        } else {
            None
        }
    }

    /// The values by key.
    pub open spec fn contents(self) -> Map<Seq<char>, ValueOrRef> {
        Map::new(
            |key: Seq<char>| self.has_key(key),
            |key: Seq<char>| self.entries()[self.position(key)].1,
        )
    }

    #[verifier::type_invariant]
    spec fn inv(self) -> bool {
        indexed(crate::collections::text_position_entries(self.positions), self.values@)
    }

    spec fn distinct_keys(self) -> bool {
        forall|i: int, j: int|
            0 <= i < j < self.values@.len() ==> (#[trigger] self.values@[i]).0@ != (
            #[trigger] self.values@[j]).0@
    }
}

/// Whether the positions are those of the keys of the entries, none of which occurs twice.
spec fn indexed(
    positions: Map<Seq<char>, usize>,
    entries: Seq<(Rc<String>, ValueOrRef)>,
) -> bool {
    &&& forall|key: Seq<char>| #[trigger]
        positions.contains_key(key) ==> positions[key] < entries.len()
            && entries[positions[key] as int].0@ == key
    &&& forall|i: int|
        0 <= i < entries.len() ==> positions.contains_key((#[trigger] entries[i]).0@)
            && positions[entries[i].0@] == i
}

/// The positions of the keys of entries.
fn index_entries(entries: &Vec<(Rc<String>, ValueOrRef)>) -> (positions: TextPositionMap)
    requires
        forall|i: int, j: int|
            0 <= i < j < entries@.len() ==> (#[trigger] entries@[i]).0@ != (
            #[trigger] entries@[j]).0@,
    ensures
        indexed(crate::collections::text_position_entries(positions), entries@),
{
    let mut positions: TextPositionMap = text_position_map_new();
    let mut i: usize = 0;
    while i < entries.len()
        invariant
            i <= entries@.len(),
            forall|a: int, b: int|
                0 <= a < b < entries@.len() ==> (#[trigger] entries@[a]).0@ != (
                #[trigger] entries@[b]).0@,
            indexed(
                crate::collections::text_position_entries(positions),
                entries@.subrange(0, i as int),
            ),
        decreases entries@.len() - i,
    {
        let ghost before = crate::collections::text_position_entries(positions);
        let ghost seen = entries@.subrange(0, i as int);
        text_position_map_insert(&mut positions, (*entries[i].0).clone(), i);
        i = i + 1;
        proof {
            let after = crate::collections::text_position_entries(positions);
            let all = entries@.subrange(0, i as int);
            assert forall|key: Seq<char>| #[trigger] after.contains_key(key) implies after[key]
                < all.len() && all[after[key] as int].0@ == key by {
                if key != entries@[i - 1].0@ {
                    assert(before.contains_key(key));
                    assert(seen[before[key] as int] == all[before[key] as int]);
                }
            }
            assert forall|j: int| 0 <= j < all.len() implies after.contains_key(
                (#[trigger] all[j]).0@,
            ) && after[all[j].0@] == j by {
                if j < i - 1 {
                    assert(seen[j] == all[j]);
                    assert(entries@[j].0@ != entries@[i - 1].0@);
                }
            }
        }
    }
    assert(entries@.subrange(0, i as int) =~= entries@);
    positions
}

/// Whether two values are equal: of one kind and, for that kind, equal in content. An array is
/// compared by its elements, however it is held; a map by its entries, in any order.
pub open spec fn value_eq(left: ValueOrRef, right: ValueOrRef) -> bool
    decreases left,
{
    match (left, right) {
        (ValueOrRef::String(l), ValueOrRef::String(r)) => l@ == r@,
        (ValueOrRef::Integer(l), ValueOrRef::Integer(r)) => l == r,
        (ValueOrRef::Double(l), ValueOrRef::Double(r)) => double_eq(l, r),
        (ValueOrRef::Boolean(l), ValueOrRef::Boolean(r)) => l == r,
        (ValueOrRef::DateTime(l), ValueOrRef::DateTime(r)) => l.seconds == r.seconds
            && l.nanoseconds == r.nanoseconds,
        (ValueOrRef::TimeSpan(l), ValueOrRef::TimeSpan(r)) => l == r,
        (ValueOrRef::Regex(l), ValueOrRef::Regex(r)) => l@ == r@,
        (
            ValueOrRef::Array(ArrayValueOrRef::List(_, l)),
            ValueOrRef::Array(ArrayValueOrRef::List(_, r)),
        ) => l@.len() == r@.len() && forall|i: int|
            0 <= i < l@.len() ==> value_eq(#[trigger] l@[i], r@[i]),
        (
            ValueOrRef::Array(ArrayValueOrRef::Buffer(l)),
            ValueOrRef::Array(ArrayValueOrRef::Buffer(r)),
        ) => l@ == r@,
        (
            ValueOrRef::Array(ArrayValueOrRef::List(_, l)),
            ValueOrRef::Array(ArrayValueOrRef::Buffer(r)),
        ) => l@.len() == r@.len() && forall|i: int|
            0 <= i < l@.len() ==> #[trigger] l@[i] == ValueOrRef::Integer(r@[i] as i64),
        (
            ValueOrRef::Array(ArrayValueOrRef::Buffer(l)),
            ValueOrRef::Array(ArrayValueOrRef::List(_, r)),
        ) => l@.len() == r@.len() && forall|i: int|
            0 <= i < l@.len() ==> #[trigger] r@[i] == ValueOrRef::Integer(l@[i] as i64),
        (
            ValueOrRef::MapValue(MapValueOrRef { map: l, .. }),
            ValueOrRef::MapValue(MapValueOrRef { map: r, .. }),
        ) => l.entries().len() == r.entries().len()
            && forall|i: int|
            0 <= i < l.entries().len() ==> {
                &&& r.lookup((#[trigger] l.entries()[i]).0@) is Some
                &&& value_eq(l.entries()[i].1, r.lookup(l.entries()[i].0@)->0)
            },
        (ValueOrRef::Null, ValueOrRef::Null) => true,
        _ => false,
    }
}

/// Whether two values are the same in every part that a hash is taken of, and equal.
pub open spec fn value_same(left: ValueOrRef, right: ValueOrRef) -> bool
    decreases left,
{
    match (left, right) {
        (ValueOrRef::String(l), ValueOrRef::String(r)) => l@ == r@,
        (ValueOrRef::Integer(l), ValueOrRef::Integer(r)) => l == r,
        (ValueOrRef::Double(l), ValueOrRef::Double(r)) => l == r && !double_is_nan(l),
        (ValueOrRef::Boolean(l), ValueOrRef::Boolean(r)) => l == r,
        (ValueOrRef::DateTime(l), ValueOrRef::DateTime(r)) => l.seconds == r.seconds
            && l.nanoseconds == r.nanoseconds,
        (ValueOrRef::TimeSpan(l), ValueOrRef::TimeSpan(r)) => l == r,
        (ValueOrRef::Regex(l), ValueOrRef::Regex(r)) => l@ == r@,
        (
            ValueOrRef::Array(ArrayValueOrRef::List(_, l)),
            ValueOrRef::Array(ArrayValueOrRef::List(_, r)),
        ) => l@.len() == r@.len() && forall|i: int|
            0 <= i < l@.len() ==> value_same(#[trigger] l@[i], r@[i]),
        (
            ValueOrRef::Array(ArrayValueOrRef::Buffer(l)),
            ValueOrRef::Array(ArrayValueOrRef::Buffer(r)),
        ) => l@ == r@,
        (
            ValueOrRef::Array(ArrayValueOrRef::List(_, l)),
            ValueOrRef::Array(ArrayValueOrRef::Buffer(r)),
        ) => l@.len() == r@.len() && forall|i: int|
            0 <= i < l@.len() ==> #[trigger] l@[i] == ValueOrRef::Integer(r@[i] as i64),
        (
            ValueOrRef::Array(ArrayValueOrRef::Buffer(l)),
            ValueOrRef::Array(ArrayValueOrRef::List(_, r)),
        ) => l@.len() == r@.len() && forall|i: int|
            0 <= i < l@.len() ==> #[trigger] r@[i] == ValueOrRef::Integer(l@[i] as i64),
        (
            ValueOrRef::MapValue(MapValueOrRef { map: l, .. }),
            ValueOrRef::MapValue(MapValueOrRef { map: r, .. }),
        ) => l.entries().len() == r.entries().len()
            && forall|i: int|
            0 <= i < l.entries().len() ==> {
                &&& (#[trigger] l.entries()[i]).0@ == r.entries()[i].0@
                &&& value_same(l.entries()[i].1, r.entries()[i].1)
            },
        (ValueOrRef::Null, ValueOrRef::Null) => true,
        _ => false,
    }
}

fn doubles_equal(left: u64, right: u64) -> (r: bool)
    ensures
        r == double_eq(left, right),
{
    let l: u64 = left % 0x8000_0000_0000_0000;
    let r: u64 = right % 0x8000_0000_0000_0000;
    if l > 0x7FF0_0000_0000_0000 || r > 0x7FF0_0000_0000_0000 {
        false
    } else {
        left == right || (l == 0 && r == 0)
    }
}

fn bytes_equal(left: &Vec<u8>, right: &Vec<u8>) -> (r: bool)
    ensures
        r == (left@ == right@),
{
    if left.len() != right.len() {
        return false;
    }
    let mut i: usize = 0;
    while i < left.len()
        invariant
            i <= left@.len() == right@.len(),
            forall|j: int| 0 <= j < i ==> left@[j] == right@[j],
        decreases left@.len() - i,
    {
        if left[i] != right[i] {
            return false;
        }
        i = i + 1;
    }
    assert(left@ =~= right@);
    true
}

fn integers_equal_bytes(values: &Vec<ValueOrRef>, bytes: &Vec<u8>) -> (r: bool)
    ensures
        r == (values@.len() == bytes@.len() && forall|i: int|
            0 <= i < values@.len() ==> #[trigger] values@[i] == ValueOrRef::Integer(
                bytes@[i] as i64,
            )),
{
    if values.len() != bytes.len() {
        return false;
    }
    let mut i: usize = 0;
    while i < values.len()
        invariant
            i <= values@.len() == bytes@.len(),
            forall|j: int|
                0 <= j < i ==> #[trigger] values@[j] == ValueOrRef::Integer(bytes@[j] as i64),
        decreases values@.len() - i,
    {
        let same = match &values[i] {
            ValueOrRef::Integer(n) => *n == bytes[i] as i64,
            _ => false,
        };
        if !same {
            assert(values@[i as int] != ValueOrRef::Integer(bytes@[i as int] as i64));
            return false;
        }
        i = i + 1;
    }
    true
}

/// Compares two values as [`value_eq`] says.
pub fn values_equal(left: &ValueOrRef, right: &ValueOrRef) -> (r: bool)
    ensures
        r == value_eq(*left, *right),
    decreases *left,
{
    match (left, right) {
        (ValueOrRef::String(l), ValueOrRef::String(r)) => **l == **r,
        (ValueOrRef::Integer(l), ValueOrRef::Integer(r)) => *l == *r,
        (ValueOrRef::Double(l), ValueOrRef::Double(r)) => doubles_equal(*l, *r),
        (ValueOrRef::Boolean(l), ValueOrRef::Boolean(r)) => *l == *r,
        (ValueOrRef::DateTime(l), ValueOrRef::DateTime(r)) => l.seconds == r.seconds
            && l.nanoseconds == r.nanoseconds,
        (ValueOrRef::TimeSpan(l), ValueOrRef::TimeSpan(r)) => *l == *r,
        (ValueOrRef::Regex(l), ValueOrRef::Regex(r)) => **l == **r,
        (
            ValueOrRef::Array(ArrayValueOrRef::List(left_form, l)),
            ValueOrRef::Array(ArrayValueOrRef::List(right_form, r)),
        ) => {
            if l.len() != r.len() {
                return false;
            }
            let mut i: usize = 0;
            while i < l.len()
                invariant
                    *left == ValueOrRef::Array(ArrayValueOrRef::List(*left_form, *l)),
                    *right == ValueOrRef::Array(ArrayValueOrRef::List(*right_form, *r)),
                    i <= l@.len() == r@.len(),
                    forall|j: int| 0 <= j < i ==> value_eq(#[trigger] l@[j], r@[j]),
                decreases l@.len() - i,
            {
                proof {
                    assert(decreases_to!(*left => left->Array_0));
                    assert(decreases_to!(left->Array_0 => left->Array_0->List_1));
                    assert(decreases_to!(left->Array_0->List_1 => left->Array_0->List_1@));
                    assert(decreases_to!(l@ => l@[i as int]));
                }
                if !values_equal(&l[i], &r[i]) {
                    assert(!value_eq(l@[i as int], r@[i as int]));
                    return false;
                }
                i = i + 1;
            }
            true
        },
        (
            ValueOrRef::Array(ArrayValueOrRef::Buffer(l)),
            ValueOrRef::Array(ArrayValueOrRef::Buffer(r)),
        ) => bytes_equal(l, r),
        (
            ValueOrRef::Array(ArrayValueOrRef::List(_, l)),
            ValueOrRef::Array(ArrayValueOrRef::Buffer(r)),
        ) => integers_equal_bytes(l, r),
        (
            ValueOrRef::Array(ArrayValueOrRef::Buffer(l)),
            ValueOrRef::Array(ArrayValueOrRef::List(_, r)),
        ) => integers_equal_bytes(r, l),
        (
            ValueOrRef::MapValue(MapValueOrRef { map: l, .. }),
            ValueOrRef::MapValue(MapValueOrRef { map: r, .. }),
        ) => {
            if l.values.len() != r.values.len() {
                return false;
            }
            let mut i: usize = 0;
            while i < l.values.len()
                invariant
                    *left is MapValue,
                    left->MapValue_0.map == *l,
                    *right is MapValue,
                    right->MapValue_0.map == *r,
                    i <= l.values@.len() == r.values@.len(),
                    forall|j: int|
                        0 <= j < i ==> {
                            &&& r.lookup((#[trigger] l.entries()[j]).0@) is Some
                            &&& value_eq(l.entries()[j].1, r.lookup(l.entries()[j].0@)->0)
                        },
                decreases l.values@.len() - i,
            {
                let entry = &l.values[i];
                proof {
                    assert(decreases_to!(*left => left->MapValue_0));
                    assert(decreases_to!(left->MapValue_0 => left->MapValue_0.map));
                    assert(decreases_to!(left->MapValue_0.map => left->MapValue_0.map.values));
                    assert(decreases_to!(
                        left->MapValue_0.map.values => left->MapValue_0.map.values@
                    ));
                    assert(decreases_to!(l.values@ => l.values@[i as int]));
                    assert(decreases_to!(l.values@[i as int] => l.values@[i as int].1));
                    assert(l.entries()[i as int] == *entry);
                }
                match r.get(entry.0.as_str()) {
                    None => {
                        return false;
                    },
                    Some(other) => {
                        if !values_equal(&entry.1, other) {
                            return false;
                        }
                    },
                }
                i = i + 1;
            }
            true
        },
        (ValueOrRef::Null, ValueOrRef::Null) => true,
        _ => false,
    }
}

impl PartialEq for ValueOrRef {
    fn eq(&self, other: &Self) -> (r: bool) {
        values_equal(self, other)
    }
}

impl vstd::std_specs::cmp::PartialEqSpecImpl for ValueOrRef {
    open spec fn obeys_eq_spec() -> bool {
        true
    }

    open spec fn eq_spec(&self, other: &Self) -> bool {
        value_eq(*self, *other)
    }
}

impl Eq for ValueOrRef {

}

impl Clone for ValueOrRef {
    fn clone(&self) -> (copy: Self)
        ensures
            copy == *self,
    {
        match self {
            ValueOrRef::Array(a) => ValueOrRef::Array(a.clone()),
            ValueOrRef::Boolean(b) => ValueOrRef::Boolean(*b),
            ValueOrRef::DateTime(d) => ValueOrRef::DateTime(*d),
            ValueOrRef::Double(d) => ValueOrRef::Double(*d),
            ValueOrRef::Integer(i) => ValueOrRef::Integer(*i),
            ValueOrRef::MapValue(m) => ValueOrRef::MapValue(m.clone()),
            ValueOrRef::Null => ValueOrRef::Null,
            ValueOrRef::Regex(r) => ValueOrRef::Regex(r.clone()),
            ValueOrRef::String(s) => ValueOrRef::String(s.clone()),
            ValueOrRef::TimeSpan(t) => ValueOrRef::TimeSpan(*t),
        }
    }
}

impl Clone for MapValueOrRef {
    fn clone(&self) -> (copy: Self)
        ensures
            copy == *self,
    {
        MapValueOrRef { owned: self.owned, map: self.map.clone() }
    }
}

impl Clone for ArrayValueOrRef {
    fn clone(&self) -> (copy: Self)
        ensures
            copy == *self,
    {
        match self {
            ArrayValueOrRef::List(form, a) => ArrayValueOrRef::List(*form, a.clone()),
            ArrayValueOrRef::Buffer(b) => ArrayValueOrRef::Buffer(b.clone()),
        }
    }
}

impl ValueOrRef {
    /// The kind of the value.
    pub open spec fn value_type(self) -> ValueType {
        match self {
            ValueOrRef::Array(_) => ValueType::Array,
            ValueOrRef::String(_) => ValueType::String,
            ValueOrRef::Integer(_) => ValueType::Integer,
            ValueOrRef::Double(_) => ValueType::Double,
            ValueOrRef::Boolean(_) => ValueType::Boolean,
            ValueOrRef::DateTime(_) => ValueType::DateTime,
            ValueOrRef::TimeSpan(_) => ValueType::TimeSpan,
            ValueOrRef::Regex(_) => ValueType::Regex,
            ValueOrRef::MapValue(_) => ValueType::MapValue,
            ValueOrRef::Null => ValueType::Null,
        }
    }

    /// The kind of the value.
    pub fn get_value_type(&self) -> (r: ValueType)
        ensures
            r == self.value_type(),
    {
        match self {
            ValueOrRef::Array(_) => ValueType::Array,
            ValueOrRef::String(_) => ValueType::String,
            ValueOrRef::Integer(_) => ValueType::Integer,
            ValueOrRef::Double(_) => ValueType::Double,
            ValueOrRef::Boolean(_) => ValueType::Boolean,
            ValueOrRef::DateTime(_) => ValueType::DateTime,
            ValueOrRef::TimeSpan(_) => ValueType::TimeSpan,
            ValueOrRef::Regex(_) => ValueType::Regex,
            ValueOrRef::MapValue(_) => ValueType::MapValue,
            ValueOrRef::Null => ValueType::Null,
        }
    }

    /// A text value.
    pub fn new_string(text: &str) -> (value: Self)
        ensures
            value matches ValueOrRef::String(s) && s@ == text@,
    {
        ValueOrRef::String(Rc::new(text.to_owned()))
    }

    /// Whether the value is null.
    pub fn is_null(&self) -> (r: bool)
        ensures
            r == (*self is Null),
    {
        match self {
            ValueOrRef::Null => true,
            _ => false,
        }
    }
}

/// A list of the same values.
pub fn copy_values(values: &Vec<ValueOrRef>) -> (copy: Vec<ValueOrRef>)
    ensures
        copy@ == values@,
{
    let mut copy: Vec<ValueOrRef> = Vec::new();
    let mut i: usize = 0;
    while i < values.len()
        invariant
            i <= values@.len(),
            copy@ == values@.subrange(0, i as int),
        decreases values@.len() - i,
    {
        copy.push(values[i].clone());
        i = i + 1;
        proof {
            assert(values@.subrange(0, i as int) =~= values@.subrange(0, i - 1).push(
                values@[i - 1],
            ));
        }
    }
    proof {
        assert(values@.subrange(0, i as int) =~= values@);
    }
    copy
}

impl Clone for OwnedMapValue {
    fn clone(&self) -> (copy: Self)
        ensures
            copy.entries() == self.entries(),
    {
        proof {
            use_type_invariant(self);
        }
        let mut values: Vec<(Rc<String>, ValueOrRef)> = Vec::new();
        let mut i: usize = 0;
        while i < self.values.len()
            invariant
                i <= self.values@.len(),
                values@ == self.values@.subrange(0, i as int),
            decreases self.values@.len() - i,
        {
            let entry = &self.values[i];
            values.push((entry.0.clone(), entry.1.clone()));
            i = i + 1;
            proof {
                assert(self.values@.subrange(0, i as int) =~= self.values@.subrange(
                    0,
                    i - 1,
                ).push(self.values@[i - 1]));
            }
        }
        proof {
            assert(self.values@.subrange(0, i as int) =~= self.values@);
        }
        OwnedMapValue { positions: index_entries(&values), values }
    }
}

impl ArrayValueOrRef {
    /// The elements of the array.
    pub open spec fn elements(self) -> Seq<ValueOrRef> {
        match self {
            ArrayValueOrRef::List(ArrayForm::Ref, values) => Seq::new(
                values@.len(),
                |i: int| borrowed(values@[i]),
            ),
            ArrayValueOrRef::List(_, values) => values@,
            ArrayValueOrRef::Buffer(bytes) => Seq::new(
                bytes@.len(),
                |i: int| ValueOrRef::Integer(bytes@[i] as i64),
            ),
        }
    }

    /// Whether the array has no element.
    pub fn is_empty(&self) -> (r: bool)
        ensures
            r == (self.elements().len() == 0),
    {
        self.len() == 0
    }

    /// The number of elements.
    pub fn len(&self) -> (r: usize)
        ensures
            r == self.elements().len(),
    {
        match self {
            ArrayValueOrRef::List(_, values) => values.len(),
            ArrayValueOrRef::Buffer(bytes) => bytes.len(),
        }
    }

    /// The element at `index`, null past the end.
    pub fn get(&self, index: usize) -> (r: ValueOrRef)
        ensures
            r == (if index < self.elements().len() {
                self.elements()[index as int]
            } else {
                ValueOrRef::Null
            }),
    {
        match self {
            ArrayValueOrRef::List(form, values) => {
                if index < values.len() {
                    match form {
                        ArrayForm::Ref => values[index].borrow_value(),
                        _ => values[index].clone(),
                    }
                } else {
                    ValueOrRef::Null
                }
            },
            ArrayValueOrRef::Buffer(bytes) => {
                if index < bytes.len() {
                    ValueOrRef::Integer(bytes[index] as i64)
                } else {
                    ValueOrRef::Null
                }
            },
        }
    }
}

impl ValueOrRef {
    /// The value as a part of what is borrowed: an array and a map are borrowed, any other value is
    /// copied.
    pub fn borrow_value(&self) -> (r: ValueOrRef)
        ensures
            r == borrowed(*self),
    {
        match self {
            ValueOrRef::Array(ArrayValueOrRef::List(_, values)) => ValueOrRef::Array(
                ArrayValueOrRef::List(ArrayForm::Ref, values.clone()),
            ),
            ValueOrRef::MapValue(map) => ValueOrRef::MapValue(
                MapValueOrRef { owned: false, map: map.map.clone() },
            ),
            _ => self.clone(),
        }
    }
}

impl MapValueOrRef {
    /// A map that is owned.
    pub fn new_owned(map: OwnedMapValue) -> (r: Self)
        ensures
            r.owned,
            r.map.entries() == map.entries(),
            r.map.contents() == map.contents(),
    {
        MapValueOrRef { owned: true, map: Rc::new(map) }
    }

    /// The value under `key`; a borrowed map hands it out borrowed.
    pub open spec fn lookup(self, key: Seq<char>) -> Option<ValueOrRef> {
        match self.map.lookup(key) {
            Some(value) => Some(
                if self.owned {
                    value
                } else {
                    borrowed(value)
                },
            ),
            None => None,
        }
    }

    /// The value under `key`.
    pub fn get(&self, key: &str) -> (r: Option<ValueOrRef>)
        ensures
            r == self.lookup(key@),
    {
        match self.map.get(key) {
            Some(value) => Some(
                if self.owned {
                    value.clone()
                } else {
                    value.borrow_value()
                },
            ),
            None => None,
        }
    }
}

impl OwnedMapValue {
    /// A map with no entry.
    pub fn new() -> (map: Self)
        ensures
            map.entries() == (Seq::<(Rc<String>, ValueOrRef)>::empty()),
    {
        OwnedMapValue { positions: text_position_map_new(), values: Vec::new() }
    }

    /// The number of entries.
    pub fn len(&self) -> (r: usize)
        ensures
            r == self.entries().len(),
    {
        self.values.len()
    }

    /// Whether the map has no entry.
    pub fn is_empty(&self) -> (r: bool)
        ensures
            r == (self.entries().len() == 0),
    {
        self.values.len() == 0
    }

    /// The entries, in the order in which their keys first came.
    pub fn get_values(&self) -> (r: &Vec<(Rc<String>, ValueOrRef)>)
        ensures
            r@ == self.entries(),
    {
        &self.values
    }

    fn find(&self, key: &str) -> (r: Option<usize>)
        ensures
            r matches Some(i) ==> i < self.values@.len() && self.values@[i as int].0@ == key@
                && self.has_key(key@) && self.position(key@) == i,
            r is None ==> !self.has_key(key@),
    {
        proof {
            use_type_invariant(self);
        }
        match text_position_map_get(&self.positions, key) {
            Some(i) => {
                proof {
                    self.lemma_position(i as int);
                }
                Some(i)
            },
            None => {
                proof {
                    if self.has_key(key@) {
                        assert(self.values@[self.position(key@)].0@ == key@);
                    }
                }
                None
            },
        }
    }

    /// Whether the map has an entry for `key`.
    pub fn contains_key(&self, key: &str) -> (r: bool)
        ensures
            r == self.has_key(key@),
    {
        self.find(key).is_some()
    }

    /// The entry at a position is the one for its key.
    proof fn lemma_position(self, i: int)
        requires
            self.distinct_keys(),
            0 <= i < self.entries().len(),
        ensures
            self.has_key(self.entries()[i].0@),
            self.position(self.entries()[i].0@) == i,
    {
        let key = self.entries()[i].0@;
        let p = self.position(key);
        assert(self.entries()[p].0@ == key);
        assert(self.values@[i].0@ == self.values@[p].0@);
    }

    /// Puts a value under a key, in place of one that is there.
    pub fn insert(&mut self, key: &Rc<String>, value: ValueOrRef)
        ensures
            final(self).contents() == old(self).contents().insert(key@, value),
    {
        let found: Option<usize> = self.find(key.as_str());
        proof {
            use_type_invariant(&*self);
        }
        let ghost before = *self;
        let ghost given = value;
        let mut taken = OwnedMapValue::new();
        core::mem::swap(self, &mut taken);
        let OwnedMapValue { positions, values } = taken;
        let mut positions = positions;
        let mut values = values;
        match found {
            Some(position) => {
                values.set(position, (key.clone(), value));
            },
            None => {
                text_position_map_insert(&mut positions, (**key).clone(), values.len());
                values.push((key.clone(), value));
                proof {
                    assert forall|i: int| 0 <= i < before.values@.len() implies (
                    #[trigger] before.values@[i]).0@ != key@ by {
                        assert(before.entries()[i].0@ == before.values@[i].0@);
                    }
                }
            },
        }
        *self = OwnedMapValue { positions, values };
        proof {
            let place = match found {
                Some(position) => position as int,
                None => before.values@.len() as int,
            };
            assert(self.entries()[place].0@ == key@);
            self.lemma_position(place);
            assert forall|k: Seq<char>| k != key@ implies self.has_key(k) == before.has_key(k)
                && (before.has_key(k) ==> self.contents()[k] == before.contents()[k]) by {
                if before.has_key(k) {
                    let i = before.position(k);
                    assert(self.entries()[i] == before.entries()[i]);
                    self.lemma_position(i);
                }
                if self.has_key(k) {
                    let i = self.position(k);
                    assert(before.entries()[i] == self.entries()[i]);
                }
            }
            assert(self.contents() =~= before.contents().insert(key@, given));
        }
    }

    /// Takes the entry for a key away.
    pub fn remove(&mut self, key: &str)
        ensures
            final(self).contents() == old(self).contents().remove(key@),
    {
        let found: Option<usize> = self.find(key);
        proof {
            use_type_invariant(&*self);
        }
        let ghost before = *self;
        match found {
            Some(position) => {
                let mut taken = OwnedMapValue::new();
                core::mem::swap(self, &mut taken);
                let OwnedMapValue { values, .. } = taken;
                let mut values = values;
                let _ = values.remove(position);
                *self = OwnedMapValue { positions: index_entries(&values), values };
                proof {
                    assert forall|k: Seq<char>| k != key@ implies self.has_key(k) == before.has_key(k)
                        && (before.has_key(k) ==> self.contents()[k] == before.contents()[k]) by {
                        if before.has_key(k) {
                            let i = before.position(k);
                            let j = if i < position {
                                i
                            } else {
                                i - 1
                            };
                            assert(self.entries()[j] == before.entries()[i]);
                            self.lemma_position(j);
                        }
                        if self.has_key(k) {
                            let j = self.position(k);
                            let i = if j < position {
                                j
                            } else {
                                j + 1
                            };
                            assert(before.entries()[i] == self.entries()[j]);
                        }
                    }
                    assert(!self.has_key(key@)) by {
                        if self.has_key(key@) {
                            let j = self.position(key@);
                            let i = if j < position {
                                j
                            } else {
                                j + 1
                            };
                            assert(before.values@[i].0@ == before.values@[position as int].0@);
                        }
                    }
                    assert(self.contents() =~= before.contents().remove(key@));
                }
            },
            None => {
                proof {
                    assert(self.contents() =~= before.contents().remove(key@));
                }
            },
        }
    }

    /// The value under `key`.
    pub fn get(&self, key: &str) -> (r: Option<&ValueOrRef>)
        ensures
            r is Some == self.lookup(key@) is Some,
            r matches Some(value) ==> self.lookup(key@) == Some(*value),
    {
        match self.find(key) {
            Some(i) => Some(&self.values[i].1),
            None => None,
        }
    }
}

}
