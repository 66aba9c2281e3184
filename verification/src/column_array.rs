//! Typed columns of records.

use std::rc::Rc;

use vstd::prelude::*;

use crate::value::{ArrayValueOrRef, DateTimeValue, ValueOrRef};

verus! {

/// The unit of a column of timestamps.
#[derive(Debug, Clone, Copy, PartialEq, Eq, Hash, Structural)]
pub enum TimeUnit {
    Second,
    Millisecond,
    Microsecond,
    Nanosecond,
}

impl TimeUnit {
    /// How many of the unit make a second.
    pub open spec fn per_second(self) -> int {
        match self {
            TimeUnit::Second => 1,
            TimeUnit::Millisecond => 1_000,
            TimeUnit::Microsecond => 1_000_000,
            TimeUnit::Nanosecond => 1_000_000_000,
        }
    }

    /// How many nanoseconds the unit lasts.
    pub open spec fn nanoseconds_each(self) -> int {
        match self {
            TimeUnit::Second => 1_000_000_000,
            TimeUnit::Millisecond => 1_000_000,
            TimeUnit::Microsecond => 1_000,
            TimeUnit::Nanosecond => 1,
        }
    }

    fn units_per_second(self) -> (r: i64)
        ensures
            r == self.per_second(),
    {
        match self {
            TimeUnit::Second => 1,
            TimeUnit::Millisecond => 1_000,
            TimeUnit::Microsecond => 1_000_000,
            TimeUnit::Nanosecond => 1_000_000_000,
        }
    }
}

/// The first second that a point in time can be in.
pub const MIN_SECONDS: i64 = -8_334_601_228_800;

/// The last second that a point in time can be in.
pub const MAX_SECONDS: i64 = 8_210_266_876_799;

/// Whether a point in time of that unit can be represented.
pub open spec fn timestamp_in_range(unit: TimeUnit, timestamp: i64) -> bool {
    MIN_SECONDS <= timestamp as int / unit.per_second() <= MAX_SECONDS
}

/// The point in time `timestamp` units after the Unix epoch.
pub open spec fn timestamp_value(unit: TimeUnit, timestamp: i64) -> DateTimeValue {
    DateTimeValue {
        seconds: (timestamp as int / unit.per_second()) as i64,
        nanoseconds: ((timestamp as int % unit.per_second()) * unit.nanoseconds_each()) as u32,
        offset_seconds: 0,
    }
}

/// `chrono::DateTime::from_timestamp`: the point in time that many seconds and nanoseconds after the
/// Unix epoch. There is none where the year is not between -262143 and 262142.
#[verifier::external_body]
fn utc_from_timestamp(seconds: i64, nanoseconds: u32) -> (r: Option<DateTimeValue>)
    requires
        nanoseconds < 1_000_000_000,
    ensures
        r is Some == (MIN_SECONDS <= seconds <= MAX_SECONDS),
        r matches Some(value) ==> value == (DateTimeValue {
            seconds,
            nanoseconds,
            offset_seconds: 0,
        }),
{
    chrono::DateTime::from_timestamp(seconds, nanoseconds).map(
        |d| DateTimeValue {
            seconds: d.timestamp(),
            nanoseconds: d.timestamp_subsec_nanos(),
            offset_seconds: 0,
        },
    )
}

/// The point in time `timestamp` units after the Unix epoch, if it can be represented.
pub fn timestamp_to_value(unit: TimeUnit, timestamp: i64) -> (r: Option<DateTimeValue>)
    ensures
        r is Some == timestamp_in_range(unit, timestamp),
        r matches Some(value) ==> value == timestamp_value(unit, timestamp),
{
    let per_second: i64 = unit.units_per_second();
    let seconds: i64 = timestamp.checked_div_euclid(per_second).unwrap();
    let fraction: i64 = timestamp.checked_rem_euclid(per_second).unwrap();
    let nanoseconds: u32 = match unit {
        TimeUnit::Second => 0,
        TimeUnit::Millisecond => (fraction * 1_000_000) as u32,
        TimeUnit::Microsecond => (fraction * 1_000) as u32,
        TimeUnit::Nanosecond => fraction as u32,
    };
    utc_from_timestamp(seconds, nanoseconds)
}

/// A column of timestamps, each of which can be represented.
#[derive(Debug)]
pub struct TimestampColumn {
    unit: TimeUnit,
    values: Vec<Option<i64>>,
}

impl TimestampColumn {
    #[verifier::type_invariant]
    spec fn inv(self) -> bool {
        forall|i: int|
            0 <= i < self.values@.len() ==> (#[trigger] self.values@[i] matches Some(timestamp)
                ==> timestamp_in_range(self.unit, timestamp))
    }

    /// The unit of the timestamps.
    pub closed spec fn spec_unit(self) -> TimeUnit {
        self.unit
    }

    /// The timestamps.
    pub closed spec fn timestamps(self) -> Seq<Option<i64>> {
        self.values@
    }

    /// A column of the given timestamps, unless one of them cannot be represented.
    pub fn new(unit: TimeUnit, values: Vec<Option<i64>>) -> (r: Option<Self>)
        ensures
            r is Some == (forall|i: int|
                0 <= i < values@.len() ==> (#[trigger] values@[i] matches Some(timestamp)
                    ==> timestamp_in_range(unit, timestamp))),
            r matches Some(column) ==> column.spec_unit() == unit && column.timestamps() == values@,
    {
        let mut i: usize = 0;
        while i < values.len()
            invariant
                i <= values@.len(),
                forall|j: int|
                    0 <= j < i ==> (#[trigger] values@[j] matches Some(timestamp)
                        ==> timestamp_in_range(unit, timestamp)),
            decreases values@.len() - i,
        {
            if let Some(timestamp) = values[i] {
                if timestamp_to_value(unit, timestamp).is_none() {
                    assert(values@[i as int] matches Some(t) && !timestamp_in_range(unit, t));
                    return None;
                }
            }
            i = i + 1;
        }
        Some(TimestampColumn { unit, values })
    }

    /// The unit of the timestamps.
    pub fn unit(&self) -> (r: TimeUnit)
        ensures
            r == self.spec_unit(),
    {
        self.unit
    }

    /// The timestamps.
    pub fn values(&self) -> (r: &Vec<Option<i64>>)
        ensures
            r@ == self.timestamps(),
    {
        &self.values
    }

    fn get(&self, index: usize) -> (r: ValueOrRef)
        requires
            index < self.timestamps().len(),
        ensures
            r == (match self.timestamps()[index as int] {
                Some(timestamp) => ValueOrRef::DateTime(timestamp_value(self.spec_unit(), timestamp)),
                None => ValueOrRef::Null,
            }),
    {
        proof {
            use_type_invariant(self);
        }
        match self.values[index] {
            Some(timestamp) => ValueOrRef::DateTime(
                timestamp_to_value(self.unit, timestamp).unwrap(),
            ),
            None => ValueOrRef::Null,
        }
    }
}

/// A column of one type. A double is held as its IEEE 754 bits.
#[derive(Debug)]
pub enum ColumnArray {
    Int8(Vec<Option<i8>>),
    Int16(Vec<Option<i16>>),
    Int32(Vec<Option<i32>>),
    Int64(Vec<Option<i64>>),
    UInt8(Vec<Option<u8>>),
    UInt16(Vec<Option<u16>>),
    UInt32(Vec<Option<u32>>),
    UInt64(Vec<Option<u64>>),
    Float64(Vec<Option<u64>>),
    Utf8(Vec<Option<Rc<String>>>),
    Timestamp(TimestampColumn),
    FixedSizeBinary { size: usize, values: Vec<Option<Rc<Vec<u8>>>> },
}

impl ColumnArray {
    /// The number of entries.
    pub open spec fn spec_len(self) -> nat {
        match self {
            ColumnArray::Int8(v) => v@.len(),
            ColumnArray::Int16(v) => v@.len(),
            ColumnArray::Int32(v) => v@.len(),
            ColumnArray::Int64(v) => v@.len(),
            ColumnArray::UInt8(v) => v@.len(),
            ColumnArray::UInt16(v) => v@.len(),
            ColumnArray::UInt32(v) => v@.len(),
            ColumnArray::UInt64(v) => v@.len(),
            ColumnArray::Float64(v) => v@.len(),
            ColumnArray::Utf8(v) => v@.len(),
            ColumnArray::Timestamp(v) => v.timestamps().len(),
            ColumnArray::FixedSizeBinary { values, .. } => values@.len(),
        }
    }

    /// The entry at `i`, as a value. An unsigned integer past the largest signed one wraps round.
    pub open spec fn value(self, i: int) -> ValueOrRef {
        match self {
            ColumnArray::Int8(v) => match v@[i] {
                Some(n) => ValueOrRef::Integer(n as i64),
                None => ValueOrRef::Null,
            },
            ColumnArray::Int16(v) => match v@[i] {
                Some(n) => ValueOrRef::Integer(n as i64),
                None => ValueOrRef::Null,
            },
            ColumnArray::Int32(v) => match v@[i] {
                Some(n) => ValueOrRef::Integer(n as i64),
                None => ValueOrRef::Null,
            },
            ColumnArray::Int64(v) => match v@[i] {
                Some(n) => ValueOrRef::Integer(n),
                None => ValueOrRef::Null,
            },
            ColumnArray::UInt8(v) => match v@[i] {
                Some(n) => ValueOrRef::Integer(n as i64),
                None => ValueOrRef::Null,
            },
            ColumnArray::UInt16(v) => match v@[i] {
                Some(n) => ValueOrRef::Integer(n as i64),
                None => ValueOrRef::Null,
            },
            ColumnArray::UInt32(v) => match v@[i] {
                Some(n) => ValueOrRef::Integer(n as i64),
                None => ValueOrRef::Null,
            },
            ColumnArray::UInt64(v) => match v@[i] {
                Some(n) => ValueOrRef::Integer(n as i64),
                None => ValueOrRef::Null,
            },
            ColumnArray::Float64(v) => match v@[i] {
                Some(bits) => ValueOrRef::Double(bits),
                None => ValueOrRef::Null,
            },
            ColumnArray::Utf8(v) => match v@[i] {
                Some(text) => ValueOrRef::String(text),
                None => ValueOrRef::Null,
            },
            ColumnArray::Timestamp(v) => match v.timestamps()[i] {
                Some(timestamp) => ValueOrRef::DateTime(timestamp_value(v.spec_unit(), timestamp)),
                None => ValueOrRef::Null,
            },
            ColumnArray::FixedSizeBinary { values, .. } => match values@[i] {
                Some(bytes) => ValueOrRef::Array(ArrayValueOrRef::Buffer(bytes)),
                None => ValueOrRef::Null,
            },
        }
    }

    /// The number of entries.
    pub fn len(&self) -> (r: usize)
        ensures
            r == self.spec_len(),
    {
        match self {
            ColumnArray::Int8(v) => v.len(),
            ColumnArray::Int16(v) => v.len(),
            ColumnArray::Int32(v) => v.len(),
            ColumnArray::Int64(v) => v.len(),
            ColumnArray::UInt8(v) => v.len(),
            ColumnArray::UInt16(v) => v.len(),
            ColumnArray::UInt32(v) => v.len(),
            ColumnArray::UInt64(v) => v.len(),
            ColumnArray::Float64(v) => v.len(),
            ColumnArray::Utf8(v) => v.len(),
            ColumnArray::Timestamp(v) => v.values().len(),
            ColumnArray::FixedSizeBinary { values, .. } => values.len(),
        }
    }
}

/// The entry at `index` as a value, null past the end.
pub fn get_value_from_array(array: &ColumnArray, index: usize) -> (r: ValueOrRef)
    ensures
        r == (if index < array.spec_len() {
            array.value(index as int)
        } else {
            ValueOrRef::Null
        }),
{
    if index >= array.len() {
        return ValueOrRef::Null;
    }
    match array {
        ColumnArray::Int8(v) => match v[index] {
            Some(n) => ValueOrRef::Integer(n as i64),
            None => ValueOrRef::Null,
        },
        ColumnArray::Int16(v) => match v[index] {
            Some(n) => ValueOrRef::Integer(n as i64),
            None => ValueOrRef::Null,
        },
        ColumnArray::Int32(v) => match v[index] {
            Some(n) => ValueOrRef::Integer(n as i64),
            None => ValueOrRef::Null,
        },
        ColumnArray::Int64(v) => match v[index] {
            Some(n) => ValueOrRef::Integer(n),
            None => ValueOrRef::Null,
        },
        ColumnArray::UInt8(v) => match v[index] {
            Some(n) => ValueOrRef::Integer(n as i64),
            None => ValueOrRef::Null,
        },
        ColumnArray::UInt16(v) => match v[index] {
            Some(n) => ValueOrRef::Integer(n as i64),
            None => ValueOrRef::Null,
        },
        ColumnArray::UInt32(v) => match v[index] {
            Some(n) => ValueOrRef::Integer(n as i64),
            None => ValueOrRef::Null,
        },
        ColumnArray::UInt64(v) => match v[index] {
            Some(n) => ValueOrRef::Integer(n as i64),
            None => ValueOrRef::Null,
        },
        ColumnArray::Float64(v) => match v[index] {
            Some(bits) => ValueOrRef::Double(bits),
            None => ValueOrRef::Null,
        },
        ColumnArray::Utf8(v) => match &v[index] {
            Some(text) => ValueOrRef::String(text.clone()),
            None => ValueOrRef::Null,
        },
        ColumnArray::Timestamp(v) => v.get(index),
        ColumnArray::FixedSizeBinary { values, .. } => match &values[index] {
            Some(bytes) => ValueOrRef::Array(ArrayValueOrRef::Buffer(bytes.clone())),
            None => ValueOrRef::Null,
        },
    }
}

}
