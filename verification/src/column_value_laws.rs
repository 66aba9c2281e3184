//! What columns, bodies and texts that are read hold.

use vstd::prelude::*;

use crate::attribute_columns::{DictionaryColumn, ValueCodec};
use crate::column_array::{ColumnArray, TimeUnit};
use crate::log_body::LogsBody;
use crate::value::{ArrayValueOrRef, ValueOrRef};

verus! {

/// How many nanoseconds a unit of time lasts.
pub open spec fn lasts(unit: TimeUnit) -> int {
    match unit {
        TimeUnit::Second => 1_000_000_000,
        TimeUnit::Millisecond => 1_000_000,
        TimeUnit::Microsecond => 1_000,
        TimeUnit::Nanosecond => 1,
    }
}

/// A timestamp that can be represented is that many units after the epoch: its seconds and nanoseconds
/// add up to the same time, and the nanoseconds are less than a second.
pub proof fn lemma_timestamp_is_the_time(unit: TimeUnit, timestamp: i64)
    requires
        crate::column_array::timestamp_in_range(unit, timestamp),
    ensures
        crate::column_array::timestamp_value(unit, timestamp).seconds * 1_000_000_000
            + crate::column_array::timestamp_value(unit, timestamp).nanoseconds == timestamp * lasts(
            unit,
        ),
        crate::column_array::timestamp_value(unit, timestamp).nanoseconds < 1_000_000_000,
        crate::column_array::timestamp_value(unit, timestamp).offset_seconds == 0,
{
    let n = timestamp as int;
    let per_second = unit.per_second();
    let each = unit.nanoseconds_each();
    let value = crate::column_array::timestamp_value(unit, timestamp);
    assert(value.seconds == (n / per_second) as i64);
    assert(value.nanoseconds == ((n % per_second) * each) as u32);
    lemma_parts_of_a_second(n, per_second, each);
    assert(per_second * each == 1_000_000_000) by {
        assert(1 * 1_000_000_000 == 1_000_000_000 && 1_000 * 1_000_000 == 1_000_000_000);
    }
    assert(each == lasts(unit));
}

proof fn lemma_parts_of_a_second(n: int, per_second: int, each: int)
    by (nonlinear_arith)
    requires
        per_second > 0,
        each > 0,
    ensures
        (n / per_second) * (per_second * each) + (n % per_second) * each == n * each,
        0 <= (n % per_second) * each < per_second * each,
{
    assert(n == per_second * (n / per_second) + n % per_second);
    assert(0 <= n % per_second < per_second);
}

/// The integer that a column of integers has for an entry.
pub open spec fn integer_in(column: ColumnArray, i: int) -> Option<int> {
    match column {
        ColumnArray::Int8(v) => if v@[i] is Some {
            Some(v@[i]->0 as int)
        } else {
            None
        },
        ColumnArray::Int16(v) => if v@[i] is Some {
            Some(v@[i]->0 as int)
        } else {
            None
        },
        ColumnArray::Int32(v) => if v@[i] is Some {
            Some(v@[i]->0 as int)
        } else {
            None
        },
        ColumnArray::Int64(v) => if v@[i] is Some {
            Some(v@[i]->0 as int)
        } else {
            None
        },
        ColumnArray::UInt8(v) => if v@[i] is Some {
            Some(v@[i]->0 as int)
        } else {
            None
        },
        ColumnArray::UInt16(v) => if v@[i] is Some {
            Some(v@[i]->0 as int)
        } else {
            None
        },
        ColumnArray::UInt32(v) => if v@[i] is Some {
            Some(v@[i]->0 as int)
        } else {
            None
        },
        ColumnArray::UInt64(v) => if v@[i] is Some {
            Some(v@[i]->0 as int)
        } else {
            None
        },
        _ => None,
    }
}

/// An entry of a column reads as what the column holds there: an integer, if it can be held, as that
/// integer, and other entries as themselves. A missing entry reads as null.
pub proof fn lemma_entry_reads(column: ColumnArray, i: int)
    ensures
        integer_in(column, i) matches Some(n) ==> (n <= i64::MAX ==> (column.value(
            i,
        ) matches ValueOrRef::Integer(held) && held == n)),
        match column {
            ColumnArray::Float64(v) => match v@[i] {
                Some(bits) => column.value(i) == ValueOrRef::Double(bits),
                None => column.value(i) is Null,
            },
            ColumnArray::Utf8(v) => match v@[i] {
                Some(text) => column.value(i) == ValueOrRef::String(text),
                None => column.value(i) is Null,
            },
            ColumnArray::Timestamp(v) => match v.timestamps()[i] {
                Some(timestamp) => crate::column_array::timestamp_in_range(
                    v.spec_unit(),
                    timestamp,
                ) ==> (column.value(i) matches ValueOrRef::DateTime(time) && time.seconds
                    * 1_000_000_000 + time.nanoseconds == timestamp * lasts(v.spec_unit())),
                None => column.value(i) is Null,
            },
            ColumnArray::FixedSizeBinary { values, .. } => match values@[i] {
                Some(bytes) => column.value(i) == ValueOrRef::Array(ArrayValueOrRef::Buffer(bytes)),
                None => column.value(i) is Null,
            },
            _ => integer_in(column, i) is None ==> column.value(i) is Null,
        },
{
    if let ColumnArray::Timestamp(v) = column {
        if let Some(timestamp) = times_of(column)[i] {
            if crate::column_array::timestamp_in_range(unit_of(column), timestamp) {
                lemma_timestamp_is_the_time(unit_of(column), timestamp);
            }
        }
    }
}

/// The timestamps of a column.
spec fn times_of(column: ColumnArray) -> Seq<Option<i64>> {
    match column {
        ColumnArray::Timestamp(v) => v.timestamps(),
        _ => Seq::empty(),
    }
}

/// The unit of the timestamps of a column.
spec fn unit_of(column: ColumnArray) -> TimeUnit {
    match column {
        ColumnArray::Timestamp(v) => v.spec_unit(),
        _ => TimeUnit::Second,
    }
}

/// Whether a column of distinct values has this value for a record, whether or not its key is null.
pub open spec fn keyed_as(
    column: Option<DictionaryColumn>,
    record: int,
    value: ValueOrRef,
) -> bool {
    match column {
        Some(column) => value == column.values@[column.keys.cells@[record] as int],
        None => value is Null,
    }
}

/// Whether the body of a record is this one, going by its kind: text, an integer, a double, a boolean,
/// a map or a list in serialized form, or bytes. A body whose column is missing is null, and so is one
/// of no kind.
pub open spec fn body_is<C: ValueCodec>(
    codec: &C,
    body: LogsBody,
    record: int,
    value: ValueOrRef,
) -> bool {
    match body.types->0@[record] {
        1 => keyed_as(body.strings, record, value),
        2 => keyed_as(body.ints, record, value),
        3 => match body.doubles {
            Some(column) => value == ValueOrRef::Double(column.cells@[record]),
            None => value is Null,
        },
        4 => match body.bools {
            Some(column) => value == ValueOrRef::Boolean(column.cells@[record]),
            None => value is Null,
        },
        5 => packed_as(codec, body.sers, record, value),
        6 => packed_as(codec, body.sers, record, value),
        7 => keyed_as(body.bytes, record, value),
        _ => value is Null,
    }
}

/// Whether a column of serialized values reads as this value for a record.
pub open spec fn packed_as<C: ValueCodec>(
    codec: &C,
    column: Option<DictionaryColumn>,
    record: int,
    value: ValueOrRef,
) -> bool {
    match column {
        Some(column) => crate::source_laws::unpacks(
            codec,
            column.values@[column.keys.cells@[record] as int],
            value,
        ),
        None => value is Null,
    }
}

/// The body of a record is what the column of its kind holds for the record.
pub proof fn lemma_body_by_kind<C: ValueCodec>(
    codec: &C,
    body: LogsBody,
    record: int,
    value: ValueOrRef,
)
    requires
        body.types is Some,
        body.body(codec, record, value),
    ensures
        body_is(codec, body, record, value),
{
    let kind = body.types->0@[record];
    assert(kind == body.kinds()[record]);
    if body.has_body(record) {
        let j = choose|j: int|
            0 <= j <= record && #[trigger] body.fresh(j) && (j == record || body.same_place(
                j,
                record,
            )) && body.reads(codec, j, value);
        assert(body.kinds()[j] == kind);
        if body.keyed(record) {
            assert(body.key(j) == body.key(record));
        }
    }
}

/// Whether a path leads to a part of a text in JSON form.
pub open spec fn json_leads(
    tree: crate::json::JsonTree,
    path: Seq<ValueOrRef>,
    found: crate::json::JsonTree,
) -> bool
    decreases path.len(),
{
    if path.len() == 0 {
        found == tree
    } else {
        match (tree, path[0]) {
            (crate::json::JsonTree::Items(items), ValueOrRef::Integer(index)) => {
                let place = crate::path_laws::list_place(index, items.len());
                0 <= place < items.len() && json_leads(items[place], path.drop_first(), found)
            },
            (crate::json::JsonTree::Entries(entries), ValueOrRef::String(key)) => exists|i: int|
                0 <= i < entries.len() && (#[trigger] entries[i]).0 == key@ && json_leads(
                    entries[i].1,
                    path.drop_first(),
                    found,
                ),
            _ => false,
        }
    }
}

/// Whether a part of a text in JSON form is this value. A number is an integer if it can be one, and
/// else a double.
pub open spec fn json_is(tree: crate::json::JsonTree, value: ValueOrRef) -> bool {
    match tree {
        crate::json::JsonTree::Null => value is Null,
        crate::json::JsonTree::Bool(b) => value == ValueOrRef::Boolean(b),
        crate::json::JsonTree::Number { integer, double, .. } => match integer {
            Some(n) => value == ValueOrRef::Integer(n),
            None => double is Some && value == ValueOrRef::Double(double->0),
        },
        crate::json::JsonTree::Text(text) => value matches ValueOrRef::String(held) && held@ == text,
        crate::json::JsonTree::Items(items) => value matches ValueOrRef::Array(
            ArrayValueOrRef::List(_, held),
        ) && held@.len() == items.len(),
        crate::json::JsonTree::Entries(_) => value is MapValue,
    }
}

/// A path leads in a value that was read from JSON to the value of the part that it leads to in the
/// text.
pub proof fn lemma_json_reads_along_paths(
    tree: crate::json::JsonTree,
    value: ValueOrRef,
    path: Seq<ValueOrRef>,
    found: crate::json::JsonTree,
)
    requires
        crate::json::is_value(tree, value),
        json_leads(tree, path, found),
    ensures
        crate::path_laws::followed(value, path) matches Some(part) && json_is(found, part),
    decreases path.len(),
{
    if path.len() > 0 {
        match (tree, path[0]) {
            (crate::json::JsonTree::Items(items), ValueOrRef::Integer(index)) => {
                let place = crate::path_laws::list_place(index, items.len());
                let held = value->Array_0->List_1;
                assert(crate::json::is_value(items[place], held@[place]));
                lemma_json_reads_along_paths(items[place], held@[place], path.drop_first(), found);
            },
            (crate::json::JsonTree::Entries(entries), ValueOrRef::String(key)) => {
                let i = choose|i: int|
                    0 <= i < entries.len() && (#[trigger] entries[i]).0 == key@ && json_leads(
                        entries[i].1,
                        path.drop_first(),
                        found,
                    );
                let part = crate::path_laws::inside(value, path[0]);
                assert(entries[i].0 == key@);
                assert(part is Some);
                assert(crate::json::is_value(entries[i].1, part->0));
                lemma_json_reads_along_paths(entries[i].1, part->0, path.drop_first(), found);
            },
            _ => {},
        }
    }
}

}
