//! What log records made of columns read as.

use vstd::prelude::*;

use crate::attribute_columns::{AttributeColumns, DictionaryColumn, ValueCodec};
use crate::attributes_batch::OtapAttributesBatch;
use crate::columnar_records::RecordTableValue;
use crate::dictionary::Dictionary;
use crate::log_factory::{LogSource, OtapLogRecordBatchFactory, ScopeColumns};
use crate::log_fields::OtapLogRecordFields;
use crate::log_records::LogRecords;
use crate::nullable_column::NullableColumn;
use crate::value::{ArrayValueOrRef, ValueOrRef};

verus! {

/// The value that a column of distinct values has for a row. A null value is none.
pub open spec fn entry_in(column: Option<DictionaryColumn>, row: int) -> Option<ValueOrRef> {
    match column {
        Some(column) => match column.keys.cell(row) {
            Some(position) => if column.values@[position as int] is Null {
                None
            } else {
                Some(column.values@[position as int])
            },
            None => None,
        },
        None => None,
    }
}

/// The cell that a column has for a row.
pub open spec fn cell_in<T: Copy>(column: Option<NullableColumn<T>>, row: int) -> Option<T> {
    match column {
        Some(column) => column.cell(row),
        None => None,
    }
}

/// Whether bytes in serialized form read as a value. Bytes that are not one read as null.
pub open spec fn unpacks<C: ValueCodec>(codec: &C, held: ValueOrRef, value: ValueOrRef) -> bool {
    match held {
        ValueOrRef::Array(ArrayValueOrRef::Buffer(bytes)) => exists|answer: Option<ValueOrRef>|
            #[trigger] call_ensures(C::from_slice, (codec, &*bytes), answer) && value == (
            match answer {
                Some(read) => read,
                None => ValueOrRef::Null,
            }),
        _ => value is Null,
    }
}

/// Whether an attribute has a value: text and numbers always do, and the others have it in the column
/// of their kind.
pub open spec fn attribute_has_value(columns: AttributeColumns, row: int) -> bool {
    match columns.types@[row] {
        1 => true,
        2 => true,
        3 => true,
        4 => cell_in(columns.bools, row) is Some,
        5 => entry_in(columns.sers, row) is Some,
        6 => entry_in(columns.sers, row) is Some,
        7 => entry_in(columns.bytes, row) is Some,
        _ => false,
    }
}

/// Whether an attribute that has a value reads as this one: what the column of its kind holds, and
/// where that holds nothing, empty text or zero.
pub open spec fn attribute_reads<C: ValueCodec>(
    codec: &C,
    columns: AttributeColumns,
    row: int,
    value: ValueOrRef,
) -> bool {
    match columns.types@[row] {
        1 => match entry_in(columns.strings, row) {
            Some(text) => value == text,
            None => value matches ValueOrRef::String(text) && text@.len() == 0,
        },
        2 => value == match entry_in(columns.ints, row) {
            Some(number) => number,
            None => ValueOrRef::Integer(0),
        },
        3 => value == ValueOrRef::Double(
            match cell_in(columns.doubles, row) {
                Some(bits) => bits,
                None => 0,
            },
        ),
        4 => cell_in(columns.bools, row) matches Some(b) && value == ValueOrRef::Boolean(b),
        5 => entry_in(columns.sers, row) matches Some(held) && unpacks(codec, held, value),
        6 => entry_in(columns.sers, row) matches Some(held) && unpacks(codec, held, value),
        7 => entry_in(columns.bytes, row) == Some(value),
        _ => false,
    }
}

/// Whether an id is that of the record: it is the last one that has the id, or the first of all where
/// none has.
pub open spec fn owner(ids: Seq<Option<u16>>, id: u16, record: int) -> bool {
    ||| ids[record] == Some(id) && forall|later: int|
        record < later < ids.len() ==> #[trigger] ids[later] != Some(id)
    ||| record == 0 && forall|other: int|
        0 <= other < ids.len() ==> #[trigger] ids[other] != Some(id)
}

/// Whether an attribute gives the record a value under the key at a position.
pub open spec fn attribute_of(
    batch: OtapAttributesBatch,
    key: int,
    record: int,
    row: int,
) -> bool {
    &&& 0 <= row < batch.columns.types@.len()
    &&& batch.columns.keys.keys@[row] == key
    &&& owner(batch.ids@, batch.columns.parent_ids@[row], record)
    &&& attribute_has_value(batch.columns, row)
}

/// Whether a record reads as this value under the key at a position: the value of the last attribute
/// that gives it one, and null if none does.
pub open spec fn record_has<C: ValueCodec>(
    codec: &C,
    batch: OtapAttributesBatch,
    key: int,
    record: int,
    value: ValueOrRef,
) -> bool {
    ||| exists|row: int| {
        &&& #[trigger] attribute_of(batch, key, record, row)
        &&& forall|later: int|
            row < later ==> !#[trigger] attribute_of(batch, key, record, later)
        &&& attribute_reads(codec, batch.columns, row, value)
    }
    ||| value is Null && forall|row: int| !#[trigger] attribute_of(batch, key, record, row)
}

/// Whether a name is first among the names of attributes at a position.
pub open spec fn names(batch: OtapAttributesBatch, name: Seq<char>, key: int) -> bool {
    &&& 0 <= key < batch.columns.keys.values@.len()
    &&& batch.columns.keys.values@[key]@ == name
    &&& forall|other: int|
        0 <= other < key ==> (#[trigger] batch.columns.keys.values@[other])@ != name
}

proof fn lemma_owner(batch: OtapAttributesBatch, record: int, row: int)
    requires
        batch.wf(),
        0 <= record < batch.ids@.len(),
        0 <= row < batch.columns.types@.len(),
    ensures
        (batch.record_of(row) == record) == owner(
            batch.ids@,
            batch.columns.parent_ids@[row],
            record,
        ),
{
    let id = batch.columns.parent_ids@[row];
    crate::attributes_batch::lemma_record_with_id(batch.ids@, id as int, batch.ids@.len() as int);
    let found = batch.record_of(row);
    if exists|r: int| 0 <= r < batch.ids@.len() && #[trigger] batch.ids@[r] == Some(id) {
        let r = choose|r: int| 0 <= r < batch.ids@.len() && #[trigger] batch.ids@[r] == Some(id);
        assert(batch.ids@[r] matches Some(known) && known == id);
        assert(batch.ids@[found] == Some(id));
        if found < record {
            assert(!(batch.ids@[record] matches Some(known) && known == id));
        }
        if found == record {
            assert forall|later: int| record < later < batch.ids@.len() implies
                #[trigger] batch.ids@[later] != Some(id) by {
                assert(!(batch.ids@[later] matches Some(known) && known == id));
            }
        }
    } else {
        assert(batch.ids@[record] != Some(id));
        assert(!(exists|r: int|
            0 <= r < batch.ids@.len() && (#[trigger] batch.ids@[r] matches Some(known) && known
                == id)));
    }
}

proof fn lemma_gives(batch: OtapAttributesBatch, key: int, record: int, row: int)
    requires
        batch.wf(),
        0 <= record < batch.ids@.len(),
        0 <= row < batch.columns.types@.len(),
    ensures
        batch.gives(key, record, row) == attribute_of(batch, key, record, row),
{
    lemma_owner(batch, record, row);
    assert(batch.columns.types@[row] <= 7);
}

proof fn lemma_last_row(batch: OtapAttributesBatch, key: int, record: int, n: int)
    requires
        batch.wf(),
        0 <= record < batch.ids@.len(),
        0 <= n <= batch.columns.types@.len(),
    ensures
        match batch.last_row(key, record, n) {
            Some(row) => {
                &&& row < n
                &&& attribute_of(batch, key, record, row)
                &&& forall|later: int|
                    row < later < n ==> !#[trigger] attribute_of(batch, key, record, later)
            },
            None => forall|row: int| row < n ==> !#[trigger] attribute_of(batch, key, record, row),
        },
    decreases n,
{
    if n > 0 {
        lemma_gives(batch, key, record, n - 1);
        lemma_last_row(batch, key, record, n - 1);
    }
}

/// Under a key, a record reads as the value of the last attribute that has the key, the id of the
/// record and a value.
pub proof fn lemma_record_reads_its_attribute<C: ValueCodec>(
    codec: &C,
    batch: OtapAttributesBatch,
    name: Seq<char>,
    dictionary: Dictionary,
    key: int,
    record: int,
)
    requires
        batch.wf(),
        batch.gathered(codec, name, dictionary),
        names(batch, name, key),
        0 <= record < batch.ids@.len(),
    ensures
        dictionary.rows().len() == batch.ids@.len(),
        record_has(codec, batch, key, record, dictionary.rows()[record]),
{
    let count = batch.columns.types@.len() as int;
    assert(batch.columns.keys.first_at(name, key));
    let value = dictionary.rows()[record];
    assert(batch.record_reads(codec, key, record, value));
    lemma_last_row(batch, key, record, count);
    match batch.last_row(key, record, count) {
        Some(row) => {
            assert(attribute_of(batch, key, record, row));
            assert(batch.columns.reads(codec, row, value));
            assert(attribute_reads(codec, batch.columns, row, value));
        },
        None => {},
    }
}

/// Whether a table gives each record, under each name, what its attributes hold.
pub open spec fn attributes_read<C: ValueCodec>(
    codec: &C,
    batch: OtapAttributesBatch,
    records: LogRecords,
    table: usize,
) -> bool {
    &&& forall|name: Seq<char>|
        (forall|key: int| !#[trigger] names(batch, name, key)) ==> #[trigger] records.table_value(
            table,
            name,
        ) is None
    &&& forall|name: Seq<char>, key: int| #[trigger]
        names(batch, name, key) ==> {
            &&& #[trigger] records.table_value(table, name) matches Some(
                RecordTableValue::Dictionary(dictionary),
            )
            &&& forall|record: int|
                0 <= record < batch.ids@.len() ==> record_has(
                    codec,
                    batch,
                    key,
                    record,
                    #[trigger] dictionary.rows()[record],
                )
        }
}

/// Whether "attributes" leads from a table to that of these attributes, if there are any.
pub open spec fn attributes_led_to<C: ValueCodec>(
    codec: &C,
    batch: Option<OtapAttributesBatch>,
    records: LogRecords,
    table: usize,
) -> bool {
    &&& records.table_value(table, "attributes"@) == records.table_value(table, "Attributes"@)
    &&& match batch {
        Some(batch) => {
            &&& records.table_value(table, "attributes"@) matches Some(RecordTableValue::Table(led))
            &&& attributes_read(codec, batch, records, led)
        },
        None => records.table_value(table, "attributes"@) is None,
    }
}

/// Whether a name leads from a table to this column, if there is one.
pub open spec fn leads_to(
    records: LogRecords,
    table: usize,
    name: Seq<char>,
    column: Option<Dictionary>,
) -> bool {
    match column {
        Some(column) => records.table_value(table, name) == Some(
            RecordTableValue::Dictionary(column),
        ),
        None => records.table_value(table, name) is None,
    }
}

/// Whether a name means something on a record.
pub open spec fn known_on_records(name: Seq<char>) -> bool {
    ||| name == "attributes"@
    ||| name == "Attributes"@
    ||| name == "time_unix_nano"@
    ||| name == "Timestamp"@
    ||| name == "timeUnixNano"@
    ||| name == "observed_time_unix_nano"@
    ||| name == "ObservedTimestamp"@
    ||| name == "observedTimeUnixNano"@
    ||| name == "severity_number"@
    ||| name == "SeverityNumber"@
    ||| name == "severityNumber"@
    ||| name == "severity_text"@
    ||| name == "SeverityText"@
    ||| name == "severityText"@
    ||| name == "trace_id"@
    ||| name == "TraceId"@
    ||| name == "traceId"@
    ||| name == "span_id"@
    ||| name == "SpanId"@
    ||| name == "spanId"@
    ||| name == "flags"@
    ||| name == "TraceFlags"@
    ||| name == "traceFlags"@
    ||| name == "event_name"@
    ||| name == "EventName"@
    ||| name == "eventName"@
    ||| name == "body"@
    ||| name == "Body"@
}

/// Whether a name means something on a scope.
pub open spec fn known_on_scopes(name: Seq<char>) -> bool {
    ||| name == "attributes"@
    ||| name == "Attributes"@
    ||| name == "name"@
    ||| name == "Name"@
    ||| name == "version"@
    ||| name == "Version"@
}

/// Whether a name means something on a resource.
pub open spec fn known_on_resources(name: Seq<char>) -> bool {
    ||| name == "attributes"@
    ||| name == "Attributes"@
}

/// Whether tables are attached under a name.
pub open spec fn known_table(name: Seq<char>) -> bool {
    ||| name == "resource"@
    ||| name == "Resource"@
    ||| name == "scope"@
    ||| name == "Scope"@
    ||| name == "instrumentation_scope"@
    ||| name == "InstrumentationScope"@
    ||| name == "instrumentationScope"@
}

/// Whether the scopes, reached by a name, are these.
pub open spec fn scope_reached<C: ValueCodec>(
    codec: &C,
    scope: Option<ScopeColumns>,
    attributes: Option<OtapAttributesBatch>,
    records: LogRecords,
    name: Seq<char>,
) -> bool {
    match scope {
        Some(columns) => {
            &&& records.attached_table(name) matches Some(table)
            &&& leads_to(records, table, "name"@, columns.name)
            &&& leads_to(records, table, "Name"@, columns.name)
            &&& leads_to(records, table, "version"@, columns.version)
            &&& leads_to(records, table, "Version"@, columns.version)
            &&& attributes_led_to(codec, attributes, records, table)
            &&& forall|key: Seq<char>|
                !known_on_scopes(key) ==> #[trigger] records.table_value(table, key) is None
        },
        None => records.attached_table(name) is None,
    }
}

/// Whether the resources, reached by a name, are these.
pub open spec fn resource_reached<C: ValueCodec>(
    codec: &C,
    has_resource: bool,
    attributes: Option<OtapAttributesBatch>,
    records: LogRecords,
    name: Seq<char>,
) -> bool {
    if has_resource {
        &&& records.attached_table(name) matches Some(table)
        &&& attributes_led_to(codec, attributes, records, table)
        &&& forall|key: Seq<char>|
            !known_on_resources(key) ==> #[trigger] records.table_value(table, key) is None
    } else {
        records.attached_table(name) is None
    }
}

/// Whether each field, under each of its names, is its own column. The columns stand in the order
/// of the fields.
pub open spec fn fields_read(records: LogRecords, columns: Seq<Option<Dictionary>>) -> bool {
    &&& leads_to(records, 0, "time_unix_nano"@, columns[0])
    &&& leads_to(records, 0, "Timestamp"@, columns[0])
    &&& leads_to(records, 0, "timeUnixNano"@, columns[0])
    &&& leads_to(records, 0, "observed_time_unix_nano"@, columns[1])
    &&& leads_to(records, 0, "ObservedTimestamp"@, columns[1])
    &&& leads_to(records, 0, "observedTimeUnixNano"@, columns[1])
    &&& leads_to(records, 0, "severity_number"@, columns[2])
    &&& leads_to(records, 0, "SeverityNumber"@, columns[2])
    &&& leads_to(records, 0, "severityNumber"@, columns[2])
    &&& leads_to(records, 0, "severity_text"@, columns[3])
    &&& leads_to(records, 0, "SeverityText"@, columns[3])
    &&& leads_to(records, 0, "severityText"@, columns[3])
    &&& leads_to(records, 0, "trace_id"@, columns[4])
    &&& leads_to(records, 0, "TraceId"@, columns[4])
    &&& leads_to(records, 0, "traceId"@, columns[4])
    &&& leads_to(records, 0, "span_id"@, columns[5])
    &&& leads_to(records, 0, "SpanId"@, columns[5])
    &&& leads_to(records, 0, "spanId"@, columns[5])
    &&& leads_to(records, 0, "flags"@, columns[6])
    &&& leads_to(records, 0, "TraceFlags"@, columns[6])
    &&& leads_to(records, 0, "traceFlags"@, columns[6])
    &&& leads_to(records, 0, "event_name"@, columns[7])
    &&& leads_to(records, 0, "EventName"@, columns[7])
    &&& leads_to(records, 0, "eventName"@, columns[7])
    &&& leads_to(records, 0, "body"@, columns[8])
    &&& leads_to(records, 0, "Body"@, columns[8])
}

/// Whether the records read as the columns that they were made of: each name leads to the column that
/// it names, and other names lead nowhere. Nothing is said of fields that are `known` from before.
pub open spec fn as_in_source<C: ValueCodec>(
    codec: &C,
    source: LogSource,
    known: bool,
    records: LogRecords,
) -> bool {
    match source.logs {
        Some(logs) => {
            &&& scope_reached(codec, source.scope, source.scope_attributes, records, "scope"@)
            &&& scope_reached(codec, source.scope, source.scope_attributes, records, "Scope"@)
            &&& scope_reached(
                codec,
                source.scope,
                source.scope_attributes,
                records,
                "instrumentation_scope"@,
            )
            &&& scope_reached(
                codec,
                source.scope,
                source.scope_attributes,
                records,
                "InstrumentationScope"@,
            )
            &&& scope_reached(
                codec,
                source.scope,
                source.scope_attributes,
                records,
                "instrumentationScope"@,
            )
            &&& resource_reached(
                codec,
                source.has_resource,
                source.resource_attributes,
                records,
                "resource"@,
            )
            &&& resource_reached(
                codec,
                source.has_resource,
                source.resource_attributes,
                records,
                "Resource"@,
            )
            &&& attributes_led_to(codec, source.log_attributes, records, 0)
            &&& forall|name: Seq<char>|
                !known_table(name) ==> #[trigger] records.attached_table(name) is None
            &&& forall|name: Seq<char>|
                !known_on_records(name) ==> #[trigger] records.table_value(0, name) is None
            &&& !known ==> fields_read(records, logs.columns@)
        },
        None => {
            &&& forall|name: Seq<char>| #[trigger] records.attached_table(name) is None
            &&& forall|table: usize, name: Seq<char>| #[trigger]
                records.table_value(table, name) is None
        },
    }
}

proof fn lemma_attributes_read<C: ValueCodec>(
    codec: &C,
    batch: OtapAttributesBatch,
    attributes: Option<crate::otap_attributes::OtapAttributes>,
    records: LogRecords,
    table: usize,
)
    requires
        batch.wf(),
        crate::log_factory::attributes_from(codec, Some(batch), attributes),
        forall|name: Seq<char>|
            #[trigger] records.table_value(table, name) == crate::log_records::attribute_value(
                attributes,
                name,
            ),
    ensures
        attributes_read(codec, batch, records, table),
{
    let known = attributes->0;
    assert forall|name: Seq<char>|
        (forall|key: int| !#[trigger] names(batch, name, key)) implies #[trigger] records.table_value(
        table,
        name,
    ) is None by {
        if known.values@.contains_key(name) {
            let k = choose|k: int| #[trigger] batch.columns.keys.first_at(name, k);
            assert(names(batch, name, k));
        }
    }
    assert forall|name: Seq<char>, key: int| #[trigger] names(batch, name, key) implies {
        &&& #[trigger] records.table_value(table, name) matches Some(
            RecordTableValue::Dictionary(dictionary),
        )
        &&& forall|record: int|
            0 <= record < batch.ids@.len() ==> record_has(
                codec,
                batch,
                key,
                record,
                #[trigger] dictionary.rows()[record],
            )
    } by {
        assert(batch.columns.keys.first_at(name, key));
        assert(known.values@.contains_key(name));
        let value = known.values@[name];
        assert(crate::otap_attributes::read_from(codec, batch, name, value));
        let dictionary = value->Read_0;
        assert forall|record: int| 0 <= record < batch.ids@.len() implies record_has(
            codec,
            batch,
            key,
            record,
            #[trigger] dictionary.rows()[record],
        ) by {
            lemma_record_reads_its_attribute(codec, batch, name, dictionary, key, record);
        }
    }
}

proof fn lemma_led_to<C: ValueCodec>(
    codec: &C,
    batch: Option<OtapAttributesBatch>,
    attributes: Option<crate::otap_attributes::OtapAttributes>,
    records: LogRecords,
    table: usize,
    led: usize,
)
    requires
        batch matches Some(batch) ==> batch.wf(),
        crate::log_factory::attributes_from(codec, batch, attributes),
        records.table_value(table, "attributes"@) == crate::log_records::attributes_table(
            attributes,
            led,
        ),
        records.table_value(table, "Attributes"@) == crate::log_records::attributes_table(
            attributes,
            led,
        ),
        forall|name: Seq<char>|
            #[trigger] records.table_value(led, name) == crate::log_records::attribute_value(
                attributes,
                name,
            ),
    ensures
        attributes_led_to(codec, batch, records, table),
{
    if batch is Some {
        lemma_attributes_read(codec, batch->0, attributes, records, led);
    }
}

proof fn lemma_scope_names()
    ensures
        "name"@ != "attributes"@ && "name"@ != "Attributes"@,
        "Name"@ != "attributes"@ && "Name"@ != "Attributes"@,
        "version"@ != "attributes"@ && "version"@ != "Attributes"@,
        "version"@ != "name"@ && "version"@ != "Name"@,
        "Version"@ != "attributes"@ && "Version"@ != "Attributes"@,
        "Version"@ != "name"@ && "Version"@ != "Name"@,
{
    reveal_strlit("name");
    assert("name"@.len() == 4 && "name"@[0] == 'n');
    reveal_strlit("Name");
    assert("Name"@.len() == 4 && "Name"@[0] == 'N');
    reveal_strlit("version");
    assert("version"@.len() == 7 && "version"@[0] == 'v');
    reveal_strlit("Version");
    assert("Version"@.len() == 7 && "Version"@[0] == 'V');
    reveal_strlit("attributes");
    assert("attributes"@.len() == 10 && "attributes"@[0] == 'a');
    reveal_strlit("Attributes");
    assert("Attributes"@.len() == 10 && "Attributes"@[0] == 'A');
}

proof fn lemma_table_names()
    ensures
        "scope"@ != "resource"@ && "scope"@ != "Resource"@,
        "Scope"@ != "resource"@ && "Scope"@ != "Resource"@,
        "instrumentation_scope"@ != "resource"@ && "instrumentation_scope"@ != "Resource"@,
        "InstrumentationScope"@ != "resource"@ && "InstrumentationScope"@ != "Resource"@,
        "instrumentationScope"@ != "resource"@ && "instrumentationScope"@ != "Resource"@,
        "resource"@ != "scope"@ && "resource"@ != "Scope"@,
        "Resource"@ != "scope"@ && "Resource"@ != "Scope"@,
{
    reveal_strlit("resource");
    assert("resource"@.len() == 8 && "resource"@[0] == 'r');
    reveal_strlit("Resource");
    assert("Resource"@.len() == 8 && "Resource"@[0] == 'R');
    reveal_strlit("scope");
    assert("scope"@.len() == 5 && "scope"@[0] == 's');
    reveal_strlit("Scope");
    assert("Scope"@.len() == 5 && "Scope"@[0] == 'S');
    reveal_strlit("instrumentation_scope");
    assert("instrumentation_scope"@.len() == 21 && "instrumentation_scope"@[0] == 'i');
    reveal_strlit("InstrumentationScope");
    assert("InstrumentationScope"@.len() == 20 && "InstrumentationScope"@[0] == 'I');
    reveal_strlit("instrumentationScope");
    assert("instrumentationScope"@.len() == 20 && "instrumentationScope"@[0] == 'i');
}

/// Each name of a field means that field, and no other.
pub proof fn lemma_field_names()
    ensures
        crate::log_schema::log_record_key("time_unix_nano"@) == field_key(0),
        crate::log_schema::log_record_key("Timestamp"@) == field_key(0),
        crate::log_schema::log_record_key("timeUnixNano"@) == field_key(0),
        crate::log_schema::log_record_key("observed_time_unix_nano"@) == field_key(1),
        crate::log_schema::log_record_key("ObservedTimestamp"@) == field_key(1),
        crate::log_schema::log_record_key("observedTimeUnixNano"@) == field_key(1),
        crate::log_schema::log_record_key("severity_number"@) == field_key(2),
        crate::log_schema::log_record_key("SeverityNumber"@) == field_key(2),
        crate::log_schema::log_record_key("severityNumber"@) == field_key(2),
        crate::log_schema::log_record_key("severity_text"@) == field_key(3),
        crate::log_schema::log_record_key("SeverityText"@) == field_key(3),
        crate::log_schema::log_record_key("severityText"@) == field_key(3),
        crate::log_schema::log_record_key("trace_id"@) == field_key(4),
        crate::log_schema::log_record_key("TraceId"@) == field_key(4),
        crate::log_schema::log_record_key("traceId"@) == field_key(4),
        crate::log_schema::log_record_key("span_id"@) == field_key(5),
        crate::log_schema::log_record_key("SpanId"@) == field_key(5),
        crate::log_schema::log_record_key("spanId"@) == field_key(5),
        crate::log_schema::log_record_key("flags"@) == field_key(6),
        crate::log_schema::log_record_key("TraceFlags"@) == field_key(6),
        crate::log_schema::log_record_key("traceFlags"@) == field_key(6),
        crate::log_schema::log_record_key("event_name"@) == field_key(7),
        crate::log_schema::log_record_key("EventName"@) == field_key(7),
        crate::log_schema::log_record_key("eventName"@) == field_key(7),
        crate::log_schema::log_record_key("body"@) == field_key(8),
        crate::log_schema::log_record_key("Body"@) == field_key(8),
{
    reveal_strlit("attributes");
    assert("attributes"@.len() == 10 && "attributes"@[0] == 'a');
    reveal_strlit("Attributes");
    assert("Attributes"@.len() == 10 && "Attributes"@[0] == 'A');
    reveal_strlit("time_unix_nano");
    assert("time_unix_nano"@.len() == 14 && "time_unix_nano"@[0] == 't');
    reveal_strlit("Timestamp");
    assert("Timestamp"@.len() == 9 && "Timestamp"@[0] == 'T');
    reveal_strlit("timeUnixNano");
    assert("timeUnixNano"@.len() == 12 && "timeUnixNano"@[0] == 't');
    reveal_strlit("observed_time_unix_nano");
    assert("observed_time_unix_nano"@.len() == 23 && "observed_time_unix_nano"@[0] == 'o');
    reveal_strlit("ObservedTimestamp");
    assert("ObservedTimestamp"@.len() == 17 && "ObservedTimestamp"@[0] == 'O');
    reveal_strlit("observedTimeUnixNano");
    assert("observedTimeUnixNano"@.len() == 20 && "observedTimeUnixNano"@[0] == 'o');
    reveal_strlit("severity_number");
    assert("severity_number"@.len() == 15 && "severity_number"@[0] == 's');
    reveal_strlit("SeverityNumber");
    assert("SeverityNumber"@.len() == 14 && "SeverityNumber"@[0] == 'S');
    reveal_strlit("severityNumber");
    assert("severityNumber"@.len() == 14 && "severityNumber"@[0] == 's');
    reveal_strlit("severity_text");
    assert("severity_text"@.len() == 13 && "severity_text"@[0] == 's');
    reveal_strlit("SeverityText");
    assert("SeverityText"@.len() == 12 && "SeverityText"@[0] == 'S');
    reveal_strlit("severityText");
    assert("severityText"@.len() == 12 && "severityText"@[0] == 's');
    reveal_strlit("trace_id");
    assert("trace_id"@.len() == 8 && "trace_id"@[0] == 't');
    reveal_strlit("TraceId");
    assert("TraceId"@.len() == 7 && "TraceId"@[0] == 'T');
    reveal_strlit("traceId");
    assert("traceId"@.len() == 7 && "traceId"@[0] == 't');
    reveal_strlit("span_id");
    assert("span_id"@.len() == 7 && "span_id"@[0] == 's');
    reveal_strlit("SpanId");
    assert("SpanId"@.len() == 6 && "SpanId"@[0] == 'S');
    reveal_strlit("spanId");
    assert("spanId"@.len() == 6 && "spanId"@[0] == 's');
    reveal_strlit("flags");
    assert("flags"@.len() == 5 && "flags"@[0] == 'f');
    reveal_strlit("TraceFlags");
    assert("TraceFlags"@.len() == 10 && "TraceFlags"@[0] == 'T');
    reveal_strlit("traceFlags");
    assert("traceFlags"@.len() == 10 && "traceFlags"@[0] == 't');
    reveal_strlit("event_name");
    assert("event_name"@.len() == 10 && "event_name"@[0] == 'e');
    reveal_strlit("EventName");
    assert("EventName"@.len() == 9 && "EventName"@[0] == 'E');
    reveal_strlit("eventName");
    assert("eventName"@.len() == 9 && "eventName"@[0] == 'e');
    reveal_strlit("body");
    assert("body"@.len() == 4 && "body"@[0] == 'b');
    reveal_strlit("Body");
    assert("Body"@.len() == 4 && "Body"@[0] == 'B');
}

/// The field whose column stands at a place.
pub open spec fn field_key(place: u8) -> crate::log_schema::LogRecordKey {
    crate::log_schema::LogRecordKey::Field(
        match place {
            0 => crate::log_schema::OtapLogRecordField::TimeUnixNano,
            1 => crate::log_schema::OtapLogRecordField::ObservedTimeUnixNano,
            2 => crate::log_schema::OtapLogRecordField::SeverityNumber,
            3 => crate::log_schema::OtapLogRecordField::SeverityText,
            4 => crate::log_schema::OtapLogRecordField::TraceId,
            5 => crate::log_schema::OtapLogRecordField::SpanId,
            6 => crate::log_schema::OtapLogRecordField::Flags,
            7 => crate::log_schema::OtapLogRecordField::EventName,
            _ => crate::log_schema::OtapLogRecordField::Body,
        },
    )
}

/// Records that are made of columns read as these columns: under each name of a field the column of
/// that field, under the name and the version of the scope their own columns, and under each key of
/// attributes what the attributes hold.
pub proof fn lemma_records_read_as_their_source<C: ValueCodec>(
    factory: OtapLogRecordBatchFactory,
    codec: &C,
    state: Option<OtapLogRecordFields>,
    source: LogSource,
    records: LogRecords,
)
    requires
        source.wf(),
        crate::log_factory::made_of(factory, codec, state, source, records),
    ensures
        as_in_source(codec, source, state is Some, records),
{
    match source.logs {
        Some(logs) => {
            lemma_scope_names();
            lemma_table_names();
            lemma_field_names();
            lemma_led_to(codec, source.log_attributes, records.attributes, records, 0, 1);
            if source.has_resource {
                let resource = records.resource->0;
                lemma_led_to(
                    codec,
                    source.resource_attributes,
                    resource.attributes,
                    records,
                    2,
                    3,
                );
            }
            if source.scope is Some {
                let scope = records.scope->0;
                lemma_led_to(
                    codec,
                    source.scope_attributes,
                    scope.attributes,
                    records,
                    4,
                    5,
                );
            }
            if state is None {
                assert(forall|k: int| 0 <= k < 9 ==> #[trigger] records.fields.cells@[k] is None);
                assert(fields_read(records, logs.columns@));
            }
        },
        None => {},
    }
}

}
