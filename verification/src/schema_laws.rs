//! What the schema of log records says of each name.

use vstd::prelude::*;

use crate::log_record_schema::KeySchema;

verus! {

/// The type of the field at a place.
pub open spec fn type_at(place: int) -> KeySchema {
    if place == 0 || place == 1 {
        KeySchema::DateTime
    } else if place == 2 || place == 6 {
        KeySchema::Integer
    } else if place == 3 || place == 7 {
        KeySchema::String
    } else if place == 4 || place == 5 {
        KeySchema::Array
    } else {
        KeySchema::Any
    }
}

/// Whether a name is that of the field at a place.
pub open spec fn names_at(name: Seq<char>, place: int) -> bool {
    ||| place == 0 && (name == "time_unix_nano"@ || name == "Timestamp"@ || name
        == "timeUnixNano"@)
    ||| place == 1 && (name == "observed_time_unix_nano"@ || name == "ObservedTimestamp"@ || name
        == "observedTimeUnixNano"@)
    ||| place == 2 && (name == "severity_number"@ || name == "SeverityNumber"@ || name
        == "severityNumber"@)
    ||| place == 3 && (name == "severity_text"@ || name == "SeverityText"@ || name
        == "severityText"@)
    ||| place == 4 && (name == "trace_id"@ || name == "TraceId"@ || name == "traceId"@)
    ||| place == 5 && (name == "span_id"@ || name == "SpanId"@ || name == "spanId"@)
    ||| place == 6 && (name == "flags"@ || name == "TraceFlags"@ || name == "traceFlags"@)
    ||| place == 7 && (name == "event_name"@ || name == "EventName"@ || name == "eventName"@)
    ||| place == 8 && (name == "body"@ || name == "Body"@)
}

/// The fields are in the schema under the names of their columns, each with its own type, and nothing
/// else is.
pub proof fn lemma_fields_have_types(name: Seq<char>)
    ensures
        forall|place: int|
            0 <= place < 9 ==> crate::log_record_schema::field_keys(9).contains_key(
                #[trigger] crate::column_laws::column_at(place),
            ) && crate::log_record_schema::field_keys(9)[crate::column_laws::column_at(place)]
                == type_at(place),
        crate::log_record_schema::field_keys(9).contains_key(name) ==> exists|place: int|
            0 <= place < 9 && #[trigger] crate::column_laws::column_at(place) == name,
{
    lemma_field_keys(9, name);
}

proof fn lemma_field_keys(n: int, name: Seq<char>)
    requires
        0 <= n <= 9,
    ensures
        forall|place: int|
            0 <= place < n ==> crate::log_record_schema::field_keys(n).contains_key(
                #[trigger] crate::column_laws::column_at(place),
            ) && crate::log_record_schema::field_keys(n)[crate::column_laws::column_at(place)]
                == type_at(place),
        crate::log_record_schema::field_keys(n).contains_key(name) ==> exists|place: int|
            0 <= place < n && #[trigger] crate::column_laws::column_at(place) == name,
    decreases n,
{
    crate::column_laws::lemma_columns_apart();
    if n > 0 {
        lemma_field_keys(n - 1, name);
        let field = crate::log_columns::field_at(n - 1);
        assert(field.place() == n - 1);
        assert(field.column_name() == crate::column_laws::column_at(n - 1));
        assert(field.schema() == type_at(n - 1));
        assert forall|place: int| 0 <= place < n implies
            crate::log_record_schema::field_keys(n).contains_key(
            #[trigger] crate::column_laws::column_at(place),
        ) && crate::log_record_schema::field_keys(n)[crate::column_laws::column_at(place)]
            == type_at(place) by {
            if place < n - 1 {
                assert(crate::column_laws::column_at(place) != crate::column_laws::column_at(
                    n - 1,
                ));
            }
        }
    }
}

/// A key of attributes is left out exactly if it is one of the names of a field, and it is in conflict
/// exactly if it then has another type than the field.
pub proof fn lemma_field_names_are_left_out(
    keys: Map<Seq<char>, KeySchema>,
    name: Seq<char>,
    declared: KeySchema,
)
    ensures
        crate::log_record_schema::own_keys(keys).contains_key(name) == (keys.contains_key(name)
            && forall|place: int| 0 <= place < 9 ==> !#[trigger] names_at(name, place)),
        crate::log_record_schema::own_keys(keys).contains_key(name)
            ==> crate::log_record_schema::own_keys(keys)[name] == keys[name],
        crate::log_record_schema::conflicts(name, declared) == (exists|place: int|
            0 <= place < 9 && #[trigger] names_at(name, place) && declared != type_at(place)),
{
    crate::source_laws::lemma_field_names();
    if crate::log_schema::log_record_key(name) is Field {
        let field = crate::log_schema::log_record_key(name)->Field_0;
        assert(names_at(name, field.place()));
        assert(field.schema() == type_at(field.place()));
    }
    assert forall|place: int| 0 <= place < 9 && #[trigger] names_at(name, place) implies
        crate::log_schema::log_record_key(name) is Field && crate::log_schema::log_record_key(
        name,
    )->Field_0.schema() == type_at(place) by {}
}

}
