//! The fields of log records and the names that they go by.

use vstd::prelude::*;

use crate::text::str_equal;

verus! {

/// A field of a log record.
#[derive(Debug, Clone, Copy, PartialEq, Eq, Hash, Structural)]
pub enum OtapLogRecordField {
    TimeUnixNano,
    ObservedTimeUnixNano,
    SeverityNumber,
    SeverityText,
    TraceId,
    SpanId,
    Flags,
    EventName,
    Body,
}

/// The number of fields of a log record.
pub const FIELD_COUNT: usize = 9;

impl OtapLogRecordField {
    /// The place of the field among the fields.
    pub open spec fn place(self) -> int {
        match self {
            OtapLogRecordField::TimeUnixNano => 0,
            OtapLogRecordField::ObservedTimeUnixNano => 1,
            OtapLogRecordField::SeverityNumber => 2,
            OtapLogRecordField::SeverityText => 3,
            OtapLogRecordField::TraceId => 4,
            OtapLogRecordField::SpanId => 5,
            OtapLogRecordField::Flags => 6,
            OtapLogRecordField::EventName => 7,
            OtapLogRecordField::Body => 8,
        }
    }

    /// The place of the field among the fields.
    pub fn index(self) -> (r: usize)
        ensures
            r == self.place(),
            r < FIELD_COUNT,
    {
        match self {
            OtapLogRecordField::TimeUnixNano => 0,
            OtapLogRecordField::ObservedTimeUnixNano => 1,
            OtapLogRecordField::SeverityNumber => 2,
            OtapLogRecordField::SeverityText => 3,
            OtapLogRecordField::TraceId => 4,
            OtapLogRecordField::SpanId => 5,
            OtapLogRecordField::Flags => 6,
            OtapLogRecordField::EventName => 7,
            OtapLogRecordField::Body => 8,
        }
    }

    /// The field at a place.
    pub fn from_index(index: usize) -> (r: Option<OtapLogRecordField>)
        ensures
            match r {
                Some(field) => field.place() == index,
                None => index >= FIELD_COUNT,
            },
    {
        match index {
            0 => Some(OtapLogRecordField::TimeUnixNano),
            1 => Some(OtapLogRecordField::ObservedTimeUnixNano),
            2 => Some(OtapLogRecordField::SeverityNumber),
            3 => Some(OtapLogRecordField::SeverityText),
            4 => Some(OtapLogRecordField::TraceId),
            5 => Some(OtapLogRecordField::SpanId),
            6 => Some(OtapLogRecordField::Flags),
            7 => Some(OtapLogRecordField::EventName),
            8 => Some(OtapLogRecordField::Body),
            _ => None,
        }
    }

    /// Whether values can be written inside the values of the field: only bodies hold values inside.
    pub fn supports_access_by_path(&self) -> (r: bool)
        ensures
            r == (*self == OtapLogRecordField::Body),
    {
        match self {
            OtapLogRecordField::Body => true,
            _ => false,
        }
    }

    /// The name of the column that holds the field.
    pub open spec fn column_name(self) -> Seq<char> {
        match self {
            OtapLogRecordField::TimeUnixNano => "time_unix_nano"@,
            OtapLogRecordField::ObservedTimeUnixNano => "observed_time_unix_nano"@,
            OtapLogRecordField::SeverityNumber => "severity_number"@,
            OtapLogRecordField::SeverityText => "severity_text"@,
            OtapLogRecordField::TraceId => "trace_id"@,
            OtapLogRecordField::SpanId => "span_id"@,
            OtapLogRecordField::Flags => "flags"@,
            OtapLogRecordField::EventName => "event_name"@,
            OtapLogRecordField::Body => "body"@,
        }
    }

    /// The name of the column that holds the field.
    pub fn get_column_name(&self) -> (r: &'static str)
        ensures
            r@ == self.column_name(),
    {
        match self {
            OtapLogRecordField::TimeUnixNano => "time_unix_nano",
            OtapLogRecordField::ObservedTimeUnixNano => "observed_time_unix_nano",
            OtapLogRecordField::SeverityNumber => "severity_number",
            OtapLogRecordField::SeverityText => "severity_text",
            OtapLogRecordField::TraceId => "trace_id",
            OtapLogRecordField::SpanId => "span_id",
            OtapLogRecordField::Flags => "flags",
            OtapLogRecordField::EventName => "event_name",
            OtapLogRecordField::Body => "body",
        }
    }

    /// The name of the field in messages.
    pub open spec fn name(self) -> Seq<char> {
        match self {
            OtapLogRecordField::TimeUnixNano => "TimeUnixNano"@,
            OtapLogRecordField::ObservedTimeUnixNano => "ObservedTimeUnixNano"@,
            OtapLogRecordField::SeverityNumber => "SeverityNumber"@,
            OtapLogRecordField::SeverityText => "SeverityText"@,
            OtapLogRecordField::TraceId => "TraceId"@,
            OtapLogRecordField::SpanId => "SpanId"@,
            OtapLogRecordField::Flags => "Flags"@,
            OtapLogRecordField::EventName => "EventName"@,
            OtapLogRecordField::Body => "Body"@,
        }
    }

    /// The name of the field in messages.
    pub fn get_name(&self) -> (r: &'static str)
        ensures
            r@ == self.name(),
    {
        match self {
            OtapLogRecordField::TimeUnixNano => "TimeUnixNano",
            OtapLogRecordField::ObservedTimeUnixNano => "ObservedTimeUnixNano",
            OtapLogRecordField::SeverityNumber => "SeverityNumber",
            OtapLogRecordField::SeverityText => "SeverityText",
            OtapLogRecordField::TraceId => "TraceId",
            OtapLogRecordField::SpanId => "SpanId",
            OtapLogRecordField::Flags => "Flags",
            OtapLogRecordField::EventName => "EventName",
            OtapLogRecordField::Body => "Body",
        }
    }
}

/// What a name means on a log record.
#[derive(Debug, Clone, Copy, PartialEq, Eq, Structural)]
pub enum LogRecordKey {
    /// Its attributes.
    Attributes,
    /// One of its fields.
    Field(OtapLogRecordField),
    /// Nothing.
    Unknown,
}

/// What a name means on a log record. The names of the data model, of the columns and of the JSON
/// encoding are all known.
pub open spec fn log_record_key(name: Seq<char>) -> LogRecordKey {
    if name == "attributes"@ || name == "Attributes"@ {
        LogRecordKey::Attributes
    } else if name == "time_unix_nano"@ || name == "Timestamp"@ || name == "timeUnixNano"@ {
        LogRecordKey::Field(OtapLogRecordField::TimeUnixNano)
    } else if name == "observed_time_unix_nano"@ || name == "ObservedTimestamp"@ || name
        == "observedTimeUnixNano"@ {
        LogRecordKey::Field(OtapLogRecordField::ObservedTimeUnixNano)
    } else if name == "severity_number"@ || name == "SeverityNumber"@ || name
        == "severityNumber"@ {
        LogRecordKey::Field(OtapLogRecordField::SeverityNumber)
    } else if name == "severity_text"@ || name == "SeverityText"@ || name == "severityText"@ {
        LogRecordKey::Field(OtapLogRecordField::SeverityText)
    } else if name == "body"@ || name == "Body"@ {
        LogRecordKey::Field(OtapLogRecordField::Body)
    } else if name == "trace_id"@ || name == "TraceId"@ || name == "traceId"@ {
        LogRecordKey::Field(OtapLogRecordField::TraceId)
    } else if name == "span_id"@ || name == "SpanId"@ || name == "spanId"@ {
        LogRecordKey::Field(OtapLogRecordField::SpanId)
    } else if name == "flags"@ || name == "TraceFlags"@ || name == "traceFlags"@ {
        LogRecordKey::Field(OtapLogRecordField::Flags)
    } else if name == "event_name"@ || name == "EventName"@ || name == "eventName"@ {
        LogRecordKey::Field(OtapLogRecordField::EventName)
    } else {
        LogRecordKey::Unknown
    }
}

/// Whether a text is one of three.
fn is_any_of(text: &str, first: &str, second: &str, third: &str) -> (r: bool)
    ensures
        r == (text@ == first@ || text@ == second@ || text@ == third@),
{
    str_equal(text, first) || str_equal(text, second) || str_equal(text, third)
}

/// What a name means on a log record.
pub fn normalize_key(name: &str) -> (r: LogRecordKey)
    ensures
        r == log_record_key(name@),
{
    if is_any_of(name, "attributes", "Attributes", "Attributes") {
        LogRecordKey::Attributes
    } else if is_any_of(name, "time_unix_nano", "Timestamp", "timeUnixNano") {
        LogRecordKey::Field(OtapLogRecordField::TimeUnixNano)
    } else if is_any_of(
        name,
        "observed_time_unix_nano",
        "ObservedTimestamp",
        "observedTimeUnixNano",
    ) {
        LogRecordKey::Field(OtapLogRecordField::ObservedTimeUnixNano)
    } else if is_any_of(name, "severity_number", "SeverityNumber", "severityNumber") {
        LogRecordKey::Field(OtapLogRecordField::SeverityNumber)
    } else if is_any_of(name, "severity_text", "SeverityText", "severityText") {
        LogRecordKey::Field(OtapLogRecordField::SeverityText)
    } else if is_any_of(name, "body", "Body", "Body") {
        LogRecordKey::Field(OtapLogRecordField::Body)
    } else if is_any_of(name, "trace_id", "TraceId", "traceId") {
        LogRecordKey::Field(OtapLogRecordField::TraceId)
    } else if is_any_of(name, "span_id", "SpanId", "spanId") {
        LogRecordKey::Field(OtapLogRecordField::SpanId)
    } else if is_any_of(name, "flags", "TraceFlags", "traceFlags") {
        LogRecordKey::Field(OtapLogRecordField::Flags)
    } else if is_any_of(name, "event_name", "EventName", "eventName") {
        LogRecordKey::Field(OtapLogRecordField::EventName)
    } else {
        LogRecordKey::Unknown
    }
}

} // verus!
