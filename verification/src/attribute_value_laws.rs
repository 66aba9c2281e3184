//! What a value reads as once it has been written as that of an attribute.

use vstd::prelude::*;

use crate::attribute_columns::ValueCodec;
use crate::attributes_batch::OtapAttributesBatch;
use crate::dictionary::Dictionary;
use crate::named_values::NamedValues;
use crate::otap_value::OtapValue;
use crate::processed_value::ProcessedValue;
use crate::value::{ArrayValueOrRef, ValueOrRef};

verus! {

/// Whether bytes may be the serialized form of a value.
pub open spec fn packs<C: ValueCodec>(
    codec: &C,
    value: ValueOrRef,
    answer: Option<Vec<u8>>,
) -> bool {
    call_ensures(C::to_slice, (codec, &value), answer)
}

/// Whether a value that is kept in serialized form reads as `read`: as what the form reads as, or as
/// null if it has none or an empty one.
pub open spec fn form_reads<C: ValueCodec>(codec: &C, value: ValueOrRef, read: ValueOrRef) -> bool {
    exists|answer: Option<Vec<u8>>| #[trigger]
        packs(codec, value, answer) && match answer {
            Some(bytes) => if bytes@.len() == 0 {
                read is Null
            } else {
                bytes_read(codec, bytes@, read)
            },
            None => read is Null,
        }
}

/// Whether bytes, held as they are or as a list of integers, read as a value.
pub open spec fn bytes_read<C: ValueCodec>(codec: &C, bytes: Seq<u8>, read: ValueOrRef) -> bool {
    exists|held: ValueOrRef| #[trigger]
        crate::source_laws::unpacks(codec, held, read) && holds_bytes(held, bytes)
}

/// Whether a value is a sequence of bytes, or a list of the same integers.
pub open spec fn holds_bytes(held: ValueOrRef, bytes: Seq<u8>) -> bool {
    match held {
        ValueOrRef::Array(ArrayValueOrRef::Buffer(own)) => own@ == bytes,
        ValueOrRef::Array(ArrayValueOrRef::List(_, items)) => items@.len() == bytes.len() && forall|
            i: int,
        |
            0 <= i < bytes.len() ==> #[trigger] items@[i] == ValueOrRef::Integer(bytes[i] as i64),
        _ => false,
    }
}

/// Whether a value reads as `read` once it has been written as that of an attribute: text, numbers,
/// booleans and bytes as themselves, lists and maps by their serialized form, and values without a
/// column of their own as their text. What is empty reads as null, but for text.
pub open spec fn round_trip<C: ValueCodec>(
    codec: &C,
    value: ValueOrRef,
    read: ValueOrRef,
) -> bool {
    match value {
        ValueOrRef::Null => read is Null,
        ValueOrRef::String(text) => read matches ValueOrRef::String(own) && own@ == text@,
        ValueOrRef::Integer(n) => read == ValueOrRef::Integer(n),
        ValueOrRef::Double(bits) => {
            ||| read == ValueOrRef::Double(bits)
            ||| read matches ValueOrRef::Double(own) && crate::value::double_eq(bits, own)
        },
        ValueOrRef::Boolean(b) => read == ValueOrRef::Boolean(b),
        ValueOrRef::Array(ArrayValueOrRef::Buffer(bytes)) => if bytes@.len() == 0 {
            read is Null
        } else {
            holds_bytes(read, bytes@)
        },
        ValueOrRef::Array(ArrayValueOrRef::List(_, items)) => if items@.len() == 0 {
            read is Null
        } else {
            form_reads(codec, value, read)
        },
        ValueOrRef::MapValue(map) => if map.map.entries().len() == 0 {
            read is Null
        } else {
            form_reads(codec, value, read)
        },
        _ => exists|text: String|
            #[trigger] call_ensures(C::convert_to_string, (codec, &value), text) && (
            read matches ValueOrRef::String(own) && own@ == text@),
    }
}

proof fn lemma_interned_bytes(held: ValueOrRef, content: ValueOrRef, bytes: Seq<u8>)
    requires
        crate::interning::interned(held, content),
        content matches ValueOrRef::Array(ArrayValueOrRef::Buffer(own)) && own@ == bytes,
    ensures
        holds_bytes(held, bytes),
{
}

proof fn lemma_form_reads<C: ValueCodec>(
    codec: &C,
    value: ValueOrRef,
    content: Option<ValueOrRef>,
    read: ValueOrRef,
)
    requires
        crate::processed_value::serializes(codec, value, content),
        match content {
            Some(form) => crate::attribute_laws::reads_form(codec, form, read),
            None => read is Null,
        },
    ensures
        form_reads(codec, value, read),
{
    let answer = choose|answer: Option<Vec<u8>>|
        #[trigger] call_ensures(C::to_slice, (codec, &value), answer) && match answer {
            Some(bytes) => crate::processed_value::holds_bytes(content, bytes@),
            None => content is None,
        };
    assert(packs(codec, value, answer));
    if let Some(bytes) = answer {
        if let Some(form) = content {
            let held = choose|held: ValueOrRef|
                crate::interning::interned(held, form)
                    && #[trigger] crate::attribute_columns::decodes(codec, held, read);
            lemma_interned_bytes(held, form, bytes@);
            assert(crate::source_laws::unpacks(codec, held, read));
            assert(bytes_read(codec, bytes@, read));
        }
    }
}

/// What is kept of a value and read back is the value.
pub proof fn lemma_processed_reads_back<C: ValueCodec>(
    codec: &C,
    value: ValueOrRef,
    processed: ProcessedValue,
    read: ValueOrRef,
)
    requires
        crate::processed_value::processes(codec, value, processed),
        crate::attribute_laws::reads_back(codec, processed, read),
    ensures
        round_trip(codec, value, read),
{
    match value {
        ValueOrRef::Array(ArrayValueOrRef::Buffer(bytes)) => {
            if bytes@.len() > 0 {
                lemma_interned_bytes(read, value, bytes@);
            }
        },
        ValueOrRef::Array(ArrayValueOrRef::List(_, items)) => {
            if items@.len() > 0 {
                lemma_form_reads(codec, value, processed->Slice_0, read);
            }
        },
        ValueOrRef::MapValue(map) => {
            if has_entries(value) {
                lemma_form_reads(codec, value, processed->MapValue_0, read);
            }
        },
        ValueOrRef::String(text) => {
            if text@.len() == 0 {
                assert(read->String_0@ =~= text@);
            }
        },
        ValueOrRef::Double(bits) => {
            if crate::value::double_is_zero(bits) {
                assert(crate::value::double_eq(bits, 0));
            }
        },
        ValueOrRef::DateTime(_) | ValueOrRef::TimeSpan(_) | ValueOrRef::Regex(_) => {
            let content = processed->String_0;
            let text = choose|text: String|
                #[trigger] call_ensures(C::convert_to_string, (codec, &value), text)
                    && crate::processed_value::holds_text(content, text@);
            if content is None {
                assert(read->String_0@ =~= text@);
            }
        },
        _ => {},
    }
}

/// Whether a value is a map with entries.
spec fn has_entries(value: ValueOrRef) -> bool {
    value matches ValueOrRef::MapValue(map) && map.map.entries().len() > 0
}

/// An attribute that has been written out for a record reads, under its name, as the value that was
/// written.
pub proof fn lemma_written_attribute_round_trip<C: ValueCodec>(
    codec: &C,
    record_count: nat,
    values: NamedValues<OtapValue>,
    attributes_batch: Option<&OtapAttributesBatch>,
    batch: OtapAttributesBatch,
    name: Seq<char>,
    written: Dictionary,
    record: int,
    dictionary: Dictionary,
)
    requires
        crate::attributes_writer::ids_last(record_count, values, attributes_batch),
        crate::attribute_laws::names_valid(values),
        crate::attributes_writer::values_wf(values, record_count),
        attributes_batch matches Some(existing) ==> {
            &&& existing.wf()
            &&& existing.ids@.len() == record_count
        },
        crate::attribute_laws::starts_apart(values, attributes_batch),
        crate::attributes_writer::written_out(
            codec,
            record_count,
            values,
            attributes_batch,
            batch.ids@,
            batch.columns,
        ),
        record_count <= 0x10000,
        crate::attribute_laws::room(codec, values, attributes_batch),
        values@.contains_key(name),
        values@[name] == OtapValue::Written(written),
        0 <= record < written.rows().len(),
        !(written.rows()[record] is Null),
        batch.gathered(codec, name, dictionary),
    ensures
        round_trip(codec, written.rows()[record], dictionary.rows()[record]),
{
    assert(values.names().contains(name));
    let j = choose|j: int| 0 <= j < values.names().len() && values.names()[j] == name;
    assert(crate::attributes_writer::written_rows(values, j) == written.rows());
    crate::attribute_laws::lemma_attributes_read_back(
        codec,
        record_count,
        values,
        attributes_batch,
        batch,
        j,
        record,
        dictionary,
    );
    let processed = choose|processed: ProcessedValue|
        #[trigger] crate::processed_value::processes(codec, written.rows()[record], processed)
            && crate::attribute_laws::reads_back(codec, processed, dictionary.rows()[record]);
    lemma_processed_reads_back(
        codec,
        written.rows()[record],
        processed,
        dictionary.rows()[record],
    );
}

}
