use std::rc::Rc;

use data_engine_columnar::bridge_error::BridgeError;
use data_engine_columnar::column_array::{timestamp_to_value, ColumnArray, TimeUnit, TimestampColumn};
use data_engine_columnar::dictionary::Dictionary;
use data_engine_columnar::dictionary_keys::{DictionaryKeyArray, KeyDataType};
use data_engine_columnar::dictionary_values::DictionaryValueArray;
use data_engine_columnar::engine_diagnostic::{
    ColumnarEngineDiagnosticLevel, ColumnarEngineDiagnosticReceiver, DiagnosticMessage,
};
use data_engine_columnar::expressions::ExpressionInfo;
use data_engine_columnar::id_bitmap::IdBitmap;
use data_engine_columnar::interning::iter_into_set;
use data_engine_columnar::log_record_schema::{build_log_record_schema, KeySchema, MapSchema};
use data_engine_columnar::named_values::NamedValues;
use data_engine_columnar::otap_ids::{IdDecoder, OtapIds, OtapParentIds};
use data_engine_columnar::serialization::visit_u64;
use data_engine_columnar::value::{
    ArrayForm, ArrayValueOrRef, DateTimeValue, MapValueOrRef, OwnedMapValue, ValueOrRef,
};
use roaring::RoaringBitmap;

/// Writes a value as JSON.
fn json(value: &ValueOrRef) -> String {
    match value {
        ValueOrRef::Null => "null".to_string(),
        ValueOrRef::Boolean(b) => b.to_string(),
        ValueOrRef::Integer(i) => i.to_string(),
        ValueOrRef::Double(bits) => f64::from_bits(*bits).to_string(),
        ValueOrRef::String(text) => serde_json::to_string(text.as_str()).unwrap(),
        ValueOrRef::Array(ArrayValueOrRef::List(_, items)) => {
            let items: Vec<String> = items.iter().map(json).collect();
            format!("[{}]", items.join(","))
        }
        ValueOrRef::MapValue(map) => {
            let mut entries: Vec<String> = map
                .map
                .get_values()
                .iter()
                .map(|(k, v)| format!("\"{k}\":{}", json(v)))
                .collect();
            entries.sort();
            format!("{{{}}}", entries.join(","))
        }
        _ => panic!("no JSON"),
    }
}

#[test]
fn test_from_json() {
    let run_test = |input: &str| {
        let value = ValueOrRef::from_json(input).unwrap();
        assert_eq!(input, json(&value));
    };
    run_test("true");
    run_test("false");
    run_test("18");
    run_test("18.18");
    run_test("null");
    run_test("[]");
    run_test("[1,\"two\",null]");
    run_test("{}");
    run_test("{\"key1\":1,\"key2\":\"two\",\"key3\":null}");
}

#[test]
fn a_text_that_is_no_json_is_an_error() {
    let error = ValueOrRef::from_json("[1,").unwrap_err();
    assert_eq!(
        "Input could not be parsed as JSON: EOF while parsing a value at line 1 column 3",
        error
    );
}

#[test]
fn large_numbers_of_json_are_doubles() {
    let value = ValueOrRef::from_json("18446744073709551615").unwrap();
    assert_eq!(ValueOrRef::Double(18446744073709551615f64.to_bits()), value);
}

#[test]
fn unsigned_numbers_are_read_as_integers_as_far_as_they_fit() {
    assert_eq!(ValueOrRef::Integer(i64::MAX), visit_u64(i64::MAX as u64).unwrap());
    assert_eq!(
        "value 9223372036854775808 out of range (max 9223372036854775807)",
        visit_u64(i64::MAX as u64 + 1).unwrap_err()
    );
}

#[test]
fn the_error_of_a_bridge_says_what_went_wrong() {
    assert_eq!(
        "Pipeline could not be initialized: no query",
        BridgeError::PipelineInitializationError("no query".to_string()).message()
    );
}

#[test]
fn levels_have_names_and_ranks() {
    for (rank, name) in ["Verbose", "Info", "Warn", "Error"].iter().enumerate() {
        let level = ColumnarEngineDiagnosticLevel::from_usize(rank).unwrap();
        assert_eq!(*name, level.get_name());
    }
    assert!(ColumnarEngineDiagnosticLevel::from_usize(4).is_none());
    let parsed: Result<ColumnarEngineDiagnosticLevel, ()> = "warn".parse();
    assert_eq!(Ok(ColumnarEngineDiagnosticLevel::Warn), parsed);
    assert_eq!(Ok(ColumnarEngineDiagnosticLevel::Verbose), "Info".parse());
    assert_eq!(Err(()), "loud".parse::<ColumnarEngineDiagnosticLevel>());
}

#[test]
fn a_receiver_keeps_what_its_level_asks_for() {
    let mut receiver = ColumnarEngineDiagnosticReceiver::new(ColumnarEngineDiagnosticLevel::Warn);
    let info = ExpressionInfo { name: Rc::new("E".to_string()), line: 1, column: 1 };
    for level in [
        ColumnarEngineDiagnosticLevel::Info,
        ColumnarEngineDiagnosticLevel::Warn,
        ColumnarEngineDiagnosticLevel::Error,
    ] {
        receiver.add_diagnostic_if_enabled(
            data_engine_columnar::engine_diagnostic::ColumnarEngineDiagnostic::new(
                level,
                info.clone(),
                DiagnosticMessage::SourceNotFound,
            ),
        );
    }
    assert_eq!(2, receiver.diagnostics.len());
    assert_eq!(ColumnarEngineDiagnosticLevel::Warn, receiver.diagnostics[0].get_diagnostic_level());
}

#[test]
fn ids_are_found_until_they_are_cleared() {
    let mut bitmap = IdBitmap::new();
    assert!(bitmap.is_empty());
    bitmap.insert(0);
    bitmap.insert(63);
    bitmap.insert(64);
    bitmap.insert(65_536);
    bitmap.insert(u32::MAX);
    bitmap.insert(u32::MAX);
    assert_eq!(5, bitmap.len());
    for id in [0, 63, 64, 65_536, u32::MAX] {
        assert!(bitmap.contains(id));
    }
    for id in [1, 65, 65_535, 131_072] {
        assert!(!bitmap.contains(id));
    }
    bitmap.clear();
    assert!(bitmap.is_empty());
    assert!(!bitmap.contains(0));
    bitmap.populate(&vec![7, 9]);
    assert_eq!(2, bitmap.len());
    assert!(bitmap.contains(7) && bitmap.contains(9));
}

#[test]
fn bitmaps_are_equal_by_the_ids_they_hold() {
    let mut left = IdBitmap::new();
    let mut right = IdBitmap::new();
    left.insert(70_000);
    left.clear();
    left.insert(3);
    right.insert(3);
    assert!(left == right);
    right.insert(4);
    assert!(left != right);
    for _ in 0..20 {
        left.clear();
    }
    assert!(left == IdBitmap::new());
}

#[test]
fn doubles_are_equal_as_numbers() {
    let double = |d: f64| ValueOrRef::Double(d.to_bits());
    assert_eq!(double(0.0), double(-0.0));
    assert_ne!(double(f64::NAN), double(f64::NAN));
    assert_eq!(double(1.5), double(1.5));
}

#[test]
fn arrays_are_equal_by_their_elements_and_maps_in_any_order() {
    let owned = ValueOrRef::Array(ArrayValueOrRef::List(ArrayForm::Owned, Rc::new(vec![
        ValueOrRef::Integer(1),
        ValueOrRef::Integer(2),
    ])));
    let buffer = ValueOrRef::Array(ArrayValueOrRef::Buffer(Rc::new(vec![1, 2])));
    assert_eq!(owned, buffer);
    let entries = [("a", 1), ("b", 2)];
    let map = |order: [usize; 2]| {
        let mut map = OwnedMapValue::new();
        for i in order {
            map.insert(&Rc::new(entries[i].0.to_string()), ValueOrRef::Integer(entries[i].1));
        }
        ValueOrRef::MapValue(MapValueOrRef::new_owned(map))
    };
    assert_eq!(map([0, 1]), map([1, 0]));
}

#[test]
fn an_entry_of_a_map_is_replaced_and_removed() {
    let mut map = OwnedMapValue::new();
    let key = Rc::new("k".to_string());
    map.insert(&key, ValueOrRef::Integer(1));
    map.insert(&key, ValueOrRef::Integer(2));
    assert_eq!(1, map.len());
    assert_eq!(Some(&ValueOrRef::Integer(2)), map.get("k"));
    map.remove("k");
    assert!(map.is_empty());
}

#[test]
fn timestamps_before_the_epoch_count_down_from_it() {
    let value = timestamp_to_value(TimeUnit::Nanosecond, -1).unwrap();
    assert_eq!((-1, 999_999_999), (value.seconds, value.nanoseconds));
    let value = timestamp_to_value(TimeUnit::Millisecond, 1_500).unwrap();
    assert_eq!((1, 500_000_000), (value.seconds, value.nanoseconds));
    assert!(timestamp_to_value(TimeUnit::Second, i64::MAX).is_none());
    assert!(TimestampColumn::new(TimeUnit::Second, vec![Some(i64::MAX)]).is_none());
}

#[test]
fn values_are_replaced_for_the_records_of_a_filter() {
    let keyed = |keys: Vec<Option<usize>>, values: Vec<i64>| {
        Dictionary::new(
            DictionaryKeyArray::KeyArray { data_type: KeyDataType::UInt16, keys: Rc::new(keys) },
            DictionaryValueArray::Array(Rc::new(ColumnArray::Int64(
                values.into_iter().map(Some).collect(),
            ))),
        )
    };
    let before = keyed(vec![Some(0), Some(1), None], vec![10, 20]);
    let values = keyed(vec![Some(0), Some(0), Some(1)], vec![20, 30]);
    let filter = RoaringBitmap::from_iter([0u32, 2]);
    let after = before.clone().with_values(Some(&filter), &values);
    let read: Vec<ValueOrRef> = (0..3).map(|i| after.get_value(i)).collect();
    assert_eq!(
        vec![ValueOrRef::Integer(20), ValueOrRef::Integer(20), ValueOrRef::Integer(30)],
        read
    );
    assert_eq!(after.get_value_index(0), after.get_value_index(1));
    let whole = before.with_values(
        None,
        &Dictionary::new_scalar_with_data_type(KeyDataType::UInt8, 3, ValueOrRef::Integer(5)),
    );
    assert_eq!(KeyDataType::UInt8, whole.keys().data_type());
    assert_eq!(ValueOrRef::Integer(5), whole.get_value(2));
}

struct Deltas;

impl IdDecoder for Deltas {
    fn remove_delta_encoding(&self, ids: &Vec<Option<u16>>) -> Vec<Option<u16>> {
        let mut last = 0;
        ids.iter()
            .map(|id| {
                id.map(|delta| {
                    last += delta;
                    last
                })
            })
            .collect()
    }

    fn materialize_parent_ids(&self, ids: &Vec<Option<u16>>) -> Vec<Option<u16>> {
        ids.iter().map(|id| id.map(|i| i + 100)).collect()
    }
}

#[test]
fn plain_ids_are_left_and_others_decoded() {
    let came = vec![Some(1), None, Some(2)];
    let plain = OtapIds::new(came.clone(), true);
    assert_eq!(came, plain.get_ids(&Deltas));
    assert_eq!(None, plain.into_parts(&Deltas));
    let encoded = OtapIds::new(came.clone(), false);
    assert_eq!(3, encoded.len());
    assert_eq!(vec![Some(1), None, Some(3)], encoded.get_ids(&Deltas));
    assert_eq!(Some(vec![Some(1), None, Some(3)]), encoded.into_parts(&Deltas));
    let decoded = OtapIds::from_decoded(came.clone());
    assert!(!decoded.is_empty());
    assert_eq!(came, decoded.get_ids(&Deltas));
    let parents = OtapParentIds::new(came, false);
    assert_eq!(vec![Some(101), None, Some(102)], parents.get_ids(&Deltas));
}

fn attributes_schema(keys: Vec<(&str, KeySchema)>) -> MapSchema {
    let mut named = NamedValues::new();
    for (key, schema) in keys {
        named.insert(key.to_string(), schema);
    }
    MapSchema { keys: named, allow_undefined_keys: true }
}

#[test]
fn attributes_that_go_by_the_name_of_a_field_are_left_out_of_the_schema() {
    let schema = attributes_schema(vec![
        ("Body", KeySchema::Any),
        ("severityText", KeySchema::String),
        ("own", KeySchema::Integer),
    ]);
    let (record, summary) = match build_log_record_schema(Some(&schema)) {
        Ok(built) => built,
        Err(conflict) => panic!("{}", conflict.key),
    };
    match record.keys.get("attributes") {
        Some(KeySchema::MapOf(Some(own))) => {
            assert_eq!(1, own.keys.len());
            assert!(matches!(own.keys.get("own"), Some(KeySchema::Integer)));
            assert!(own.allow_undefined_keys);
        }
        _ => panic!("no attributes"),
    }
    assert!(matches!(record.keys.get("time_unix_nano"), Some(KeySchema::DateTime)));
    assert!(!record.allow_undefined_keys);
    let summary = summary.unwrap();
    assert!(summary.allow_undefined_keys);
    assert!(matches!(summary.keys.get("own"), Some(KeySchema::Integer)));
    assert!(matches!(summary.keys.get("body"), Some(KeySchema::Any)));
    assert!(summary.keys.get("attributes").is_none());
    assert_eq!(10, summary.keys.len());
}

#[test]
fn an_attribute_with_the_name_but_not_the_type_of_a_field_is_a_conflict() {
    let schema = attributes_schema(vec![("SeverityNumber", KeySchema::String)]);
    match build_log_record_schema(Some(&schema)) {
        Err(conflict) => {
            assert_eq!("SeverityNumber", conflict.key);
            assert!(matches!(conflict.declared, KeySchema::String));
        }
        Ok(_) => panic!("no conflict"),
    }
    let (record, summary) = match build_log_record_schema(None) {
        Ok(built) => built,
        Err(_) => panic!("conflict"),
    };
    assert_eq!(9, record.keys.len());
    assert!(summary.is_none());
}

#[test]
fn a_column_reads_as_a_dictionary_of_its_entries() {
    let column = Rc::new(ColumnArray::UInt32(vec![Some(5), None, Some(5)]));
    let dictionary = Dictionary::from_array(KeyDataType::UInt16, column);
    assert_eq!(3, dictionary.keys.len());
    assert_eq!(KeyDataType::UInt16, dictionary.keys.data_type());
    for (i, expected) in [ValueOrRef::Integer(5), ValueOrRef::Null, ValueOrRef::Integer(5)]
        .into_iter()
        .enumerate()
    {
        assert_eq!(Some(i), dictionary.keys.get_value_index_for_key_index(i));
        assert_eq!(expected, dictionary.values.get_value_at(i));
    }
}

#[test]
fn pages_are_freed_after_more_than_sixteen_unused_cycles() {
    let mut bitmap = IdBitmap::new();
    bitmap.insert(196608);
    for _ in 0..16 {
        bitmap.clear();
    }
    assert_eq!(
        "IdBitmap { total_pages: 4, allocated_pages: 1, generation: 16, len: 0 }",
        bitmap.debug_text()
    );
    bitmap.clear();
    assert_eq!(
        "IdBitmap { total_pages: 0, allocated_pages: 0, generation: 17, len: 0 }",
        bitmap.debug_text()
    );
}

fn keyed(keys: &[Option<usize>], values: Vec<ValueOrRef>) -> Dictionary {
    Dictionary::new(
        DictionaryKeyArray::KeyArray {
            data_type: KeyDataType::UInt16,
            keys: Rc::new(keys.to_vec()),
        },
        DictionaryValueArray::Vec(Rc::new(values)),
    )
}

#[test]
fn dictionaries_are_equal_by_their_keys_and_values() {
    let values = || vec![ValueOrRef::Integer(1), ValueOrRef::Integer(2)];
    let one = keyed(&[Some(0), None, Some(1)], values());
    assert!(one == keyed(&[Some(0), None, Some(1)], values()));
    assert!(one != keyed(&[Some(0), None, Some(0)], values()));
    let turned = vec![ValueOrRef::Integer(2), ValueOrRef::Integer(1)];
    assert!(one != keyed(&[Some(1), None, Some(0)], turned));
    let more = vec![ValueOrRef::Integer(1), ValueOrRef::Integer(2), ValueOrRef::Integer(3)];
    assert!(one != keyed(&[Some(0), None, Some(1)], more));
}

#[test]
fn values_that_are_equal_in_another_form_are_kept_once() {
    let time = |seconds: i64, offset_seconds: i32| {
        Some(ValueOrRef::DateTime(DateTimeValue { seconds, nanoseconds: 5, offset_seconds }))
    };
    let bytes = ArrayValueOrRef::Buffer(Rc::new(vec![1, 2]));
    let integers =
        ArrayValueOrRef::List(ArrayForm::Owned, Rc::new(vec![ValueOrRef::Integer(1), ValueOrRef::Integer(2)]));
    let (kept, lookup) = iter_into_set(
        vec![
            time(10, 0),
            Some(ValueOrRef::Array(bytes)),
            time(10, 3600),
            Some(ValueOrRef::Array(integers)),
            time(11, 0),
        ],
        None,
    );
    assert_eq!(3, kept.len());
    let lookup = lookup.unwrap();
    let positions: Vec<Option<usize>> = (0..5).map(|i| lookup[&i]).collect();
    assert_eq!(vec![Some(0), Some(1), Some(0), Some(1), Some(2)], positions);
}

#[test]
fn replaced_values_come_behind_those_that_were_there() {
    let source = keyed(&[Some(0), Some(1), None], vec![ValueOrRef::Integer(1), ValueOrRef::Integer(1)]);
    let values = keyed(
        &[Some(1), Some(0), Some(1)],
        vec![ValueOrRef::Integer(1), ValueOrRef::Integer(7)],
    );
    let mut rows = RoaringBitmap::new();
    rows.insert(0);
    rows.insert(2);
    let expected =
        keyed(&[Some(1), Some(0), Some(1)], vec![ValueOrRef::Integer(1), ValueOrRef::Integer(7)]);
    assert!(expected == source.clone().with_values(Some(&rows), &values));
    assert!(
        keyed(&[Some(1), Some(0), Some(1)], vec![ValueOrRef::Integer(1), ValueOrRef::Integer(7)])
            == source.with_values(None, &values)
    );
}
