use std::rc::Rc;
use std::sync::Arc;

use arrow::array::{
    Array, ArrayRef, AsArray, BooleanArray, Int32Array, Int64Array, Int64Builder, ListViewBuilder,
    RecordBatch, RunArray, StringArray, StructArray, UInt16Array,
};
use arrow::datatypes::{DataType, Field, Fields, Int32Type, Int64Type, Schema, UInt16Type};
use data_engine_columnar::attribute_columns::{
    AdaptiveDictionaryReader, AttributeColumns, DictionaryColumn, ValueCodec,
};
use data_engine_columnar::attributes_batch::OtapAttributesBatch;
use data_engine_columnar::attributes_builder::AttributesBuilder;
use data_engine_columnar::attributes_writer::{attributes_writer, ids_suffice};
use data_engine_columnar::batches_factory::{filter_checked, LogBatchFormat, LogBatchesFactory};
use data_engine_columnar::bridge::{process_otap_logs_using_pipeline, BridgePipeline};
use data_engine_columnar::column_writer::{BodyCell, ColumnTarget, ValueConversions};
use data_engine_columnar::columnar_records::{
    ColumnarEngineSelectionPath, ColumnarRecords, ColumnarRecordsWriteResult, RecordTableValue,
};
use data_engine_columnar::dictionary::Dictionary;
use data_engine_columnar::dictionary_keys::{DictionaryKeyArray, KeyDataType};
use data_engine_columnar::dictionary_values::DictionaryValueArray;
use data_engine_columnar::engine::{
    ColumnarEngine, DataExpression, PipelineExpression,
};
use data_engine_columnar::engine_diagnostic::{
    ColumnarEngineDiagnostic, ColumnarEngineDiagnosticLevel, DiagnosticMessage,
};
use data_engine_columnar::expressions::{
    AttachedScalarExpression, ExpressionFunctions, ExpressionInfo, LogicalExpression,
    LogicalExpressionKind, RangePart, ScalarExpression, ScalarExpressionKind,
    SourceScalarExpression,
};
use data_engine_columnar::log_body::{build_logs_body_dictionary_from_struct, LogsBody};
use data_engine_columnar::log_columns::{
    apply, AttributesChange, BodyColumns, LogColumn, LogColumns,
};
use data_engine_columnar::log_factory::{LogSource, OtapLogRecordBatchFactory, ScopeColumns};
use data_engine_columnar::log_fields::LogsTable;
use data_engine_columnar::log_records::OtapLogRecordBatch;
use data_engine_columnar::named_values::NamedValues;
use data_engine_columnar::nullable_column::NullableColumn;
use data_engine_columnar::otap_value::OtapValue;
use data_engine_columnar::record_batches::{
    holds_indirectly, ColumnBatch, DecodedParentIds, LogBatches,
};
use data_engine_columnar::slicing::new_array_slice;
use data_engine_columnar::value::{
    ArrayForm, ArrayValueOrRef, MapValueOrRef, OwnedMapValue, ValueOrRef, ValueType,
};
use roaring::RoaringBitmap;

struct Language;

impl ExpressionFunctions for Language {
    fn are_values_equal(
        &self,
        left: &ValueOrRef,
        right: &ValueOrRef,
        _case_insensitive: bool,
    ) -> Result<bool, String> {
        Ok(left == right)
    }

    fn compare_values(&self, left: &ValueOrRef, right: &ValueOrRef) -> Result<i64, String> {
        match (left, right) {
            (ValueOrRef::Integer(l), ValueOrRef::Integer(r)) => Ok((l - r).signum()),
            _ => Err("values have no order".to_string()),
        }
    }

    fn contains(&self, _: &ValueOrRef, _: &ValueOrRef, _: bool) -> Result<bool, String> {
        Ok(false)
    }

    fn matches(&self, _: &ValueOrRef, _: &ValueOrRef) -> Result<bool, String> {
        Ok(false)
    }

    fn convert_to_bool(&self, value: &ValueOrRef) -> Option<bool> {
        match value {
            ValueOrRef::Boolean(b) => Some(*b),
            _ => None,
        }
    }

    fn validate_resolved_range_value(&self, _: RangePart, _: &ValueOrRef) -> Result<usize, String> {
        Err("no range".to_string())
    }

    fn validate_slice_range(
        &self,
        _: ValueType,
        _: usize,
        _: usize,
        _: Option<usize>,
    ) -> Result<usize, String> {
        Err("no range".to_string())
    }

    fn format_value(&self, value: &ValueOrRef) -> String {
        format!("{value:?}")
    }
}

fn to_cbor(value: &ValueOrRef) -> serde_cbor::Value {
    match value {
        ValueOrRef::Integer(i) => serde_cbor::Value::Integer(*i as i128),
        ValueOrRef::String(text) => serde_cbor::Value::Text(text.to_string()),
        ValueOrRef::Array(ArrayValueOrRef::List(_, items)) => {
            serde_cbor::Value::Array(items.iter().map(to_cbor).collect())
        }
        ValueOrRef::MapValue(map) => serde_cbor::Value::Map(
            map.map
                .get_values()
                .iter()
                .map(|(k, v)| (serde_cbor::Value::Text(k.to_string()), to_cbor(v)))
                .collect(),
        ),
        _ => serde_cbor::Value::Null,
    }
}

fn from_cbor(value: &serde_cbor::Value) -> ValueOrRef {
    match value {
        serde_cbor::Value::Integer(i) => ValueOrRef::Integer(*i as i64),
        serde_cbor::Value::Text(text) => ValueOrRef::new_string(text),
        serde_cbor::Value::Array(items) => ValueOrRef::Array(ArrayValueOrRef::List(ArrayForm::Owned, Rc::new(
            items.iter().map(from_cbor).collect(),
        ))),
        serde_cbor::Value::Map(entries) => {
            let mut map = OwnedMapValue::new();
            for (key, value) in entries {
                if let serde_cbor::Value::Text(key) = key {
                    map.insert(&Rc::new(key.clone()), from_cbor(value));
                }
            }
            ValueOrRef::MapValue(MapValueOrRef::new_owned(map))
        }
        _ => ValueOrRef::Null,
    }
}

impl ValueCodec for Language {
    fn to_slice(&self, value: &ValueOrRef) -> Option<Vec<u8>> {
        serde_cbor::to_vec(&to_cbor(value)).ok()
    }

    fn from_slice(&self, bytes: &Vec<u8>) -> Option<ValueOrRef> {
        serde_cbor::from_slice(bytes).ok().map(|v: serde_cbor::Value| from_cbor(&v))
    }

    fn convert_to_string(&self, value: &ValueOrRef) -> String {
        format!("{value:?}")
    }
}

impl ValueConversions for Language {
    fn convert_to_string(&self, value: &ValueOrRef) -> String {
        match value {
            ValueOrRef::String(text) => text.to_string(),
            ValueOrRef::Integer(i) => i.to_string(),
            _ => "null".to_string(),
        }
    }

    fn convert_to_integer(&self, value: &ValueOrRef) -> Option<i64> {
        match value {
            ValueOrRef::Integer(i) => Some(*i),
            ValueOrRef::DateTime(time) => Some(time.seconds * 1_000_000_000 + time.nanoseconds as i64),
            _ => None,
        }
    }

    fn convert_to_nanoseconds(&self, value: &ValueOrRef) -> Option<i64> {
        ValueConversions::convert_to_integer(self, value)
    }
}

impl BodyColumns for Language {
    fn finish(&self, bodies: &Vec<BodyCell>) -> Option<usize> {
        let nulls = bodies.iter().filter(|b| matches!(b, BodyCell::Null)).count();
        if nulls == bodies.len() {
            None
        } else {
            Some(nulls)
        }
    }
}

fn info(name: &str) -> ExpressionInfo {
    ExpressionInfo { name: Rc::new(name.to_string()), line: 1, column: 1 }
}

fn string(text: &str) -> ValueOrRef {
    ValueOrRef::new_string(text)
}

fn integer(value: i64) -> ValueOrRef {
    ValueOrRef::Integer(value)
}

fn map(entries: Vec<(&str, ValueOrRef)>) -> ValueOrRef {
    let mut map = OwnedMapValue::new();
    for (key, value) in entries {
        map.insert(&Rc::new(key.to_string()), value);
    }
    ValueOrRef::MapValue(MapValueOrRef::new_owned(map))
}

fn dictionary_of(values: &[ValueOrRef]) -> Dictionary {
    let mut held: Vec<ValueOrRef> = Vec::new();
    let mut keys: Vec<Option<usize>> = Vec::new();
    for value in values {
        if value.is_null() {
            keys.push(None);
        } else {
            let position = held.iter().position(|v| v == value).unwrap_or_else(|| {
                held.push(value.clone());
                held.len() - 1
            });
            keys.push(Some(position));
        }
    }
    Dictionary::new(
        DictionaryKeyArray::KeyArray { data_type: KeyDataType::UInt16, keys: Rc::new(keys) },
        DictionaryValueArray::Vec(Rc::new(held)),
    )
}

fn rows(dictionary: &Dictionary) -> Vec<ValueOrRef> {
    (0..dictionary.len()).map(|i| dictionary.get_value(i)).collect()
}

/// Attributes: the id of the record that each belongs to, its key and its value.
type Attributes = Vec<(u16, String, ValueOrRef)>;

fn dictionary_column(values: &[Option<ValueOrRef>]) -> Option<DictionaryColumn> {
    if values.iter().all(|v| v.is_none()) {
        return None;
    }
    let mut held: Vec<ValueOrRef> = Vec::new();
    let mut keys: Vec<Option<u16>> = Vec::new();
    for value in values {
        keys.push(value.as_ref().map(|value| {
            let position = held.iter().position(|v| v == value).unwrap_or_else(|| {
                held.push(value.clone());
                held.len() - 1
            });
            position as u16
        }));
    }
    let count = keys.len();
    Some(DictionaryColumn { keys: NullableColumn::from_options(&keys, count, 0), values: held })
}

fn attribute_columns(attributes: &Attributes) -> AttributeColumns {
    let mut names: Vec<String> = Vec::new();
    let mut keys: Vec<u16> = Vec::new();
    for (_, key, _) in attributes {
        let position = names.iter().position(|n| n == key).unwrap_or_else(|| {
            names.push(key.clone());
            names.len() - 1
        });
        keys.push(position as u16);
    }
    let pick = |wanted: ValueType| -> Vec<Option<ValueOrRef>> {
        attributes
            .iter()
            .map(|(_, _, v)| (v.get_value_type() == wanted).then_some(v.clone()))
            .collect()
    };
    AttributeColumns {
        parent_ids: attributes.iter().map(|a| a.0).collect(),
        keys: AdaptiveDictionaryReader { keys_u16: false, keys, values: names },
        types: attributes
            .iter()
            .map(|(_, _, v)| match v {
                ValueOrRef::String(_) => 1,
                ValueOrRef::Integer(_) => 2,
                _ => 0,
            })
            .collect(),
        strings: dictionary_column(&pick(ValueType::String)),
        ints: dictionary_column(&pick(ValueType::Integer)),
        doubles: None,
        bools: None,
        bytes: None,
        sers: None,
    }
}

fn attribute_batch(attributes: &[(u16, &str, ValueOrRef)]) -> ColumnBatch {
    let parents = UInt16Array::from_iter_values(attributes.iter().map(|a| a.0));
    let keys = StringArray::from_iter_values(attributes.iter().map(|a| a.1));
    let strings: StringArray = attributes
        .iter()
        .map(|a| match &a.2 {
            ValueOrRef::String(text) => Some(text.to_string()),
            _ => None,
        })
        .collect();
    let ints: Int64Array = attributes
        .iter()
        .map(|a| match &a.2 {
            ValueOrRef::Integer(i) => Some(*i),
            _ => None,
        })
        .collect();
    let schema = Schema::new(vec![
        Field::new("parent_id", DataType::UInt16, false),
        Field::new("key", DataType::Utf8, false),
        Field::new("str", DataType::Utf8, true),
        Field::new("int", DataType::Int64, true),
    ]);
    let columns: Vec<ArrayRef> =
        vec![Arc::new(parents), Arc::new(keys), Arc::new(strings), Arc::new(ints)];
    ColumnBatch { batch: RecordBatch::try_new(Arc::new(schema), columns).unwrap() }
}

fn read_attributes(batch: &Option<ColumnBatch>, ids: Vec<Option<u16>>) -> Option<OtapAttributesBatch> {
    let batch = &batch.as_ref()?.batch;
    let parents = batch.column_by_name("parent_id").unwrap().as_primitive::<UInt16Type>();
    let keys = batch.column_by_name("key").unwrap().as_string::<i32>();
    let strings = batch.column_by_name("str").unwrap().as_string::<i32>();
    let ints = batch.column_by_name("int").unwrap().as_primitive::<Int64Type>();
    let attributes: Attributes = (0..batch.num_rows())
        .map(|i| {
            let value = if strings.is_valid(i) {
                string(strings.value(i))
            } else if ints.is_valid(i) {
                integer(ints.value(i))
            } else {
                ValueOrRef::Null
            };
            (parents.value(i), keys.value(i).to_string(), value)
        })
        .collect();
    Some(OtapAttributesBatch { ids, columns: attribute_columns(&attributes) })
}

/// A record: its severity, the ids of its resource and its scope, and the name and version of the
/// scope.
struct Log {
    id: Option<u16>,
    severity_text: Option<&'static str>,
    resource: u16,
    scope: u16,
    scope_name: Option<&'static str>,
    scope_version: Option<&'static str>,
}

fn log(id: Option<u16>, severity_text: Option<&'static str>, resource: u16, scope: u16) -> Log {
    Log { id, severity_text, resource, scope, scope_name: None, scope_version: None }
}

fn log_batch(logs: &[Log]) -> ColumnBatch {
    let ids: UInt16Array = logs.iter().map(|l| l.id).collect();
    let severities: StringArray = logs.iter().map(|l| l.severity_text).collect();
    let id_field = || Arc::new(Field::new("id", DataType::UInt16, true));
    let resource_ids: ArrayRef =
        Arc::new(UInt16Array::from_iter_values(logs.iter().map(|l| l.resource)));
    let resource = StructArray::new(Fields::from(vec![id_field()]), vec![resource_ids], None);
    let scope_ids: ArrayRef = Arc::new(UInt16Array::from_iter_values(logs.iter().map(|l| l.scope)));
    let scope_names: ArrayRef =
        Arc::new(logs.iter().map(|l| l.scope_name).collect::<StringArray>());
    let scope_versions: ArrayRef =
        Arc::new(logs.iter().map(|l| l.scope_version).collect::<StringArray>());
    let scope = StructArray::new(
        Fields::from(vec![
            id_field(),
            Arc::new(Field::new("name", DataType::Utf8, true)),
            Arc::new(Field::new("version", DataType::Utf8, true)),
        ]),
        vec![scope_ids, scope_names, scope_versions],
        None,
    );
    let schema = Schema::new(vec![
        Field::new("id", DataType::UInt16, true),
        Field::new("severity_text", DataType::Utf8, true),
        Field::new("resource", resource.data_type().clone(), true),
        Field::new("scope", scope.data_type().clone(), true),
    ]);
    let columns: Vec<ArrayRef> =
        vec![Arc::new(ids), Arc::new(severities), Arc::new(resource), Arc::new(scope)];
    ColumnBatch { batch: RecordBatch::try_new(Arc::new(schema), columns).unwrap() }
}

fn read_strings(column: &StringArray) -> Dictionary {
    let values: Vec<ValueOrRef> =
        column.iter().map(|v| v.map_or(ValueOrRef::Null, string)).collect();
    dictionary_of(&values)
}

fn read_ids(column: &ArrayRef) -> Vec<Option<u16>> {
    column.as_primitive::<UInt16Type>().iter().collect()
}

fn source_of(batches: &LogBatches) -> LogSource {
    let Some(logs) = &batches.logs else {
        return LogSource {
            logs: None,
            log_attributes: None,
            has_resource: false,
            resource_attributes: None,
            scope: None,
            scope_attributes: None,
        };
    };
    let logs = &logs.batch;
    let resource = logs.column_by_name("resource").unwrap().as_struct();
    let scope = logs.column_by_name("scope").unwrap().as_struct();
    let mut columns: Vec<Option<Dictionary>> = (0..9).map(|_| None).collect();
    columns[3] = Some(read_strings(logs.column_by_name("severity_text").unwrap().as_string()));
    LogSource {
        logs: Some(LogsTable { record_count: logs.num_rows(), columns }),
        log_attributes: read_attributes(
            &batches.log_attributes,
            read_ids(logs.column_by_name("id").unwrap()),
        ),
        has_resource: true,
        resource_attributes: read_attributes(
            &batches.resource_attributes,
            read_ids(resource.column_by_name("id").unwrap()),
        ),
        scope: Some(ScopeColumns {
            name: Some(read_strings(scope.column_by_name("name").unwrap().as_string())),
            version: Some(read_strings(scope.column_by_name("version").unwrap().as_string())),
        }),
        scope_attributes: read_attributes(
            &batches.scope_attributes,
            read_ids(scope.column_by_name("id").unwrap()),
        ),
    }
}

struct TestFormat(OtapLogRecordBatchFactory);

impl LogBatchFormat for TestFormat {
    fn read(&self, batches: &LogBatches) -> OtapLogRecordBatch {
        self.0.create(&Language, None, source_of(batches))
    }

    fn decode(&self, batches: LogBatches) -> (LogBatches, DecodedParentIds) {
        let parent_ids = DecodedParentIds {
            log_attributes: None,
            resource_attributes: None,
            scope_attributes: None,
        };
        (batches, parent_ids)
    }

    fn refuse(&self) -> LogBatches {
        panic!("the batches cannot be filtered")
    }

    fn transform(
        &self,
        _transform: usize,
        mut batches: LogBatches,
        mut records: OtapLogRecordBatch,
    ) -> (LogBatches, Result<OtapLogRecordBatch, String>, Vec<ColumnarEngineDiagnostic>) {
        let mut notes = Vec::new();
        let count = records.len();
        let values = Dictionary::new_scalar_with_data_type(
            KeyDataType::UInt16,
            count,
            string("hello world"),
        );
        let result = records.set_values(
            &mut notes,
            &info("Set"),
            &ColumnarEngineSelectionPath::Key {
                expression: info("Key"),
                key: Rc::new("Attributes".to_string()),
            },
            &vec![ColumnarEngineSelectionPath::Key {
                expression: info("Key"),
                key: Rc::new("new_attr".to_string()),
            }],
            None,
            &values,
        );
        if result != ColumnarRecordsWriteResult::Success {
            return (batches, Err("not written".to_string()), notes);
        }
        let mut parts = records.into_parts();
        let mut columns = LogColumns { names: Vec::new(), columns: Vec::new() };
        let (change, applied) = apply(
            &Language,
            &Language,
            &Language,
            &info("Set"),
            count,
            &mut parts.fields,
            &parts.attributes,
            &mut columns,
        );
        notes.extend(applied);
        if let AttributesChange::Written(attributes) = change {
            let strings = attributes.strings.unwrap();
            let rows: Vec<(u16, &str, ValueOrRef)> = (0..attributes.parent_ids.len())
                .map(|i| {
                    (
                        attributes.parent_ids[i],
                        attributes.keys.values[usize::from(attributes.keys.keys[i])].as_str(),
                        strings.values[usize::from(strings.keys.cells[i])].clone(),
                    )
                })
                .collect();
            batches.log_attributes = Some(attribute_batch(&rows));
        }
        (batches, Ok(OtapLogRecordBatch::new(parts)), notes)
    }
}

fn scalar(kind: ScalarExpressionKind) -> ScalarExpression {
    ScalarExpression { info: info("Scalar"), kind }
}

fn keys(names: &[&str]) -> Vec<ScalarExpression> {
    names.iter().map(|n| scalar(ScalarExpressionKind::Static(string(n)))).collect()
}

fn source(names: &[&str]) -> ScalarExpression {
    scalar(ScalarExpressionKind::Source(SourceScalarExpression {
        info: info("Source"),
        selectors: keys(names),
    }))
}

fn attached(name: &str, names: &[&str]) -> ScalarExpression {
    scalar(ScalarExpressionKind::Attached(AttachedScalarExpression {
        info: info("Attached"),
        name: Rc::new(name.to_string()),
        selectors: keys(names),
    }))
}

fn logical(kind: LogicalExpressionKind) -> LogicalExpression {
    LogicalExpression { info: info("Logical"), kind }
}

fn equals(left: ScalarExpression, right: ValueOrRef) -> LogicalExpression {
    logical(LogicalExpressionKind::EqualTo {
        info: info("EqualTo"),
        left,
        right: scalar(ScalarExpressionKind::Static(right)),
        case_insensitive: false,
    })
}

fn or(left: LogicalExpression, right: LogicalExpression) -> LogicalExpression {
    logical(LogicalExpressionKind::Or(Box::new(left), Box::new(right)))
}

/// The pipeline of a query that keeps the records of which the predicate is true.
fn where_pipeline(query: &str, predicate: LogicalExpression) -> BridgePipeline {
    pipeline(
        query,
        vec![DataExpression::Discard {
            info: info("Discard"),
            predicate: Some(Rc::new(logical(LogicalExpressionKind::Not(Rc::new(predicate))))),
        }],
    )
}

fn pipeline(query: &str, expressions: Vec<DataExpression>) -> BridgePipeline {
    BridgePipeline {
        attributes_schema: None,
        engine: ColumnarEngine::new(PipelineExpression {
            query: Rc::new(query.to_string()),
            constants: Vec::new(),
            expressions,
            not_name: Rc::new("Not".to_string()),
        }),
    }
}

fn factory() -> LogBatchesFactory<TestFormat> {
    LogBatchesFactory {
        format: TestFormat(OtapLogRecordBatchFactory::new_with_options(Some(
            ColumnarEngineDiagnosticLevel::Verbose,
        ))),
    }
}

fn row_count(batch: &Option<ColumnBatch>) -> usize {
    batch.as_ref().map_or(0, |b| b.batch.num_rows())
}

fn only_logs(count: usize) -> LogBatches {
    let logs: Vec<Log> = (0..count).map(|_| log(None, None, 0, 0)).collect();
    LogBatches {
        logs: Some(log_batch(&logs)),
        log_attributes: None,
        resource_attributes: None,
        scope_attributes: None,
    }
}

#[test]
fn test_engine_filter_all() {
    let logs = only_logs(4);
    assert_eq!(4, row_count(&logs.logs));
    let pipeline = where_pipeline(
        "source | where false",
        logical(LogicalExpressionKind::Scalar(scalar(ScalarExpressionKind::Static(
            ValueOrRef::Boolean(false),
        )))),
    );
    let results = process_otap_logs_using_pipeline(&pipeline, &Language, &factory(), logs);
    assert_eq!(4, results.dropped_record_count);
    assert_eq!(0, results.included_record_count);
    assert!(results.included_records.is_none());
    assert!(results
        .diagnostics
        .get_diagnostics()
        .iter()
        .any(|d| matches!(d.message, DiagnosticMessage::AllRecordsDropped)));
}

/// Four records of two resources and three scopes.
fn nested_logs(scope_attributes: [&'static str; 3], named: bool) -> LogBatches {
    let mut logs = vec![
        log(None, Some("Info"), 0, 0),
        log(None, Some("Warn"), 1, 1),
        log(None, Some("Error"), 1, 1),
        log(None, None, 1, 2),
    ];
    if named {
        logs[1].scope_version = Some("version2");
        logs[2].scope_version = Some("version2");
        logs[3].scope_name = Some("scope3");
    }
    LogBatches {
        logs: Some(log_batch(&logs)),
        log_attributes: None,
        resource_attributes: Some(attribute_batch(&[
            (0, "resource_attr1", string("value1")),
            (1, "resource_attr1", string("value2")),
        ])),
        scope_attributes: Some(attribute_batch(&[
            (0, "scope_attr1", string(scope_attributes[0])),
            (1, "scope_attr1", string(scope_attributes[1])),
            (2, "scope_attr1", string(scope_attributes[2])),
        ])),
    }
}

fn assert_counts(batches: &LogBatches, counts: [usize; 4]) {
    assert_eq!(counts[0], row_count(&batches.resource_attributes));
    assert_eq!(counts[1], row_count(&batches.scope_attributes));
    assert_eq!(counts[2], row_count(&batches.logs));
    assert_eq!(counts[3], row_count(&batches.log_attributes));
}

#[test]
fn batches_are_refused_where_the_filter_does_not_fit() {
    let parents = || DecodedParentIds {
        log_attributes: None,
        resource_attributes: None,
        scope_attributes: Some(vec![Some(0), Some(1), Some(2)]),
    };
    let logs = || nested_logs(["value1", "value1", "value2"], false);
    let short = BooleanArray::from(vec![true, false, true]);
    assert!(filter_checked(logs(), parents(), &short).is_err());
    let fitting = BooleanArray::from(vec![true, false, false, false]);
    assert_counts(&filter_checked(logs(), parents(), &fitting).unwrap(), [1, 1, 1, 0]);
    let mut too_few = parents();
    too_few.scope_attributes = Some(vec![Some(0)]);
    assert!(filter_checked(logs(), too_few, &fitting).is_err());
}

#[test]
fn test_engine_filter_severity_text_info() {
    let mut logs = nested_logs(["value1", "value1", "value2"], false);
    logs.resource_attributes = Some(attribute_batch(&[
        (0, "resource1_attr1", string("value1")),
        (1, "resource2_attr1", string("value1")),
    ]));
    logs.scope_attributes = Some(attribute_batch(&[
        (0, "scope1_attr1", string("value1")),
        (1, "scope2_attr1", string("value1")),
        (2, "scope3_attr1", string("value2")),
    ]));
    assert_counts(&logs, [2, 3, 4, 0]);
    let pipeline = where_pipeline(
        "source | where severity_text == 'Info'",
        equals(source(&["severity_text"]), string("Info")),
    );
    let results = process_otap_logs_using_pipeline(&pipeline, &Language, &factory(), logs);
    assert_eq!(3, results.dropped_record_count);
    assert_eq!(1, results.included_record_count);
    assert_counts(&results.included_records.unwrap(), [1, 1, 1, 0]);
}

#[test]
fn test_engine_filter_attribute() {
    let logs: Vec<Log> = (0..5)
        .map(|i| log(if i < 4 { Some(i) } else { None }, None, 0, 0))
        .collect();
    let batches = LogBatches {
        logs: Some(log_batch(&logs)),
        log_attributes: Some(attribute_batch(&[
            (0, "attr1", string("value1")),
            (1, "attr1", string("value1")),
            (2, "attr1", string("value2")),
            (3, "attr1", integer(18)),
        ])),
        resource_attributes: None,
        scope_attributes: None,
    };
    let at_least = logical(LogicalExpressionKind::GreaterThanOrEqualTo {
        info: info("GreaterThanOrEqualTo"),
        left: source(&["Attributes", "attr1"]),
        right: scalar(ScalarExpressionKind::Static(integer(18))),
    });
    let pipeline = where_pipeline(
        "source | where Attributes['attr1'] >= 18 or Attributes['attr1'] == 'value1'",
        or(at_least, equals(source(&["Attributes", "attr1"]), string("value1"))),
    );
    let results = process_otap_logs_using_pipeline(&pipeline, &Language, &factory(), batches);
    assert_eq!(2, results.dropped_record_count);
    assert_eq!(3, results.included_record_count);
    let included = results.included_records.unwrap();
    assert_eq!(3, row_count(&included.logs));
    assert_eq!(3, row_count(&included.log_attributes));
}

#[test]
fn test_engine_filter_resource() {
    let logs = nested_logs(["value1", "value1", "value2"], false);
    assert_counts(&logs, [2, 3, 4, 0]);
    let pipeline = where_pipeline(
        "source | where resource.attributes['resource_attr1'] == 'value1'",
        equals(attached("resource", &["attributes", "resource_attr1"]), string("value1")),
    );
    let results = process_otap_logs_using_pipeline(&pipeline, &Language, &factory(), logs);
    assert_eq!(3, results.dropped_record_count);
    assert_eq!(1, results.included_record_count);
    assert_counts(&results.included_records.unwrap(), [1, 1, 1, 0]);
}

#[test]
fn test_engine_filter_scope() {
    let logs = nested_logs(["value1", "value1", "value2"], true);
    assert_counts(&logs, [2, 3, 4, 0]);
    let pipeline = where_pipeline(
        "source | where scope.name == 'invalid' or scope.version == 'invalid' or scope.attributes['scope_attr1'] == 'value1'",
        or(
            or(
                equals(attached("scope", &["name"]), string("invalid")),
                equals(attached("scope", &["version"]), string("invalid")),
            ),
            equals(attached("scope", &["attributes", "scope_attr1"]), string("value1")),
        ),
    );
    let results = process_otap_logs_using_pipeline(&pipeline, &Language, &factory(), logs);
    assert_eq!(2, results.dropped_record_count);
    assert_eq!(2, results.included_record_count);
    assert_counts(&results.included_records.unwrap(), [2, 2, 2, 0]);
}

#[test]
fn test_engine_set_attribute() {
    let logs = only_logs(3);
    assert_eq!(3, row_count(&logs.logs));
    assert_eq!(0, row_count(&logs.log_attributes));
    let pipeline = pipeline(
        "source | extend new_attr = 'hello world'",
        vec![DataExpression::Transform { info: info("Set"), transform: 0 }],
    );
    let results = process_otap_logs_using_pipeline(&pipeline, &Language, &factory(), logs);
    assert_eq!(0, results.dropped_record_count);
    assert_eq!(3, results.included_record_count);
    let included = results.included_records.unwrap();
    assert_eq!(3, row_count(&included.logs));
    assert_eq!(3, row_count(&included.log_attributes));
    assert!(results
        .diagnostics
        .get_diagnostics()
        .iter()
        .any(|d| matches!(d.message, DiagnosticMessage::AttributeWritten { .. })));
}

fn records_with(columns: Vec<(usize, Dictionary)>, count: usize) -> OtapLogRecordBatch {
    let mut held: Vec<Option<Dictionary>> = (0..9).map(|_| None).collect();
    for (place, column) in columns {
        held[place] = Some(column);
    }
    OtapLogRecordBatchFactory::new().create(
        &Language,
        None,
        LogSource {
            logs: Some(LogsTable { record_count: count, columns: held }),
            log_attributes: None,
            has_resource: false,
            resource_attributes: None,
            scope: None,
            scope_attributes: None,
        },
    )
}

fn key(name: &str) -> ColumnarEngineSelectionPath {
    ColumnarEngineSelectionPath::Key { expression: info("Key"), key: Rc::new(name.to_string()) }
}

fn read(records: &OtapLogRecordBatch, name: &str) -> Option<Vec<ValueOrRef>> {
    match records.get_values(0, name) {
        Some(RecordTableValue::Dictionary(values)) => Some(rows(&values)),
        _ => None,
    }
}

#[test]
fn a_field_that_was_written_reads_so_under_each_of_its_names() {
    let mut records = records_with(
        vec![(3, dictionary_of(&[string("Info"), ValueOrRef::Null])), (2, dictionary_of(&[integer(9), integer(17)]))],
        2,
    );
    assert_eq!(Some(vec![string("Info"), ValueOrRef::Null]), read(&records, "SeverityText"));
    let mut notes = Vec::new();
    let result = records.set_values(
        &mut notes,
        &info("Set"),
        &key("severity_text"),
        &vec![],
        None,
        &dictionary_of(&[string("Warn"), string("Error")]),
    );
    assert_eq!(ColumnarRecordsWriteResult::Success, result);
    for name in ["severity_text", "SeverityText", "severityText"] {
        assert_eq!(Some(vec![string("Warn"), string("Error")]), read(&records, name));
    }
    assert_eq!(Some(vec![integer(9), integer(17)]), read(&records, "severityNumber"));
    assert!(matches!(notes[0].message, DiagnosticMessage::FieldWritten { .. }));

    let result = records.set_values(
        &mut notes,
        &info("Set"),
        &key("severity_text"),
        &vec![],
        None,
        &dictionary_of(&[ValueOrRef::Null, ValueOrRef::Null]),
    );
    assert_eq!(ColumnarRecordsWriteResult::Success, result);
    assert_eq!(None, read(&records, "severity_text"));
}

#[test]
fn a_filter_leaves_the_other_records_their_values() {
    let mut records = records_with(
        vec![(7, dictionary_of(&[string("a"), string("b"), string("c")]))],
        3,
    );
    let filter = RoaringBitmap::from_iter([0u32, 2]);
    let result = records.set_values(
        &mut Vec::new(),
        &info("Set"),
        &key("event_name"),
        &vec![],
        Some(&filter),
        &dictionary_of(&[string("x"), string("y"), ValueOrRef::Null]),
    );
    assert_eq!(ColumnarRecordsWriteResult::Success, result);
    assert_eq!(
        Some(vec![string("x"), string("b"), ValueOrRef::Null]),
        read(&records, "event_name")
    );
}

#[test]
fn only_bodies_are_written_inside() {
    let body = map(vec![("a", integer(1))]);
    let mut records = records_with(
        vec![(8, dictionary_of(&[body])), (3, dictionary_of(&[string("Info")]))],
        1,
    );
    let mut notes = Vec::new();
    let values = dictionary_of(&[integer(2)]);
    let result = records.set_values(
        &mut notes,
        &info("Set"),
        &key("body"),
        &vec![key("b")],
        None,
        &values,
    );
    assert_eq!(ColumnarRecordsWriteResult::Success, result);
    assert_eq!(
        Some(vec![map(vec![("a", integer(1)), ("b", integer(2))])]),
        read(&records, "Body")
    );
    let result = records.set_values(
        &mut notes,
        &info("Set"),
        &key("severity_text"),
        &vec![key("b")],
        None,
        &values,
    );
    assert_eq!(ColumnarRecordsWriteResult::NotFound, result);
    assert!(matches!(
        notes.last().unwrap().message,
        DiagnosticMessage::FieldHasNoInside(_)
    ));
}

#[test]
fn names_that_lead_nowhere_are_told() {
    let mut records = records_with(vec![], 1);
    let mut notes: Vec<ColumnarEngineDiagnostic> = Vec::new();
    let values = dictionary_of(&[integer(2)]);
    let unknown =
        records.set_values(&mut notes, &info("Set"), &key("nothing"), &vec![], None, &values);
    assert_eq!(ColumnarRecordsWriteResult::NotFound, unknown);
    let index = ColumnarEngineSelectionPath::Index { expression: info("Index"), index: 0 };
    let indexed = records.set_values(&mut notes, &info("Set"), &index, &vec![], None, &values);
    assert_eq!(ColumnarRecordsWriteResult::NotFound, indexed);
    assert!(matches!(&notes[0].message, DiagnosticMessage::FieldNotFound(n) if n.as_str() == "nothing"));
    assert!(matches!(notes[1].message, DiagnosticMessage::LogRecordByIndex));
    let empty = RoaringBitmap::new();
    let nobody = records.set_values(
        &mut notes,
        &info("Set"),
        &key("nothing"),
        &vec![],
        Some(&empty),
        &values,
    );
    assert_eq!(ColumnarRecordsWriteResult::Success, nobody);
    assert_eq!(2, notes.len());
}

#[test]
fn each_record_may_name_its_own_field() {
    let mut records = records_with(vec![], 3);
    let root = ColumnarEngineSelectionPath::Dictionary {
        expression: info("Keys"),
        values: dictionary_of(&[string("severity_text"), ValueOrRef::Null, string("event_name")]),
    };
    let values = Dictionary::new_scalar_with_data_type(
        KeyDataType::UInt16,
        3,
        string("hello world"),
    );
    let result =
        records.set_values(&mut Vec::new(), &info("Set"), &root, &vec![], None, &values);
    assert_eq!(ColumnarRecordsWriteResult::Success, result);
    assert_eq!(
        Some(vec![string("hello world"), ValueOrRef::Null, ValueOrRef::Null]),
        read(&records, "severity_text")
    );
    assert_eq!(
        Some(vec![ValueOrRef::Null, ValueOrRef::Null, string("hello world")]),
        read(&records, "event_name")
    );
}

#[test]
fn writing_back_replaces_adds_and_removes_columns() {
    let mut records = records_with(
        vec![
            (3, dictionary_of(&[string("a"), string("b")])),
            (7, dictionary_of(&[string("x"), string("y")])),
        ],
        2,
    );
    let mut notes = Vec::new();
    let set = |records: &mut OtapLogRecordBatch, name: &str, values: &[ValueOrRef]| {
        let result = records.set_values(
            &mut Vec::new(),
            &info("Set"),
            &key(name),
            &vec![],
            None,
            &dictionary_of(values),
        );
        assert_eq!(ColumnarRecordsWriteResult::Success, result);
    };
    set(&mut records, "severity_text", &[integer(7), string("b")]);
    set(&mut records, "event_name", &[ValueOrRef::Null, ValueOrRef::Null]);
    set(&mut records, "flags", &[integer(1), integer(-1)]);
    set(&mut records, "span_id", &[string("no bytes"), ValueOrRef::Null]);
    let mut parts = records.into_parts();
    let mut columns = LogColumns {
        names: vec!["severity_text".to_string(), "event_name".to_string(), "id".to_string()],
        columns: vec![LogColumn::Held(0), LogColumn::Held(1), LogColumn::Held(2)],
    };
    let (change, more) = apply(
        &Language,
        &Language,
        &Language,
        &info("Set"),
        2,
        &mut parts.fields,
        &parts.attributes,
        &mut columns,
    );
    notes.extend(more);
    assert!(matches!(change, AttributesChange::Unchanged));
    assert_eq!(vec!["severity_text", "id", "span_id", "flags"], columns.names);
    match &columns.columns[0] {
        LogColumn::Keyed { target: ColumnTarget::Text, column } => {
            assert_eq!(KeyDataType::UInt8, column.keys.data_type());
            assert_eq!(vec![string("7"), string("b")], column.values);
            assert_eq!(Some(0), column.keys.get_value_index_for_key_index(0));
            assert_eq!(Some(1), column.keys.get_value_index_for_key_index(1));
        }
        _ => panic!("not a keyed column"),
    }
    assert!(matches!(columns.columns[1], LogColumn::Held(2)));
    match &columns.columns[2] {
        LogColumn::Keyed { target: ColumnTarget::FixedSizeBinary { size: 8 }, column } => {
            assert!(column.values.is_empty());
            assert_eq!(None, column.keys.get_value_index_for_key_index(0));
        }
        _ => panic!("not a keyed column"),
    }
    match &columns.columns[3] {
        LogColumn::Plain { target: ColumnTarget::UInt32, values } => {
            assert_eq!(vec![integer(1), ValueOrRef::Null], *values);
        }
        _ => panic!("not a plain column"),
    }
    let told: Vec<bool> = notes
        .iter()
        .map(|n| matches!(n.message, DiagnosticMessage::ColumnRemoved(_)))
        .collect();
    assert_eq!(vec![false, false, false, true], told);
    assert!(matches!(
        notes[2].message,
        DiagnosticMessage::ColumnWritten { valid: 1, nulls: 1, .. }
    ));
}

#[test]
fn bodies_are_written_as_what_they_are() {
    let list = ValueOrRef::Array(ArrayValueOrRef::List(ArrayForm::Owned, Rc::new(vec![integer(1)])));
    let bodies = [
        string("text"),
        integer(5),
        ValueOrRef::Boolean(true),
        ValueOrRef::Double(0x3FF0_0000_0000_0000),
        ValueOrRef::Array(ArrayValueOrRef::Buffer(Rc::new(vec![1, 2]))),
        list,
        map(vec![("k", integer(1))]),
        ValueOrRef::Null,
    ];
    let cells = data_engine_columnar::column_writer::body_writer(
        &Language,
        &Language,
        &dictionary_of(&bodies),
    );
    assert!(matches!(&cells[0], BodyCell::Text(t) if t.as_str() == "text"));
    assert!(matches!(cells[1], BodyCell::Integer(5)));
    assert!(matches!(cells[2], BodyCell::Boolean(true)));
    assert!(matches!(cells[3], BodyCell::Double(0x3FF0_0000_0000_0000)));
    assert!(matches!(&cells[4], BodyCell::Bytes(b) if b.as_slice() == [1, 2]));
    assert!(matches!(&cells[5], BodyCell::Slice(b) if b.as_slice() == [0x81, 0x01]));
    assert!(matches!(&cells[6], BodyCell::MapValue(b) if b.as_slice() == [0xA1, 0x61, b'k', 0x01]));
    assert!(matches!(cells[7], BodyCell::Null));
}

#[test]
fn bodies_are_read_from_the_columns_of_their_kinds() {
    let keyed = |keys: [u16; 9], values: Vec<ValueOrRef>| {
        let keys: Vec<Option<u16>> = keys.iter().map(|k| Some(*k)).collect();
        Some(DictionaryColumn { keys: NullableColumn::from_options(&keys, 9, 0), values })
    };
    let bytes = |bytes: &[u8]| ValueOrRef::Array(ArrayValueOrRef::Buffer(Rc::new(bytes.to_vec())));
    let body = LogsBody {
        types: Some(vec![1, 2, 3, 4, 5, 6, 0, 1, 1]),
        strings: keyed([1, 9, 9, 9, 9, 9, 9, 0, 1], vec![string("a"), string("b")]),
        ints: keyed([9, 0, 9, 9, 9, 9, 9, 9, 9], vec![integer(7)]),
        doubles: Some(NullableColumn::new(9, 0x3FF0_0000_0000_0000)),
        bools: Some(NullableColumn::new(9, true)),
        bytes: None,
        sers: keyed(
            [9, 9, 9, 9, 0, 1, 9, 9, 9],
            vec![bytes(&[0x81, 0x01]), bytes(&[0xA1, 0x61, b'k', 0x01])],
        ),
    };
    let read = build_logs_body_dictionary_from_struct(&Language, &body).unwrap();
    assert_eq!(
        vec![
            string("b"),
            integer(7),
            ValueOrRef::Double(0x3FF0_0000_0000_0000),
            ValueOrRef::Boolean(true),
            ValueOrRef::Array(ArrayValueOrRef::List(ArrayForm::Owned, Rc::new(vec![integer(1)]))),
            map(vec![("k", integer(1))]),
            ValueOrRef::Null,
            string("a"),
            string("b"),
        ],
        rows(&read)
    );
    assert_eq!(7, read.values.len());

    let none = LogsBody { types: None, strings: None, ints: None, doubles: None, bools: None, bytes: None, sers: None };
    assert!(build_logs_body_dictionary_from_struct(&Language, &none).is_none());

    let columns = keyed([1, 0, 0, 1, 0, 0, 0, 0, 0], vec![bytes(&[1]), bytes(&[2])]);
    let only_bytes = LogsBody {
        types: Some(vec![7; 9]),
        strings: None,
        ints: None,
        doubles: None,
        bools: None,
        bytes: columns,
        sers: None,
    };
    let read = rows(&build_logs_body_dictionary_from_struct(&Language, &only_bytes).unwrap());
    assert_eq!([bytes(&[2]), bytes(&[1]), bytes(&[1]), bytes(&[2])], read[..4]);
}

fn attributes_of(records: &OtapLogRecordBatch, name: &str) -> Option<Vec<ValueOrRef>> {
    match records.get_values(1, name) {
        Some(RecordTableValue::Dictionary(values)) => Some(rows(&values)),
        _ => None,
    }
}

fn records_with_attributes(attributes: &Attributes, ids: Vec<Option<u16>>) -> OtapLogRecordBatch {
    OtapLogRecordBatchFactory::new().create(
        &Language,
        None,
        LogSource {
            logs: Some(LogsTable {
                record_count: ids.len(),
                columns: (0..9).map(|_| None).collect(),
            }),
            log_attributes: Some(OtapAttributesBatch {
                ids,
                columns: attribute_columns(attributes),
            }),
            has_resource: false,
            resource_attributes: None,
            scope: None,
            scope_attributes: None,
        },
    )
}

#[test]
fn attributes_at_one_place_share_a_value() {
    let attributes = vec![
        (0, "a".to_string(), string("one")),
        (1, "a".to_string(), string("two")),
        (2, "a".to_string(), string("one")),
        (2, "b".to_string(), string("two")),
    ];
    let batch = OtapAttributesBatch {
        ids: vec![Some(0), Some(1), Some(2), None],
        columns: attribute_columns(&attributes),
    };
    let shared = Dictionary::new(
        DictionaryKeyArray::KeyArray {
            data_type: KeyDataType::UInt16,
            keys: Rc::new(vec![Some(0), Some(1), Some(0), None]),
        },
        DictionaryValueArray::Vec(Rc::new(vec![string("one"), string("two")])),
    );
    assert!(shared == batch.get_values(&Language, "a").unwrap());
    assert!(batch.get_values(&Language, "c").is_none());
}

#[test]
fn attributes_read_back_after_they_have_been_written_out() {
    let attributes = vec![
        (3, "kept".to_string(), string("one")),
        (7, "kept".to_string(), integer(5)),
        (7, "replaced".to_string(), string("old")),
    ];
    let mut records = records_with_attributes(&attributes, vec![Some(3), None, Some(7)]);
    assert_eq!(
        Some(vec![string("one"), ValueOrRef::Null, integer(5)]),
        attributes_of(&records, "kept")
    );
    let written = [string("a"), map(vec![("k", integer(1))]), ValueOrRef::Boolean(true)];
    for (name, values) in [("replaced", dictionary_of(&written)), ("new", dictionary_of(&[ValueOrRef::Null, integer(5), ValueOrRef::Null]))] {
        let result = records.set_values(
            &mut Vec::new(),
            &info("Set"),
            &key("attributes"),
            &vec![key(name)],
            None,
            &values,
        );
        assert_eq!(ColumnarRecordsWriteResult::Success, result);
    }
    assert_eq!(Some(written.to_vec()), attributes_of(&records, "replaced"));
    let mut parts = records.into_parts();
    let mut columns = LogColumns {
        names: vec!["id".to_string()],
        columns: vec![LogColumn::Held(0)],
    };
    let (change, notes) = apply(
        &Language,
        &Language,
        &Language,
        &info("Set"),
        3,
        &mut parts.fields,
        &parts.attributes,
        &mut columns,
    );
    assert!(notes.is_empty());
    let AttributesChange::Written(out) = change else { panic!("nothing written") };
    let LogColumn::Ids(ids) = columns.columns.pop().unwrap() else { panic!("no ids") };
    assert_eq!(6, out.len());
    assert_eq!(3, ids.iter().flatten().collect::<std::collections::HashSet<_>>().len());
    assert_eq!(vec![Some(0), Some(2), Some(1)], ids);
    assert_eq!(vec!["kept", "replaced", "new"], out.keys.values);
    let again = OtapLogRecordBatchFactory::new().create(
        &Language,
        None,
        LogSource {
            logs: Some(LogsTable { record_count: 3, columns: (0..9).map(|_| None).collect() }),
            log_attributes: Some(OtapAttributesBatch { ids, columns: out }),
            has_resource: false,
            resource_attributes: None,
            scope: None,
            scope_attributes: None,
        },
    );
    assert_eq!(
        Some(vec![string("one"), ValueOrRef::Null, integer(5)]),
        attributes_of(&again, "kept")
    );
    assert_eq!(Some(written.to_vec()), attributes_of(&again, "replaced"));
    assert_eq!(
        Some(vec![ValueOrRef::Null, integer(5), ValueOrRef::Null]),
        attributes_of(&again, "new")
    );
}

#[test]
fn many_names_are_written_each_under_its_own_key() {
    let mut values: NamedValues<OtapValue> = NamedValues::new();
    for i in 0..300 {
        let rows = [integer(i + 1), string("same")];
        values.insert(format!("name{i}"), OtapValue::Written(dictionary_of(&rows)));
    }
    assert!(ids_suffice(2, &values, None));
    let (ids, columns) = attributes_writer(&Language, 2, &values, None).unwrap();
    assert_eq!(vec![Some(0), Some(1)], ids);
    assert!(columns.keys.keys_u16);
    assert_eq!(300, columns.keys.values.len());
    assert_eq!(600, columns.len());
    assert_eq!(300, columns.ints.as_ref().unwrap().values.len());
    assert_eq!(vec![string("same")], columns.strings.as_ref().unwrap().values);
    let batch = OtapAttributesBatch { ids, columns };
    for i in 0..300 {
        let read = batch.get_values(&Language, &format!("name{i}")).unwrap();
        assert_eq!(vec![integer(i + 1), string("same")], rows(&read));
    }

    let mut few: NamedValues<OtapValue> = NamedValues::new();
    few.insert("name0".to_string(), OtapValue::Removed);
    few.insert("name1".to_string(), OtapValue::Written(dictionary_of(&[ValueOrRef::Null, integer(7)])));
    let (ids, columns) = attributes_writer(&Language, 2, &few, Some(&batch)).unwrap();
    assert!(columns.keys.keys_u16);
    let again = OtapAttributesBatch { ids, columns };
    assert!(again.get_values(&Language, "name0").is_none());
    let read = |name: &str| rows(&again.get_values(&Language, name).unwrap());
    assert_eq!(vec![ValueOrRef::Null, integer(7)], read("name1"));
    assert_eq!(vec![integer(3), string("same")], read("name2"));
    assert_eq!(vec![integer(300), string("same")], read("name299"));
}

#[test]
fn attributes_that_are_all_removed_take_the_ids_with_them() {
    let attributes = vec![(0, "a".to_string(), string("one"))];
    let mut records = records_with_attributes(&attributes, vec![Some(0)]);
    let mut notes = Vec::new();
    let result = records.set_values(
        &mut notes,
        &info("Set"),
        &key("attributes"),
        &vec![key("a")],
        None,
        &dictionary_of(&[ValueOrRef::Null]),
    );
    assert_eq!(ColumnarRecordsWriteResult::Success, result);
    assert!(matches!(notes[0].message, DiagnosticMessage::AttributeRemoved(_)));
    let mut parts = records.into_parts();
    let mut columns = LogColumns {
        names: vec!["id".to_string()],
        columns: vec![LogColumn::Held(0)],
    };
    let (change, notes) = apply(
        &Language,
        &Language,
        &Language,
        &info("Set"),
        1,
        &mut parts.fields,
        &parts.attributes,
        &mut columns,
    );
    assert!(matches!(change, AttributesChange::Removed));
    assert!(columns.names.is_empty());
    assert!(matches!(notes[0].message, DiagnosticMessage::IdsRemoved));
}

/// What a column that was written holds for each of three records.
fn written_column(columns: &LogColumns, name: &str) -> Vec<ValueOrRef> {
    let place = columns.names.iter().position(|n| n == name).unwrap();
    match &columns.columns[place] {
        LogColumn::Keyed { column, .. } => (0..3)
            .map(|i| match column.keys.get_value_index_for_key_index(i) {
                Some(position) => column.values[position].clone(),
                None => ValueOrRef::Null,
            })
            .collect(),
        LogColumn::Plain { values, .. } => values.clone(),
        _ => panic!("not a written column"),
    }
}

/// Sets a field of three records to a value, and writes the records back to their columns.
fn set_and_apply(
    mut records: OtapLogRecordBatch,
    root: ColumnarEngineSelectionPath,
    value: ValueOrRef,
    held: &[&str],
) -> LogColumns {
    let values = Dictionary::new_scalar_with_data_type(KeyDataType::UInt16, 3, value);
    let result =
        records.set_values(&mut Vec::new(), &info("Set"), &root, &vec![], None, &values);
    assert_eq!(ColumnarRecordsWriteResult::Success, result);
    assert_eq!(3, records.len());
    let mut parts = records.into_parts();
    let mut columns = LogColumns {
        names: held.iter().map(|n| n.to_string()).collect(),
        columns: (0..held.len()).map(LogColumn::Held).collect(),
    };
    let _ = apply(
        &Language,
        &Language,
        &Language,
        &info("Set"),
        3,
        &mut parts.fields,
        &parts.attributes,
        &mut columns,
    );
    columns
}

fn assert_set(name: &str, place: usize, before: Option<[ValueOrRef; 3]>, value: ValueOrRef) {
    let (held, columns) = match before {
        Some(before) => (vec![name], vec![(place, dictionary_of(&before))]),
        None => (vec![], vec![]),
    };
    let columns = set_and_apply(records_with(columns, 3), key(name), value.clone(), &held);
    assert_eq!(vec![name], columns.names);
    assert_eq!(vec![value.clone(), value.clone(), value], written_column(&columns, name));
}

#[test]
fn test_engine_set_severity_text_column_exists() {
    assert_set(
        "severity_text",
        3,
        Some([string("hello world"), ValueOrRef::Null, string("goodbye world")]),
        string("hello world"),
    );
}

#[test]
fn test_engine_set_severity_text_column_doesnt_exist() {
    assert_set("severity_text", 3, None, string("hello world"));
}

#[test]
fn test_engine_set_event_name_column_exists() {
    assert_set(
        "event_name",
        7,
        Some([string("event1"), ValueOrRef::Null, string("event2")]),
        string("my_event"),
    );
}

#[test]
fn test_engine_set_event_name_column_doesnt_exist() {
    assert_set("event_name", 7, None, string("my_event"));
}

#[test]
fn test_engine_set_severity_number_column_exists() {
    assert_set(
        "severity_number",
        2,
        Some([integer(0), ValueOrRef::Null, integer(1)]),
        integer(18),
    );
}

#[test]
fn test_engine_set_severity_number_column_doesnt_exist() {
    assert_set("severity_number", 2, None, integer(18));
}

#[test]
fn test_engine_set_dynamic_column() {
    let attributes = vec![
        (0, "some_attr".to_string(), string("severity_text")),
        (1, "some_attr".to_string(), string("event_name")),
    ];
    let records = records_with_attributes(&attributes, vec![Some(0), None, Some(1)]);
    let Some(RecordTableValue::Dictionary(names)) = records.get_values(1, "some_attr") else {
        panic!("no attribute")
    };
    let root = ColumnarEngineSelectionPath::Dictionary { expression: info("Keys"), values: names };
    let columns = set_and_apply(records, root, string("hello world"), &["id"]);
    assert_eq!(string("hello world"), written_column(&columns, "severity_text")[0]);
    assert_eq!(string("hello world"), written_column(&columns, "event_name")[2]);
}

#[test]
fn what_the_query_lends_is_not_written_into() {
    let lent = map(vec![("a", integer(1))]).borrow_value();
    let list = ArrayValueOrRef::List(ArrayForm::Owned, Rc::new(vec![integer(1), integer(2)]));
    let slice = ValueOrRef::Array(new_array_slice(&list, 0, 2));
    let mut records = records_with(
        vec![(8, dictionary_of(&[lent.clone(), slice.clone(), ValueOrRef::Array(list)]))],
        3,
    );
    let mut notes = Vec::new();
    let mut set = |path: ColumnarEngineSelectionPath, row: u32| {
        let _ = records.set_values(
            &mut notes,
            &info("Set"),
            &key("body"),
            &vec![path],
            Some(&RoaringBitmap::from_iter([row])),
            &dictionary_of(&[integer(9), integer(9), integer(9)]),
        );
    };
    let index = || ColumnarEngineSelectionPath::Index { expression: info("Index"), index: 0 };
    set(key("b"), 0);
    set(index(), 1);
    assert_eq!(lent, read(&records, "body").unwrap()[0]);
    assert_eq!(slice, read(&records, "body").unwrap()[1]);
    assert!(notes.iter().any(|n| matches!(n.message, DiagnosticMessage::KeyIntoType { .. })));
    assert!(notes.iter().any(|n| matches!(n.message, DiagnosticMessage::IndexIntoType { .. })));
}

#[test]
fn a_batch_tells_whether_it_holds_runs_or_list_views() {
    let plain = attribute_batch(&[(0, "a", integer(1))]);
    assert!(!holds_indirectly(&plain));
    let ends = Int32Array::from(vec![2, 3, 8]);
    let values = Int64Array::from(vec![7, -2, 9]);
    let runs: ArrayRef = Arc::new(RunArray::<Int32Type>::try_new(&ends, &values).unwrap());
    let inner = StructArray::new(
        Fields::from(vec![Field::new("runs", runs.data_type().clone(), true)]),
        vec![runs.clone()],
        None,
    );
    let mut lists = ListViewBuilder::new(Int64Builder::new());
    lists.append_value([Some(1), None]);
    for column in [runs, Arc::new(inner), Arc::new(lists.finish())] {
        let schema = Schema::new(vec![Field::new("column", column.data_type().clone(), true)]);
        let batch = RecordBatch::try_new(Arc::new(schema), vec![column]).unwrap();
        assert!(holds_indirectly(&ColumnBatch { batch }));
    }
}

#[test]
fn ids_are_asked_for_only_as_they_are_handed_out() {
    let attributes = vec![(65534, "a".to_string(), string("one"))];
    let batch = OtapAttributesBatch {
        ids: vec![Some(65534), None],
        columns: attribute_columns(&attributes),
    };
    let builder = AttributesBuilder::new_from_existing(2, 1, 1, &batch);
    assert_eq!(65535, builder.next_parent_id);
    assert_eq!(1, builder.attribute_position);
    assert_eq!(vec![65534], builder.parent_ids_array);
    assert_eq!(Some(65534), builder.ids_array.get(0));
    assert_eq!(None, builder.ids_array.get(1));

    let mut builder = AttributesBuilder::new(70_000, 1, 2);
    let key = builder.push_key("a");
    builder.push_value_for_key(&Language, 69_999, key, &string("one"));
    builder.push_value_for_key(&Language, 3, key, &string("two"));
    assert_eq!(Some(0), builder.ids_array.get(69_999));
    assert_eq!(Some(1), builder.ids_array.get(3));
    assert_eq!(2, builder.next_parent_id);
}

#[test]
fn tables_are_written_with_their_counts() {
    let attributes = vec![
        (0, "a".to_string(), string("one")),
        (0, "b".to_string(), string("two")),
    ];
    let records = records_with_attributes(&attributes, vec![Some(0)]);
    assert_eq!(
        vec![
            "Logs(RecordCount=1)",
            "Attributes(RecordCount=2)",
            "Resource(RecordCount=1)",
            "Attributes(RecordCount=0)",
            "Scope(RecordCount=1)",
            "Attributes(RecordCount=0)",
        ],
        records.into_parts().table_texts()
    );
}
