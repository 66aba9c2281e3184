use std::rc::Rc;

use arrow::array::{Array, BooleanArray};
use data_engine_columnar::column_array::ColumnArray;
use data_engine_columnar::dictionary::Dictionary;
use data_engine_columnar::dictionary_keys::{DictionaryKeyArray, KeyDataType};
use data_engine_columnar::dictionary_values::DictionaryValueArray;
use data_engine_columnar::engine::{
    ColumnarEngine, ColumnarEngineOptions, ColumnarRecordsFactory, DataExpression,
    PipelineExpression,
};
use data_engine_columnar::engine_diagnostic::{
    ColumnarEngineDiagnostic, ColumnarEngineDiagnosticLevel, DiagnosticMessage,
};
use data_engine_columnar::expressions::{
    ExpressionFunctions, ExpressionInfo, LogicalExpression, LogicalExpressionKind, RangePart,
    ScalarExpression, ScalarExpressionKind, SourceScalarExpression,
};
use data_engine_columnar::format_diagnostics::{
    format_diagnostics, write_diagnostics, DiagnosticLine,
};
use data_engine_columnar::message_text::message_text;
use data_engine_columnar::resolved_value::{ResolvedLogicalValue, ResolvedScalarValue};
use data_engine_columnar::table_records::{TableEntry, TableRecords};
use data_engine_columnar::value::{
    ArrayForm, ArrayValueOrRef, MapValueOrRef, OwnedMapValue, ValueOrRef, ValueType,
};
use data_engine_columnar::value_text::fmt_value;

struct Functions;

impl ExpressionFunctions for Functions {
    fn are_values_equal(
        &self,
        left: &ValueOrRef,
        right: &ValueOrRef,
        _: bool,
    ) -> Result<bool, String> {
        Ok(left == right)
    }

    fn compare_values(&self, left: &ValueOrRef, right: &ValueOrRef) -> Result<i64, String> {
        match (left, right) {
            (ValueOrRef::Integer(l), ValueOrRef::Integer(r)) => Ok((l - r).signum()),
            _ => Err("values have no order".to_string()),
        }
    }

    fn contains(&self, _: &ValueOrRef, _: &ValueOrRef, _: bool) -> Result<bool, String> {
        Ok(false)
    }

    fn matches(&self, _: &ValueOrRef, _: &ValueOrRef) -> Result<bool, String> {
        Ok(false)
    }

    fn convert_to_bool(&self, value: &ValueOrRef) -> Option<bool> {
        match value {
            ValueOrRef::Boolean(b) => Some(*b),
            _ => None,
        }
    }

    fn validate_resolved_range_value(&self, _: RangePart, _: &ValueOrRef) -> Result<usize, String> {
        Err(String::new())
    }

    fn validate_slice_range(
        &self,
        _: ValueType,
        _: usize,
        _: usize,
        _: Option<usize>,
    ) -> Result<usize, String> {
        Err(String::new())
    }

    fn format_value(&self, value: &ValueOrRef) -> String {
        match value {
            ValueOrRef::Integer(i) => i.to_string(),
            _ => "?".to_string(),
        }
    }
}

/// Numbers are their own columns; a transform adds its number to each, or fails if that is zero.
struct Numbers(Option<ColumnarEngineDiagnosticLevel>);

impl ColumnarRecordsFactory for Numbers {
    type Batches = Vec<Option<i64>>;
    type Records = TableRecords;

    fn create(&self, batches: &Vec<Option<i64>>) -> TableRecords {
        let mut records = TableRecords::new(self.0, KeyDataType::UInt16, batches.len());
        let column = Dictionary::new(
            DictionaryKeyArray::UniqueValues {
                data_type: KeyDataType::UInt16,
                length: batches.len(),
            },
            DictionaryValueArray::Array(Rc::new(ColumnArray::Int64(batches.clone()))),
        );
        records.set(0, "n".to_string(), TableEntry::Column(column));
        records
    }

    fn filter(&self, batches: Vec<Option<i64>>, filter: &BooleanArray) -> Vec<Option<i64>> {
        assert_eq!(batches.len(), filter.len());
        batches
            .into_iter()
            .zip(filter.iter())
            .filter(|(_, keep)| *keep == Some(true))
            .map(|(n, _)| n)
            .collect()
    }

    fn set(
        &self,
        transform: usize,
        batches: Vec<Option<i64>>,
        _records: TableRecords,
    ) -> (Vec<Option<i64>>, Result<TableRecords, String>, Vec<ColumnarEngineDiagnostic>) {
        if transform == 0 {
            return (batches, Err("nothing to add".to_string()), Vec::new());
        }
        let batches: Vec<Option<i64>> =
            batches.into_iter().map(|n| n.map(|n| n + transform as i64)).collect();
        let records = self.create(&batches);
        (batches, Ok(records), Vec::new())
    }
}

fn info(name: &str, line: usize, column: usize) -> ExpressionInfo {
    ExpressionInfo { name: Rc::new(name.to_string()), line, column }
}

fn scalar(kind: ScalarExpressionKind) -> ScalarExpression {
    ScalarExpression { info: info("Scalar", 1, 1), kind }
}

fn fixed(value: ValueOrRef) -> ScalarExpression {
    scalar(ScalarExpressionKind::Static(value))
}

fn logical(kind: LogicalExpressionKind) -> LogicalExpression {
    LogicalExpression { info: info("Logical", 2, 5), kind }
}

fn greater_than(value: i64) -> LogicalExpression {
    logical(LogicalExpressionKind::GreaterThan {
        info: info("GreaterThan", 2, 5),
        left: scalar(ScalarExpressionKind::Source(SourceScalarExpression {
            info: info("Source", 2, 5),
            selectors: vec![fixed(ValueOrRef::new_string("n"))],
        })),
        right: fixed(ValueOrRef::Integer(value)),
    })
}

fn discard(predicate: Option<LogicalExpression>) -> DataExpression {
    DataExpression::Discard { info: info("Discard", 1, 3), predicate: predicate.map(Rc::new) }
}

fn not(predicate: LogicalExpression) -> LogicalExpression {
    logical(LogicalExpressionKind::Not(Rc::new(predicate)))
}

fn engine(expressions: Vec<DataExpression>) -> ColumnarEngine {
    ColumnarEngine::new_with_options(
        PipelineExpression {
            query: Rc::new("source".to_string()),
            constants: Vec::new(),
            expressions,
            not_name: Rc::new("Not".to_string()),
        },
        ColumnarEngineOptions::new().with_diagnostic_level(ColumnarEngineDiagnosticLevel::Info),
    )
}

fn numbers(values: &[i64]) -> Vec<Option<i64>> {
    values.iter().map(|v| Some(*v)).collect()
}

#[test]
fn options_start_with_warnings() {
    let options = ColumnarEngineOptions::new();
    assert_eq!(ColumnarEngineDiagnosticLevel::Warn, options.diagnostic_level);
    assert_eq!(8192, options.summary_cardinality_limit);
    assert_eq!(options, ColumnarEngineOptions::default());
    assert_eq!(3, options.with_summary_cardinality_limit(3).summary_cardinality_limit);
}

#[test]
fn records_of_which_the_predicate_is_true_are_dropped() {
    let engine = engine(vec![discard(Some(greater_than(2)))]);
    let mut batch = engine.begin_batch();
    batch.push_records(&Functions, &Numbers(None), vec![Some(1), Some(5), None, Some(2)]);
    batch.push_records(&Functions, &Numbers(None), numbers(&[3, 4]));
    let results = batch.flush();
    assert_eq!(3, results.included_record_count);
    assert_eq!(3, results.dropped_record_count);
    assert_eq!(vec![vec![Some(1), None, Some(2)]], results.included_batches);
    let dropped: Vec<usize> = results
        .diagnostics
        .iter()
        .filter_map(|d| match d.message {
            DiagnosticMessage::RecordsDropped(n) => Some(n),
            _ => None,
        })
        .collect();
    assert_eq!(vec![1], dropped);
    assert!(results
        .diagnostics
        .iter()
        .any(|d| matches!(d.message, DiagnosticMessage::AllRecordsDropped)));
}

#[test]
fn a_negated_predicate_keeps_what_its_inside_is_true_of() {
    let engine = engine(vec![discard(Some(not(greater_than(2))))]);
    match &engine.get_pipeline().expressions[0] {
        DataExpression::Discard { predicate: Some(predicate), .. } => {
            assert!(matches!(predicate.kind, LogicalExpressionKind::GreaterThan { .. }));
        }
        _ => panic!("no predicate"),
    }
    let mut batch = engine.begin_batch();
    batch.push_records(&Functions, &Numbers(None), numbers(&[1, 5, 2, 9]));
    let results = batch.flush();
    assert_eq!(vec![numbers(&[5, 9])], results.included_batches);
}

#[test]
fn without_a_predicate_all_records_are_dropped() {
    let engine = engine(vec![discard(None), DataExpression::Transform {
        info: info("Set", 1, 1),
        transform: 0,
    }]);
    let mut batch = engine.begin_batch();
    batch.push_records(&Functions, &Numbers(None), numbers(&[1, 5]));
    let results = batch.flush();
    assert_eq!(0, results.included_record_count);
    assert_eq!(2, results.dropped_record_count);
    assert!(results.included_batches.is_empty());
    assert_eq!(1, results.diagnostics.len());
    assert!(matches!(results.diagnostics[0].message, DiagnosticMessage::AllRecordsDropped));
}

#[test]
fn a_predicate_that_holds_of_all_keeps_all() {
    let always = logical(LogicalExpressionKind::Scalar(fixed(ValueOrRef::Boolean(true))));
    let engine = engine(vec![discard(Some(not(always)))]);
    let mut batch = engine.begin_batch();
    batch.push_records(
        &Functions,
        &Numbers(Some(ColumnarEngineDiagnosticLevel::Verbose)),
        numbers(&[1, 5]),
    );
    let results = batch.flush();
    assert_eq!(2, results.included_record_count);
    assert!(results
        .diagnostics
        .iter()
        .any(|d| matches!(d.message, DiagnosticMessage::AllRecordsIncluded)));
}

#[test]
fn a_transform_that_fails_ends_the_run_and_keeps_the_records() {
    let set = |transform| DataExpression::Transform { info: info("Set", 1, 1), transform };
    let engine = engine(vec![set(10), set(0), discard(None)]);
    let mut batch = engine.begin_batch();
    batch.push_records(&Functions, &Numbers(None), numbers(&[1, 5]));
    let results = batch.flush();
    assert_eq!(vec![numbers(&[11, 15])], results.included_batches);
    assert_eq!(2, results.included_record_count);
    assert_eq!(0, results.dropped_record_count);
    assert_eq!(1, results.diagnostics.len());
    assert_eq!(
        ColumnarEngineDiagnosticLevel::Error,
        results.diagnostics[0].get_diagnostic_level()
    );
    assert!(matches!(&results.diagnostics[0].message, DiagnosticMessage::Text(t) if t.as_str() == "nothing to add"));
}

fn line(level: ColumnarEngineDiagnosticLevel, line: usize, column: usize, message: &str) -> DiagnosticLine {
    DiagnosticLine {
        level,
        name: Rc::new("Expr".to_string()),
        line,
        column,
        message: message.to_string(),
    }
}

#[test]
fn diagnostics_stand_below_their_lines_from_right_to_left() {
    let diagnostics = vec![
        line(ColumnarEngineDiagnosticLevel::Warn, 1, 1, "first"),
        line(ColumnarEngineDiagnosticLevel::Error, 1, 4, "second"),
        line(ColumnarEngineDiagnosticLevel::Info, 1, 4, "third"),
        line(ColumnarEngineDiagnosticLevel::Info, 9, 2, "lost"),
    ];
    assert_eq!(
        "ln   1: source\n        || | [Error] Expr: second\n        || | [Info] Expr: third\n        || [Info] Expr: lost\n        | [Warn] Expr: first\nln   2: | where x",
        write_diagnostics("source\r\n| where x\n", &diagnostics, true)
    );
    assert_eq!(
        "ln   2: b\n         | [Warn] Expr: here",
        write_diagnostics(
            "a\nb\nc",
            &vec![line(ColumnarEngineDiagnosticLevel::Warn, 2, 2, "here")],
            false
        )
    );
    assert_eq!("ln   1: ", write_diagnostics("", &Vec::new(), true));
}

#[test]
fn a_query_is_written_with_the_messages_of_its_diagnostics() {
    let diagnostics = vec![ColumnarEngineDiagnostic::new(
        ColumnarEngineDiagnosticLevel::Info,
        info("Discard", 1, 3),
        DiagnosticMessage::RecordsDropped(7),
    )];
    assert_eq!(
        "ln   1: source | where x\n          | [Info] Discard: Dropped 7 record(s)",
        format_diagnostics(&Functions, &Vec::new(), "source | where x", &diagnostics)
    );
}

#[test]
fn values_are_written_with_their_types() {
    let text = |value: ValueOrRef| fmt_value(&Functions, &value);
    assert_eq!("Null", text(ValueOrRef::Null));
    assert_eq!("Integer(5)", text(ValueOrRef::Integer(5)));
    assert_eq!("String(\"a\\\"b\\n\\u0001\")", text(ValueOrRef::new_string("a\"b\n\u{1}")));
    assert_eq!(
        "String(\"01234567890123456789012345678901...\")",
        text(ValueOrRef::new_string("012345678901234567890123456789012"))
    );
    assert_eq!(
        "String(\"0123456789012345678901234567890...\")",
        text(ValueOrRef::new_string("0123456789012345678901234567890é"))
    );
    let list = ArrayValueOrRef::List(ArrayForm::Owned, Rc::new(vec![ValueOrRef::Null, ValueOrRef::Null]));
    assert_eq!("Array(Count=2)", text(ValueOrRef::Array(list)));
    assert_eq!("Map(Count=0)", text(ValueOrRef::MapValue(MapValueOrRef::new_owned(OwnedMapValue::new()))));
}

#[test]
fn messages_say_what_they_are_about() {
    let tables = vec!["Logs(RecordCount=2)".to_string()];
    let text = |message: DiagnosticMessage| message_text(&Functions, &tables, &message);
    assert_eq!(
        "Evaluated as: [Integer(5)]",
        text(DiagnosticMessage::EvaluatedScalar(ResolvedScalarValue::Single(ValueOrRef::Integer(5))))
    );
    assert_eq!(
        "Evaluated as: Logs(RecordCount=2)",
        text(DiagnosticMessage::EvaluatedScalar(ResolvedScalarValue::Table(0)))
    );
    let column = Dictionary::new(
        DictionaryKeyArray::KeyArray {
            data_type: KeyDataType::UInt16,
            keys: Rc::new(vec![Some(0), None]),
        },
        DictionaryValueArray::Vec(Rc::new(vec![ValueOrRef::Integer(3)])),
    );
    assert_eq!(
        "Evaluated as: {0:Integer(3),1:Null}",
        text(DiagnosticMessage::EvaluatedScalar(ResolvedScalarValue::Dictionary(column)))
    );
    assert_eq!(
        "Evaluated as: [Boolean(true)]",
        text(DiagnosticMessage::EvaluatedLogical(ResolvedLogicalValue::Single(true)))
    );
    let truths = BooleanArray::from(vec![Some(true), None, Some(false)]);
    assert_eq!(
        "Evaluated as: {0:Boolean(true),1:Null,2:Boolean(false)}",
        text(DiagnosticMessage::EvaluatedLogical(ResolvedLogicalValue::Array {
            data_type: KeyDataType::UInt16,
            values: Rc::new(truths),
        }))
    );
    assert_eq!(
        "Could not search for array index '-4' specified in accessor expression because current node is a 'Map' value",
        text(DiagnosticMessage::IndexIntoType { index: -4, value_type: ValueType::MapValue })
    );
    assert_eq!(
        "Resolved 'Integer' constant with id '2' defined on line 3 at column 40",
        text(DiagnosticMessage::ConstantResolved {
            value_type: ValueType::Integer,
            id: 2,
            line: 3,
            column: 40,
        })
    );
}
