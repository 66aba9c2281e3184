use std::rc::Rc;

use data_engine_columnar::column_array::ColumnArray;
use data_engine_columnar::columnar_records::ColumnarRecords;
use data_engine_columnar::dictionary::Dictionary;
use data_engine_columnar::dictionary_keys::{DictionaryKeyArray, KeyDataType};
use data_engine_columnar::dictionary_merge::{merge, MergeOutcome};
use data_engine_columnar::dictionary_values::DictionaryValueArray;
use data_engine_columnar::engine_diagnostic::{
    ColumnarEngineDiagnostic, ColumnarEngineDiagnosticLevel, DiagnosticMessage,
};
use data_engine_columnar::execution_context::{ExecutionContext, ExecutionContextVariables};
use data_engine_columnar::expressions::{
    AttachedScalarExpression, ExpressionFunctions, ExpressionInfo, LengthScalarExpression,
    LogicalExpression, LogicalExpressionKind, PipelineConstant, RangePart,
    ReferenceConstantScalarExpression, ScalarExpression, ScalarExpressionKind,
    SliceScalarExpression, SourceScalarExpression, VariableScalarExpression,
};
use data_engine_columnar::logical_expressions::execute_logical_expression;
use data_engine_columnar::named_values::NamedValues;
use data_engine_columnar::resolved_value::{
    ResolvedLogicalValue, ResolvedScalarValue, ResolvedSingleOrDictionaryValue,
};
use data_engine_columnar::scalars::execute_scalar_expression;
use data_engine_columnar::slicing::new_string_slice;
use data_engine_columnar::table_records::{TableEntry, TableRecords};
use data_engine_columnar::value::{
    ArrayForm, ArrayValueOrRef, MapValueOrRef, OwnedMapValue, ValueOrRef, ValueType,
};

struct TestFunctions;

impl ExpressionFunctions for TestFunctions {
    fn are_values_equal(
        &self,
        left: &ValueOrRef,
        right: &ValueOrRef,
        case_insensitive: bool,
    ) -> Result<bool, String> {
        match (left, right) {
            (ValueOrRef::String(l), ValueOrRef::String(r)) if case_insensitive => {
                Ok(l.eq_ignore_ascii_case(r))
            }
            (ValueOrRef::MapValue(_), _) => Err("maps cannot be compared".to_string()),
            _ => Ok(left == right),
        }
    }

    fn compare_values(&self, left: &ValueOrRef, right: &ValueOrRef) -> Result<i64, String> {
        match (left, right) {
            (ValueOrRef::Integer(l), ValueOrRef::Integer(r)) => {
                Ok(if l < r { -1 } else { (l > r) as i64 })
            }
            _ => Err("values have no order".to_string()),
        }
    }

    fn contains(
        &self,
        haystack: &ValueOrRef,
        needle: &ValueOrRef,
        case_insensitive: bool,
    ) -> Result<bool, String> {
        match (haystack, needle) {
            (ValueOrRef::String(h), ValueOrRef::String(n)) => Ok(if case_insensitive {
                h.to_lowercase().contains(&n.to_lowercase())
            } else {
                h.contains(n.as_str())
            }),
            _ => Err("nothing to look in".to_string()),
        }
    }

    fn matches(&self, haystack: &ValueOrRef, pattern: &ValueOrRef) -> Result<bool, String> {
        match (haystack, pattern) {
            (ValueOrRef::String(h), ValueOrRef::Regex(p)) => {
                Ok(regex::Regex::new(p).unwrap().is_match(h))
            }
            _ => Err("no pattern".to_string()),
        }
    }

    fn convert_to_bool(&self, value: &ValueOrRef) -> Option<bool> {
        match value {
            ValueOrRef::Boolean(b) => Some(*b),
            ValueOrRef::Integer(i) => Some(*i != 0),
            _ => None,
        }
    }

    fn validate_resolved_range_value(
        &self,
        _part: RangePart,
        value: &ValueOrRef,
    ) -> Result<usize, String> {
        match value {
            ValueOrRef::Integer(i) if *i >= 0 => Ok(*i as usize),
            _ => Err("not a range".to_string()),
        }
    }

    fn validate_slice_range(
        &self,
        _value_type: ValueType,
        length: usize,
        start: usize,
        range_length: Option<usize>,
    ) -> Result<usize, String> {
        if start >= length {
            return Err("out of range".to_string());
        }
        Ok(range_length.map_or(length, |l| (start + l).min(length)))
    }

    fn format_value(&self, value: &ValueOrRef) -> String {
        format!("{value:?}")
    }
}

#[derive(Default)]
struct TestRecords {
    values: Vec<(&'static str, Dictionary)>,
    attached: Vec<(&'static str, Vec<(&'static str, Dictionary)>)>,
}

impl TestRecords {
    fn new(values: Vec<(&'static str, Dictionary)>) -> TestRecords {
        TestRecords { values, attached: Vec::new() }
    }
}

impl TestRecords {
    fn build(&self) -> TableRecords {
        let count = self.values.first().map_or(0, |v| v.1.len());
        let mut records = TableRecords::new(None, KeyDataType::UInt16, count);
        for (name, values) in &self.values {
            records.set(0, name.to_string(), TableEntry::Column(values.clone()));
        }
        for (name, columns) in &self.attached {
            let table = records.add_table();
            for (column, values) in columns {
                records.set(table, column.to_string(), TableEntry::Column(values.clone()));
            }
            records.attach(name.to_string(), table);
        }
        records
    }
}

fn info() -> ExpressionInfo {
    ExpressionInfo { name: Rc::new("Expression".to_string()), line: 1, column: 1 }
}

fn scalar(kind: ScalarExpressionKind) -> ScalarExpression {
    ScalarExpression { info: info(), kind }
}

fn string(text: &str) -> ValueOrRef {
    ValueOrRef::new_string(text)
}

fn integer(value: i64) -> ValueOrRef {
    ValueOrRef::Integer(value)
}

fn array(values: Vec<ValueOrRef>) -> ValueOrRef {
    ValueOrRef::Array(ArrayValueOrRef::List(ArrayForm::Owned, Rc::new(values)))
}

fn map(entries: Vec<(&str, ValueOrRef)>) -> ValueOrRef {
    let mut map = OwnedMapValue::new();
    for (key, value) in entries {
        map.insert(&Rc::new(key.to_string()), value);
    }
    ValueOrRef::MapValue(MapValueOrRef::new_owned(map))
}

fn fixed(value: ValueOrRef) -> ScalarExpression {
    scalar(ScalarExpressionKind::Static(value))
}

fn source(selectors: Vec<ScalarExpression>) -> ScalarExpression {
    scalar(ScalarExpressionKind::Source(SourceScalarExpression { info: info(), selectors }))
}

fn column(name: &str) -> ScalarExpression {
    source(vec![fixed(string(name))])
}

fn slice(
    value: ScalarExpression,
    range_start: Option<ScalarExpression>,
    range_length: Option<ScalarExpression>,
) -> ScalarExpression {
    scalar(ScalarExpressionKind::Slice(SliceScalarExpression {
        info: info(),
        source: Box::new(value),
        range_start: range_start.map(Box::new),
        range_length: range_length.map(Box::new),
    }))
}

fn length(value: ScalarExpression) -> ScalarExpression {
    scalar(ScalarExpressionKind::Length(LengthScalarExpression {
        info: info(),
        inner_expression: Box::new(value),
    }))
}

fn variable(name: &str, selectors: Vec<ScalarExpression>) -> ScalarExpression {
    scalar(ScalarExpressionKind::Variable(VariableScalarExpression {
        info: info(),
        name: Rc::new(name.to_string()),
        selectors,
    }))
}

fn attached(name: &str, selectors: Vec<ScalarExpression>) -> ScalarExpression {
    scalar(ScalarExpressionKind::Attached(AttachedScalarExpression {
        info: info(),
        name: Rc::new(name.to_string()),
        selectors,
    }))
}

fn constant(constant_id: usize, selectors: Vec<ScalarExpression>) -> ScalarExpression {
    scalar(ScalarExpressionKind::Constant(ReferenceConstantScalarExpression {
        info: info(),
        constant_id,
        selectors,
    }))
}

fn build_dictionary(keys: Vec<Option<usize>>, values: Vec<ValueOrRef>) -> Dictionary {
    Dictionary::new(
        DictionaryKeyArray::KeyArray { data_type: KeyDataType::UInt16, keys: Rc::new(keys) },
        DictionaryValueArray::Vec(Rc::new(values)),
    )
}

fn assert_dictionary(keys: Vec<Option<usize>>, values: Vec<ValueOrRef>, actual: &Dictionary) {
    assert_eq!(keys.len(), actual.len());
    for (record, key) in keys.iter().enumerate() {
        assert_eq!(*key, actual.get_value_index(record), "key of record {record}");
    }
    assert_eq!(values.len(), actual.values().len());
    for (position, value) in values.iter().enumerate() {
        assert_eq!(*value, actual.values().get_value_at(position));
    }
}

fn run_with(
    records: &TestRecords,
    constants: &Vec<PipelineConstant>,
    globals: &NamedValues<ResolvedSingleOrDictionaryValue>,
    expression: &ScalarExpression,
) -> (ResolvedScalarValue, Vec<ColumnarEngineDiagnostic>) {
    let records = records.build();
    let context = ExecutionContext {
        functions: &TestFunctions,
        constants,
        variables: ExecutionContextVariables::new(globals),
        records: Some(&records),
    };
    execute_scalar_expression(&context, expression)
}

fn run(records: TestRecords, expression: ScalarExpression) -> ResolvedScalarValue {
    run_with(&records, &Vec::new(), &NamedValues::new(), &expression).0
}

fn single(value: ResolvedScalarValue) -> ValueOrRef {
    match value {
        ResolvedScalarValue::Single(value) => value,
        _ => panic!("test failure"),
    }
}

fn dictionary(value: ResolvedScalarValue) -> Dictionary {
    match value {
        ResolvedScalarValue::Dictionary(dictionary) => dictionary,
        _ => panic!("test failure"),
    }
}

#[test]
fn merge_three() {
    let a = Dictionary::new(
        DictionaryKeyArray::KeyArray {
            data_type: KeyDataType::UInt16,
            keys: Rc::new(vec![None, Some(0), Some(1)]),
        },
        DictionaryValueArray::Array(Rc::new(ColumnArray::Int64(vec![Some(0), Some(5)]))),
    );
    let b = Dictionary::new(
        DictionaryKeyArray::KeyArray {
            data_type: KeyDataType::UInt16,
            keys: Rc::new(vec![Some(0), Some(0), None]),
        },
        DictionaryValueArray::Array(Rc::new(ColumnArray::Int64(vec![Some(3)]))),
    );
    let c = Dictionary::new(
        DictionaryKeyArray::KeyArray {
            data_type: KeyDataType::UInt16,
            keys: Rc::new(vec![Some(0), Some(0), Some(0)]),
        },
        DictionaryValueArray::Array(Rc::new(ColumnArray::Utf8(vec![Some(Rc::new(
            "hello world".to_string(),
        ))]))),
    );
    let combine = |mut values: Vec<Option<ValueOrRef>>| -> MergeOutcome<(), ()> {
        let start = match values[0].take() {
            Some(ValueOrRef::Integer(i)) => i as usize,
            _ => 0,
        };
        let end = match values[1].take() {
            Some(ValueOrRef::Integer(i)) => Some(i as usize),
            _ => None,
        };
        let value = match values[2].take() {
            Some(ValueOrRef::String(text)) => Some(ValueOrRef::String(new_string_slice(
                &text,
                start,
                end.unwrap_or(text.len()),
            ))),
            _ => None,
        };
        (Ok(value), None)
    };
    let merged = merge(&vec![a, b, c], &combine, &mut Vec::new()).unwrap();
    assert_dictionary(
        vec![Some(0), Some(0), Some(1)],
        vec![string("hel"), string(" world")],
        &merged,
    );
}

#[test]
fn string_dictionary_get_len_dictionary() {
    let text = |text: &str| Some(Rc::new(text.to_string()));
    let strings = Dictionary::new(
        DictionaryKeyArray::KeyArray {
            data_type: KeyDataType::UInt8,
            keys: Rc::new(vec![Some(0), Some(0), None, Some(1), None]),
        },
        DictionaryValueArray::Array(Rc::new(ColumnArray::Utf8(vec![
            text("value1"),
            text("other_value"),
        ]))),
    );
    let (len_view, _) = strings.get_len_dictionary(&info());
    assert_eq!(5, len_view.keys().len());
    assert_eq!(2, len_view.values().len());
    assert_eq!(integer(6), len_view.get_value(0));
    assert_eq!(integer(6), len_view.get_value(1));
    assert_eq!(ValueOrRef::Null, len_view.get_value(2));
    assert_eq!(integer(11), len_view.get_value(3));
    assert_eq!(ValueOrRef::Null, len_view.get_value(4));

    let strings = Dictionary::new(
        DictionaryKeyArray::KeyArray {
            data_type: KeyDataType::UInt8,
            keys: Rc::new(vec![Some(0), Some(1), Some(2)]),
        },
        DictionaryValueArray::Array(Rc::new(ColumnArray::Utf8(vec![
            text("value1"),
            text("other_value"),
            None,
        ]))),
    );
    let (len_view, _) = strings.get_len_dictionary(&info());
    assert_eq!(3, len_view.keys().len());
    assert_eq!(2, len_view.values().len());
    assert_eq!(integer(6), len_view.get_value(0));
    assert_eq!(integer(11), len_view.get_value(1));
    assert_eq!(ValueOrRef::Null, len_view.get_value(2));
}

#[test]
fn test_length_single() {
    assert_eq!(
        integer(11),
        single(run(TestRecords::default(), length(fixed(string("hello world")))))
    );
    assert_eq!(integer(0), single(run(TestRecords::default(), length(fixed(array(vec![]))))));
    assert_eq!(integer(0), single(run(TestRecords::default(), length(fixed(map(vec![]))))));
}

#[test]
fn test_length_dictionary() {
    let values = build_dictionary(
        vec![Some(0), Some(0), None, Some(1), Some(2), Some(3)],
        vec![string("hello world"), array(vec![]), map(vec![]), integer(0)],
    );
    let actual = dictionary(run(
        TestRecords::new(vec![("values", values)]),
        length(column("values")),
    ));
    assert_dictionary(
        vec![Some(0), Some(0), None, Some(1), Some(1), None],
        vec![integer(11), integer(0)],
        &actual,
    );
}

#[test]
fn test_select_from_attached_table() {
    let values = build_dictionary(vec![Some(0), Some(0)], vec![string("hello world")]);
    let records = TestRecords {
        values: vec![],
        attached: vec![("data", vec![("values", values)])],
    };
    let actual = dictionary(run(records, attached("data", vec![fixed(string("values"))])));
    assert_dictionary(vec![Some(0), Some(0)], vec![string("hello world")], &actual);

    let actual = run(
        TestRecords::default(),
        attached("invalid", vec![fixed(string("unknown"))]),
    );
    assert_eq!(ValueOrRef::Null, single(actual));

    let records = TestRecords { values: vec![], attached: vec![("data", vec![])] };
    assert!(matches!(run(records, attached("data", vec![])), ResolvedScalarValue::Table(1)));
}

#[test]
fn test_select_from_constants() {
    let constants: Vec<PipelineConstant> = vec![
        PipelineConstant { info: info(), value: integer(18) },
        PipelineConstant { info: info(), value: array(vec![integer(99)]) },
        PipelineConstant { info: info(), value: map(vec![("key1", integer(100))]) },
    ];
    let run = |expression: ScalarExpression| {
        single(run_with(&TestRecords::default(), &constants, &NamedValues::new(), &expression).0)
    };
    assert_eq!(integer(18), run(constant(0, vec![])));
    assert_eq!(integer(99), run(constant(1, vec![fixed(integer(0))])));
    assert_eq!(integer(100), run(constant(2, vec![fixed(string("key1"))])));
}

#[test]
fn test_execute_now_temporal_scalar_expression() {
    let value = single(run(TestRecords::default(), scalar(ScalarExpressionKind::Now)));
    assert_eq!(ValueType::DateTime, value.get_value_type());
    match value {
        ValueOrRef::DateTime(time) => {
            assert_eq!(0, time.offset_seconds);
            assert!(time.seconds > 1_700_000_000);
            assert!(time.nanoseconds < 1_000_000_000);
        }
        _ => panic!("Value wasn't a DateTime"),
    }
}

#[test]
fn test_select_from_source_table_using_single_string() {
    let keys = vec![Some(0), Some(0), None, Some(1), Some(2), Some(3)];
    let values = || {
        vec![
            string("hello world"),
            string("goodbye world"),
            map(vec![("key1", integer(18))]),
            integer(0),
        ]
    };
    let records = || TestRecords::new(vec![("values", build_dictionary(keys.clone(), values()))]);

    let actual = dictionary(run(records(), column("values")));
    assert_dictionary(keys.clone(), values(), &actual);

    assert_eq!(ValueOrRef::Null, single(run(TestRecords::default(), column("unknown"))));

    assert!(matches!(
        run(TestRecords::default(), source(vec![])),
        ResolvedScalarValue::Table(0)
    ));

    let sub = |key: &str| source(vec![fixed(string("values")), fixed(string(key))]);
    let actual = dictionary(run(records(), sub("key1")));
    assert_dictionary(
        vec![None, None, None, None, Some(0), None],
        vec![integer(18)],
        &actual,
    );

    let actual = dictionary(run(records(), sub("invalid")));
    assert_dictionary(vec![None, None, None, None, None, None], vec![], &actual);
}

fn index_records() -> TestRecords {
    TestRecords::new(vec![(
        "values",
        build_dictionary(
            vec![Some(0), Some(0), None, Some(1)],
            vec![array(vec![integer(0), integer(1), integer(2)]), integer(0)],
        ),
    )])
}

#[test]
fn test_select_from_source_table_using_single_integer() {
    let sub = |index: i64| source(vec![fixed(string("values")), fixed(integer(index))]);

    let actual = dictionary(run(index_records(), sub(0)));
    assert_dictionary(vec![Some(0), Some(0), None, None], vec![integer(0)], &actual);

    let actual = dictionary(run(index_records(), sub(-1)));
    assert_dictionary(vec![Some(0), Some(0), None, None], vec![integer(2)], &actual);

    let actual = dictionary(run(index_records(), sub(100)));
    assert_dictionary(vec![None, None, None, None], vec![], &actual);
}

#[test]
fn test_select_from_source_table_using_dictionary() {
    let values = build_dictionary(
        vec![
            Some(0),
            Some(0),
            None,
            Some(1),
            Some(2),
            Some(2),
            Some(3),
            Some(3),
            Some(4),
        ],
        vec![
            string("hello world"),
            string("goodebye world"),
            map(vec![("key1", string("value1")), ("key2", string("value2"))]),
            array(vec![integer(0), integer(1), integer(2)]),
            integer(0),
        ],
    );
    let keys = build_dictionary(
        vec![None, None, None, None, Some(0), Some(1), None, None, None],
        vec![string("key1"), string("key2")],
    );
    let indicies = build_dictionary(
        vec![None, None, None, None, None, None, Some(0), Some(1), None],
        vec![integer(0), integer(-1)],
    );
    let actual = dictionary(run(
        TestRecords::new(vec![("values", values.clone()), ("keys", keys)]),
        source(vec![fixed(string("values")), column("keys")]),
    ));
    assert_dictionary(
        vec![None, None, None, None, Some(0), Some(1), None, None, None],
        vec![string("value1"), string("value2")],
        &actual,
    );
    let actual = dictionary(run(
        TestRecords::new(vec![("values", values), ("indicies", indicies)]),
        source(vec![fixed(string("values")), column("indicies")]),
    ));
    assert_dictionary(
        vec![None, None, None, None, None, None, Some(0), Some(1), None],
        vec![integer(0), integer(2)],
        &actual,
    );
}

fn test_variables() -> NamedValues<ResolvedSingleOrDictionaryValue> {
    let mut variables = NamedValues::new();
    variables.insert(
        "var1".to_string(),
        ResolvedSingleOrDictionaryValue::Dictionary(build_dictionary(
            vec![Some(0), Some(0), None, Some(1), Some(2), Some(3)],
            vec![
                string("hello world"),
                string("goodbye world"),
                map(vec![("key1", integer(18))]),
                integer(0),
            ],
        )),
    );
    variables.insert(
        "var2".to_string(),
        ResolvedSingleOrDictionaryValue::Dictionary(build_dictionary(
            vec![Some(0), Some(0), None, Some(1)],
            vec![array(vec![integer(0), integer(1), integer(2)]), integer(0)],
        )),
    );
    variables
}

fn run_variable(name: &str, selectors: Vec<ScalarExpression>) -> ResolvedScalarValue {
    run_with(
        &TestRecords::default(),
        &Vec::new(),
        &test_variables(),
        &variable(name, selectors),
    )
    .0
}

#[test]
fn test_select_from_variable_using_single_string() {
    let actual = dictionary(run_variable("var1", vec![]));
    assert_dictionary(
        vec![Some(0), Some(0), None, Some(1), Some(2), Some(3)],
        vec![
            string("hello world"),
            string("goodbye world"),
            map(vec![("key1", integer(18))]),
            integer(0),
        ],
        &actual,
    );

    assert_eq!(ValueOrRef::Null, single(run_variable("invalid", vec![])));

    let actual = dictionary(run_variable("var1", vec![fixed(string("key1"))]));
    assert_dictionary(
        vec![None, None, None, None, Some(0), None],
        vec![integer(18)],
        &actual,
    );

    let actual = dictionary(run_variable("var1", vec![fixed(string("invalid"))]));
    assert_dictionary(vec![None, None, None, None, None, None], vec![], &actual);
}

#[test]
fn test_select_from_variable_using_single_integer() {
    let actual = dictionary(run_variable("var2", vec![fixed(integer(0))]));
    assert_dictionary(vec![Some(0), Some(0), None, None], vec![integer(0)], &actual);

    let actual = dictionary(run_variable("var2", vec![fixed(integer(-1))]));
    assert_dictionary(vec![Some(0), Some(0), None, None], vec![integer(2)], &actual);

    let actual = dictionary(run_variable("var2", vec![fixed(integer(100))]));
    assert_dictionary(vec![None, None, None, None], vec![], &actual);
}

#[test]
fn test_slice_single_string_with_single_ranges() {
    let text = || fixed(string("hello world"));
    let run = |expression| single(run(TestRecords::default(), expression));
    assert_eq!(string("hello world"), run(slice(text(), None, None)));
    assert_eq!(string("hello world"), run(slice(text(), Some(fixed(integer(0))), None)));
    assert_eq!(
        string("lo"),
        run(slice(text(), Some(fixed(integer(3))), Some(fixed(integer(2)))))
    );
    assert_eq!(ValueOrRef::Null, run(slice(text(), Some(fixed(integer(100))), None)));
}

#[test]
fn test_slice_single_array_with_single_ranges() {
    let values = || vec![integer(0), integer(1), integer(2), integer(3)];
    let list = || fixed(array(values()));
    let run = |expression| single(run(TestRecords::default(), expression));
    assert_eq!(array(values()), run(slice(list(), None, None)));
    assert_eq!(array(values()), run(slice(list(), Some(fixed(integer(0))), None)));
    assert_eq!(
        array(vec![integer(1), integer(2)]),
        run(slice(list(), Some(fixed(integer(1))), Some(fixed(integer(2)))))
    );
    assert_eq!(ValueOrRef::Null, run(slice(list(), Some(fixed(integer(100))), None)));
}

fn text_records() -> TestRecords {
    TestRecords::new(vec![(
        "values",
        build_dictionary(
            vec![Some(0), Some(0), None, Some(1), Some(2), Some(3)],
            vec![
                string("hello world"),
                string("goodbye world"),
                string("goodbye"),
                integer(0),
            ],
        ),
    )])
}

fn valid_full_string_range_result(result: ResolvedScalarValue) {
    assert_dictionary(
        vec![Some(0), Some(0), None, Some(1), Some(2), None],
        vec![string("hello world"), string("goodbye world"), string("goodbye")],
        &dictionary(result),
    );
}

#[test]
fn test_slice_dictionary_string_with_single_ranges() {
    let values = || column("values");
    let at = |value: i64| Some(fixed(integer(value)));

    valid_full_string_range_result(run(text_records(), slice(values(), None, None)));
    valid_full_string_range_result(run(text_records(), slice(values(), at(0), None)));

    let actual = dictionary(run(text_records(), slice(values(), at(3), at(2))));
    assert_dictionary(
        vec![Some(0), Some(0), None, Some(1), Some(1), None],
        vec![string("lo"), string("db")],
        &actual,
    );

    let actual = dictionary(run(text_records(), slice(values(), at(3), at(10))));
    assert_dictionary(
        vec![Some(0), Some(0), None, Some(1), Some(2), None],
        vec![string("lo world"), string("dbye world"), string("dbye")],
        &actual,
    );

    assert_eq!(
        ValueOrRef::Null,
        single(run(TestRecords::default(), slice(values(), None, None)))
    );

    let invalid = || Some(fixed(string("invalid")));
    valid_full_string_range_result(run(text_records(), slice(values(), invalid(), None)));
    valid_full_string_range_result(run(text_records(), slice(values(), at(-1), None)));
    valid_full_string_range_result(run(text_records(), slice(values(), None, invalid())));
    valid_full_string_range_result(run(text_records(), slice(values(), None, at(-1))));

    let actual = dictionary(run(text_records(), slice(values(), at(100), None)));
    assert_dictionary(vec![None; 6], vec![], &actual);
}

fn valid_full_array_range_result(result: ResolvedScalarValue) {
    assert_dictionary(
        vec![None, Some(0), None, None],
        vec![array(vec![integer(0), integer(1), integer(2), integer(3)])],
        &dictionary(result),
    );
}

#[test]
fn test_slice_dictionary_array_with_single_ranges() {
    let records = || {
        TestRecords::new(vec![(
            "values",
            build_dictionary(
                vec![Some(0), Some(1), None, Some(2)],
                vec![
                    array(vec![]),
                    array(vec![integer(0), integer(1), integer(2), integer(3)]),
                    integer(0),
                ],
            ),
        )])
    };
    let values = || column("values");
    let at = |value: i64| Some(fixed(integer(value)));

    valid_full_array_range_result(run(records(), slice(values(), None, None)));
    valid_full_array_range_result(run(records(), slice(values(), at(0), None)));

    let actual = dictionary(run(records(), slice(values(), at(1), at(2))));
    assert_dictionary(
        vec![None, Some(0), None, None],
        vec![array(vec![integer(1), integer(2)])],
        &actual,
    );

    let actual = dictionary(run(records(), slice(values(), at(1), at(10))));
    assert_dictionary(
        vec![None, Some(0), None, None],
        vec![array(vec![integer(1), integer(2), integer(3)])],
        &actual,
    );

    let actual = dictionary(run(records(), slice(values(), at(100), None)));
    assert_dictionary(vec![None; 4], vec![], &actual);
}

#[test]
fn test_slice_string_any_with_any_ranges() {
    let records = TestRecords::new(vec![
        (
            "values",
            build_dictionary(
                vec![
                    Some(0),
                    Some(0),
                    Some(0),
                    Some(0),
                    None,
                    Some(1),
                    Some(2),
                    Some(3),
                ],
                vec![
                    string("hello world"),
                    string("goodbye world"),
                    string("goodbye"),
                    integer(0),
                ],
            ),
        ),
        (
            "range_start_values",
            build_dictionary(
                vec![None, None, Some(0), Some(0), None, Some(1), Some(1), None],
                vec![integer(0), integer(3)],
            ),
        ),
        (
            "range_length_values",
            build_dictionary(
                vec![None, Some(0), None, Some(0), None, Some(1), Some(1), None],
                vec![integer(2), integer(4)],
            ),
        ),
    ]);
    let actual = dictionary(run(
        records,
        slice(
            column("values"),
            Some(column("range_start_values")),
            Some(column("range_length_values")),
        ),
    ));
    assert_dictionary(
        vec![Some(0), Some(1), Some(0), Some(1), None, Some(2), Some(2), None],
        vec![string("hello world"), string("he"), string("dbye")],
        &actual,
    );

    let invalid = || build_dictionary(vec![Some(0)], vec![string("invalid")]);
    let actual = dictionary(run(
        TestRecords::new(vec![("range_start_values", invalid())]),
        slice(fixed(string("hello world")), Some(column("range_start_values")), None),
    ));
    assert_dictionary(vec![Some(0)], vec![string("hello world")], &actual);

    let actual = dictionary(run(
        TestRecords::new(vec![("range_length_values", invalid())]),
        slice(fixed(string("hello world")), None, Some(column("range_length_values"))),
    ));
    assert_dictionary(vec![Some(0)], vec![string("hello world")], &actual);

    let actual = dictionary(run(
        TestRecords::new(vec![("range_length_values", build_dictionary(vec![None], vec![]))]),
        slice(
            fixed(string("hello world")),
            Some(fixed(integer(100))),
            Some(column("range_length_values")),
        ),
    ));
    assert_dictionary(vec![None], vec![], &actual);
}

#[test]
fn test_slice_array_any_with_any_ranges() {
    let full = || array(vec![integer(0), integer(1), integer(2), integer(3)]);
    let records = TestRecords::new(vec![
        (
            "values",
            build_dictionary(
                vec![Some(0), Some(0), Some(0), Some(0), None, Some(1)],
                vec![full(), integer(0)],
            ),
        ),
        (
            "range_start_values",
            build_dictionary(
                vec![None, None, Some(0), Some(1), None, Some(1)],
                vec![integer(0), integer(3)],
            ),
        ),
        (
            "range_length_values",
            build_dictionary(
                vec![None, Some(0), None, Some(1), None, Some(1)],
                vec![integer(2), integer(4)],
            ),
        ),
    ]);
    let actual = dictionary(run(
        records,
        slice(
            column("values"),
            Some(column("range_start_values")),
            Some(column("range_length_values")),
        ),
    ));
    assert_dictionary(
        vec![Some(0), Some(1), Some(0), Some(2), None, None],
        vec![full(), array(vec![integer(0), integer(1)]), array(vec![integer(3)])],
        &actual,
    );

    let actual = dictionary(run(
        TestRecords::new(vec![("range_length_values", build_dictionary(vec![None], vec![]))]),
        slice(
            fixed(array(vec![])),
            Some(fixed(integer(100))),
            Some(column("range_length_values")),
        ),
    ));
    assert_dictionary(vec![None], vec![], &actual);
}

fn logical(kind: LogicalExpressionKind) -> LogicalExpression {
    LogicalExpression { info: info(), kind }
}

fn run_logical(
    records: &TestRecords,
    expression: &LogicalExpression,
) -> (ResolvedLogicalValue, Vec<ColumnarEngineDiagnostic>) {
    let globals = NamedValues::new();
    let constants = Vec::new();
    let records = records.build();
    let context = ExecutionContext {
        functions: &TestFunctions,
        constants: &constants,
        variables: ExecutionContextVariables::new(&globals),
        records: Some(&records),
    };
    execute_logical_expression(&context, expression)
}

fn truths(value: ResolvedLogicalValue) -> Vec<Option<bool>> {
    match value {
        ResolvedLogicalValue::Array { values, .. } => values.iter().collect(),
        ResolvedLogicalValue::Single(b) => panic!("single {b}"),
    }
}

fn number_records() -> TestRecords {
    TestRecords::new(vec![
        (
            "n",
            build_dictionary(
                vec![Some(0), Some(1), None, Some(2)],
                vec![integer(1), integer(5), integer(9)],
            ),
        ),
        (
            "flag",
            build_dictionary(
                vec![Some(0), Some(1), Some(1), None],
                vec![ValueOrRef::Boolean(true), ValueOrRef::Boolean(false)],
            ),
        ),
    ])
}

fn greater(value: i64) -> LogicalExpression {
    logical(LogicalExpressionKind::GreaterThan {
        info: info(),
        left: column("n"),
        right: fixed(integer(value)),
    })
}

#[test]
fn comparisons_of_columns_are_told_record_by_record() {
    let records = number_records();
    assert_eq!(
        vec![Some(false), Some(true), Some(false), Some(true)],
        truths(run_logical(&records, &greater(1)).0)
    );
    let equal = logical(LogicalExpressionKind::EqualTo {
        info: info(),
        left: column("n"),
        right: fixed(integer(5)),
        case_insensitive: false,
    });
    assert_eq!(
        vec![Some(false), Some(true), Some(false), Some(false)],
        truths(run_logical(&records, &equal).0)
    );
    let at_least = logical(LogicalExpressionKind::GreaterThanOrEqualTo {
        info: info(),
        left: column("n"),
        right: column("n"),
    });
    assert!(matches!(
        run_logical(&records, &at_least).0,
        ResolvedLogicalValue::Single(true)
    ));
}

#[test]
fn a_negation_is_the_opposite_and_leaves_what_is_missing() {
    let records = number_records();
    let flag = || logical(LogicalExpressionKind::Scalar(column("flag")));
    assert_eq!(
        vec![Some(true), Some(false), Some(false), None],
        truths(run_logical(&records, &flag()).0)
    );
    let not = || logical(LogicalExpressionKind::Not(Rc::new(flag())));
    assert_eq!(
        vec![Some(false), Some(true), Some(true), None],
        truths(run_logical(&records, &not()).0)
    );
    let twice = logical(LogicalExpressionKind::Not(Rc::new(not())));
    assert_eq!(
        vec![Some(true), Some(false), Some(false), None],
        truths(run_logical(&records, &twice).0)
    );
}

#[test]
fn both_parts_of_a_conjunction_count() {
    let records = number_records();
    let flag = || Box::new(logical(LogicalExpressionKind::Scalar(column("flag"))));
    let and = logical(LogicalExpressionKind::And(Box::new(greater(0)), flag()));
    assert_eq!(
        vec![Some(true), Some(false), Some(false), None],
        truths(run_logical(&records, &and).0)
    );
    let or = logical(LogicalExpressionKind::Or(Box::new(greater(1)), flag()));
    assert_eq!(
        vec![Some(true), Some(true), Some(false), None],
        truths(run_logical(&records, &or).0)
    );
}

#[test]
fn a_left_part_that_decides_makes_the_right_one_needless() {
    let records = number_records();
    let right = || {
        Box::new(logical(LogicalExpressionKind::Matches {
            info: info(),
            haystack: fixed(integer(1)),
            pattern: fixed(integer(1)),
        }))
    };
    let never = || Box::new(logical(LogicalExpressionKind::Scalar(fixed(ValueOrRef::Boolean(false)))));
    let and = logical(LogicalExpressionKind::And(never(), right()));
    let (value, notes) = run_logical(&records, &and);
    assert!(matches!(value, ResolvedLogicalValue::Single(false)));
    assert!(notes
        .iter()
        .all(|n| n.diagnostic_level == ColumnarEngineDiagnosticLevel::Verbose));

    let or = logical(LogicalExpressionKind::Or(never(), right()));
    let (value, notes) = run_logical(&records, &or);
    assert!(matches!(value, ResolvedLogicalValue::Single(false)));
    assert!(notes.iter().any(|n| match &n.message {
        DiagnosticMessage::Text(text) => text.as_str() == "no pattern",
        _ => false,
    }));
}

#[test]
fn texts_are_searched_and_matched() {
    let records = TestRecords::default();
    let contains = |case_insensitive| {
        logical(LogicalExpressionKind::Contains {
            info: info(),
            haystack: fixed(string("Hello World")),
            needle: fixed(string("world")),
            case_insensitive,
        })
    };
    assert!(matches!(
        run_logical(&records, &contains(true)).0,
        ResolvedLogicalValue::Single(true)
    ));
    assert!(matches!(
        run_logical(&records, &contains(false)).0,
        ResolvedLogicalValue::Single(false)
    ));
    let matches_pattern = logical(LogicalExpressionKind::Matches {
        info: info(),
        haystack: fixed(string("Hello World")),
        pattern: fixed(ValueOrRef::Regex(Rc::new("^Hello .+$".to_string()))),
    });
    assert!(matches!(
        run_logical(&records, &matches_pattern).0,
        ResolvedLogicalValue::Single(true)
    ));
}

#[test]
fn what_has_no_truth_is_false_with_a_warning() {
    let (value, notes) = run_logical(
        &TestRecords::default(),
        &logical(LogicalExpressionKind::Scalar(fixed(string("maybe")))),
    );
    assert!(matches!(value, ResolvedLogicalValue::Single(false)));
    assert!(notes
        .iter()
        .any(|n| matches!(n.message, DiagnosticMessage::TypeNotBoolean(ValueType::String))));
}

#[test]
fn a_length_of_a_number_is_null_with_a_warning() {
    let (value, notes) = run_with(
        &TestRecords::default(),
        &Vec::new(),
        &NamedValues::new(),
        &length(fixed(integer(3))),
    );
    assert_eq!(ValueOrRef::Null, single(value));
    assert!(notes
        .iter()
        .any(|n| matches!(n.message, DiagnosticMessage::LengthOfType(ValueType::Integer))));
}

fn form_of(value: &ValueOrRef) -> ArrayForm {
    match value {
        ValueOrRef::Array(ArrayValueOrRef::List(form, _)) => *form,
        _ => panic!("not a list"),
    }
}

#[test]
fn lists_and_maps_of_the_query_are_lent() {
    let nested = || array(vec![array(vec![integer(1)])]);
    let run = |expression| single(run(TestRecords::default(), expression));
    assert_eq!(ArrayForm::Ref, form_of(&run(fixed(nested()))));
    assert_eq!(ArrayForm::Slice, form_of(&run(slice(fixed(nested()), None, None))));
    match run(fixed(map(vec![("k", integer(1))]))) {
        ValueOrRef::MapValue(map) => assert!(!map.owned),
        _ => panic!("not a map"),
    }
    let constants = vec![
        PipelineConstant { info: info(), value: nested() },
        PipelineConstant { info: info(), value: map(vec![("k", nested())]) },
    ];
    let run = |expression: ScalarExpression| {
        single(run_with(&TestRecords::default(), &constants, &NamedValues::new(), &expression).0)
    };
    assert_eq!(ArrayForm::Ref, form_of(&run(constant(0, vec![fixed(integer(0))]))));
    assert_eq!(ArrayForm::Ref, form_of(&run(constant(1, vec![fixed(string("k"))]))));
    assert_eq!(integer(1), run(constant(1, vec![fixed(string("k")), fixed(integer(0)), fixed(integer(0))])));
}

#[test]
fn records_tell_whether_there_are_any() {
    assert!(!TestRecords::default().build().is_empty());
    let keys = vec![Some(0)];
    let records = TestRecords::new(vec![("values", build_dictionary(keys, vec![integer(1)]))]);
    assert!(records.build().is_empty());
}

#[test]
fn slices_of_slices_are_slices() {
    let text = Rc::new("grüße".to_string());
    let inner = new_string_slice(&text, 1, 5);
    assert_eq!("rüße", inner.as_str());
    assert_eq!(
        new_string_slice(&text, 2, 4).as_str(),
        new_string_slice(&inner, 1, 3).as_str()
    );
    assert_eq!("üß", new_string_slice(&inner, 1, 3).as_str());
    assert_eq!("", new_string_slice(&text, 9, 12).as_str());
    assert_eq!("e", new_string_slice(&text, 4, 12).as_str());
}
