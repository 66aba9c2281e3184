//! The expressions that a query is made of.

use std::rc::Rc;

use vstd::prelude::*;

use crate::value::{ValueOrRef, ValueType};

verus! {

/// What a diagnostic says of the expression that it is about: its name and where it stands in the
/// query.
#[derive(Debug)]
pub struct ExpressionInfo {
    pub name: Rc<String>,
    pub line: usize,
    pub column: usize,
}

impl Clone for ExpressionInfo {
    fn clone(&self) -> (copy: Self)
        ensures
            copy == *self,
    {
        ExpressionInfo { name: self.name.clone(), line: self.line, column: self.column }
    }
}

/// An expression that gives a value.
#[derive(Debug)]
pub struct ScalarExpression {
    pub info: ExpressionInfo,
    pub kind: ScalarExpressionKind,
}

/// The kinds of expressions that give a value.
#[derive(Debug)]
pub enum ScalarExpressionKind {
    /// A value of data that is attached to the records.
    Attached(AttachedScalarExpression),
    /// A constant of the pipeline.
    Constant(ReferenceConstantScalarExpression),
    /// The length of a text, an array or a map.
    Length(LengthScalarExpression),
    /// A part of a text or an array.
    Slice(SliceScalarExpression),
    /// A value of the records.
    Source(SourceScalarExpression),
    /// A value that is written in the query. A list or a map is lent to what uses it, and is not written
    /// into.
    Static(ValueOrRef),
    /// The current time.
    Now,
    /// A variable.
    Variable(VariableScalarExpression),
}

#[derive(Debug)]
pub struct AttachedScalarExpression {
    pub info: ExpressionInfo,
    pub name: Rc<String>,
    pub selectors: Vec<ScalarExpression>,
}

#[derive(Debug)]
pub struct ReferenceConstantScalarExpression {
    pub info: ExpressionInfo,
    pub constant_id: usize,
    pub selectors: Vec<ScalarExpression>,
}

#[derive(Debug)]
pub struct LengthScalarExpression {
    pub info: ExpressionInfo,
    pub inner_expression: Box<ScalarExpression>,
}

#[derive(Debug)]
pub struct SliceScalarExpression {
    pub info: ExpressionInfo,
    pub source: Box<ScalarExpression>,
    pub range_start: Option<Box<ScalarExpression>>,
    pub range_length: Option<Box<ScalarExpression>>,
}

#[derive(Debug)]
pub struct SourceScalarExpression {
    pub info: ExpressionInfo,
    pub selectors: Vec<ScalarExpression>,
}

#[derive(Debug)]
pub struct VariableScalarExpression {
    pub info: ExpressionInfo,
    pub name: Rc<String>,
    pub selectors: Vec<ScalarExpression>,
}

/// An expression that is true or false of a record.
#[derive(Debug)]
pub struct LogicalExpression {
    pub info: ExpressionInfo,
    pub kind: LogicalExpressionKind,
}

/// The kinds of expressions that are true or false of a record. Those of two values carry what a
/// diagnostic says of the comparison.
#[derive(Debug)]
pub enum LogicalExpressionKind {
    Scalar(ScalarExpression),
    EqualTo {
        info: ExpressionInfo,
        left: ScalarExpression,
        right: ScalarExpression,
        case_insensitive: bool,
    },
    GreaterThan { info: ExpressionInfo, left: ScalarExpression, right: ScalarExpression },
    GreaterThanOrEqualTo { info: ExpressionInfo, left: ScalarExpression, right: ScalarExpression },
    Not(Rc<LogicalExpression>),
    And(Box<LogicalExpression>, Box<LogicalExpression>),
    Or(Box<LogicalExpression>, Box<LogicalExpression>),
    Contains {
        info: ExpressionInfo,
        haystack: ScalarExpression,
        needle: ScalarExpression,
        case_insensitive: bool,
    },
    Matches { info: ExpressionInfo, haystack: ScalarExpression, pattern: ScalarExpression },
}

/// A constant of a pipeline and where it is defined. Like a value that is written in the query, it is
/// lent to what uses it.
#[derive(Debug)]
pub struct PipelineConstant {
    pub info: ExpressionInfo,
    pub value: ValueOrRef,
}

/// The two numbers that tell a slice.
#[derive(Debug, Clone, Copy, PartialEq, Eq, Structural)]
pub enum RangePart {
    Start,
    Length,
}

/// The operations on values that the query language defines. Each may give an error, which is told
/// by its message.
pub trait ExpressionFunctions {
    /// Whether two values are equal.
    fn are_values_equal(
        &self,
        left: &ValueOrRef,
        right: &ValueOrRef,
        case_insensitive: bool,
    ) -> Result<bool, String>;

    /// How two values are ordered: below zero, zero or above zero.
    fn compare_values(&self, left: &ValueOrRef, right: &ValueOrRef) -> Result<i64, String>;

    /// Whether one value is contained in another.
    fn contains(
        &self,
        haystack: &ValueOrRef,
        needle: &ValueOrRef,
        case_insensitive: bool,
    ) -> Result<bool, String>;

    /// Whether a value matches a pattern.
    fn matches(&self, haystack: &ValueOrRef, pattern: &ValueOrRef) -> Result<bool, String>;

    /// The truth of a value.
    fn convert_to_bool(&self, value: &ValueOrRef) -> Option<bool>;

    /// The start or the length of a slice.
    fn validate_resolved_range_value(&self, part: RangePart, value: &ValueOrRef) -> Result<
        usize,
        String,
    >;

    /// The end of a slice of a text or an array of the given length.
    fn validate_slice_range(
        &self,
        value_type: ValueType,
        length: usize,
        start: usize,
        range_length: Option<usize>,
    ) -> Result<usize, String>;

    /// How a value that is not a text, an array, a map or null is written.
    fn format_value(&self, value: &ValueOrRef) -> String;
}

}
