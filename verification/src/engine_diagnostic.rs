//! Diagnostics: what the engine has to say of the expressions that it evaluates.

use std::rc::Rc;

use vstd::prelude::*;

use crate::dictionary::Dictionary;
use crate::expressions::ExpressionInfo;
use crate::log_schema::OtapLogRecordField;
use crate::resolved_value::{ResolvedLogicalValue, ResolvedScalarValue};
use crate::text::str_equal;
use crate::value::ValueType;

verus! {

/// How much a diagnostic matters.
#[derive(Debug, Clone, Copy, PartialEq, Eq, PartialOrd, Hash, Structural)]
pub enum ColumnarEngineDiagnosticLevel {
    Verbose,
    Info,
    Warn,
    Error,
}

impl ColumnarEngineDiagnosticLevel {
    /// The rank of the level, from the least to the most.
    pub open spec fn rank(self) -> int {
        match self {
            ColumnarEngineDiagnosticLevel::Verbose => 0,
            ColumnarEngineDiagnosticLevel::Info => 1,
            ColumnarEngineDiagnosticLevel::Warn => 2,
            ColumnarEngineDiagnosticLevel::Error => 3,
        }
    }

    /// Whether the level matters at least as much as another.
    pub fn is_at_least(self, other: ColumnarEngineDiagnosticLevel) -> (r: bool)
        ensures
            r == (self.rank() >= other.rank()),
    {
        match (self, other) {
            (_, ColumnarEngineDiagnosticLevel::Verbose) => true,
            (ColumnarEngineDiagnosticLevel::Verbose, _) => false,
            (_, ColumnarEngineDiagnosticLevel::Info) => true,
            (ColumnarEngineDiagnosticLevel::Info, _) => false,
            (_, ColumnarEngineDiagnosticLevel::Warn) => true,
            (ColumnarEngineDiagnosticLevel::Warn, _) => false,
            (ColumnarEngineDiagnosticLevel::Error, ColumnarEngineDiagnosticLevel::Error) => true,
        }
    }

    /// The name of the level.
    pub open spec fn name(self) -> Seq<char> {
        match self {
            ColumnarEngineDiagnosticLevel::Verbose => "Verbose"@,
            ColumnarEngineDiagnosticLevel::Info => "Info"@,
            ColumnarEngineDiagnosticLevel::Warn => "Warn"@,
            ColumnarEngineDiagnosticLevel::Error => "Error"@,
        }
    }

    /// The name of the level.
    pub fn get_name(&self) -> (r: &'static str)
        ensures
            r@ == self.name(),
    {
        match self {
            ColumnarEngineDiagnosticLevel::Verbose => "Verbose",
            ColumnarEngineDiagnosticLevel::Info => "Info",
            ColumnarEngineDiagnosticLevel::Warn => "Warn",
            ColumnarEngineDiagnosticLevel::Error => "Error",
        }
    }

    /// The level of a rank.
    pub fn from_usize(n: usize) -> (r: Option<ColumnarEngineDiagnosticLevel>)
        ensures
            r is Some == (n <= 3),
            r matches Some(level) ==> level.rank() == n,
    {
        match n {
            0 => Some(ColumnarEngineDiagnosticLevel::Verbose),
            1 => Some(ColumnarEngineDiagnosticLevel::Info),
            2 => Some(ColumnarEngineDiagnosticLevel::Warn),
            3 => Some(ColumnarEngineDiagnosticLevel::Error),
            _ => None,
        }
    }

    /// The level that a text asks for. The text for information asks for the verbose level.
    pub open spec fn named(text: Seq<char>) -> Option<ColumnarEngineDiagnosticLevel> {
        if text == "Verbose"@ || text == "verbose"@ || text == "Info"@ || text == "info"@ {
            Some(ColumnarEngineDiagnosticLevel::Verbose)
        } else if text == "Warn"@ || text == "warn"@ {
            Some(ColumnarEngineDiagnosticLevel::Warn)
        } else if text == "Error"@ || text == "error"@ {
            Some(ColumnarEngineDiagnosticLevel::Error)
        } else {
            None
        }
    }

    /// The level that a text asks for.
    pub fn from_name(text: &str) -> (r: Result<ColumnarEngineDiagnosticLevel, ()>)
        ensures
            r == (match Self::named(text@) {
                Some(level) => Ok::<ColumnarEngineDiagnosticLevel, ()>(level),
                None => Err::<ColumnarEngineDiagnosticLevel, ()>(()),
            }),
    {
        if str_equal(text, "Verbose") || str_equal(text, "verbose") {
            Ok(ColumnarEngineDiagnosticLevel::Verbose)
        } else if str_equal(text, "Info") || str_equal(text, "info") {
            Ok(ColumnarEngineDiagnosticLevel::Verbose)
        } else if str_equal(text, "Warn") || str_equal(text, "warn") {
            Ok(ColumnarEngineDiagnosticLevel::Warn)
        } else if str_equal(text, "Error") || str_equal(text, "error") {
            Ok(ColumnarEngineDiagnosticLevel::Error)
        } else {
            Err(())
        }
    }
}

impl std::str::FromStr for ColumnarEngineDiagnosticLevel {
    type Err = ();

    fn from_str(s: &str) -> (r: Result<Self, ()>)
        ensures
            r == (match Self::named(s@) {
                Some(level) => Ok::<ColumnarEngineDiagnosticLevel, ()>(level),
                None => Err::<ColumnarEngineDiagnosticLevel, ()>(()),
            }),
    {
        ColumnarEngineDiagnosticLevel::from_name(s)
    }
}

/// What a diagnostic says.
pub enum DiagnosticMessage {
    /// The message of an error.
    Text(Rc<String>),
    EvaluatedScalar(ResolvedScalarValue),
    EvaluatedLogical(ResolvedLogicalValue),
    SliceOfType(ValueType),
    SliceOfTable,
    RangeStartNotInteger,
    RangeEndNotInteger,
    LengthOfType(ValueType),
    KeyIntoType { key: Rc<String>, value_type: ValueType },
    IndexInvalid(i64),
    IndexIntoType { index: i64, value_type: ValueType },
    IndexIntoTable(i64),
    SelectorOfType(ValueType),
    SelectorIsTable,
    SourceNotFound,
    AttachedDataNotFound,
    AttachedNameNotFound(Rc<String>),
    VariableResolved(Rc<String>),
    VariableNotFound(Rc<String>),
    ConstantResolved { value_type: ValueType, id: usize, line: usize, column: usize },
    TypeNotBoolean(ValueType),
    TableNotBoolean,
    AllRecordsIncluded,
    AllRecordsDropped,
    RecordsDropped(usize),
    FieldHasNoInside(OtapLogRecordField),
    FieldIsEmpty(OtapLogRecordField),
    FieldRemoved(OtapLogRecordField),
    FieldWritten { field: OtapLogRecordField, values: Dictionary },
    FieldNotFound(Rc<String>),
    LogRecordKeyNotText,
    LogRecordByIndex,
    AttributesByIndex,
    AttributeRemoved(Rc<String>),
    AttributeWritten { key: Rc<String>, values: Dictionary },
    ColumnRemoved(OtapLogRecordField),
    ColumnWritten { field: OtapLogRecordField, valid: usize, nulls: usize },
    IdsRemoved,
}

/// A message about an expression.
pub struct ColumnarEngineDiagnostic {
    pub diagnostic_level: ColumnarEngineDiagnosticLevel,
    pub expression: ExpressionInfo,
    pub message: DiagnosticMessage,
}

impl ColumnarEngineDiagnostic {
    pub fn new(
        diagnostic_level: ColumnarEngineDiagnosticLevel,
        expression: ExpressionInfo,
        message: DiagnosticMessage,
    ) -> (r: Self)
        ensures
            r == (ColumnarEngineDiagnostic { diagnostic_level, expression, message }),
    {
        ColumnarEngineDiagnostic { diagnostic_level, expression, message }
    }

    pub fn get_diagnostic_level(&self) -> (r: ColumnarEngineDiagnosticLevel)
        ensures
            r == self.diagnostic_level,
    {
        self.diagnostic_level
    }

    pub fn get_expression(&self) -> (r: &ExpressionInfo)
        ensures
            *r == self.expression,
    {
        &self.expression
    }

    pub fn get_message(&self) -> (r: &DiagnosticMessage)
        ensures
            *r == self.message,
    {
        &self.message
    }
}

/// The diagnostics that matter at least as much as the level.
pub open spec fn enabled(
    level: ColumnarEngineDiagnosticLevel,
    diagnostics: Seq<ColumnarEngineDiagnostic>,
) -> Seq<ColumnarEngineDiagnostic>
    decreases diagnostics.len(),
{
    if diagnostics.len() == 0 {
        Seq::empty()
    } else {
        let rest = enabled(level, diagnostics.drop_last());
        if diagnostics.last().diagnostic_level.rank() >= level.rank() {
            rest.push(diagnostics.last())
        } else {
            rest
        }
    }
}

pub proof fn lemma_enabled_push(
    level: ColumnarEngineDiagnosticLevel,
    diagnostics: Seq<ColumnarEngineDiagnostic>,
    diagnostic: ColumnarEngineDiagnostic,
)
    ensures
        enabled(level, diagnostics.push(diagnostic)) == (if diagnostic.diagnostic_level.rank()
            >= level.rank() {
            enabled(level, diagnostics).push(diagnostic)
        } else {
            enabled(level, diagnostics)
        }),
{
    assert(diagnostics.push(diagnostic).drop_last() =~= diagnostics);
}

/// Keeping what is enabled of two lists in turn is keeping what is enabled of both.
pub proof fn lemma_enabled_append(
    level: ColumnarEngineDiagnosticLevel,
    first: Seq<ColumnarEngineDiagnostic>,
    second: Seq<ColumnarEngineDiagnostic>,
)
    ensures
        enabled(level, first + second) == enabled(level, first) + enabled(level, second),
    decreases second.len(),
{
    if second.len() == 0 {
        assert(first + second =~= first);
        assert(enabled(level, first) + enabled(level, second) =~= enabled(level, first));
    } else {
        lemma_enabled_append(level, first, second.drop_last());
        assert((first + second).drop_last() =~= first + second.drop_last());
        assert((first + second).last() == second.last());
        assert(enabled(level, first + second) =~= enabled(level, first) + enabled(level, second));
    }
}

/// Collects the diagnostics that matter at least as much as its level.
pub struct ColumnarEngineDiagnosticReceiver {
    pub diagnostic_level: ColumnarEngineDiagnosticLevel,
    pub diagnostics: Vec<ColumnarEngineDiagnostic>,
}

impl ColumnarEngineDiagnosticReceiver {
    pub fn new(diagnostic_level: ColumnarEngineDiagnosticLevel) -> (r: Self)
        ensures
            r.diagnostic_level == diagnostic_level,
            r.diagnostics@ == Seq::<ColumnarEngineDiagnostic>::empty(),
    {
        ColumnarEngineDiagnosticReceiver { diagnostic_level, diagnostics: Vec::new() }
    }

    /// Whether a diagnostic of the level is kept.
    pub fn is_diagnostic_level_enabled(&self, diagnostic_level: ColumnarEngineDiagnosticLevel) -> (r:
        bool)
        ensures
            r == (diagnostic_level.rank() >= self.diagnostic_level.rank()),
    {
        diagnostic_level.is_at_least(self.diagnostic_level)
    }

    /// Whether the receiver went from one state to another by being given the diagnostics.
    pub open spec fn received(self, given: Seq<ColumnarEngineDiagnostic>, after: Self) -> bool {
        &&& after.diagnostic_level == self.diagnostic_level
        &&& after.diagnostics@ == self.diagnostics@ + enabled(self.diagnostic_level, given)
    }

    /// Keeps a diagnostic if its level is enabled.
    pub fn add_diagnostic_if_enabled(&mut self, diagnostic: ColumnarEngineDiagnostic)
        ensures
            old(self).received(seq![diagnostic], *final(self)),
    {
        let ghost given = diagnostic;
        proof {
            lemma_enabled_push(
                self.diagnostic_level,
                Seq::<ColumnarEngineDiagnostic>::empty(),
                given,
            );
            assert(seq![given] =~= Seq::<ColumnarEngineDiagnostic>::empty().push(given));
        }
        if diagnostic.diagnostic_level.is_at_least(self.diagnostic_level) {
            self.diagnostics.push(diagnostic);
        }
        assert(self.diagnostics@ =~= old(self).diagnostics@ + enabled(
            self.diagnostic_level,
            seq![given],
        ));
    }

    /// Keeps a diagnostic, whatever its level.
    pub fn add_diagnostic(&mut self, diagnostic: ColumnarEngineDiagnostic)
        ensures
            final(self).diagnostic_level == old(self).diagnostic_level,
            final(self).diagnostics@ == old(self).diagnostics@.push(diagnostic),
    {
        self.diagnostics.push(diagnostic);
    }

    /// Keeps those of the diagnostics whose level is enabled.
    pub fn add_all(&mut self, diagnostics: Vec<ColumnarEngineDiagnostic>)
        ensures
            old(self).received(diagnostics@, *final(self)),
    {
        let ghost given = diagnostics@;
        let mut rest = diagnostics;
        let mut reversed: Vec<ColumnarEngineDiagnostic> = Vec::new();
        while rest.len() > 0
            invariant
                rest@.len() <= given.len(),
                rest@ == given.subrange(0, rest@.len() as int),
                reversed@.len() == given.len() - rest@.len(),
                forall|i: int|
                    0 <= i < reversed@.len() ==> #[trigger] reversed@[i] == given[given.len() - 1 - i],
            decreases rest@.len(),
        {
            let last = rest.pop().unwrap();
            reversed.push(last);
            assert(rest@ =~= given.subrange(0, rest@.len() as int));
        }
        while reversed.len() > 0
            invariant
                reversed@.len() <= given.len(),
                forall|i: int|
                    0 <= i < reversed@.len() ==> #[trigger] reversed@[i] == given[given.len() - 1 - i],
                old(self).received(given.subrange(0, given.len() - reversed@.len()), *self),
            decreases reversed@.len(),
        {
            let ghost done = given.subrange(0, given.len() - reversed@.len());
            let next = reversed.pop().unwrap();
            let ghost taken = next;
            self.add_diagnostic_if_enabled(next);
            proof {
                lemma_enabled_append(self.diagnostic_level, done, seq![taken]);
                assert(given.subrange(0, given.len() - reversed@.len()) =~= done + seq![taken]);
                assert(self.diagnostics@ =~= old(self).diagnostics@ + enabled(
                    self.diagnostic_level,
                    done + seq![taken],
                ));
            }
        }
        assert(given.subrange(0, given.len() as int) =~= given);
    }
}

}
