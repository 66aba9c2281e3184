//! Evaluation of scalar expressions.

use vstd::prelude::*;

use crate::columnar_records::{ColumnarRecords, ROOT_TABLE};
use crate::dictionary::Dictionary;
use crate::dictionary_keys::KeyDataType;
use crate::engine_diagnostic::{
    ColumnarEngineDiagnostic, ColumnarEngineDiagnosticLevel, DiagnosticMessage,
};
use crate::execution_context::ExecutionContext;
use crate::expressions::{
    AttachedScalarExpression, ExpressionFunctions, ExpressionInfo, LengthScalarExpression,
    ReferenceConstantScalarExpression, ScalarExpression, ScalarExpressionKind,
    SliceScalarExpression, SourceScalarExpression, VariableScalarExpression,
};
use crate::resolved_value::ResolvedScalarValue;
use crate::selection::{new_warning, select_step, Outcome, SelectStep};
use crate::slice_expression::{null_with_warning, slice_resolved, Evaluation};
use crate::slicing::char_len;
use crate::value::{DateTimeValue, ValueOrRef};

verus! {

/// A verbose message about an expression.
pub open spec fn verbose(
    expression: ExpressionInfo,
    message: DiagnosticMessage,
) -> ColumnarEngineDiagnostic {
    ColumnarEngineDiagnostic {
        diagnostic_level: ColumnarEngineDiagnosticLevel::Verbose,
        expression,
        message,
    }
}

pub(crate) fn new_verbose(expression: &ExpressionInfo, message: DiagnosticMessage) -> (r:
    ColumnarEngineDiagnostic)
    ensures
        r == verbose(*expression, message),
{
    ColumnarEngineDiagnostic::new(
        ColumnarEngineDiagnosticLevel::Verbose,
        expression.clone(),
        message,
    )
}

/// The length of a value: of a text in characters, of an array and a map in elements. Any other value
/// has none, with a warning.
pub open spec fn length_of(expression: ExpressionInfo, value: ValueOrRef) -> Outcome {
    match value {
        ValueOrRef::String(text) => (ValueOrRef::Integer(text@.len() as i64), None),
        ValueOrRef::Array(array) => (ValueOrRef::Integer(array.elements().len() as i64), None),
        ValueOrRef::MapValue(map) => (ValueOrRef::Integer(map.map.entries().len() as i64), None),
        _ => (
            ValueOrRef::Null,
            Some(
                crate::selection::warning(
                    expression,
                    DiagnosticMessage::LengthOfType(value.value_type()),
                ),
            ),
        ),
    }
}

/// The length of a value.
pub fn value_length(expression: &ExpressionInfo, value: &ValueOrRef) -> (r: Outcome)
    ensures
        r == length_of(*expression, *value),
{
    match value {
        ValueOrRef::String(text) => (ValueOrRef::Integer(char_len(text.as_str()) as i64), None),
        ValueOrRef::Array(array) => (ValueOrRef::Integer(array.len() as i64), None),
        ValueOrRef::MapValue(map) => (ValueOrRef::Integer(map.map.len() as i64), None),
        _ => (
            ValueOrRef::Null,
            Some(
                new_warning(expression, DiagnosticMessage::LengthOfType(value.get_value_type())),
            ),
        ),
    }
}

/// Whether the length of what was evaluated may be this. A table has none.
pub open spec fn lengths(
    expression: ExpressionInfo,
    inner: ResolvedScalarValue,
    result: Evaluation,
) -> bool {
    match inner {
        ResolvedScalarValue::Single(value) => {
            &&& result.value == ResolvedScalarValue::Single(length_of(expression, value).0)
            &&& result.notes == crate::slice_expression::optional(length_of(expression, value).1)
        },
        ResolvedScalarValue::Dictionary(d) => {
            &&& result.value matches ResolvedScalarValue::Dictionary(r)
            &&& d.maps_into(
                |value: ValueOrRef, outcome: Outcome| outcome == length_of(expression, value),
                r,
                result.notes,
            )
        },
        ResolvedScalarValue::Table(_) => {
            &&& result.value == ResolvedScalarValue::Single(ValueOrRef::Null)
            &&& result.notes == Seq::<ColumnarEngineDiagnostic>::empty()
        },
    }
}

impl Dictionary {
    /// The lengths of the values.
    pub fn get_len_dictionary(self, expression: &ExpressionInfo) -> (r: (
        Dictionary,
        Vec<ColumnarEngineDiagnostic>,
    ))
        requires
            self.wf(),
        ensures
            r.0.wf(),
            self.maps_into(
                |value: ValueOrRef, outcome: Outcome| outcome == length_of(*expression, value),
                r.0,
                r.1@,
            ),
    {
        let ghost source = self;
        let mut notes: Vec<ColumnarEngineDiagnostic> = Vec::new();
        let transform = |value: ValueOrRef| -> (outcome: Outcome)
            ensures
                outcome == length_of(*expression, value),
            { value_length(expression, &value) };
        let r = self.transform_into_any(&transform, &mut notes);
        proof {
            let added = choose|added: Seq<ColumnarEngineDiagnostic>|
                {
                    &&& notes@ == Seq::<ColumnarEngineDiagnostic>::empty() + added
                    &&& #[trigger] source.transforms_into(transform, r, added)
                };
            assert(notes@ =~= added);
            source.lemma_maps_into(
                transform,
                |value: ValueOrRef, outcome: Outcome| outcome == length_of(*expression, value),
                r,
                added,
            );
        }
        (r, notes)
    }
}

fn length_resolved(expression: &ExpressionInfo, inner: ResolvedScalarValue) -> (r: (
    ResolvedScalarValue,
    Vec<ColumnarEngineDiagnostic>,
))
    requires
        inner.wf(),
    ensures
        r.0.wf(),
        lengths(*expression, inner, (Evaluation { value: r.0, notes: r.1@ })),
{
    let mut notes: Vec<ColumnarEngineDiagnostic> = Vec::new();
    match inner {
        ResolvedScalarValue::Single(value) => {
            let outcome = value_length(expression, &value);
            if let Some(note) = outcome.1 {
                notes.push(note);
            }
            assert(notes@ =~= crate::slice_expression::optional(length_of(*expression, value).1));
            (ResolvedScalarValue::Single(outcome.0), notes)
        },
        ResolvedScalarValue::Dictionary(d) => {
            let (r, notes) = d.get_len_dictionary(expression);
            (ResolvedScalarValue::Dictionary(r), notes)
        },
        ResolvedScalarValue::Table(_) => (ResolvedScalarValue::new_null(), notes),
    }
}

/// Whether a scalar expression may evaluate so. Its value is told last.
pub open spec fn evaluates<F: ExpressionFunctions, R: ColumnarRecords>(
    context: ExecutionContext<'_, F, R>,
    expression: ScalarExpression,
    result: Evaluation,
) -> bool
    decreases expression, 0nat,
{
    &&& result.notes.len() > 0
    &&& result.notes.last() == verbose(
        expression.info,
        DiagnosticMessage::EvaluatedScalar(result.value),
    )
    &&& kind_evaluates(
        context,
        expression.kind,
        Evaluation { value: result.value, notes: result.notes.drop_last() },
    )
}

/// What a length expression takes the length of, evaluated, and the length.
pub struct LengthEvaluations {
    pub inner: Evaluation,
    pub length: Evaluation,
}

/// The parts of a slice expression, evaluated.
pub struct SliceEvaluations {
    pub inner: Evaluation,
    pub start: Evaluation,
    pub length: Evaluation,
    pub sliced: Evaluation,
}

/// An evaluation to a value without diagnostics.
pub open spec fn silently(value: ValueOrRef) -> Evaluation {
    Evaluation { value: ResolvedScalarValue::Single(value), notes: Seq::empty() }
}

/// Whether a value is a point in time that can be represented, told in UTC.
pub open spec fn utc_time(time: DateTimeValue) -> bool {
    &&& time.offset_seconds == 0
    &&& time.nanoseconds < 1_000_000_000
    &&& crate::column_array::MIN_SECONDS <= time.seconds <= crate::column_array::MAX_SECONDS
}

/// Whether a kind of scalar expression may evaluate so.
pub open spec fn kind_evaluates<F: ExpressionFunctions, R: ColumnarRecords>(
    context: ExecutionContext<'_, F, R>,
    kind: ScalarExpressionKind,
    result: Evaluation,
) -> bool
    decreases kind, 0nat,
{
    match kind {
        ScalarExpressionKind::Static(value) => result == silently(crate::value::borrowed(value)),
        ScalarExpressionKind::Now => {
            &&& result.value matches ResolvedScalarValue::Single(ValueOrRef::DateTime(time))
            &&& utc_time(time)
            &&& result.notes == Seq::<ColumnarEngineDiagnostic>::empty()
        },
        ScalarExpressionKind::Length(length) => exists|parts: LengthEvaluations| {
            &&& evaluates(context, *length.inner_expression, parts.inner)
            &&& #[trigger] lengths_evaluated(length.info, parts)
            &&& result.value == parts.length.value
            &&& result.notes == parts.inner.notes + parts.length.notes
        },
        ScalarExpressionKind::Slice(slice) => exists|parts: SliceEvaluations| {
            &&& evaluates(context, *slice.source, parts.inner)
            &&& match slice.range_start {
                Some(start) => evaluates(context, *start, parts.start),
                None => parts.start == silently(ValueOrRef::Integer(0)),
            }
            &&& match slice.range_length {
                Some(length) => evaluates(context, *length, parts.length),
                None => parts.length == silently(ValueOrRef::Null),
            }
            &&& #[trigger] slices_evaluated(*context.functions, slice, parts)
            &&& result.value == parts.sliced.value
            &&& result.notes == parts.inner.notes + parts.start.notes + parts.length.notes
                + parts.sliced.notes
        },
        ScalarExpressionKind::Source(source) => match context.records {
            None => result == crate::slice_expression::null_with(
                source.info,
                DiagnosticMessage::SourceNotFound,
            ),
            Some(records) => selection_evaluates(
                context,
                Some(records.key_type()),
                ResolvedScalarValue::Table(ROOT_TABLE),
                source.selectors@,
                0,
                result,
            ),
        },
        ScalarExpressionKind::Attached(attached) => match context.records {
            None => result == crate::slice_expression::null_with(
                attached.info,
                DiagnosticMessage::AttachedDataNotFound,
            ),
            Some(records) => match records.attached_table(attached.name@) {
                None => result == crate::slice_expression::null_with(
                    attached.info,
                    DiagnosticMessage::AttachedNameNotFound(attached.name),
                ),
                Some(table) => selection_evaluates(
                    context,
                    Some(records.key_type()),
                    ResolvedScalarValue::Table(table),
                    attached.selectors@,
                    0,
                    result,
                ),
            },
        },
        ScalarExpressionKind::Constant(constant) => if constant.constant_id
            < context.constants@.len() {
            let found = context.constants@[constant.constant_id as int];
            &&& result.notes.len() > 0
            &&& result.notes[0] == verbose(
                constant.info,
                DiagnosticMessage::ConstantResolved {
                    value_type: found.value.value_type(),
                    id: constant.constant_id,
                    line: found.info.line,
                    column: found.info.column,
                },
            )
            &&& selection_evaluates(
                context,
                None,
                ResolvedScalarValue::Single(crate::value::borrowed(found.value)),
                constant.selectors@,
                0,
                Evaluation { value: result.value, notes: result.notes.skip(1) },
            )
        } else {
            result == silently(ValueOrRef::Null)
        },
        ScalarExpressionKind::Variable(variable) => match context.variables.variable(
            variable.name@,
        ) {
            Some(value) => {
                &&& result.notes.len() > 0
                &&& result.notes[0] == verbose(
                    variable.info,
                    DiagnosticMessage::VariableResolved(variable.name),
                )
                &&& selection_evaluates(
                    context,
                    None,
                    value.as_scalar(),
                    variable.selectors@,
                    0,
                    Evaluation { value: result.value, notes: result.notes.skip(1) },
                )
            },
            None => result == crate::slice_expression::null_with(
                variable.info,
                DiagnosticMessage::VariableNotFound(variable.name),
            ),
        },
    }
}

/// Whether what was evaluated has this length.
pub open spec fn lengths_evaluated(expression: ExpressionInfo, parts: LengthEvaluations) -> bool {
    lengths(expression, parts.inner.value, parts.length)
}

/// Whether the evaluated parts of a slice give its result.
pub open spec fn slices_evaluated<F: ExpressionFunctions>(
    functions: F,
    slice: SliceScalarExpression,
    parts: SliceEvaluations,
) -> bool {
    crate::slice_expression::slices(
        functions,
        slice,
        parts.inner.value,
        parts.start.value,
        parts.length.value,
        parts.sliced,
    )
}

/// A selector, evaluated, and what it and the selectors behind it selected.
pub struct SelectEvaluations {
    pub by: Evaluation,
    pub step: SelectStep,
    pub rest: Evaluation,
}

/// Whether selecting from `current` by the selectors from the one at `i` on may evaluate so. A
/// selector that selects nothing ends the selection with null.
pub open spec fn selection_evaluates<F: ExpressionFunctions, R: ColumnarRecords>(
    context: ExecutionContext<'_, F, R>,
    key_data_type: Option<KeyDataType>,
    current: ResolvedScalarValue,
    selectors: Seq<ScalarExpression>,
    i: nat,
    result: Evaluation,
) -> bool
    decreases selectors, selectors.len() - i,
{
    if i >= selectors.len() {
        &&& result.value == current
        &&& result.notes == Seq::<ColumnarEngineDiagnostic>::empty()
    } else {
        exists|parts: SelectEvaluations| {
            &&& evaluates(context, selectors[i as int], parts.by)
            &&& #[trigger] selects_evaluated(
                context.records,
                key_data_type,
                current,
                selectors[i as int].info,
                parts,
            )
            &&& match parts.step.next {
                None => parts.rest == silently(ValueOrRef::Null),
                Some(next) => selection_evaluates(
                    context,
                    key_data_type,
                    next,
                    selectors,
                    i + 1,
                    parts.rest,
                ),
            }
            &&& result.value == parts.rest.value
            &&& result.notes == parts.by.notes + parts.step.notes + parts.rest.notes
        }
    }
}

/// Whether the evaluated selector selects so.
pub open spec fn selects_evaluated<R: ColumnarRecords>(
    records: Option<&R>,
    key_data_type: Option<KeyDataType>,
    current: ResolvedScalarValue,
    selector: ExpressionInfo,
    parts: SelectEvaluations,
) -> bool {
    crate::selection::selects(
        records,
        key_data_type,
        current,
        selector,
        parts.by.value,
        parts.step,
    )
}

/// `chrono::Utc::now`: the current time, in UTC. It is one that can be represented and not within a leap
/// second; nothing else is said of which time that is.
#[verifier::external_body]
fn utc_now() -> (r: DateTimeValue)
    ensures
        utc_time(r),
{
    let now = chrono::Utc::now();
    DateTimeValue {
        seconds: now.timestamp(),
        nanoseconds: now.timestamp_subsec_nanos(),
        offset_seconds: 0,
    }
}

/// Evaluates an expression for the current time, which is told in UTC.
pub fn execute_temporal_scalar_expression<F: ExpressionFunctions, R: ColumnarRecords>(
    context: &ExecutionContext<'_, F, R>,
) -> (r: (ResolvedScalarValue, Vec<ColumnarEngineDiagnostic>))
    ensures
        r.0.wf(),
        kind_evaluates(
            *context,
            ScalarExpressionKind::Now,
            (Evaluation { value: r.0, notes: r.1@ }),
        ),
{
    (ResolvedScalarValue::Single(ValueOrRef::DateTime(utc_now())), Vec::new())
}

/// Evaluates a scalar expression.
pub fn execute_scalar_expression<F: ExpressionFunctions, R: ColumnarRecords>(
    context: &ExecutionContext<'_, F, R>,
    expression: &ScalarExpression,
) -> (r: (ResolvedScalarValue, Vec<ColumnarEngineDiagnostic>))
    requires
        context.variables.wf(),
    ensures
        r.0.wf(),
        evaluates(*context, *expression, (Evaluation { value: r.0, notes: r.1@ })),
    decreases *expression, 0nat,
{
    let (value, mut notes) = match &expression.kind {
        ScalarExpressionKind::Static(value) => (
            ResolvedScalarValue::Single(value.borrow_value()),
            Vec::new(),
        ),
        ScalarExpressionKind::Now => execute_temporal_scalar_expression(context),
        ScalarExpressionKind::Length(length) => execute_length_scalar_expression(context, length),
        ScalarExpressionKind::Slice(slice) => execute_slice_scalar_expression(context, slice),
        ScalarExpressionKind::Source(source) => execute_source_scalar_expression(context, source),
        ScalarExpressionKind::Attached(attached) => execute_attached_scalar_expression(
            context,
            attached,
        ),
        ScalarExpressionKind::Constant(constant) => execute_constant_scalar_expression(
            context,
            constant,
        ),
        ScalarExpressionKind::Variable(variable) => execute_variable_scalar_expression(
            context,
            variable,
        ),
    };
    let ghost own = notes@;
    assert(kind_evaluates(*context, expression.kind, Evaluation { value, notes: own }));
    notes.push(
        new_verbose(&expression.info, DiagnosticMessage::EvaluatedScalar(value.clone())),
    );
    assert(notes@.drop_last() =~= own);
    (value, notes)
}

/// Evaluates a length expression.
pub fn execute_length_scalar_expression<F: ExpressionFunctions, R: ColumnarRecords>(
    context: &ExecutionContext<'_, F, R>,
    length: &LengthScalarExpression,
) -> (r: (ResolvedScalarValue, Vec<ColumnarEngineDiagnostic>))
    requires
        context.variables.wf(),
    ensures
        r.0.wf(),
        kind_evaluates(
            *context,
            ScalarExpressionKind::Length(*length),
            (Evaluation { value: r.0, notes: r.1@ }),
        ),
    decreases *length, 0nat,
{
    let (inner, mut notes) = execute_scalar_expression(context, &length.inner_expression);
    let ghost inner_evaluation = Evaluation { value: inner, notes: notes@ };
    let (value, mut own_notes) = length_resolved(&length.info, inner);
    let ghost parts = LengthEvaluations {
        inner: inner_evaluation,
        length: Evaluation { value, notes: own_notes@ },
    };
    assert(lengths_evaluated(length.info, parts));
    notes.append(&mut own_notes);
    (value, notes)
}

/// Evaluates a slice expression.
pub fn execute_slice_scalar_expression<F: ExpressionFunctions, R: ColumnarRecords>(
    context: &ExecutionContext<'_, F, R>,
    slice: &SliceScalarExpression,
) -> (r: (ResolvedScalarValue, Vec<ColumnarEngineDiagnostic>))
    requires
        context.variables.wf(),
    ensures
        r.0.wf(),
        kind_evaluates(
            *context,
            ScalarExpressionKind::Slice(*slice),
            (Evaluation { value: r.0, notes: r.1@ }),
        ),
    decreases *slice, 0nat,
{
    let (inner, mut notes) = execute_scalar_expression(context, &slice.source);
    let ghost inner_evaluation = Evaluation { value: inner, notes: notes@ };
    let (start, mut start_notes) = match &slice.range_start {
        Some(start) => execute_scalar_expression(context, start),
        None => (ResolvedScalarValue::new_int(0), Vec::new()),
    };
    let ghost start_evaluation = Evaluation { value: start, notes: start_notes@ };
    let (length, mut length_notes) = match &slice.range_length {
        Some(length) => execute_scalar_expression(context, length),
        None => (ResolvedScalarValue::new_null(), Vec::new()),
    };
    let ghost length_evaluation = Evaluation { value: length, notes: length_notes@ };
    let (value, mut sliced_notes) = slice_resolved(context.functions, slice, inner, start, length);
    let ghost parts = SliceEvaluations {
        inner: inner_evaluation,
        start: start_evaluation,
        length: length_evaluation,
        sliced: Evaluation { value, notes: sliced_notes@ },
    };
    assert(slices_evaluated(*context.functions, *slice, parts));
    notes.append(&mut start_notes);
    notes.append(&mut length_notes);
    notes.append(&mut sliced_notes);
    (value, notes)
}

/// Evaluates a source expression.
pub fn execute_source_scalar_expression<F: ExpressionFunctions, R: ColumnarRecords>(
    context: &ExecutionContext<'_, F, R>,
    source: &SourceScalarExpression,
) -> (r: (ResolvedScalarValue, Vec<ColumnarEngineDiagnostic>))
    requires
        context.variables.wf(),
    ensures
        r.0.wf(),
        kind_evaluates(
            *context,
            ScalarExpressionKind::Source(*source),
            (Evaluation { value: r.0, notes: r.1@ }),
        ),
    decreases *source, 0nat,
{
    match context.records {
        None => null_with_warning(&source.info, DiagnosticMessage::SourceNotFound),
        Some(records) => {
            proof {
                assert(decreases_to!(*source => source.selectors));
                assert(decreases_to!(source.selectors => source.selectors@));
            }
            select(
                context,
                Some(records.get_key_data_type()),
                ResolvedScalarValue::Table(ROOT_TABLE),
                &source.selectors,
                0,
            )
        },
    }
}

/// Evaluates an expression of attached data.
pub fn execute_attached_scalar_expression<F: ExpressionFunctions, R: ColumnarRecords>(
    context: &ExecutionContext<'_, F, R>,
    attached: &AttachedScalarExpression,
) -> (r: (ResolvedScalarValue, Vec<ColumnarEngineDiagnostic>))
    requires
        context.variables.wf(),
    ensures
        r.0.wf(),
        kind_evaluates(
            *context,
            ScalarExpressionKind::Attached(*attached),
            (Evaluation { value: r.0, notes: r.1@ }),
        ),
    decreases *attached, 0nat,
{
    let records = match context.records {
        None => {
            return null_with_warning(&attached.info, DiagnosticMessage::AttachedDataNotFound);
        },
        Some(records) => records,
    };
    match records.get_attached_records(attached.name.as_str()) {
        None => null_with_warning(
            &attached.info,
            DiagnosticMessage::AttachedNameNotFound(attached.name.clone()),
        ),
        Some(table) => {
            proof {
                assert(decreases_to!(*attached => attached.selectors));
                assert(decreases_to!(attached.selectors => attached.selectors@));
            }
            select(
                context,
                Some(records.get_key_data_type()),
                ResolvedScalarValue::Table(table),
                &attached.selectors,
                0,
            )
        },
    }
}

/// Evaluates a reference to a constant.
pub fn execute_constant_scalar_expression<F: ExpressionFunctions, R: ColumnarRecords>(
    context: &ExecutionContext<'_, F, R>,
    constant: &ReferenceConstantScalarExpression,
) -> (r: (ResolvedScalarValue, Vec<ColumnarEngineDiagnostic>))
    requires
        context.variables.wf(),
    ensures
        r.0.wf(),
        kind_evaluates(
            *context,
            ScalarExpressionKind::Constant(*constant),
            (Evaluation { value: r.0, notes: r.1@ }),
        ),
    decreases *constant, 0nat,
{
    if constant.constant_id >= context.constants.len() {
        return (ResolvedScalarValue::new_null(), Vec::new());
    }
    let found = &context.constants[constant.constant_id];
    let mut notes: Vec<ColumnarEngineDiagnostic> = Vec::new();
    notes.push(
        new_verbose(
            &constant.info,
            DiagnosticMessage::ConstantResolved {
                value_type: found.value.get_value_type(),
                id: constant.constant_id,
                line: found.info.line,
                column: found.info.column,
            },
        ),
    );
    proof {
        assert(decreases_to!(*constant => constant.selectors));
        assert(decreases_to!(constant.selectors => constant.selectors@));
    }
    let (value, mut selected_notes) = select(
        context,
        None,
        ResolvedScalarValue::Single(found.value.borrow_value()),
        &constant.selectors,
        0,
    );
    let ghost selected = selected_notes@;
    notes.append(&mut selected_notes);
    assert(notes@.skip(1) =~= selected);
    (value, notes)
}

/// Evaluates a variable.
pub fn execute_variable_scalar_expression<F: ExpressionFunctions, R: ColumnarRecords>(
    context: &ExecutionContext<'_, F, R>,
    variable: &VariableScalarExpression,
) -> (r: (ResolvedScalarValue, Vec<ColumnarEngineDiagnostic>))
    requires
        context.variables.wf(),
    ensures
        r.0.wf(),
        kind_evaluates(
            *context,
            ScalarExpressionKind::Variable(*variable),
            (Evaluation { value: r.0, notes: r.1@ }),
        ),
    decreases *variable, 0nat,
{
    match context.variables.get_global_or_local_variable(variable.name.as_str()) {
        None => null_with_warning(
            &variable.info,
            DiagnosticMessage::VariableNotFound(variable.name.clone()),
        ),
        Some(found) => {
            let mut notes: Vec<ColumnarEngineDiagnostic> = Vec::new();
            notes.push(
                new_verbose(
                    &variable.info,
                    DiagnosticMessage::VariableResolved(variable.name.clone()),
                ),
            );
            proof {
                assert(context.variables.variable(variable.name@) == Some(*found));
                assert(decreases_to!(*variable => variable.selectors));
                assert(decreases_to!(variable.selectors => variable.selectors@));
            }
            let (value, mut selected_notes) = select(
                context,
                None,
                found.to_scalar(),
                &variable.selectors,
                0,
            );
            let ghost selected = selected_notes@;
            notes.append(&mut selected_notes);
            assert(notes@.skip(1) =~= selected);
            (value, notes)
        },
    }
}

/// Selects from `current` by the selectors from the one at `i` on.
pub fn select<F: ExpressionFunctions, R: ColumnarRecords>(
    context: &ExecutionContext<'_, F, R>,
    key_data_type: Option<KeyDataType>,
    current: ResolvedScalarValue,
    selectors: &Vec<ScalarExpression>,
    i: usize,
) -> (r: (ResolvedScalarValue, Vec<ColumnarEngineDiagnostic>))
    requires
        context.variables.wf(),
        current.wf(),
        i <= selectors@.len(),
    ensures
        r.0.wf(),
        selection_evaluates(
            *context,
            key_data_type,
            current,
            selectors@,
            i as nat,
            (Evaluation { value: r.0, notes: r.1@ }),
        ),
    decreases selectors@, selectors@.len() - i,
{
    if i >= selectors.len() {
        return (current, Vec::new());
    }
    proof {
        assert(decreases_to!(selectors@ => selectors@[i as int]));
    }
    let (by, mut notes) = execute_scalar_expression(context, &selectors[i]);
    let ghost by_evaluation = Evaluation { value: by, notes: notes@ };
    let ghost source = current;
    let (next, mut step_notes) = select_step(
        context.records,
        key_data_type,
        current,
        &selectors[i].info,
        &by,
    );
    let ghost step = SelectStep { next, notes: step_notes@ };
    let (value, mut rest_notes) = match next {
        None => (ResolvedScalarValue::new_null(), Vec::new()),
        Some(next) => select(context, key_data_type, next, selectors, i + 1),
    };
    let ghost parts = SelectEvaluations {
        by: by_evaluation,
        step,
        rest: Evaluation { value, notes: rest_notes@ },
    };
    assert(selects_evaluated(
        context.records,
        key_data_type,
        source,
        selectors@[i as int].info,
        parts,
    ));
    notes.append(&mut step_notes);
    notes.append(&mut rest_notes);
    (value, notes)
}

}
