//! Selection of values out of tables, maps and arrays.

use std::rc::Rc;

use vstd::prelude::*;

use crate::collections::{value_set_new, ValueOrRefSet};
use crate::columnar_records::{ColumnarRecords, RecordTableValue};
use crate::dictionary::Dictionary;
use crate::dictionary_keys::{DictionaryKeyArrayBuilder, KeyDataType};
use crate::dictionary_values::{lemma_notes_push, push_note, DictionaryValueArray};
use crate::engine_diagnostic::{
    ColumnarEngineDiagnostic, ColumnarEngineDiagnosticLevel, DiagnosticMessage,
};
use crate::expressions::ExpressionInfo;
use crate::interning::{insert_value, lemma_filled_push, lemma_filled_start};
use crate::resolved_value::ResolvedScalarValue;
use crate::value::ValueOrRef;

verus! {

/// A value and what there is to say of it.
pub type Outcome = (ValueOrRef, Option<ColumnarEngineDiagnostic>);

/// A warning about an expression.
pub open spec fn warning(
    expression: ExpressionInfo,
    message: DiagnosticMessage,
) -> ColumnarEngineDiagnostic {
    ColumnarEngineDiagnostic {
        diagnostic_level: ColumnarEngineDiagnosticLevel::Warn,
        expression,
        message,
    }
}

/// A warning about an expression.
pub fn new_warning(expression: &ExpressionInfo, message: DiagnosticMessage) -> (r:
    ColumnarEngineDiagnostic)
    ensures
        r == warning(*expression, message),
{
    ColumnarEngineDiagnostic::new(
        ColumnarEngineDiagnosticLevel::Warn,
        expression.clone(),
        message,
    )
}

/// What a key selects of a value: the entry of a map, and nothing, with a warning, of any other.
pub open spec fn key_outcome(selector: ExpressionInfo, key: Rc<String>, value: ValueOrRef) -> Outcome {
    match value {
        ValueOrRef::MapValue(map) => (
            match map.lookup(key@) {
                Some(entry) => entry,
                None => ValueOrRef::Null,
            },
            None,
        ),
        _ => (
            ValueOrRef::Null,
            Some(
                warning(
                    selector,
                    DiagnosticMessage::KeyIntoType { key, value_type: value.value_type() },
                ),
            ),
        ),
    }
}

/// The position that an index means in an array of the given length: a negative one counts from the
/// end.
pub open spec fn array_position(index: i64, length: nat) -> int {
    if index < 0 {
        index + length
    } else {
        index as int
    }
}

/// What an index selects of a value: the element of an array, and nothing, with a warning, past its
/// ends or of any other value.
pub open spec fn index_outcome(selector: ExpressionInfo, index: i64, value: ValueOrRef) -> Outcome {
    match value {
        ValueOrRef::Array(array) => {
            let position = array_position(index, array.elements().len());
            if 0 <= position < array.elements().len() {
                (array.elements()[position], None)
            } else {
                (
                    ValueOrRef::Null,
                    Some(warning(selector, DiagnosticMessage::IndexInvalid(position as i64))),
                )
            }
        },
        _ => (
            ValueOrRef::Null,
            Some(
                warning(
                    selector,
                    DiagnosticMessage::IndexIntoType { index, value_type: value.value_type() },
                ),
            ),
        ),
    }
}

/// What a key selects of a value.
pub fn select_key(selector: &ExpressionInfo, key: &Rc<String>, value: &ValueOrRef) -> (r: Outcome)
    ensures
        r == key_outcome(*selector, *key, *value),
{
    match value {
        ValueOrRef::MapValue(map) => match map.get(key.as_str()) {
            Some(entry) => (entry, None),
            None => (ValueOrRef::Null, None),
        },
        _ => (
            ValueOrRef::Null,
            Some(
                new_warning(
                    selector,
                    DiagnosticMessage::KeyIntoType {
                        key: key.clone(),
                        value_type: value.get_value_type(),
                    },
                ),
            ),
        ),
    }
}

/// What an index selects of a value.
pub fn select_index(selector: &ExpressionInfo, index: i64, value: &ValueOrRef) -> (r: Outcome)
    ensures
        r == index_outcome(*selector, index, *value),
{
    match value {
        ValueOrRef::Array(array) => {
            let length: usize = array.len();
            let position: i128 = if index < 0 {
                index as i128 + length as i128
            } else {
                index as i128
            };
            if position < 0 || position >= length as i128 {
                (
                    ValueOrRef::Null,
                    Some(
                        new_warning(selector, DiagnosticMessage::IndexInvalid(position as i64)),
                    ),
                )
            } else {
                (array.get(position as usize), None)
            }
        },
        _ => (
            ValueOrRef::Null,
            Some(
                new_warning(
                    selector,
                    DiagnosticMessage::IndexIntoType { index, value_type: value.get_value_type() },
                ),
            ),
        ),
    }
}

/// What the value `key` of record `i` selects.
pub open spec fn row_outcome<R: ColumnarRecords>(
    records: Option<&R>,
    source: ResolvedScalarValue,
    selector: ExpressionInfo,
    key: ValueOrRef,
    i: int,
) -> Outcome {
    match key {
        ValueOrRef::String(key) => match source {
            ResolvedScalarValue::Table(table) => (
                match records {
                    Some(records) => match records.table_value(table, key@) {
                        Some(RecordTableValue::Dictionary(d)) => d.row_for(i as usize),
                        _ => ValueOrRef::Null,
                    },
                    None => ValueOrRef::Null,
                },
                None,
            ),
            ResolvedScalarValue::Dictionary(d) => key_outcome(selector, key, d.row_for(i as usize)),
            ResolvedScalarValue::Single(value) => key_outcome(selector, key, value),
        },
        ValueOrRef::Integer(index) => match source {
            ResolvedScalarValue::Table(_) => (
                ValueOrRef::Null,
                Some(warning(selector, DiagnosticMessage::IndexIntoTable(index))),
            ),
            ResolvedScalarValue::Dictionary(d) => index_outcome(selector, index, d.row_for(i as usize)),
            ResolvedScalarValue::Single(value) => index_outcome(selector, index, value),
        },
        _ => (
            ValueOrRef::Null,
            Some(warning(selector, DiagnosticMessage::SelectorOfType(key.value_type()))),
        ),
    }
}

/// What each record selects by its own key.
pub open spec fn row_outcomes<R: ColumnarRecords>(
    records: Option<&R>,
    source: ResolvedScalarValue,
    selector: ExpressionInfo,
    keys: Dictionary,
) -> Seq<Outcome> {
    Seq::new(
        keys.rows().len(),
        |i: int| row_outcome(records, source, selector, keys.rows()[i], i),
    )
}

/// What is to be kept of what each record selects.
pub open spec fn outcome_inputs(outcomes: Seq<Outcome>) -> Seq<crate::interning::Input> {
    Seq::new(outcomes.len(), |i: int| crate::interning::value_input(outcomes[i].0))
}

/// Selects for each record by its own key.
pub fn select_using_dictionary<R: ColumnarRecords>(
    records: Option<&R>,
    key_data_type: KeyDataType,
    source: &ResolvedScalarValue,
    selector_expression: &ExpressionInfo,
    selector: &Dictionary,
    notes: &mut Vec<ColumnarEngineDiagnostic>,
) -> (r: Dictionary)
    ensures
        r.wf(),
        r.keys is KeyArray,
        r.keys.key_type() == key_data_type,
        r.rows().len() == selector.rows().len(),
        forall|i: int|
            0 <= i < r.rows().len() ==> crate::dictionary::held_for(
                #[trigger] r.rows()[i],
                row_outcomes(records, *source, *selector_expression, *selector)[i].0,
            ),
        crate::interning::filled(
            Seq::empty(),
            outcome_inputs(row_outcomes(records, *source, *selector_expression, *selector)),
            r.keys.positions(),
            r.values.values(),
        ),
        final(notes)@ == old(notes)@ + crate::dictionary_values::notes_of(
            row_outcomes(records, *source, *selector_expression, *selector),
        ),
{
    let key_count: usize = selector.len();
    let ghost outcomes = row_outcomes(records, *source, *selector_expression, *selector);
    let mut builder = DictionaryKeyArrayBuilder::new(key_data_type, key_count);
    let mut values: ValueOrRefSet = value_set_new();
    proof {
        lemma_filled_start(Seq::empty());
        assert(outcome_inputs(outcomes.subrange(0, 0)) =~= Seq::empty());
        assert(builder.keys().subrange(0, 0) =~= Seq::empty());
    }
    let mut i: usize = 0;
    while i < key_count
        invariant
            i <= key_count == selector.rows().len(),
            outcomes == row_outcomes(records, *source, *selector_expression, *selector),
            builder.wf(),
            builder.key_type() == key_data_type,
            builder.keys().len() == key_count,
            forall|j: int| i <= j < key_count ==> #[trigger] builder.keys()[j] is Some,
            forall|j: int|
                0 <= j < i ==> crate::dictionary::key_holds(
                    crate::collections::set_values(values),
                    #[trigger] builder.keys()[j],
                    outcomes[j].0,
                ),
            crate::interning::filled(
                Seq::empty(),
                outcome_inputs(outcomes.subrange(0, i as int)),
                builder.keys().subrange(0, i as int),
                crate::collections::set_values(values),
            ),
            notes@ == old(notes)@ + crate::dictionary_values::notes_of(
                outcomes.subrange(0, i as int),
            ),
        decreases key_count - i,
    {
        let ghost before = crate::collections::set_values(values);
        let ghost keys_before = builder.keys();
        let key = selector.get_value(i);
        let outcome: Outcome = match &key {
            ValueOrRef::String(key) => match source {
                ResolvedScalarValue::Table(table) => match records {
                    Some(records) => match records.get_values(*table, key.as_str()) {
                        Some(RecordTableValue::Dictionary(d)) => (d.get_value(i), None),
                        _ => (ValueOrRef::Null, None),
                    },
                    None => (ValueOrRef::Null, None),
                },
                ResolvedScalarValue::Dictionary(d) => select_key(
                    selector_expression,
                    key,
                    &d.get_value(i),
                ),
                ResolvedScalarValue::Single(value) => select_key(selector_expression, key, value),
            },
            ValueOrRef::Integer(index) => match source {
                ResolvedScalarValue::Table(_) => (
                    ValueOrRef::Null,
                    Some(
                        new_warning(selector_expression, DiagnosticMessage::IndexIntoTable(*index)),
                    ),
                ),
                ResolvedScalarValue::Dictionary(d) => select_index(
                    selector_expression,
                    *index,
                    &d.get_value(i),
                ),
                ResolvedScalarValue::Single(value) => select_index(
                    selector_expression,
                    *index,
                    value,
                ),
            },
            _ => (
                ValueOrRef::Null,
                Some(
                    new_warning(
                        selector_expression,
                        DiagnosticMessage::SelectorOfType(key.get_value_type()),
                    ),
                ),
            ),
        };
        proof {
            assert(outcome == outcomes[i as int]);
            lemma_notes_push(outcomes.subrange(0, i as int), outcome);
            assert(outcomes.subrange(0, i + 1) =~= outcomes.subrange(0, i as int).push(outcome));
        }
        push_note(notes, outcome.1);
        if outcome.0.is_null() {
            builder.set_null_unchecked(i);
        } else {
            let position: usize = insert_value(&mut values, outcome.0);
            builder.set_value_index_unchecked(i, position);
        }
        proof {
            lemma_filled_push(
                Seq::empty(),
                outcome_inputs(outcomes.subrange(0, i as int)),
                keys_before.subrange(0, i as int),
                before,
                crate::interning::value_input(outcomes[i as int].0),
                builder.keys()[i as int],
                crate::collections::set_values(values),
            );
            assert(outcome_inputs(outcomes.subrange(0, i + 1)) =~= outcome_inputs(
                outcomes.subrange(0, i as int),
            ).push(crate::interning::value_input(outcomes[i as int].0)));
            assert(builder.keys().subrange(0, i + 1) =~= keys_before.subrange(0, i as int).push(
                builder.keys()[i as int],
            ));
            assert forall|j: int| 0 <= j < i + 1 implies crate::dictionary::key_holds(
                crate::collections::set_values(values),
                #[trigger] builder.keys()[j],
                outcomes[j].0,
            ) by {
                if j < i {
                    assert(crate::dictionary::key_holds(before, keys_before[j], outcomes[j].0));
                }
            }
        }
        i = i + 1;
    }
    let ghost keys = builder.keys();
    let r = Dictionary::new(builder.finish(), DictionaryValueArray::SetValues(Rc::new(values)));
    proof {
        assert(outcomes.subrange(0, key_count as int) =~= outcomes);
        assert(r.keys.positions().len() == keys.len());
        assert(r.keys.positions() =~= keys.subrange(0, key_count as int));
        assert forall|j: int| 0 <= j < r.keys.spec_len() implies (#[trigger] r.keys.position(
            j,
        ) matches Some(position) ==> position < r.values.values().len()) by {
            assert(r.keys.positions()[j] == keys[j]);
        }
        assert forall|j: int| 0 <= j < r.rows().len() implies crate::dictionary::held_for(
            #[trigger] r.rows()[j],
            outcomes[j].0,
        ) by {
            assert(r.keys.positions()[j] == keys[j]);
        }
    }
    r
}

/// The outcome of a step: what was selected, unless the selection ends there, and the notes.
pub struct SelectStep {
    pub next: Option<ResolvedScalarValue>,
    pub notes: Seq<ColumnarEngineDiagnostic>,
}

/// Whether selecting from `current` by what a selector evaluated to may have this outcome.
pub open spec fn selects<R: ColumnarRecords>(
    records: Option<&R>,
    key_data_type: Option<KeyDataType>,
    current: ResolvedScalarValue,
    selector: ExpressionInfo,
    by: ResolvedScalarValue,
    step: SelectStep,
) -> bool {
    match by {
        ResolvedScalarValue::Single(ValueOrRef::String(key)) => match current {
            ResolvedScalarValue::Table(table) => {
                &&& step.notes == Seq::<ColumnarEngineDiagnostic>::empty()
                &&& step.next == (match records {
                    Some(records) => match records.table_value(table, key@) {
                        Some(RecordTableValue::Table(t)) => Some(ResolvedScalarValue::Table(t)),
                        Some(RecordTableValue::Dictionary(d)) => Some(
                            ResolvedScalarValue::Dictionary(d),
                        ),
                        None => None,
                    },
                    None => None,
                })
            },
            ResolvedScalarValue::Dictionary(d) => {
                &&& step.next matches Some(ResolvedScalarValue::Dictionary(r))
                &&& d.maps_into(
                    |value: ValueOrRef, outcome: Outcome| outcome == key_outcome(selector, key, value),
                    r,
                    step.notes,
                )
            },
            ResolvedScalarValue::Single(value) => {
                &&& step.next == Some(
                    ResolvedScalarValue::Single(key_outcome(selector, key, value).0),
                )
                &&& step.notes == crate::dictionary_values::notes_of(
                    seq![key_outcome(selector, key, value)],
                )
            },
        },
        ResolvedScalarValue::Single(ValueOrRef::Integer(index)) => match current {
            ResolvedScalarValue::Table(_) => {
                &&& step.next is None
                &&& step.notes == seq![warning(selector, DiagnosticMessage::IndexIntoTable(index))]
            },
            ResolvedScalarValue::Dictionary(d) => {
                &&& step.next matches Some(ResolvedScalarValue::Dictionary(r))
                &&& d.maps_into(
                    |value: ValueOrRef, outcome: Outcome|
                        outcome == index_outcome(selector, index, value),
                    r,
                    step.notes,
                )
            },
            ResolvedScalarValue::Single(value) => {
                &&& step.next == Some(
                    ResolvedScalarValue::Single(index_outcome(selector, index, value).0),
                )
                &&& step.notes == crate::dictionary_values::notes_of(
                    seq![index_outcome(selector, index, value)],
                )
            },
        },
        ResolvedScalarValue::Single(value) => {
            &&& step.next is None
            &&& step.notes == seq![
                warning(selector, DiagnosticMessage::SelectorOfType(value.value_type())),
            ]
        },
        ResolvedScalarValue::Dictionary(keys) => {
            &&& step.next matches Some(ResolvedScalarValue::Dictionary(r))
            &&& r.wf()
            &&& r.keys is KeyArray
            &&& r.keys.key_type() == (match key_data_type {
                Some(data_type) => data_type,
                None => keys.keys.key_type(),
            })
            &&& r.rows().len() == keys.rows().len()
            &&& forall|i: int|
                0 <= i < r.rows().len() ==> crate::dictionary::held_for(
                    #[trigger] r.rows()[i],
                    row_outcomes(records, current, selector, keys)[i].0,
                )
            &&& crate::interning::filled(
                Seq::empty(),
                outcome_inputs(row_outcomes(records, current, selector, keys)),
                r.keys.positions(),
                r.values.values(),
            )
            &&& step.notes == crate::dictionary_values::notes_of(
                row_outcomes(records, current, selector, keys),
            )
        },
        ResolvedScalarValue::Table(_) => {
            &&& step.next is None
            &&& step.notes == seq![warning(selector, DiagnosticMessage::SelectorIsTable)]
        },
    }
}

fn outcome_notes(outcome: Option<ColumnarEngineDiagnostic>) -> (notes: Vec<ColumnarEngineDiagnostic>)
    ensures
        forall|value: ValueOrRef|
            notes@ == #[trigger] crate::dictionary_values::notes_of(seq![(value, outcome)]),
{
    let ghost given = outcome;
    let mut notes: Vec<ColumnarEngineDiagnostic> = Vec::new();
    push_note(&mut notes, outcome);
    proof {
        assert forall|value: ValueOrRef|
            notes@ == #[trigger] crate::dictionary_values::notes_of(seq![(value, given)]) by {
            lemma_notes_push(Seq::<Outcome>::empty(), (value, given));
            assert(seq![(value, given)] =~= Seq::<Outcome>::empty().push((value, given)));
        }
    }
    notes
}

/// Selects from `current` by what a selector evaluated to.
pub fn select_step<R: ColumnarRecords>(
    records: Option<&R>,
    key_data_type: Option<KeyDataType>,
    current: ResolvedScalarValue,
    selector: &ExpressionInfo,
    by: &ResolvedScalarValue,
) -> (r: (Option<ResolvedScalarValue>, Vec<ColumnarEngineDiagnostic>))
    requires
        current.wf(),
    ensures
        r.0 matches Some(next) ==> next.wf(),
        selects(
            records,
            key_data_type,
            current,
            *selector,
            *by,
            (SelectStep { next: r.0, notes: r.1@ }),
        ),
{
    match by {
        ResolvedScalarValue::Single(ValueOrRef::String(key)) => match current {
            ResolvedScalarValue::Table(table) => {
                let next = match records {
                    Some(records) => match records.get_values(table, key.as_str()) {
                        Some(RecordTableValue::Table(t)) => Some(ResolvedScalarValue::Table(t)),
                        Some(RecordTableValue::Dictionary(d)) => Some(
                            ResolvedScalarValue::Dictionary(d),
                        ),
                        None => None,
                    },
                    None => None,
                };
                (next, Vec::new())
            },
            ResolvedScalarValue::Dictionary(d) => {
                let ghost source = d;
                let mut notes: Vec<ColumnarEngineDiagnostic> = Vec::new();
                let transform = |value: ValueOrRef| -> (outcome: Outcome)
                    ensures
                        outcome == key_outcome(*selector, *key, value),
                    { select_key(selector, key, &value) };
                let next = d.transform_into_any(&transform, &mut notes);
                proof {
                    let added = choose|added: Seq<ColumnarEngineDiagnostic>|
                        {
                            &&& notes@ == Seq::<ColumnarEngineDiagnostic>::empty() + added
                            &&& #[trigger] source.transforms_into(transform, next, added)
                        };
                    assert(notes@ =~= added);
                    source.lemma_maps_into(
                        transform,
                        |value: ValueOrRef, outcome: Outcome|
                            outcome == key_outcome(*selector, *key, value),
                        next,
                        added,
                    );
                }
                (Some(ResolvedScalarValue::Dictionary(next)), notes)
            },
            ResolvedScalarValue::Single(value) => {
                let outcome = select_key(selector, key, &value);
                let notes = outcome_notes(outcome.1);
                (Some(ResolvedScalarValue::Single(outcome.0)), notes)
            },
        },
        ResolvedScalarValue::Single(ValueOrRef::Integer(index)) => match current {
            ResolvedScalarValue::Table(_) => {
                let mut notes: Vec<ColumnarEngineDiagnostic> = Vec::new();
                notes.push(new_warning(selector, DiagnosticMessage::IndexIntoTable(*index)));
                assert(notes@ =~= seq![warning(*selector, DiagnosticMessage::IndexIntoTable(*index))]);
                (None, notes)
            },
            ResolvedScalarValue::Dictionary(d) => {
                let ghost source = d;
                let mut notes: Vec<ColumnarEngineDiagnostic> = Vec::new();
                let position: i64 = *index;
                let transform = |value: ValueOrRef| -> (outcome: Outcome)
                    ensures
                        outcome == index_outcome(*selector, position, value),
                    { select_index(selector, position, &value) };
                let next = d.transform_into_any(&transform, &mut notes);
                proof {
                    let added = choose|added: Seq<ColumnarEngineDiagnostic>|
                        {
                            &&& notes@ == Seq::<ColumnarEngineDiagnostic>::empty() + added
                            &&& #[trigger] source.transforms_into(transform, next, added)
                        };
                    assert(notes@ =~= added);
                    source.lemma_maps_into(
                        transform,
                        |value: ValueOrRef, outcome: Outcome|
                            outcome == index_outcome(*selector, *index, value),
                        next,
                        added,
                    );
                }
                (Some(ResolvedScalarValue::Dictionary(next)), notes)
            },
            ResolvedScalarValue::Single(value) => {
                let outcome = select_index(selector, *index, &value);
                let notes = outcome_notes(outcome.1);
                (Some(ResolvedScalarValue::Single(outcome.0)), notes)
            },
        },
        ResolvedScalarValue::Single(value) => {
            let mut notes: Vec<ColumnarEngineDiagnostic> = Vec::new();
            notes.push(
                new_warning(selector, DiagnosticMessage::SelectorOfType(value.get_value_type())),
            );
            assert(notes@ =~= seq![
                warning(*selector, DiagnosticMessage::SelectorOfType(value.value_type())),
            ]);
            (None, notes)
        },
        ResolvedScalarValue::Dictionary(keys) => {
            let data_type: KeyDataType = match key_data_type {
                Some(data_type) => data_type,
                None => keys.keys.data_type(),
            };
            let mut notes: Vec<ColumnarEngineDiagnostic> = Vec::new();
            let next = select_using_dictionary(
                records,
                data_type,
                &current,
                selector,
                keys,
                &mut notes,
            );
            assert(notes@ =~= crate::dictionary_values::notes_of(
                row_outcomes(records, current, *selector, *keys),
            ));
            (Some(ResolvedScalarValue::Dictionary(next)), notes)
        },
        ResolvedScalarValue::Table(_) => {
            let mut notes: Vec<ColumnarEngineDiagnostic> = Vec::new();
            notes.push(new_warning(selector, DiagnosticMessage::SelectorIsTable));
            assert(notes@ =~= seq![warning(*selector, DiagnosticMessage::SelectorIsTable)]);
            (None, notes)
        },
    }
}

}
