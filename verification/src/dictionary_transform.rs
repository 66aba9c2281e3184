//! Functions applied to the values of a dictionary. A value is put to the function once, however
//! many records have it.

use std::rc::Rc;

use arrow::array::BooleanArray;
use vstd::prelude::*;

use crate::boolean_array::{boolean_array_to_values, iter_into_boolean_array};
use crate::dictionary::Dictionary;
use crate::dictionary_keys::{DictionaryKeyArray, DictionaryKeyArrayBuilder};
use crate::dictionary_values::{lemma_notes_push, push_note, DictionaryValueArray};
use crate::interning::{apply_lookup, insert_value, IndexLookup};
use crate::value::ValueOrRef;

verus! {

/// The calls that a transformation made: one for each input in turn, and a last one for null if a
/// record asked for it.
pub struct TransformCalls<T, N> {
    pub outcomes: Seq<(T, Option<N>)>,
    pub late: Option<(T, Option<N>)>,
}

impl<T, N> TransformCalls<T, N> {
    /// The notes that the calls gave.
    pub open spec fn notes(self) -> Seq<N> {
        crate::dictionary_values::notes_of(self.outcomes) + match self.late {
            Some(outcome) => crate::dictionary_values::notes_of(seq![outcome]),
            None => Seq::empty(),
        }
    }
}

/// Where the outcomes of a transformation have gone: which values have been kept of those for the
/// values, where each of these has gone, and where that of the last call has.
pub struct TransformLayout {
    pub kept: Seq<ValueOrRef>,
    pub lookup: IndexLookup,
    pub late: Option<usize>,
}

/// Whether the function may have answered the calls so.
pub open spec fn calls_of<T, N, F: Fn(ValueOrRef) -> (T, Option<N>)>(
    transform: F,
    inputs: Seq<ValueOrRef>,
    calls: TransformCalls<T, N>,
) -> bool {
    &&& crate::dictionary_values::outcomes_of(transform, inputs, calls.outcomes)
    &&& calls.late matches Some(outcome) ==> call_ensures(transform, (ValueOrRef::Null,), outcome)
}

impl Dictionary {
    /// Whether record `i` takes what the function makes of null in the last call: it has no value,
    /// or its value and null itself were made null.
    pub open spec fn takes_late<N>(
        self,
        outcomes: Seq<(ValueOrRef, Option<N>)>,
        i: int,
    ) -> bool {
        match self.keys.position(i) {
            Some(position) => outcomes[position + 1].0 is Null && outcomes[0].0 is Null,
            None => true,
        }
    }

    /// What record `i` becomes. The outcomes are those for null and then for each value; a value that
    /// is made null becomes what null is made.
    pub open spec fn transformed_row<N>(self, calls: TransformCalls<ValueOrRef, N>, i: int) -> ValueOrRef {
        if self.takes_late(calls.outcomes, i) {
            (calls.late->0).0
        } else if calls.outcomes[self.keys.position(i)->0 + 1].0 is Null {
            calls.outcomes[0].0
        } else {
            calls.outcomes[self.keys.position(i)->0 + 1].0
        }
    }

    /// The position that record `i` leads to.
    pub open spec fn transformed_key<N>(
        self,
        outcomes: Seq<(ValueOrRef, Option<N>)>,
        layout: TransformLayout,
        i: int,
    ) -> Option<usize> {
        if self.takes_late(outcomes, i) {
            layout.late
        } else {
            crate::interning::lookup_position(layout.lookup, self.keys.position(i)->0)
        }
    }

    /// Whether the result holds each outcome once, in the order of the values that they are for, then
    /// that of the last call; and its keys lead where these have gone.
    pub open spec fn laid_out<N>(
        self,
        calls: TransformCalls<ValueOrRef, N>,
        layout: TransformLayout,
        result: Dictionary,
    ) -> bool {
        &&& crate::interning::interning(
            crate::dictionary_values::outcome_values(calls.outcomes.skip(1)),
            crate::dictionary_values::non_null(calls.outcomes[0].0),
            layout.kept,
            layout.lookup,
        )
        &&& if calls.late is None || (calls.late->0).0 is Null {
            &&& layout.late is None
            &&& result.values.values() == layout.kept
        } else {
            &&& layout.late matches Some(position)
            &&& crate::interning::inserted(
                layout.kept,
                (calls.late->0).0,
                position,
                result.values.values(),
            )
        }
        &&& result.keys is KeyArray
        &&& result.keys.positions() == Seq::new(
            self.keys.spec_len(),
            |i: int| self.transformed_key(calls.outcomes, layout, i),
        )
    }

    /// Whether the calls turn the dictionary into the result.
    pub open spec fn transformed<N>(
        self,
        calls: TransformCalls<ValueOrRef, N>,
        result: Dictionary,
    ) -> bool {
        let rows = result.rows();
        &&& exists|layout: TransformLayout| #[trigger] self.laid_out(calls, layout, result)
        &&& rows.len() == self.rows().len()
        &&& calls.late is Some == (exists|i: int|
            0 <= i < self.rows().len() && #[trigger] self.takes_late(calls.outcomes, i))
        &&& forall|i: int|
            0 <= i < rows.len() ==> crate::dictionary::held_for(
                #[trigger] rows[i],
                self.transformed_row(calls, i),
            )
    }

    /// Whether the function, applied to the values, gives the dictionary `result` and adds these
    /// notes. A dictionary in which no record has a value, and that says so by its keys, is left as it
    /// is; one with a single value for all records takes one call.
    pub open spec fn transforms_into<N, F: Fn(ValueOrRef) -> (ValueOrRef, Option<N>)>(
        self,
        transform: F,
        result: Dictionary,
        added: Seq<N>,
    ) -> bool {
        &&& result.wf()
        &&& result.keys.key_type() == self.keys.key_type()
        &&& result.rows().len() == self.rows().len()
        &&& match self.keys {
            DictionaryKeyArray::SingleValue { value_index: None, .. } => result == self && added
                == Seq::<N>::empty(),
            DictionaryKeyArray::SingleValue { value_index: Some(position), .. } => exists|
                outcome: (ValueOrRef, Option<N>),
            | {
                &&& #[trigger] call_ensures(transform, (self.values.value_at(position),), outcome)
                &&& result.rows() == Seq::new(self.rows().len(), |i: int| outcome.0)
                &&& result.is_scalar(self.keys.key_type(), self.rows().len(), outcome.0)
                &&& added == crate::dictionary_values::notes_of(seq![outcome])
            },
            _ => exists|calls: TransformCalls<ValueOrRef, N>| {
                &&& #[trigger] calls_of(
                    transform,
                    crate::dictionary_values::null_first(self.values.values()),
                    calls,
                )
                &&& self.transformed(calls, result)
                &&& added == calls.notes()
            },
        }
    }

    /// Applies the function to the values and adds the notes that it gives.
    pub fn transform_into_any<N, F: Fn(ValueOrRef) -> (ValueOrRef, Option<N>)>(
        self,
        transform: &F,
        notes: &mut Vec<N>,
    ) -> (r: Dictionary)
        requires
            self.wf(),
            forall|value: ValueOrRef| call_requires(transform, (value,)),
        ensures
            exists|added: Seq<N>|
                {
                    &&& final(notes)@ == old(notes)@ + added
                    &&& #[trigger] self.transforms_into(*transform, r, added)
                },
    {
        if let DictionaryKeyArray::SingleValue { data_type, length, value_index } = &self.keys {
            return match value_index {
                None => {
                    assert(notes@ =~= notes@ + Seq::<N>::empty());
                    assert(self.transforms_into(*transform, self, Seq::<N>::empty()));
                    self
                },
                Some(position) => {
                    let outcome = transform(self.values.get_value_at(*position));
                    let ghost result = outcome;
                    proof {
                        lemma_notes_push(Seq::<(ValueOrRef, Option<N>)>::empty(), result);
                        assert(seq![result] =~= Seq::<(ValueOrRef, Option<N>)>::empty().push(result));
                        assert(call_ensures(*transform, (self.values.value_at(*position),), result));
                    }
                    push_note(notes, outcome.1);
                    if outcome.0.is_null() {
                        let r = Dictionary::new_null_with_data_type(*length, *data_type);
                        assert(r.rows() =~= Seq::new(self.rows().len(), |i: int| result.0));
                        assert(self.transforms_into(
                            *transform,
                            r,
                            crate::dictionary_values::notes_of(seq![result]),
                        ));
                        r
                    } else {
                        let r = Dictionary::new_scalar_with_data_type(
                            *data_type,
                            *length,
                            outcome.0,
                        );
                        assert(r.rows() =~= Seq::new(self.rows().len(), |i: int| result.0));
                        assert(self.transforms_into(
                            *transform,
                            r,
                            crate::dictionary_values::notes_of(seq![result]),
                        ));
                        r
                    }
                },
            };
        }
        let key_length: usize = self.keys.len();
        let ghost start = notes@;
        let (values, lookup) = self.values.transform_into_set(transform, notes);
        let mut values = values;
        let ghost outcomes = choose|outcomes: Seq<(ValueOrRef, Option<N>)>| {
            &&& #[trigger] crate::dictionary_values::outcomes_of(
                *transform,
                crate::dictionary_values::null_first(self.values.values()),
                outcomes,
            )
            &&& crate::interning::interning(
                crate::dictionary_values::outcome_values(outcomes.skip(1)),
                crate::dictionary_values::non_null(outcomes[0].0),
                crate::collections::set_values(values),
                lookup,
            )
            &&& notes@ == start + crate::dictionary_values::notes_of(outcomes)
        };
        let ghost interned_values = crate::collections::set_values(values);
        let mut builder = DictionaryKeyArrayBuilder::new(self.keys.data_type(), key_length);
        let ghost mut calls = TransformCalls::<ValueOrRef, N> { outcomes, late: None };
        let ghost mut layout = TransformLayout { kept: interned_values, lookup, late: None };
        // The position of what null becomes, once a record has asked for it.
        let mut null_position: Option<Option<usize>> = None;
        let mut i: usize = 0;
        while i < key_length
            invariant
                self.wf(),
                forall|value: ValueOrRef| call_requires(transform, (value,)),
                i <= key_length == self.keys.spec_len(),
                builder.wf(),
                builder.key_type() == self.keys.key_type(),
                builder.keys().len() == key_length,
                forall|j: int| i <= j < key_length ==> #[trigger] builder.keys()[j] is Some,
                calls.outcomes == outcomes,
                calls_of(
                    *transform,
                    crate::dictionary_values::null_first(self.values.values()),
                    calls,
                ),
                crate::interning::interning(
                    crate::dictionary_values::outcome_values(outcomes.skip(1)),
                    crate::dictionary_values::non_null(outcomes[0].0),
                    interned_values,
                    lookup,
                ),
                interned_values.is_prefix_of(crate::collections::set_values(values)),
                notes@ == start + calls.notes(),
                null_position is Some == calls.late is Some,
                null_position matches Some(position) ==> crate::dictionary::key_holds(
                    crate::collections::set_values(values),
                    position,
                    (calls.late->0).0,
                ),
                null_position == (if calls.late is Some {
                    Some(layout.late)
                } else {
                    None
                }),
                layout.kept == interned_values,
                layout.lookup == lookup,
                if calls.late is None || (calls.late->0).0 is Null {
                    &&& layout.late is None
                    &&& crate::collections::set_values(values) == interned_values
                } else {
                    &&& layout.late matches Some(position)
                    &&& crate::interning::inserted(
                        interned_values,
                        (calls.late->0).0,
                        position,
                        crate::collections::set_values(values),
                    )
                },
                forall|j: int|
                    0 <= j < i ==> #[trigger] builder.keys()[j] == self.transformed_key(
                        outcomes,
                        layout,
                        j,
                    ),
                calls.late is Some == (exists|j: int|
                    0 <= j < i && #[trigger] self.takes_late(outcomes, j)),
                forall|j: int|
                    0 <= j < i ==> crate::dictionary::key_holds(
                        crate::collections::set_values(values),
                        #[trigger] builder.keys()[j],
                        self.transformed_row(calls, j),
                    ),
            decreases key_length - i,
        {
            let ghost before = crate::collections::set_values(values);
            let ghost calls_before = calls;
            let ghost keys_before = builder.keys();
            let found: Option<usize> = match self.keys.get_value_index_for_key_index(i) {
                Some(position) => {
                    proof {
                        assert(self.keys.position(i as int) == Some(position));
                        assert(crate::interning::interned_at(
                            crate::dictionary_values::outcome_values(outcomes.skip(1)),
                            crate::dictionary_values::non_null(outcomes[0].0),
                            interned_values,
                            lookup,
                            position as int,
                        ));
                        assert(outcomes.skip(1)[position as int] == outcomes[position + 1]);
                    }
                    apply_lookup(&lookup, position)
                },
                None => None,
            };
            let position: Option<usize> = match found {
                Some(position) => Some(position),
                None => {
                    assert(self.takes_late(outcomes, i as int));
                    match null_position {
                        Some(position) => position,
                        None => {
                            let outcome = transform(ValueOrRef::Null);
                            proof {
                                lemma_notes_push(Seq::<(ValueOrRef, Option<N>)>::empty(), outcome);
                                assert(seq![outcome] =~= Seq::<(ValueOrRef, Option<N>)>::empty().push(
                                    outcome,
                                ));
                                calls = TransformCalls { outcomes, late: Some(outcome) };
                            }
                            push_note(notes, outcome.1);
                            assert(notes@ =~= start + calls.notes());
                            let position: Option<usize> = if outcome.0.is_null() {
                                None
                            } else {
                                let position: usize = insert_value(&mut values, outcome.0);
                                Some(position)
                            };
                            proof {
                                layout =
                                TransformLayout { kept: interned_values, lookup, late: position };
                            }
                            null_position = Some(position);
                            position
                        },
                    }
                },
            };
            match position {
                Some(position) => {
                    builder.set_value_index_unchecked(i, position);
                },
                None => {
                    builder.set_null_unchecked(i);
                },
            }
            proof {
                assert(builder.keys()[i as int] == position);
                assert(self.takes_late(outcomes, i as int) == found is None);
                assert forall|j: int| 0 <= j < i + 1 implies #[trigger] builder.keys()[j]
                    == self.transformed_key(outcomes, layout, j) by {
                    if j < i {
                        assert(builder.keys()[j] == keys_before[j]);
                        assert(self.takes_late(outcomes, j) ==> calls_before.late is Some);
                    }
                }
                assert forall|j: int| 0 <= j < i + 1 implies crate::dictionary::key_holds(
                    crate::collections::set_values(values),
                    #[trigger] builder.keys()[j],
                    self.transformed_row(calls, j),
                ) by {
                    if j < i {
                        assert(crate::dictionary::key_holds(
                            before,
                            keys_before[j],
                            self.transformed_row(calls_before, j),
                        ));
                    }
                }
            }
            i = i + 1;
        }
        let ghost keys = builder.keys();
        let r = Dictionary::new(builder.finish(), DictionaryValueArray::SetValues(Rc::new(values)));
        proof {
            assert forall|j: int| 0 <= j < r.keys.spec_len() implies (#[trigger] r.keys.position(
                j,
            ) matches Some(position) ==> position < r.values.values().len()) by {
                assert(r.keys.positions()[j] == keys[j]);
            }
            assert forall|j: int| 0 <= j < r.rows().len() implies crate::dictionary::held_for(
                #[trigger] r.rows()[j],
                self.transformed_row(calls, j),
            ) by {
                assert(r.keys.positions()[j] == keys[j]);
            }
            assert(r.keys.positions().len() == keys.len());
            assert(r.keys.positions() =~= Seq::new(
                self.keys.spec_len(),
                |j: int| self.transformed_key(calls.outcomes, layout, j),
            ));
            assert(self.laid_out(calls, layout, r));
            assert(self.transformed(calls, r));
            assert(self.transforms_into(*transform, r, calls.notes()));
        }
        r
    }
}

/// Whether each outcome of the calls is one that the relation allows for its input.
pub open spec fn calls_related<N>(
    relation: spec_fn(ValueOrRef, (ValueOrRef, Option<N>)) -> bool,
    inputs: Seq<ValueOrRef>,
    calls: TransformCalls<ValueOrRef, N>,
) -> bool {
    &&& calls.outcomes.len() == inputs.len()
    &&& forall|i: int| 0 <= i < inputs.len() ==> relation(inputs[i], #[trigger] calls.outcomes[i])
    &&& calls.late matches Some(outcome) ==> relation(ValueOrRef::Null, outcome)
}

impl Dictionary {
    /// Whether a function whose outcomes the relation tells, applied to the values, gives the
    /// dictionary `result` and adds these notes.
    pub open spec fn maps_into<N>(
        self,
        relation: spec_fn(ValueOrRef, (ValueOrRef, Option<N>)) -> bool,
        result: Dictionary,
        added: Seq<N>,
    ) -> bool {
        &&& result.wf()
        &&& result.keys.key_type() == self.keys.key_type()
        &&& result.rows().len() == self.rows().len()
        &&& match self.keys {
            DictionaryKeyArray::SingleValue { value_index: None, .. } => result == self && added
                == Seq::<N>::empty(),
            DictionaryKeyArray::SingleValue { value_index: Some(position), .. } => exists|
                outcome: (ValueOrRef, Option<N>),
            | {
                &&& #[trigger] relation(self.values.value_at(position), outcome)
                &&& result.rows() == Seq::new(self.rows().len(), |i: int| outcome.0)
                &&& result.is_scalar(self.keys.key_type(), self.rows().len(), outcome.0)
                &&& added == crate::dictionary_values::notes_of(seq![outcome])
            },
            _ => exists|calls: TransformCalls<ValueOrRef, N>| {
                &&& #[trigger] calls_related(
                    relation,
                    crate::dictionary_values::null_first(self.values.values()),
                    calls,
                )
                &&& self.transformed(calls, result)
                &&& added == calls.notes()
            },
        }
    }

    /// What a function makes of a dictionary is told by a relation that all its outcomes obey.
    pub proof fn lemma_maps_into<N, F: Fn(ValueOrRef) -> (ValueOrRef, Option<N>)>(
        self,
        transform: F,
        relation: spec_fn(ValueOrRef, (ValueOrRef, Option<N>)) -> bool,
        result: Dictionary,
        added: Seq<N>,
    )
        requires
            self.transforms_into(transform, result, added),
            forall|value: ValueOrRef, outcome: (ValueOrRef, Option<N>)|
                #[trigger] call_ensures(transform, (value,), outcome) ==> relation(value, outcome),
        ensures
            self.maps_into(relation, result, added),
    {
        match self.keys {
            DictionaryKeyArray::SingleValue { value_index: None, .. } => {},
            DictionaryKeyArray::SingleValue { value_index: Some(position), .. } => {
                let outcome = choose|outcome: (ValueOrRef, Option<N>)| {
                    &&& #[trigger] call_ensures(
                        transform,
                        (self.values.value_at(position),),
                        outcome,
                    )
                    &&& result.rows() == Seq::new(self.rows().len(), |i: int| outcome.0)
                    &&& result.is_scalar(self.keys.key_type(), self.rows().len(), outcome.0)
                    &&& added == crate::dictionary_values::notes_of(seq![outcome])
                };
                assert(relation(self.values.value_at(position), outcome));
            },
            _ => {
                let inputs = crate::dictionary_values::null_first(self.values.values());
                let calls = choose|calls: TransformCalls<ValueOrRef, N>| {
                    &&& #[trigger] calls_of(transform, inputs, calls)
                    &&& self.transformed(calls, result)
                    &&& added == calls.notes()
                };
                assert forall|i: int| 0 <= i < inputs.len() implies relation(
                    inputs[i],
                    #[trigger] calls.outcomes[i],
                ) by {
                    assert(call_ensures(transform, (inputs[i],), calls.outcomes[i]));
                }
                assert(calls_related(relation, inputs, calls));
            },
        }
    }
}

/// Whether each outcome of the calls is one that the relation allows for its input.
pub open spec fn boolean_calls_related<N>(
    relation: spec_fn(ValueOrRef, (Option<bool>, Option<N>)) -> bool,
    inputs: Seq<ValueOrRef>,
    calls: TransformCalls<Option<bool>, N>,
) -> bool {
    &&& calls.outcomes.len() == inputs.len()
    &&& forall|i: int| 0 <= i < inputs.len() ==> relation(inputs[i], #[trigger] calls.outcomes[i])
    &&& calls.late matches Some(outcome) ==> relation(ValueOrRef::Null, outcome)
}

/// The outcomes that the function may have, as a relation.
pub open spec fn boolean_answers_of<N, F: Fn(ValueOrRef) -> (Option<bool>, Option<N>)>(
    transform: F,
) -> spec_fn(ValueOrRef, (Option<bool>, Option<N>)) -> bool {
    |value: ValueOrRef, outcome: (Option<bool>, Option<N>)|
        call_ensures(transform, (value,), outcome)
}

impl Dictionary {
    /// What record `i` becomes. The outcomes are those for each value; a record without a value takes
    /// what null becomes.
    pub open spec fn boolean_row<N>(self, calls: TransformCalls<Option<bool>, N>, i: int) -> Option<
        bool,
    > {
        match self.keys.position(i) {
            Some(position) => calls.outcomes[position as int].0,
            None => (calls.late->0).0,
        }
    }

    /// Whether a function whose outcomes the relation tells, applied to the values, gives these
    /// entries and adds these notes. A boolean column is taken as it is. A dictionary in which no
    /// record has a value, and that says so by its keys, has no entry for any; one with a single value
    /// for all records takes one call.
    pub open spec fn booleans_into<N>(
        self,
        relation: spec_fn(ValueOrRef, (Option<bool>, Option<N>)) -> bool,
        entries: Seq<Option<bool>>,
        added: Seq<N>,
    ) -> bool {
        match self.keys {
            DictionaryKeyArray::BooleanArray { values, .. } => {
                &&& entries == crate::boolean_array::boolean_values(*values)
                &&& added == Seq::<N>::empty()
            },
            DictionaryKeyArray::SingleValue { value_index: None, .. } => {
                &&& entries == Seq::new(self.rows().len(), |i: int| None::<bool>)
                &&& added == Seq::<N>::empty()
            },
            DictionaryKeyArray::SingleValue { value_index: Some(position), .. } => exists|
                outcome: (Option<bool>, Option<N>),
            | {
                &&& #[trigger] relation(self.values.value_at(position), outcome)
                &&& entries == Seq::new(self.rows().len(), |i: int| outcome.0)
                &&& added == crate::dictionary_values::notes_of(seq![outcome])
            },
            _ => exists|calls: TransformCalls<Option<bool>, N>| {
                &&& #[trigger] boolean_calls_related(relation, self.values.values(), calls)
                &&& calls.late is Some == (exists|i: int|
                    0 <= i < self.rows().len() && #[trigger] self.keys.position(i) is None)
                &&& entries == Seq::new(self.rows().len(), |i: int| self.boolean_row(calls, i))
                &&& added == calls.notes()
            },
        }
    }

    /// What a function makes of a dictionary is told by any relation that all its outcomes obey.
    pub proof fn lemma_booleans_into<N>(
        self,
        first: spec_fn(ValueOrRef, (Option<bool>, Option<N>)) -> bool,
        second: spec_fn(ValueOrRef, (Option<bool>, Option<N>)) -> bool,
        entries: Seq<Option<bool>>,
        added: Seq<N>,
    )
        requires
            self.booleans_into(first, entries, added),
            forall|value: ValueOrRef, outcome: (Option<bool>, Option<N>)|
                #[trigger] first(value, outcome) ==> second(value, outcome),
        ensures
            self.booleans_into(second, entries, added),
    {
        match self.keys {
            DictionaryKeyArray::BooleanArray { .. } => {},
            DictionaryKeyArray::SingleValue { value_index: None, .. } => {},
            DictionaryKeyArray::SingleValue { value_index: Some(position), .. } => {
                let outcome = choose|outcome: (Option<bool>, Option<N>)| {
                    &&& #[trigger] first(self.values.value_at(position), outcome)
                    &&& entries == Seq::new(self.rows().len(), |i: int| outcome.0)
                    &&& added == crate::dictionary_values::notes_of(seq![outcome])
                };
                assert(second(self.values.value_at(position), outcome));
            },
            _ => {
                let inputs = self.values.values();
                let calls = choose|calls: TransformCalls<Option<bool>, N>| {
                    &&& #[trigger] boolean_calls_related(first, inputs, calls)
                    &&& calls.late is Some == (exists|i: int|
                        0 <= i < self.rows().len() && #[trigger] self.keys.position(i) is None)
                    &&& entries == Seq::new(self.rows().len(), |i: int| self.boolean_row(calls, i))
                    &&& added == calls.notes()
                };
                assert forall|i: int| 0 <= i < inputs.len() implies second(
                    inputs[i],
                    #[trigger] calls.outcomes[i],
                ) by {
                    assert(first(inputs[i], calls.outcomes[i]));
                }
                assert(boolean_calls_related(second, inputs, calls));
            },
        }
    }

    /// Applies the function to the values and adds the notes that it gives.
    pub fn transform_into_boolean<N, F: Fn(ValueOrRef) -> (Option<bool>, Option<N>)>(
        &self,
        transform: &F,
        notes: &mut Vec<N>,
    ) -> (r: BooleanArray)
        requires
            self.wf(),
            forall|value: ValueOrRef| call_requires(transform, (value,)),
        ensures
            crate::boolean_array::boolean_values(r).len() == self.rows().len(),
            exists|added: Seq<N>| {
                &&& final(notes)@ == old(notes)@ + added
                &&& #[trigger] self.booleans_into(
                    boolean_answers_of(*transform),
                    crate::boolean_array::boolean_values(r),
                    added,
                )
            },
    {
        let key_length: usize = self.keys.len();
        match &self.keys {
            DictionaryKeyArray::BooleanArray { values, .. } => {
                let r = iter_into_boolean_array(&boolean_array_to_values(values));
                assert(notes@ =~= notes@ + Seq::<N>::empty());
                assert(self.booleans_into(
                    boolean_answers_of(*transform),
                    crate::boolean_array::boolean_values(r),
                    Seq::<N>::empty(),
                ));
                return r;
            },
            DictionaryKeyArray::SingleValue { value_index, .. } => {
                let mut entries: Vec<Option<bool>> = Vec::new();
                match value_index {
                    None => {
                        entries.resize(key_length, None);
                        assert(entries@ =~= Seq::new(self.rows().len(), |i: int| None::<bool>));
                        assert(notes@ =~= notes@ + Seq::<N>::empty());
                        assert(self.booleans_into(
                            boolean_answers_of(*transform),
                            entries@,
                            Seq::<N>::empty(),
                        ));
                        return iter_into_boolean_array(&entries);
                    },
                    Some(position) => {
                        let outcome = transform(self.values.get_value_at(*position));
                        proof {
                            lemma_notes_push(Seq::<(Option<bool>, Option<N>)>::empty(), outcome);
                            assert(seq![outcome] =~= Seq::<(Option<bool>, Option<N>)>::empty().push(
                                outcome,
                            ));
                            assert(boolean_answers_of(*transform)(
                                self.values.value_at(*position),
                                outcome,
                            ));
                        }
                        push_note(notes, outcome.1);
                        entries.resize(key_length, outcome.0);
                        assert(entries@ =~= Seq::new(self.rows().len(), |i: int| outcome.0));
                        assert(self.booleans_into(
                            boolean_answers_of(*transform),
                            entries@,
                            crate::dictionary_values::notes_of(seq![outcome]),
                        ));
                        return iter_into_boolean_array(&entries);
                    },
                }
            },
            _ => {},
        }
        let ghost start = notes@;
        let length: usize = self.values.len();
        let mut transformed: Vec<Option<bool>> = Vec::new();
        let ghost mut outcomes: Seq<(Option<bool>, Option<N>)> = Seq::empty();
        let mut v: usize = 0;
        while v < length
            invariant
                forall|value: ValueOrRef| call_requires(transform, (value,)),
                v <= length == self.values.values().len(),
                outcomes.len() == v == transformed@.len(),
                forall|j: int|
                    0 <= j < v ==> call_ensures(
                        *transform,
                        (self.values.values()[j],),
                        #[trigger] outcomes[j],
                    ),
                forall|j: int| 0 <= j < v ==> #[trigger] transformed@[j] == outcomes[j].0,
                notes@ == start + crate::dictionary_values::notes_of(outcomes),
            decreases length - v,
        {
            let outcome = transform(self.values.get_value_at(v));
            proof {
                lemma_notes_push(outcomes, outcome);
                outcomes = outcomes.push(outcome);
            }
            push_note(notes, outcome.1);
            transformed.push(outcome.0);
            v = v + 1;
        }
        let ghost mut calls = TransformCalls::<Option<bool>, N> { outcomes, late: None };
        let mut null_value: Option<Option<bool>> = None;
        let mut entries: Vec<Option<bool>> = Vec::new();
        assert(notes@ =~= start + calls.notes());
        let mut i: usize = 0;
        while i < key_length
            invariant
                self.wf(),
                forall|value: ValueOrRef| call_requires(transform, (value,)),
                i <= key_length == self.keys.spec_len(),
                calls_of(*transform, self.values.values(), calls),
                calls.outcomes.len() == transformed@.len(),
                forall|j: int|
                    0 <= j < transformed@.len() ==> #[trigger] transformed@[j]
                        == calls.outcomes[j].0,
                notes@ == start + calls.notes(),
                null_value is Some == calls.late is Some,
                null_value matches Some(value) ==> value == (calls.late->0).0,
                calls.late is Some == (exists|j: int|
                    0 <= j < i && #[trigger] self.keys.position(j) is None),
                entries@.len() == i,
                forall|j: int| 0 <= j < i ==> #[trigger] entries@[j] == self.boolean_row(calls, j),
            decreases key_length - i,
        {
            let ghost calls_before = calls;
            let ghost entries_before = entries@;
            let entry: Option<bool> = match self.keys.get_value_index_for_key_index(i) {
                Some(position) => {
                    assert(self.keys.position(i as int) == Some(position));
                    transformed[position]
                },
                None => match null_value {
                    Some(value) => value,
                    None => {
                        let outcome = transform(ValueOrRef::Null);
                        proof {
                            lemma_notes_push(Seq::<(Option<bool>, Option<N>)>::empty(), outcome);
                            assert(seq![outcome] =~= Seq::<(Option<bool>, Option<N>)>::empty().push(
                                outcome,
                            ));
                            calls = TransformCalls { outcomes: calls.outcomes, late: Some(outcome) };
                        }
                        push_note(notes, outcome.1);
                        assert(notes@ =~= start + calls.notes());
                        null_value = Some(outcome.0);
                        outcome.0
                    },
                },
            };
            entries.push(entry);
            proof {
                assert forall|j: int| 0 <= j < i + 1 implies #[trigger] entries@[j]
                    == self.boolean_row(calls, j) by {
                    if j < i {
                        assert(entries_before[j] == self.boolean_row(calls_before, j));
                        assert(self.keys.position(j) is None ==> calls_before.late is Some);
                    }
                }
                assert(self.keys.position(i as int) is None ==> calls.late is Some);
            }
            i = i + 1;
        }
        let r = iter_into_boolean_array(&entries);
        proof {
            assert(entries@ =~= Seq::new(self.rows().len(), |j: int| self.boolean_row(calls, j)));
            assert(boolean_calls_related(
                boolean_answers_of(*transform),
                self.values.values(),
                calls,
            ));
            assert(self.booleans_into(boolean_answers_of(*transform), entries@, calls.notes()));
        }
        r
    }
}

}
