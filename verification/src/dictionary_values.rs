//! The values of a dictionary.

use std::rc::Rc;

use vstd::prelude::*;

use crate::collections::{
    value_set_clone, value_set_get_index, value_set_insert_full, value_set_len, value_set_new,
    ValueOrRefSet,
};
use crate::column_array::{get_value_from_array, ColumnArray};
use crate::interning::{iter_into_set, IndexLookup};
use crate::value::{values_equal, ValueOrRef};

verus! {

/// The values that the keys of a dictionary lead to.
pub enum DictionaryValueArray {
    /// A column.
    Array(Rc<ColumnArray>),
    /// A list of values.
    Vec(Rc<Vec<ValueOrRef>>),
    /// Distinct values.
    SetValues(Rc<ValueOrRefSet>),
    /// The values false and true.
    Boolean,
}

/// The value, unless it is null.
pub open spec fn non_null(value: ValueOrRef) -> Option<ValueOrRef> {
    if value is Null {
        None
    } else {
        Some(value)
    }
}

/// The notes that a list of outcomes carries, in order.
pub open spec fn notes_of<T, N>(outcomes: Seq<(T, Option<N>)>) -> Seq<N>
    decreases outcomes.len(),
{
    if outcomes.len() == 0 {
        Seq::empty()
    } else {
        match outcomes.last().1 {
            Some(note) => notes_of(outcomes.drop_last()).push(note),
            None => notes_of(outcomes.drop_last()),
        }
    }
}

/// Whether each outcome is one that the function may give for the input at its place.
pub open spec fn outcomes_of<T, N, F: Fn(ValueOrRef) -> (T, Option<N>)>(
    transform: F,
    inputs: Seq<ValueOrRef>,
    outcomes: Seq<(T, Option<N>)>,
) -> bool {
    &&& outcomes.len() == inputs.len()
    &&& forall|i: int|
        0 <= i < inputs.len() ==> call_ensures(transform, (inputs[i],), #[trigger] outcomes[i])
}

/// Null, and then the values.
pub open spec fn null_first(values: Seq<ValueOrRef>) -> Seq<ValueOrRef> {
    seq![ValueOrRef::Null] + values
}

/// The outcomes as interning takes them: a null is a missing value.
pub open spec fn outcome_values<N>(outcomes: Seq<(ValueOrRef, Option<N>)>) -> Seq<
    Option<ValueOrRef>,
> {
    Seq::new(outcomes.len(), |i: int| non_null(outcomes[i].0))
}

/// Adds the note of an outcome, if it has one.
pub(crate) fn push_note<N>(notes: &mut Vec<N>, note: Option<N>)
    ensures
        final(notes)@ == (match note {
            Some(n) => old(notes)@.push(n),
            None => old(notes)@,
        }),
{
    match note {
        Some(note) => {
            notes.push(note);
        },
        None => {},
    }
}

pub(crate) proof fn lemma_notes_push<T, N>(outcomes: Seq<(T, Option<N>)>, outcome: (T, Option<N>))
    ensures
        notes_of(outcomes.push(outcome)) == (match outcome.1 {
            Some(note) => notes_of(outcomes).push(note),
            None => notes_of(outcomes),
        }),
{
    assert(outcomes.push(outcome).drop_last() =~= outcomes);
}

impl DictionaryValueArray {
    /// The values, in order.
    pub open spec fn values(self) -> Seq<ValueOrRef> {
        match self {
            DictionaryValueArray::Array(a) => Seq::new(a.spec_len(), |i: int| a.value(i)),
            DictionaryValueArray::Vec(a) => a@,
            DictionaryValueArray::SetValues(a) => crate::collections::set_values(*a),
            DictionaryValueArray::Boolean => seq![
                ValueOrRef::Boolean(false),
                ValueOrRef::Boolean(true),
            ],
        }
    }

    /// The value at a position: null past the end, but true at every position past the first of the
    /// two booleans.
    pub open spec fn value_at(self, index: usize) -> ValueOrRef {
        if self is Boolean {
            ValueOrRef::Boolean(index != 0)
        } else if index < self.values().len() {
            self.values()[index as int]
        } else {
            ValueOrRef::Null
        }
    }

    /// The number of values.
    pub fn len(&self) -> (r: usize)
        ensures
            r == self.values().len(),
    {
        match self {
            DictionaryValueArray::Array(a) => a.len(),
            DictionaryValueArray::Vec(a) => a.len(),
            DictionaryValueArray::SetValues(a) => value_set_len(a),
            DictionaryValueArray::Boolean => 2,
        }
    }

    /// Whether there is no value.
    pub fn is_empty(&self) -> (r: bool)
        ensures
            r == (self.values().len() == 0),
    {
        self.len() == 0
    }

    /// The value at a position.
    pub fn get_value_at(&self, index: usize) -> (r: ValueOrRef)
        ensures
            r == self.value_at(index),
            index < self.values().len() ==> r == self.values()[index as int],
    {
        match self {
            DictionaryValueArray::Array(a) => get_value_from_array(a, index),
            DictionaryValueArray::Vec(a) => {
                if index < a.len() {
                    a[index].clone()
                } else {
                    ValueOrRef::Null
                }
            },
            DictionaryValueArray::SetValues(a) => match value_set_get_index(a, index) {
                Some(value) => value.clone(),
                None => ValueOrRef::Null,
            },
            DictionaryValueArray::Boolean => ValueOrRef::Boolean(index != 0),
        }
    }

    /// Whether every value is null.
    pub fn is_null(&self) -> (r: bool)
        ensures
            r == (forall|i: int| 0 <= i < self.values().len() ==> #[trigger] self.values()[i] is Null),
    {
        let length: usize = self.len();
        let mut i: usize = 0;
        while i < length
            invariant
                i <= length == self.values().len(),
                forall|j: int| 0 <= j < i ==> #[trigger] self.values()[j] is Null,
            decreases length - i,
        {
            if !self.get_value_at(i).is_null() {
                assert(!(self.values()[i as int] is Null));
                return false;
            }
            i = i + 1;
        }
        true
    }

    /// Which values are not null, if some are.
    pub fn nulls(&self) -> (r: Option<Vec<bool>>)
        ensures
            r is Some == (exists|i: int|
                0 <= i < self.values().len() && #[trigger] self.values()[i] is Null),
            r matches Some(valid) ==> valid@ == Seq::new(
                self.values().len(),
                |i: int| !(self.values()[i] is Null),
            ),
    {
        let length: usize = self.len();
        let mut valid: Vec<bool> = Vec::new();
        let mut has_null: bool = false;
        let mut i: usize = 0;
        while i < length
            invariant
                i <= length == self.values().len(),
                valid@ == Seq::new(i as nat, |j: int| !(self.values()[j] is Null)),
                has_null == (exists|j: int| 0 <= j < i && #[trigger] self.values()[j] is Null),
            decreases length - i,
        {
            let is_null: bool = self.get_value_at(i).is_null();
            if is_null {
                has_null = true;
                assert(self.values()[i as int] is Null);
            }
            valid.push(!is_null);
            i = i + 1;
        }
        if has_null {
            Some(valid)
        } else {
            None
        }
    }

    /// Interns the values, leaving nulls out. The values of a set are taken as they are.
    pub fn into_set(self) -> (r: (ValueOrRefSet, IndexLookup))
        ensures
            match self {
                DictionaryValueArray::SetValues(set) => crate::collections::set_values(r.0)
                    == self.values() && r.1 is None,
                DictionaryValueArray::Boolean => crate::collections::set_values(r.0)
                    == self.values() && r.1 is None,
                _ => crate::interning::interning(
                    Seq::new(self.values().len(), |i: int| non_null(self.values()[i])),
                    None,
                    crate::collections::set_values(r.0),
                    r.1,
                ),
            },
    {
        match self {
            DictionaryValueArray::SetValues(set) => (value_set_clone(&set), None),
            DictionaryValueArray::Boolean => {
                let mut set: ValueOrRefSet = value_set_new();
                let _ = value_set_insert_full(&mut set, ValueOrRef::Boolean(false));
                let _ = value_set_insert_full(&mut set, ValueOrRef::Boolean(true));
                assert(crate::collections::set_values(set) =~= seq![
                    ValueOrRef::Boolean(false),
                    ValueOrRef::Boolean(true),
                ]);
                (set, None)
            },
            _ => {
                let length: usize = self.len();
                let mut values: Vec<Option<ValueOrRef>> = Vec::new();
                let mut i: usize = 0;
                while i < length
                    invariant
                        i <= length == self.values().len(),
                        values@ == Seq::new(i as nat, |j: int| non_null(self.values()[j])),
                    decreases length - i,
                {
                    let value = self.get_value_at(i);
                    if value.is_null() {
                        values.push(None);
                    } else {
                        values.push(Some(value));
                    }
                    i = i + 1;
                }
                iter_into_set(values, None)
            },
        }
    }

    /// Interns what the function makes of the values. A null that it makes is taken for what it makes
    /// of null, if that is not null; else it goes nowhere. Adds the notes that it gives: first that
    /// for null, and then that for each value.
    pub fn transform_into_set<N, F: Fn(ValueOrRef) -> (ValueOrRef, Option<N>)>(
        &self,
        transform: &F,
        notes: &mut Vec<N>,
    ) -> (r: (ValueOrRefSet, IndexLookup))
        requires
            forall|value: ValueOrRef| call_requires(transform, (value,)),
        ensures
            exists|outcomes: Seq<(ValueOrRef, Option<N>)>| {
                &&& #[trigger] outcomes_of(*transform, null_first(self.values()), outcomes)
                &&& crate::interning::interning(
                    outcome_values(outcomes.skip(1)),
                    non_null(outcomes[0].0),
                    crate::collections::set_values(r.0),
                    r.1,
                )
                &&& final(notes)@ == old(notes)@ + notes_of(outcomes)
            },
    {
        let null_outcome = transform(ValueOrRef::Null);
        let ghost mut outcomes: Seq<(ValueOrRef, Option<N>)> = seq![null_outcome];
        let ghost start = notes@;
        proof {
            lemma_notes_push(Seq::<(ValueOrRef, Option<N>)>::empty(), null_outcome);
            assert(outcomes =~= Seq::<(ValueOrRef, Option<N>)>::empty().push(null_outcome));
        }
        push_note(notes, null_outcome.1);
        let null_value: Option<ValueOrRef> = if null_outcome.0.is_null() {
            None
        } else {
            Some(null_outcome.0)
        };
        let length: usize = self.len();
        let mut values: Vec<Option<ValueOrRef>> = Vec::new();
        let mut i: usize = 0;
        while i < length
            invariant
                i <= length == self.values().len(),
                forall|value: ValueOrRef| call_requires(transform, (value,)),
                outcomes.len() == i + 1,
                null_value == non_null(outcomes[0].0),
                forall|j: int|
                    0 <= j <= i ==> call_ensures(
                        *transform,
                        (null_first(self.values())[j],),
                        #[trigger] outcomes[j],
                    ),
                values@ == outcome_values(outcomes.skip(1)),
                notes@ == start + notes_of(outcomes),
            decreases length - i,
        {
            let outcome = transform(self.get_value_at(i));
            let ghost before = outcomes;
            proof {
                lemma_notes_push(outcomes, outcome);
                outcomes = outcomes.push(outcome);
                assert(outcomes.skip(1) =~= before.skip(1).push(outcome));
                assert(null_first(self.values())[i + 1] == self.values()[i as int]);
            }
            push_note(notes, outcome.1);
            if outcome.0.is_null() {
                values.push(None);
            } else {
                values.push(Some(outcome.0));
            }
            i = i + 1;
            assert(values@ =~= outcome_values(outcomes.skip(1)));
        }
        assert(outcomes_of(*transform, null_first(self.values()), outcomes));
        iter_into_set(values, null_value)
    }
}

impl Clone for DictionaryValueArray {
    fn clone(&self) -> (copy: Self)
        ensures
            copy == *self,
    {
        match self {
            DictionaryValueArray::Array(a) => DictionaryValueArray::Array(a.clone()),
            DictionaryValueArray::Vec(a) => DictionaryValueArray::Vec(a.clone()),
            DictionaryValueArray::SetValues(a) => DictionaryValueArray::SetValues(a.clone()),
            DictionaryValueArray::Boolean => DictionaryValueArray::Boolean,
        }
    }
}

impl DictionaryValueArray {
    /// Whether the two have equal values in the same order.
    pub open spec fn alike(self, other: Self) -> bool {
        &&& self.values().len() == other.values().len()
        &&& forall|i: int|
            0 <= i < self.values().len() ==> crate::value::value_eq(
                #[trigger] self.values()[i],
                other.values()[i],
            )
    }

    /// Whether the two have equal values in the same order.
    pub fn is_like(&self, other: &Self) -> (r: bool)
        ensures
            r == self.alike(*other),
    {
        let length: usize = self.len();
        if length != other.len() {
            return false;
        }
        let mut i: usize = 0;
        while i < length
            invariant
                i <= length == self.values().len() == other.values().len(),
                forall|j: int|
                    0 <= j < i ==> crate::value::value_eq(
                        #[trigger] self.values()[j],
                        other.values()[j],
                    ),
            decreases length - i,
        {
            if !values_equal(&self.get_value_at(i), &other.get_value_at(i)) {
                assert(!crate::value::value_eq(self.values()[i as int], other.values()[i as int]));
                return false;
            }
            i = i + 1;
        }
        true
    }
}

impl PartialEq for DictionaryValueArray {
    fn eq(&self, other: &Self) -> (r: bool) {
        self.is_like(other)
    }
}

impl vstd::std_specs::cmp::PartialEqSpecImpl for DictionaryValueArray {
    open spec fn obeys_eq_spec() -> bool {
        true
    }

    open spec fn eq_spec(&self, other: &Self) -> bool {
        self.alike(*other)
    }
}

}
