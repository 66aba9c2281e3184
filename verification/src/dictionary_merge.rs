//! Several dictionaries made into one, record by record.

use std::rc::Rc;

use vstd::prelude::*;

use crate::collections::{
    positions_map_get, positions_map_insert, positions_map_new, value_set_new, PositionsMap,
    ValueOrRefSet,
};
use crate::dictionary::Dictionary;
use crate::dictionary_keys::DictionaryKeyArrayBuilder;
use crate::dictionary_values::{lemma_notes_push, push_note, DictionaryValueArray};
use crate::interning::{insert_value, lemma_filled_push, lemma_filled_start};
use crate::value::ValueOrRef;

verus! {

/// The positions that record `i` has in the dictionaries.
pub open spec fn merge_positions(values: Seq<Dictionary>, i: int) -> Seq<Option<usize>> {
    Seq::new(values.len(), |d: int| values[d].keys.position_for(i as usize))
}

/// The values that record `i` has in the dictionaries; a null is a missing value.
pub open spec fn merge_input(values: Seq<Dictionary>, i: int) -> Seq<Option<ValueOrRef>> {
    Seq::new(
        values.len(),
        |d: int| crate::dictionary_values::non_null(values[d].row_for(i as usize)),
    )
}

/// What a merge function gives for the values of a record.
pub type MergeOutcome<N, E> = (Result<Option<ValueOrRef>, E>, Option<N>);

/// Whether the function may answer so.
pub open spec fn merge_answers<N, E, F: Fn(Vec<Option<ValueOrRef>>) -> MergeOutcome<N, E>>(
    merge: F,
    input: Seq<Option<ValueOrRef>>,
    outcome: MergeOutcome<N, E>,
) -> bool {
    exists|values: Vec<Option<ValueOrRef>>|
        values@ == input && #[trigger] call_ensures(merge, (values,), outcome)
}

/// The outcomes that the function may have, as a relation.
pub open spec fn answers_of<N, E, F: Fn(Vec<Option<ValueOrRef>>) -> MergeOutcome<N, E>>(
    merge: F,
) -> spec_fn(Seq<Option<ValueOrRef>>, MergeOutcome<N, E>) -> bool {
    |input: Seq<Option<ValueOrRef>>, outcome: MergeOutcome<N, E>|
        merge_answers(merge, input, outcome)
}

/// The calls that a merge made: the record that each was made for, what it gave, and the position where
/// that has gone.
pub struct MergeCalls<N, E> {
    pub rows: Seq<int>,
    pub outcomes: Seq<MergeOutcome<N, E>>,
    pub positions: Seq<Option<usize>>,
}

/// What is to be kept of an outcome.
pub open spec fn outcome_input<N, E>(outcome: MergeOutcome<N, E>) -> crate::interning::Input {
    match outcome.0 {
        Ok(Some(value)) => crate::interning::Input::Value(value),
        _ => crate::interning::Input::Nothing,
    }
}

/// What is to be kept of the outcomes.
pub open spec fn outcome_inputs<N, E>(outcomes: Seq<MergeOutcome<N, E>>) -> Seq<
    crate::interning::Input,
> {
    Seq::new(outcomes.len(), |k: int| outcome_input(outcomes[k]))
}

impl<N, E> MergeCalls<N, E> {
    /// Whether the first `count` records were merged by these calls, with outcomes that the relation
    /// allows. There is one call for each combination of positions, made for the first record that
    /// has it.
    pub open spec fn covers(
        self,
        relation: spec_fn(Seq<Option<ValueOrRef>>, MergeOutcome<N, E>) -> bool,
        values: Seq<Dictionary>,
        count: int,
    ) -> bool {
        &&& self.rows.len() == self.outcomes.len()
        &&& forall|k: int|
            0 <= k < self.rows.len() ==> 0 <= #[trigger] self.rows[k] < count && relation(
                merge_input(values, self.rows[k]),
                self.outcomes[k],
            )
        &&& forall|k: int, l: int|
            0 <= k < l < self.rows.len() ==> #[trigger] self.rows[k] < #[trigger] self.rows[l]
        &&& forall|k: int, i: int|
            0 <= k < self.rows.len() && 0 <= i < self.rows[k] ==> #[trigger] merge_positions(
                values,
                i,
            ) != merge_positions(values, #[trigger] self.rows[k])
        &&& forall|i: int| 0 <= i < count ==> #[trigger] self.has_call(values, i)
    }

    /// Whether there is a call for the positions of record `i`.
    pub open spec fn has_call(self, values: Seq<Dictionary>, i: int) -> bool {
        exists|k: int|
            0 <= k < self.rows.len() && merge_positions(values, #[trigger] self.rows[k])
                == merge_positions(values, i)
    }

    /// The call for the positions of record `i`.
    pub open spec fn call_for(self, values: Seq<Dictionary>, i: int) -> int {
        choose|k: int|
            0 <= k < self.rows.len() && merge_positions(values, #[trigger] self.rows[k])
                == merge_positions(values, i)
    }

    /// Whether what the calls gave is kept in the values: each outcome once, in the order of the calls.
    pub open spec fn kept_in(self, kept: Seq<ValueOrRef>) -> bool {
        crate::interning::filled(
            Seq::empty(),
            outcome_inputs(self.outcomes),
            self.positions,
            kept,
        )
    }

    /// The positions that the first `n` records lead to.
    pub open spec fn merged_keys(self, values: Seq<Dictionary>, n: int) -> Seq<Option<usize>> {
        Seq::new(n as nat, |i: int| self.positions[self.call_for(values, i)])
    }

    /// What record `i` becomes.
    pub open spec fn merged_row(self, values: Seq<Dictionary>, i: int) -> ValueOrRef {
        match self.outcomes[self.call_for(values, i)].0 {
            Ok(Some(value)) => value,
            _ => ValueOrRef::Null,
        }
    }
}

proof fn lemma_call_for_unique<N, E>(
    calls: MergeCalls<N, E>,
    relation: spec_fn(Seq<Option<ValueOrRef>>, MergeOutcome<N, E>) -> bool,
    values: Seq<Dictionary>,
    count: int,
    k: int,
    i: int,
)
    requires
        calls.covers(relation, values, count),
        0 <= k < calls.rows.len(),
        merge_positions(values, calls.rows[k]) == merge_positions(values, i),
    ensures
        calls.call_for(values, i) == k,
{
    let l = calls.call_for(values, i);
    assert(0 <= l < calls.rows.len() && merge_positions(values, calls.rows[l]) == merge_positions(
        values,
        i,
    ));
    if l < k {
        assert(calls.rows[l] < calls.rows[k]);
        assert(merge_positions(values, calls.rows[l]) != merge_positions(values, calls.rows[k]));
    } else if k < l {
        assert(calls.rows[k] < calls.rows[l]);
        assert(merge_positions(values, calls.rows[k]) != merge_positions(values, calls.rows[l]));
    }
}

/// Whether the visited positions are those of the calls, each with what was kept for its outcome.
spec fn visited_ok<N, E>(
    calls: MergeCalls<N, E>,
    values: Seq<Dictionary>,
    kept: Seq<ValueOrRef>,
    visited: PositionsMap,
) -> bool {
    &&& forall|positions: Seq<Option<usize>>|
        #[trigger] crate::collections::positions_entries(visited).contains_key(positions) ==> exists|
            k: int,
        |
            0 <= k < calls.rows.len() && merge_positions(values, #[trigger] calls.rows[k])
                == positions
    &&& forall|k: int|
        0 <= k < calls.rows.len() ==> {
            let positions = merge_positions(values, #[trigger] calls.rows[k]);
            &&& crate::collections::positions_entries(visited).contains_key(positions)
            &&& crate::collections::positions_entries(visited)[positions] == calls.positions[k]
            &&& calls.outcomes[k].0 matches Ok(value)
            &&& crate::dictionary::key_holds(
                kept,
                crate::collections::positions_entries(visited)[positions],
                match value {
                    Some(value) => value,
                    None => ValueOrRef::Null,
                },
            )
        }
}

/// Whether the calls lead to the result: a dictionary of what they gave, or the error of the last.
pub open spec fn merged_by<N, E>(
    relation: spec_fn(Seq<Option<ValueOrRef>>, MergeOutcome<N, E>) -> bool,
    values: Seq<Dictionary>,
    calls: MergeCalls<N, E>,
    result: Result<Dictionary, E>,
) -> bool {
    match result {
        Ok(merged) => {
            &&& merged.wf()
            &&& merged.keys.key_type() == values[0].keys.key_type()
            &&& merged.rows().len() == values[0].rows().len()
            &&& calls.covers(relation, values, values[0].rows().len() as int)
            &&& forall|k: int|
                0 <= k < calls.outcomes.len() ==> (#[trigger] calls.outcomes[k]).0 is Ok
            &&& calls.kept_in(merged.values.values())
            &&& merged.keys is KeyArray
            &&& merged.keys.positions() == calls.merged_keys(
                values,
                values[0].rows().len() as int,
            )
            &&& forall|i: int|
                0 <= i < merged.rows().len() ==> crate::dictionary::held_for(
                    #[trigger] merged.rows()[i],
                    calls.merged_row(values, i),
                )
        },
        Err(error) => {
            &&& calls.outcomes.len() > 0
            &&& calls.covers(relation, values, calls.rows.last() + 1)
            &&& calls.outcomes.last().0 == Err::<Option<ValueOrRef>, E>(error)
            &&& forall|k: int|
                0 <= k < calls.outcomes.len() - 1 ==> (#[trigger] calls.outcomes[k]).0 is Ok
        },
    }
}

/// What a merge gives is told by any relation that all the outcomes of its function obey.
pub proof fn lemma_merged_by<N, E>(
    first: spec_fn(Seq<Option<ValueOrRef>>, MergeOutcome<N, E>) -> bool,
    second: spec_fn(Seq<Option<ValueOrRef>>, MergeOutcome<N, E>) -> bool,
    values: Seq<Dictionary>,
    calls: MergeCalls<N, E>,
    result: Result<Dictionary, E>,
)
    requires
        merged_by(first, values, calls, result),
        forall|input: Seq<Option<ValueOrRef>>, outcome: MergeOutcome<N, E>|
            #[trigger] first(input, outcome) ==> second(input, outcome),
    ensures
        merged_by(second, values, calls, result),
{
    assert forall|k: int| 0 <= k < calls.rows.len() implies second(
        merge_input(values, #[trigger] calls.rows[k]),
        calls.outcomes[k],
    ) by {
        assert(first(merge_input(values, calls.rows[k]), calls.outcomes[k]));
    }
}

/// Merges the dictionaries: each record becomes what the function makes of its values. The function
/// is called once for each combination of positions; the first error that it gives ends the merge.
/// Adds the notes of the calls.
pub fn merge<N, E, F: Fn(Vec<Option<ValueOrRef>>) -> MergeOutcome<N, E>>(
    values: &Vec<Dictionary>,
    combine: &F,
    notes: &mut Vec<N>,
) -> (r: Result<Dictionary, E>)
    requires
        values@.len() > 0,
        forall|input: Vec<Option<ValueOrRef>>| call_requires(combine, (input,)),
    ensures
        exists|calls: MergeCalls<N, E>| {
            &&& #[trigger] merged_by(answers_of(*combine), values@, calls, r)
            &&& final(notes)@ == old(notes)@ + crate::dictionary_values::notes_of(calls.outcomes)
        },
{
    let key_count: usize = values[0].len();
    let mut visited_values: PositionsMap = positions_map_new();
    let mut merged_values: ValueOrRefSet = value_set_new();
    let mut builder = DictionaryKeyArrayBuilder::new(values[0].keys.data_type(), key_count);
    let ghost mut calls = MergeCalls::<N, E> {
        rows: Seq::empty(),
        outcomes: Seq::empty(),
        positions: Seq::empty(),
    };
    proof {
        assert(outcome_inputs(calls.outcomes) =~= Seq::empty());
        lemma_filled_start(Seq::empty());
    }
    let mut i: usize = 0;
    while i < key_count
        invariant
            values@.len() > 0,
            forall|input: Vec<Option<ValueOrRef>>| call_requires(combine, (input,)),
            i <= key_count == values@[0].rows().len(),
            builder.wf(),
            builder.key_type() == values@[0].keys.key_type(),
            builder.keys().len() == key_count,
            forall|j: int| i <= j < key_count ==> #[trigger] builder.keys()[j] is Some,
            calls.covers(answers_of(*combine), values@, i as int),
            notes@ == old(notes)@ + crate::dictionary_values::notes_of(calls.outcomes),
            forall|k: int| 0 <= k < calls.outcomes.len() ==> (#[trigger] calls.outcomes[k]).0 is Ok,
            visited_ok(
                calls,
                values@,
                crate::collections::set_values(merged_values),
                visited_values,
            ),
            calls.kept_in(crate::collections::set_values(merged_values)),
            forall|j: int|
                0 <= j < i ==> #[trigger] builder.keys()[j] == calls.positions[calls.call_for(
                    values@,
                    j,
                )],
            forall|j: int|
                0 <= j < i ==> crate::dictionary::key_holds(
                    crate::collections::set_values(merged_values),
                    #[trigger] builder.keys()[j],
                    calls.merged_row(values@, j),
                ),
        decreases key_count - i,
    {
        let ghost calls_before = calls;
        let ghost keys_before = builder.keys();
        let mut value_indices: Vec<Option<usize>> = Vec::new();
        let mut d: usize = 0;
        while d < values.len()
            invariant
                d <= values@.len(),
                value_indices@ == merge_positions(values@, i as int).subrange(0, d as int),
            decreases values@.len() - d,
        {
            value_indices.push(values[d].get_value_index(i));
            d = d + 1;
            assert(value_indices@ =~= merge_positions(values@, i as int).subrange(0, d as int));
        }
        assert(value_indices@ =~= merge_positions(values@, i as int));
        let position: Option<usize> = match positions_map_get(&visited_values, &value_indices) {
            Some(position) => {
                proof {
                    let k = choose|k: int|
                        0 <= k < calls.rows.len() && merge_positions(
                            values@,
                            #[trigger] calls.rows[k],
                        ) == value_indices@;
                    assert(calls.has_call(values@, i as int));
                    assert(calls.covers(answers_of(*combine), values@, i + 1));
                    lemma_call_for_unique(calls, answers_of(*combine), values@, i + 1, k, i as int);
                }
                position
            },
            None => {
                let mut input: Vec<Option<ValueOrRef>> = Vec::new();
                let mut d: usize = 0;
                while d < values.len()
                    invariant
                        d <= values@.len(),
                        value_indices@ == merge_positions(values@, i as int),
                        input@ == merge_input(values@, i as int).subrange(0, d as int),
                    decreases values@.len() - d,
                {
                    let value = match value_indices[d] {
                        Some(position) => values[d].values.get_value_at(position),
                        None => ValueOrRef::Null,
                    };
                    if value.is_null() {
                        input.push(None);
                    } else {
                        input.push(Some(value));
                    }
                    d = d + 1;
                    assert(input@ =~= merge_input(values@, i as int).subrange(0, d as int));
                }
                assert(input@ =~= merge_input(values@, i as int));
                let ghost input_values = input;
                let outcome = combine(input);
                proof {
                    assert(call_ensures(*combine, (input_values,), outcome));
                    assert(merge_answers(*combine, merge_input(values@, i as int), outcome));
                    lemma_notes_push(calls.outcomes, outcome);
                    calls =
                    MergeCalls {
                        rows: calls.rows.push(i as int),
                        outcomes: calls.outcomes.push(outcome),
                        positions: calls.positions,
                    };
                    assert forall|j: int| 0 <= j < i + 1 implies #[trigger] calls.has_call(
                        values@,
                        j,
                    ) by {
                        if j < i {
                            assert(calls_before.has_call(values@, j));
                            let k = choose|k: int|
                                0 <= k < calls_before.rows.len() && merge_positions(
                                    values@,
                                    #[trigger] calls_before.rows[k],
                                ) == merge_positions(values@, j);
                            assert(calls.rows[k] == calls_before.rows[k]);
                        } else {
                            assert(calls.rows[calls.rows.len() - 1] == i);
                        }
                    }
                    assert forall|k: int, j: int|
                        0 <= k < calls.rows.len() && 0 <= j
                            < calls.rows[k] implies #[trigger] merge_positions(values@, j)
                        != merge_positions(values@, #[trigger] calls.rows[k]) by {
                        if k == calls.rows.len() - 1 {
                            assert(calls_before.has_call(values@, j));
                            let l = choose|l: int|
                                0 <= l < calls_before.rows.len() && merge_positions(
                                    values@,
                                    #[trigger] calls_before.rows[l],
                                ) == merge_positions(values@, j);
                        } else {
                            assert(calls.rows[k] == calls_before.rows[k]);
                        }
                    }
                    assert(calls.covers(answers_of(*combine), values@, i + 1));
                }
                let ghost given = outcome;
                let ghost kept_before = crate::collections::set_values(merged_values);
                push_note(notes, outcome.1);
                let position: Option<usize> = match outcome.0 {
                    Ok(Some(value)) => {
                        let position: usize = insert_value(&mut merged_values, value);
                        Some(position)
                    },
                    Ok(None) => None,
                    Err(error) => {
                        assert(merged_by(answers_of(*combine), values@, calls, Err(error)));
                        return Err(error);
                    },
                };
                positions_map_insert(&mut visited_values, value_indices, position);
                proof {
                    lemma_filled_push(
                        Seq::empty(),
                        outcome_inputs(calls_before.outcomes),
                        calls_before.positions,
                        kept_before,
                        outcome_input(given),
                        position,
                        crate::collections::set_values(merged_values),
                    );
                    let called = calls;
                    calls =
                    MergeCalls {
                        rows: calls.rows,
                        outcomes: calls.outcomes,
                        positions: calls.positions.push(position),
                    };
                    assert(outcome_inputs(calls_before.outcomes).push(outcome_input(given))
                        =~= outcome_inputs(calls.outcomes));
                    assert forall|j: int| 0 <= j < i + 1 implies #[trigger] calls.has_call(
                        values@,
                        j,
                    ) by {
                        assert(called.has_call(values@, j));
                        let k = choose|k: int|
                            0 <= k < called.rows.len() && merge_positions(
                                values@,
                                #[trigger] called.rows[k],
                            ) == merge_positions(values@, j);
                        assert(calls.rows[k] == called.rows[k]);
                    }
                    assert(calls.covers(answers_of(*combine), values@, i + 1));
                    assert(calls.rows[calls.rows.len() - 1] == i);
                    lemma_call_for_unique(
                        calls,
                        answers_of(*combine),
                        values@,
                        i + 1,
                        calls.rows.len() - 1,
                        i as int,
                    );
                    assert forall|positions: Seq<Option<usize>>|
                        #[trigger] crate::collections::positions_entries(
                            visited_values,
                        ).contains_key(positions) implies exists|k: int|
                        0 <= k < calls.rows.len() && merge_positions(
                            values@,
                            #[trigger] calls.rows[k],
                        ) == positions by {
                        if positions != merge_positions(values@, i as int) {
                            let k = choose|k: int|
                                0 <= k < calls_before.rows.len() && merge_positions(
                                    values@,
                                    #[trigger] calls_before.rows[k],
                                ) == positions;
                            assert(calls.rows[k] == calls_before.rows[k]);
                        }
                    }
                    assert forall|k: int| 0 <= k < calls.rows.len() implies {
                        let positions = merge_positions(values@, #[trigger] calls.rows[k]);
                        &&& crate::collections::positions_entries(visited_values).contains_key(
                            positions,
                        )
                        &&& crate::collections::positions_entries(visited_values)[positions]
                            == calls.positions[k]
                        &&& calls.outcomes[k].0 matches Ok(value)
                        &&& crate::dictionary::key_holds(
                            crate::collections::set_values(merged_values),
                            crate::collections::positions_entries(visited_values)[positions],
                            match value {
                                Some(value) => value,
                                None => ValueOrRef::Null,
                            },
                        )
                    } by {
                        if k < calls_before.rows.len() {
                            assert(calls.rows[k] == calls_before.rows[k]);
                        }
                    }
                }
                position
            },
        };
        match position {
            Some(position) => {
                builder.set_value_index_unchecked(i, position);
            },
            None => {
                builder.set_null_unchecked(i);
            },
        }
        proof {
            assert(builder.keys()[i as int] == position);
            assert forall|j: int| 0 <= j < i + 1 implies #[trigger] builder.keys()[j]
                == calls.positions[calls.call_for(values@, j)] && crate::dictionary::key_holds(
                crate::collections::set_values(merged_values),
                builder.keys()[j],
                calls.merged_row(values@, j),
            ) by {
                if j < i {
                    assert(builder.keys()[j] == keys_before[j]);
                    assert(calls_before.has_call(values@, j));
                    let k = calls_before.call_for(values@, j);
                    assert(0 <= k < calls_before.rows.len() && merge_positions(
                        values@,
                        calls_before.rows[k],
                    ) == merge_positions(values@, j));
                    assert(calls.rows[k] == calls_before.rows[k]);
                    lemma_call_for_unique(calls, answers_of(*combine), values@, i + 1, k, j);
                }
            }
        }
        i = i + 1;
    }
    let ghost keys = builder.keys();
    let merged = Dictionary::new(
        builder.finish(),
        DictionaryValueArray::SetValues(Rc::new(merged_values)),
    );
    proof {
        assert(merged.keys.positions().len() == keys.len());
        assert forall|j: int| 0 <= j < merged.keys.spec_len() implies (
        #[trigger] merged.keys.position(j) matches Some(position) ==> position
            < merged.values.values().len()) by {
            assert(merged.keys.positions()[j] == keys[j]);
        }
        assert forall|j: int| 0 <= j < merged.rows().len() implies crate::dictionary::held_for(
            #[trigger] merged.rows()[j],
            calls.merged_row(values@, j),
        ) by {
            assert(merged.keys.positions()[j] == keys[j]);
        }
        assert(merged.keys.positions() =~= calls.merged_keys(values@, key_count as int));
        assert(merged_by(answers_of(*combine), values@, calls, Ok(merged)));
    }
    Ok(merged)
}

}
