//! Writing values deep inside the values of records.

use std::rc::Rc;

use roaring::RoaringBitmap;
use vstd::prelude::*;

use crate::collections::{
    positions_map_get, positions_map_insert, positions_map_new, value_set_get_index, value_set_new,
    PositionsMap, ValueOrRefSet,
};
use crate::columnar_records::ColumnarEngineSelectionPath;
use crate::dictionary::Dictionary;
use crate::dictionary_keys::{DictionaryKeyArray, KeyDataType};
use crate::dictionary_values::{push_note, DictionaryValueArray};
use crate::engine_diagnostic::{ColumnarEngineDiagnostic, DiagnosticMessage};
use crate::expressions::ExpressionInfo;
use crate::interning::{apply_lookup, insert_value, IndexLookup};
use crate::row_bitmap::bitmap_contains;
use crate::selection::{new_warning, Outcome};
use crate::value::{
    copy_values, ArrayForm, ArrayValueOrRef, MapValueOrRef, OwnedMapValue, ValueOrRef,
};

verus! {

/// A step into a value: the expression that it comes from, and the key or index that it means for
/// one record.
pub type Step = (ExpressionInfo, ValueOrRef);

/// What a part of a path means for a record.
pub open spec fn step_for(part: ColumnarEngineSelectionPath, record: usize) -> Step {
    match part {
        ColumnarEngineSelectionPath::Key { expression, key } => (
            expression,
            ValueOrRef::String(key),
        ),
        ColumnarEngineSelectionPath::Index { expression, index } => (
            expression,
            ValueOrRef::Integer(index),
        ),
        ColumnarEngineSelectionPath::Dictionary { expression, values } => (
            expression,
            values.row_for(record),
        ),
    }
}

/// What a path, from `depth` on, means for a record.
pub open spec fn steps_for(
    path: Seq<ColumnarEngineSelectionPath>,
    depth: int,
    record: usize,
) -> Seq<Step> {
    Seq::new((path.len() - depth) as nat, |k: int| step_for(path[depth + k], record))
}

/// What a part of a path means for a record.
pub fn resolve_step(part: &ColumnarEngineSelectionPath, record: usize) -> (r: Step)
    ensures
        r == step_for(*part, record),
{
    match part {
        ColumnarEngineSelectionPath::Key { expression, key } => (
            expression.clone(),
            ValueOrRef::String(key.clone()),
        ),
        ColumnarEngineSelectionPath::Index { expression, index } => (
            expression.clone(),
            ValueOrRef::Integer(*index),
        ),
        ColumnarEngineSelectionPath::Dictionary { expression, values } => (
            expression.clone(),
            values.get_value(record),
        ),
    }
}

/// Whether `outcome` is a value after `value` has been written into it at the end of the steps.
///
/// A step by a key goes into a map, one by an index into a list of values, each of them owned; any other
/// leaves the value as it is, with a warning.
pub open spec fn value_updated(
    before: ValueOrRef,
    steps: Seq<Step>,
    value: ValueOrRef,
    outcome: Outcome,
) -> bool
    decreases steps.len(), 1nat,
{
    let (expression, selector) = steps[0];
    if steps.len() == 0 {
        false
    } else {
        match selector {
            ValueOrRef::String(key) => match before {
                ValueOrRef::MapValue(MapValueOrRef { owned: true, map }) => {
                    &&& outcome.0 matches ValueOrRef::MapValue(after)
                    &&& after.owned
                    &&& map_updated(
                        map.contents(),
                        key@,
                        steps.drop_first(),
                        value,
                        after.map.contents(),
                        outcome.1,
                    )
                },
                _ => outcome == (
                    before,
                    Some(
                        crate::selection::warning(
                            expression,
                            DiagnosticMessage::KeyIntoType { key, value_type: before.value_type() },
                        ),
                    ),
                ),
            },
            ValueOrRef::Integer(index) => match before {
                ValueOrRef::Array(ArrayValueOrRef::List(ArrayForm::Owned, array)) => {
                    &&& outcome.0 matches ValueOrRef::Array(ArrayValueOrRef::List(form, after))
                    &&& form is Owned
                    &&& array_updated(
                        expression,
                        array@,
                        index,
                        steps.drop_first(),
                        value,
                        after@,
                        outcome.1,
                    )
                },
                _ => outcome == (
                    before,
                    Some(
                        crate::selection::warning(
                            expression,
                            DiagnosticMessage::IndexIntoType {
                                index,
                                value_type: before.value_type(),
                            },
                        ),
                    ),
                ),
            },
            _ => outcome == (
                before,
                Some(
                    crate::selection::warning(
                        expression,
                        DiagnosticMessage::SelectorOfType(selector.value_type()),
                    ),
                ),
            ),
        }
    }
}

/// Whether `after` is a map after `value` has been written at the end of the steps from the entry
/// for a key.
///
/// Without further steps the entry is put in, or taken away if the value is null. With them, an
/// entry that is missing stays so.
pub open spec fn map_updated(
    before: Map<Seq<char>, ValueOrRef>,
    key: Seq<char>,
    steps: Seq<Step>,
    value: ValueOrRef,
    after: Map<Seq<char>, ValueOrRef>,
    note: Option<ColumnarEngineDiagnostic>,
) -> bool
    decreases steps.len(), 2nat,
{
    if steps.len() == 0 {
        &&& note is None
        &&& after == (if value is Null {
            before.remove(key)
        } else {
            before.insert(key, value)
        })
    } else if before.contains_key(key) {
        &&& after.contains_key(key)
        &&& after == before.insert(key, after[key])
        &&& value_updated(before[key], steps, value, (after[key], note))
    } else {
        &&& note is None
        &&& after == before
    }
}

/// Whether `after` is a list after `value` has been written at the end of the steps from an index.
///
/// An index past the ends leaves the list as it is, with a warning. A negative one counts from the
/// end.
pub open spec fn array_updated(
    expression: ExpressionInfo,
    before: Seq<ValueOrRef>,
    index: i64,
    steps: Seq<Step>,
    value: ValueOrRef,
    after: Seq<ValueOrRef>,
    note: Option<ColumnarEngineDiagnostic>,
) -> bool
    decreases steps.len(), 2nat,
{
    let position = crate::selection::array_position(index, before.len());
    if position < 0 || position >= before.len() {
        &&& after == before
        &&& note == Some(
            crate::selection::warning(
                expression,
                DiagnosticMessage::IndexInvalid(position as i64),
            ),
        )
    } else if steps.len() == 0 {
        &&& note is None
        &&& after == before.update(position, value)
    } else {
        &&& after.len() == before.len()
        &&& after == before.update(position, after[position])
        &&& value_updated(before[position], steps, value, (after[position], note))
    }
}

/// Writes into a map.
pub fn update_map_value_for_path(
    record: usize,
    map: &mut OwnedMapValue,
    current_key: &Rc<String>,
    path: &Vec<ColumnarEngineSelectionPath>,
    depth: usize,
    value: &ValueOrRef,
) -> (note: Option<ColumnarEngineDiagnostic>)
    requires
        depth <= path@.len(),
    ensures
        map_updated(
            old(map).contents(),
            current_key@,
            steps_for(path@, depth as int, record),
            *value,
            final(map).contents(),
            note,
        ),
    decreases path@.len() - depth, 2nat,
{
    let ghost before = *map;
    if depth < path.len() {
        let found: Option<ValueOrRef> = match map.get(current_key.as_str()) {
            Some(entry) => Some(entry.clone()),
            None => None,
        };
        match found {
            Some(entry) => {
                let (after, note) = update_any_value_for_path(record, &entry, path, depth, value);
                map.insert(current_key, after);
                proof {
                    assert(before.contents().contains_key(current_key@));
                    assert(before.contents()[current_key@] == entry);
                    assert(map.contents() =~= before.contents().insert(current_key@, after));
                }
                note
            },
            None => {
                assert(!before.contents().contains_key(current_key@));
                None
            },
        }
    } else {
        if value.is_null() {
            map.remove(current_key.as_str());
        } else {
            map.insert(current_key, value.clone());
        }
        None
    }
}

/// Writes into a list.
pub fn update_array_value_for_path(
    expression: &ExpressionInfo,
    record: usize,
    array: &mut Vec<ValueOrRef>,
    current_index: i64,
    path: &Vec<ColumnarEngineSelectionPath>,
    depth: usize,
    value: &ValueOrRef,
) -> (note: Option<ColumnarEngineDiagnostic>)
    requires
        depth <= path@.len(),
    ensures
        array_updated(
            *expression,
            old(array)@,
            current_index,
            steps_for(path@, depth as int, record),
            *value,
            final(array)@,
            note,
        ),
    decreases path@.len() - depth, 2nat,
{
    let length: usize = array.len();
    let position: i128 = if current_index < 0 {
        current_index as i128 + length as i128
    } else {
        current_index as i128
    };
    if position < 0 || position >= length as i128 {
        return Some(
            new_warning(expression, DiagnosticMessage::IndexInvalid(position as i64)),
        );
    }
    let position: usize = position as usize;
    if depth < path.len() {
        let entry = array[position].clone();
        let (after, note) = update_any_value_for_path(record, &entry, path, depth, value);
        array.set(position, after);
        note
    } else {
        array.set(position, value.clone());
        None
    }
}

/// Writes into a value.
pub fn update_any_value_for_path(
    record: usize,
    any_value: &ValueOrRef,
    path: &Vec<ColumnarEngineSelectionPath>,
    depth: usize,
    value: &ValueOrRef,
) -> (outcome: Outcome)
    requires
        depth < path@.len(),
    ensures
        value_updated(*any_value, steps_for(path@, depth as int, record), *value, outcome),
    decreases path@.len() - depth, 1nat,
{
    let length: usize = path.len();
    assert(depth < length);
    let next: usize = depth + 1;
    let (expression, selector) = resolve_step(&path[depth], record);
    let ghost steps = steps_for(path@, depth as int, record);
    proof {
        assert(steps[0] == (expression, selector));
        assert(steps.drop_first() =~= steps_for(path@, depth + 1, record));
    }
    match &selector {
        ValueOrRef::String(key) => match any_value {
            ValueOrRef::MapValue(MapValueOrRef { owned: true, map }) => {
                let mut inner: OwnedMapValue = (**map).clone();
                proof {
                    lemma_same_contents(&inner, &**map);
                }
                let note = update_map_value_for_path(
                    record,
                    &mut inner,
                    key,
                    path,
                    next,
                    value,
                );
                (ValueOrRef::MapValue(MapValueOrRef::new_owned(inner)), note)
            },
            _ => (
                any_value.clone(),
                Some(
                    new_warning(
                        &expression,
                        DiagnosticMessage::KeyIntoType {
                            key: key.clone(),
                            value_type: any_value.get_value_type(),
                        },
                    ),
                ),
            ),
        },
        ValueOrRef::Integer(index) => match any_value {
            ValueOrRef::Array(ArrayValueOrRef::List(ArrayForm::Owned, array)) => {
                let mut inner: Vec<ValueOrRef> = copy_values(array);
                let note = update_array_value_for_path(
                    &expression,
                    record,
                    &mut inner,
                    *index,
                    path,
                    next,
                    value,
                );
                (ValueOrRef::Array(ArrayValueOrRef::List(ArrayForm::Owned, Rc::new(inner))), note)
            },
            _ => (
                any_value.clone(),
                Some(
                    new_warning(
                        &expression,
                        DiagnosticMessage::IndexIntoType {
                            index: *index,
                            value_type: any_value.get_value_type(),
                        },
                    ),
                ),
            ),
        },
        _ => (
            any_value.clone(),
            Some(
                new_warning(
                    &expression,
                    DiagnosticMessage::SelectorOfType(selector.get_value_type()),
                ),
            ),
        ),
    }
}

proof fn lemma_same_contents(left: &OwnedMapValue, right: &OwnedMapValue)
    requires
        left.entries() == right.entries(),
    ensures
        left.contents() == right.contents(),
{
    assert forall|key: Seq<char>| left.has_key(key) == right.has_key(key) by {}
    assert forall|key: Seq<char>| left.position(key) == right.position(key) by {}
    assert(left.contents() =~= right.contents());
}

/// The records for which a new value was made, in order, each with what came of it.
pub ghost struct PathCalls {
    pub records: Seq<int>,
    pub outcomes: Seq<Outcome>,
}

/// Whether two values are told apart by nothing that a set of values looks at.
pub open spec fn alike(left: ValueOrRef, right: ValueOrRef) -> bool {
    exists|kept: ValueOrRef|
        #[trigger] crate::dictionary::held_for(kept, left) && crate::dictionary::held_for(
            kept,
            right,
        )
}

/// What is asked of a write of values into those of records.
pub ghost struct PathRequest {
    pub source: Dictionary,
    pub path: Seq<ColumnarEngineSelectionPath>,
    pub depth: int,
    pub values: Dictionary,
}

impl PathRequest {
    /// Whether record `i` gets a new value.
    pub open spec fn changes(self, key_filter: Option<&RoaringBitmap>, i: int) -> bool {
        &&& 0 <= i < self.source.rows().len()
        &&& !(self.source.rows()[i] is Null)
        &&& Dictionary::selected(key_filter, i)
    }

    /// The key or index that the path starts with for record `i`.
    pub open spec fn selector(self, i: int) -> ValueOrRef {
        step_for(self.path[self.depth], i as usize).1
    }

    /// Whether `outcome` is what comes of writing into the value of record `i`.
    pub open spec fn makes(self, i: int, outcome: Outcome) -> bool {
        exists|before: ValueOrRef|
            #[trigger] crate::dictionary::held_for(before, self.source.rows()[i]) && value_updated(
                before,
                steps_for(self.path, self.depth, i as usize),
                self.values.row_for(i as usize),
                outcome,
            )
    }

    /// Whether the value that was made for record `j` serves record `i` as well: the two have the
    /// same value and start with the same key or index.
    pub open spec fn serves(self, j: int, i: int) -> bool {
        &&& j <= i
        &&& alike(self.source.rows()[j], self.source.rows()[i])
        &&& j == i || alike(self.selector(j), self.selector(i))
    }
}

impl PathCalls {
    /// Whether the calls are those of a request.
    pub open spec fn answer(
        self,
        request: PathRequest,
        key_filter: Option<&RoaringBitmap>,
    ) -> bool {
        &&& self.records.len() == self.outcomes.len()
        &&& forall|k: int|
            0 <= k < self.records.len() ==> request.changes(key_filter, #[trigger] self.records[k])
                && request.makes(self.records[k], self.outcomes[k])
        &&& forall|j: int, k: int|
            0 <= j < k < self.records.len() ==> self.records[j] < self.records[k]
    }

    /// Whether `row` is the value of record `i` afterwards: what was made for the record that it
    /// shares its value and its key or index with, or the value it had.
    pub open spec fn row(
        self,
        request: PathRequest,
        key_filter: Option<&RoaringBitmap>,
        i: int,
        row: ValueOrRef,
    ) -> bool {
        if request.changes(key_filter, i) {
            exists|k: int|
                0 <= k < self.records.len() && #[trigger] request.serves(self.records[k], i)
                    && crate::dictionary::held_for(row, self.outcomes[k].0)
        } else {
            crate::dictionary::held_for(row, request.source.rows()[i])
        }
    }

    /// Whether the key leads to the value of record `i`.
    spec fn key_leads(
        self,
        request: PathRequest,
        key_filter: Option<&RoaringBitmap>,
        i: int,
        key: Option<usize>,
        kept: Seq<ValueOrRef>,
    ) -> bool {
        match key {
            None => request.source.rows()[i] is Null,
            Some(p) => p < kept.len() && self.row(request, key_filter, i, kept[p as int]),
        }
    }

    /// Whether the entry leads to what was made for a record with the value and the selector.
    spec fn remembers(
        self,
        request: PathRequest,
        key: Seq<Option<usize>>,
        entry: Option<usize>,
        selectors: Seq<ValueOrRef>,
        sources: Seq<Option<usize>>,
        kept: Seq<ValueOrRef>,
    ) -> bool {
        &&& key.len() == 2
        &&& key[0] matches Some(selector)
        &&& selector < selectors.len()
        &&& entry matches Some(p)
        &&& p < kept.len()
        &&& exists|k: int|
            0 <= k < self.records.len() && #[trigger] sources[self.records[k]] == key[1]
                && crate::dictionary::held_for(
                selectors[selector as int],
                request.selector(self.records[k]),
            ) && crate::dictionary::held_for(kept[p as int], self.outcomes[k].0)
    }

    spec fn with(self, record: int, outcome: Outcome) -> PathCalls {
        PathCalls {
            records: self.records.push(record),
            outcomes: self.outcomes.push(outcome),
        }
    }

    proof fn lemma_row_with(
        self,
        request: PathRequest,
        key_filter: Option<&RoaringBitmap>,
        i: int,
        row: ValueOrRef,
        record: int,
        outcome: Outcome,
    )
        requires
            self.records.len() == self.outcomes.len(),
            self.row(request, key_filter, i, row),
        ensures
            self.with(record, outcome).row(request, key_filter, i, row),
    {
        let next = self.with(record, outcome);
        if request.changes(key_filter, i) {
            let k = choose|k: int|
                0 <= k < self.records.len() && #[trigger] request.serves(self.records[k], i)
                    && crate::dictionary::held_for(row, self.outcomes[k].0);
            assert(next.records[k] == self.records[k]);
            assert(next.outcomes[k] == self.outcomes[k]);
            assert(request.serves(next.records[k], i));
        }
    }

    proof fn lemma_key_leads(
        self,
        next: PathCalls,
        request: PathRequest,
        key_filter: Option<&RoaringBitmap>,
        i: int,
        key: Option<usize>,
        before: Seq<ValueOrRef>,
        kept: Seq<ValueOrRef>,
        record: int,
        outcome: Outcome,
    )
        requires
            self.records.len() == self.outcomes.len(),
            self.key_leads(request, key_filter, i, key, before),
            before.is_prefix_of(kept),
            next == self || next == self.with(record, outcome),
        ensures
            next.key_leads(request, key_filter, i, key, kept),
    {
        if key is Some {
            let p = key->0;
            assert(kept[p as int] == before[p as int]);
            if next != self {
                self.lemma_row_with(request, key_filter, i, kept[p as int], record, outcome);
            }
        }
    }
}

impl PathCalls {
    proof fn lemma_remembers(
        self,
        next: PathCalls,
        request: PathRequest,
        key: Seq<Option<usize>>,
        entry: Option<usize>,
        old_selectors: Seq<ValueOrRef>,
        selectors: Seq<ValueOrRef>,
        sources: Seq<Option<usize>>,
        before: Seq<ValueOrRef>,
        kept: Seq<ValueOrRef>,
        record: int,
        outcome: Outcome,
    )
        requires
            self.records.len() == self.outcomes.len(),
            self.remembers(request, key, entry, old_selectors, sources, before),
            old_selectors.is_prefix_of(selectors),
            before.is_prefix_of(kept),
            next == self || next == self.with(record, outcome),
        ensures
            next.remembers(request, key, entry, selectors, sources, kept),
    {
        let selector = key[0]->0;
        let p = entry->0;
        let k = choose|k: int|
            0 <= k < self.records.len() && #[trigger] sources[self.records[k]] == key[1]
                && crate::dictionary::held_for(
                old_selectors[selector as int],
                request.selector(self.records[k]),
            ) && crate::dictionary::held_for(before[p as int], self.outcomes[k].0);
        assert(selectors[selector as int] == old_selectors[selector as int]);
        assert(kept[p as int] == before[p as int]);
        assert(next.records[k] == self.records[k]);
        assert(next.outcomes[k] == self.outcomes[k]);
        assert(sources[next.records[k]] == key[1]);
    }
}

/// How the values that a path was written into are laid out: the records that change, where the key or
/// index that each starts with is kept, and what is to be kept for each and where.
pub ghost struct PathLayout {
    pub records: Seq<int>,
    pub selector_positions: Seq<Option<usize>>,
    pub inputs: Seq<crate::interning::Input>,
    pub positions: Seq<Option<usize>>,
}

impl PathLayout {
    /// The keys or indexes that the path starts with for the records that change.
    pub open spec fn selector_inputs(self, request: PathRequest) -> Seq<crate::interning::Input> {
        Seq::new(
            self.records.len(),
            |m: int| crate::interning::Input::Value(request.selector(self.records[m])),
        )
    }

    /// What the value that is made for a record goes by: where its key or index, and where its value
    /// was kept.
    pub open spec fn place(self, sources: Seq<Option<usize>>, m: int) -> Seq<Option<usize>> {
        seq![self.selector_positions[m], sources[self.records[m]]]
    }

    /// Whether record `m` of those that change gets what was made for it, as the first that goes by its
    /// place, or what that one got.
    pub open spec fn input_fits(
        self,
        calls: PathCalls,
        sources: Seq<Option<usize>>,
        m: int,
    ) -> bool {
        match self.inputs[m] {
            crate::interning::Input::Nothing => false,
            crate::interning::Input::Value(value) => {
                &&& forall|a: int|
                    0 <= a < m ==> #[trigger] self.place(sources, a) != self.place(sources, m)
                &&& exists|k: int|
                    0 <= k < calls.records.len() && #[trigger] calls.records[k] == self.records[m]
                        && calls.outcomes[k].0 == value
            },
            crate::interning::Input::Again(a) => {
                &&& 0 <= a < m
                &&& self.inputs[a] is Value
                &&& self.place(sources, a) == self.place(sources, m)
            },
        }
    }

    /// Whether call `k` was made for one of the records that change.
    pub open spec fn called(self, calls: PathCalls, k: int) -> bool {
        exists|m: int|
            0 <= m < self.records.len() && #[trigger] self.records[m] == calls.records[k]
                && self.inputs[m] is Value
    }

    /// Whether the first `n` records have these keys and leave these values, where `sources` are the
    /// positions of their values among those in `start`.
    pub open spec fn built(
        self,
        calls: PathCalls,
        request: PathRequest,
        key_filter: Option<&RoaringBitmap>,
        sources: Seq<Option<usize>>,
        start: Seq<ValueOrRef>,
        selectors: Seq<ValueOrRef>,
        kept: Seq<ValueOrRef>,
        keys: Seq<Option<usize>>,
        n: int,
    ) -> bool {
        &&& keys.len() == n
        &&& calls.records.len() == calls.outcomes.len()
        &&& self.inputs.len() == self.records.len()
        &&& forall|m: int|
            0 <= m < self.records.len() ==> request.changes(key_filter, #[trigger] self.records[m])
                && self.records[m] < n
        &&& forall|a: int, m: int|
            0 <= a < m < self.records.len() ==> self.records[a] < self.records[m]
        &&& forall|i: int|
            0 <= i < n && #[trigger] request.changes(key_filter, i) ==> self.records.contains(i)
        &&& crate::interning::filled(
            Seq::empty(),
            self.selector_inputs(request),
            self.selector_positions,
            selectors,
        )
        &&& forall|m: int|
            0 <= m < self.records.len() ==> #[trigger] self.input_fits(calls, sources, m)
        &&& forall|k: int| 0 <= k < calls.records.len() ==> #[trigger] self.called(calls, k)
        &&& crate::interning::filled(start, self.inputs, self.positions, kept)
        &&& forall|m: int|
            0 <= m < self.records.len() ==> keys[#[trigger] self.records[m]] == self.positions[m]
        &&& forall|i: int|
            0 <= i < n && !request.changes(key_filter, i) ==> #[trigger] keys[i] == (
            if request.source.rows()[i] is Null {
                None
            } else {
                sources[i]
            })
    }

    /// Whether the entry is where the value is that was made for the first record at a place.
    spec fn recalls(
        self,
        sources: Seq<Option<usize>>,
        place: Seq<Option<usize>>,
        entry: Option<usize>,
    ) -> bool {
        exists|m: int|
            0 <= m < self.records.len() && #[trigger] self.place(sources, m) == place
                && self.inputs[m] is Value && self.positions[m] == entry
    }

    spec fn with(
        self,
        record: int,
        selector_position: usize,
        input: crate::interning::Input,
        position: Option<usize>,
    ) -> PathLayout {
        PathLayout {
            records: self.records.push(record),
            selector_positions: self.selector_positions.push(Some(selector_position)),
            inputs: self.inputs.push(input),
            positions: self.positions.push(position),
        }
    }

    /// What is remembered of places is right once a record that changes has its value.
    proof fn lemma_recalls(
        self,
        record: int,
        selector_position: usize,
        input: crate::interning::Input,
        position: Option<usize>,
        sources: Seq<Option<usize>>,
        before: Map<Seq<Option<usize>>, Option<usize>>,
        after: Map<Seq<Option<usize>>, Option<usize>>,
    )
        requires
            self.selector_positions.len() == self.records.len(),
            self.inputs.len() == self.records.len(),
            self.positions.len() == self.records.len(),
            forall|place: Seq<Option<usize>>| #[trigger]
                before.contains_key(place) ==> self.recalls(sources, place, before[place]),
            forall|m: int|
                0 <= m < self.records.len() ==> before.contains_key(
                    #[trigger] self.place(sources, m),
                ),
            match input {
                crate::interning::Input::Nothing => false,
                crate::interning::Input::Value(_) => after == before.insert(
                    seq![Some(selector_position), sources[record]],
                    position,
                ),
                crate::interning::Input::Again(a) => {
                    &&& after == before
                    &&& 0 <= a < self.records.len()
                    &&& self.place(sources, a) == seq![Some(selector_position), sources[record]]
                },
            },
        ensures
            forall|place: Seq<Option<usize>>| #[trigger]
                after.contains_key(place) ==> self.with(
                    record,
                    selector_position,
                    input,
                    position,
                ).recalls(sources, place, after[place]),
            forall|m: int|
                0 <= m < self.records.len() + 1 ==> after.contains_key(
                    #[trigger] self.with(record, selector_position, input, position).place(
                        sources,
                        m,
                    ),
                ),
    {
        let next = self.with(record, selector_position, input, position);
        let last = self.records.len() as int;
        assert forall|a: int| 0 <= a < last implies #[trigger] next.place(sources, a) == self.place(
            sources,
            a,
        ) by {}
        assert(next.place(sources, last) == seq![Some(selector_position), sources[record]]);
        assert forall|place: Seq<Option<usize>>| #[trigger] after.contains_key(place) implies next.recalls(
            sources,
            place,
            after[place],
        ) by {
            if input is Value && place == seq![Some(selector_position), sources[record]] {
                assert(next.place(sources, last) == place);
            } else {
                assert(before.contains_key(place));
                let m = choose|m: int|
                    0 <= m < self.records.len() && #[trigger] self.place(sources, m) == place
                        && self.inputs[m] is Value && self.positions[m] == before[place];
                assert(next.place(sources, m) == place);
            }
        }
        assert forall|m: int| 0 <= m < last + 1 implies after.contains_key(
            #[trigger] next.place(sources, m),
        ) by {
            if m < last {
                assert(before.contains_key(self.place(sources, m)));
            }
        }
    }

    /// A record that does not change keeps its value where it was.
    proof fn lemma_built_unchanged(
        self,
        calls: PathCalls,
        request: PathRequest,
        key_filter: Option<&RoaringBitmap>,
        sources: Seq<Option<usize>>,
        start: Seq<ValueOrRef>,
        selectors: Seq<ValueOrRef>,
        kept: Seq<ValueOrRef>,
        keys: Seq<Option<usize>>,
        n: int,
        key: Option<usize>,
    )
        requires
            self.built(calls, request, key_filter, sources, start, selectors, kept, keys, n),
            !request.changes(key_filter, n),
            key == (if request.source.rows()[n] is Null {
                None
            } else {
                sources[n]
            }),
        ensures
            self.built(
                calls,
                request,
                key_filter,
                sources,
                start,
                selectors,
                kept,
                keys.push(key),
                n + 1,
            ),
    {
        let more = keys.push(key);
        assert forall|m: int| 0 <= m < self.records.len() implies more[#[trigger] self.records[m]]
            == self.positions[m] by {
            assert(keys[self.records[m]] == self.positions[m]);
        }
    }

    /// A record that changes gets its value.
    proof fn lemma_built_changed(
        self,
        calls: PathCalls,
        request: PathRequest,
        key_filter: Option<&RoaringBitmap>,
        sources: Seq<Option<usize>>,
        start: Seq<ValueOrRef>,
        selectors: Seq<ValueOrRef>,
        kept: Seq<ValueOrRef>,
        keys: Seq<Option<usize>>,
        n: int,
        next_calls: PathCalls,
        next_selectors: Seq<ValueOrRef>,
        next_kept: Seq<ValueOrRef>,
        selector_position: usize,
        input: crate::interning::Input,
        position: Option<usize>,
        outcome: Outcome,
    )
        requires
            self.built(calls, request, key_filter, sources, start, selectors, kept, keys, n),
            n >= 0,
            request.changes(key_filter, n),
            crate::interning::inserted(
                selectors,
                request.selector(n),
                selector_position,
                next_selectors,
            ),
            match input {
                crate::interning::Input::Nothing => false,
                crate::interning::Input::Value(value) => {
                    &&& next_calls == calls.with(n, outcome)
                    &&& outcome.0 == value
                    &&& position matches Some(k) && crate::interning::inserted(
                        kept,
                        value,
                        k,
                        next_kept,
                    )
                    &&& forall|a: int|
                        0 <= a < self.records.len() ==> #[trigger] self.place(sources, a) != seq![
                            Some(selector_position),
                            sources[n],
                        ]
                },
                crate::interning::Input::Again(a) => {
                    &&& next_calls == calls
                    &&& next_kept == kept
                    &&& 0 <= a < self.records.len()
                    &&& self.inputs[a] is Value
                    &&& self.place(sources, a) == seq![Some(selector_position), sources[n]]
                    &&& position == self.positions[a]
                },
            },
        ensures
            self.with(n, selector_position, input, position).built(
                next_calls,
                request,
                key_filter,
                sources,
                start,
                next_selectors,
                next_kept,
                keys.push(position),
                n + 1,
            ),
    {
        let next = self.with(n, selector_position, input, position);
        let more = keys.push(position);
        let last = self.records.len() as int;
        crate::interning::lemma_filled_push(
            Seq::empty(),
            self.selector_inputs(request),
            self.selector_positions,
            selectors,
            crate::interning::Input::Value(request.selector(n)),
            Some(selector_position),
            next_selectors,
        );
        assert(next.selector_inputs(request) =~= self.selector_inputs(request).push(
            crate::interning::Input::Value(request.selector(n)),
        ));
        crate::interning::lemma_filled_push(
            start,
            self.inputs,
            self.positions,
            kept,
            input,
            position,
            next_kept,
        );
        assert forall|a: int| 0 <= a < last implies #[trigger] next.place(sources, a) == self.place(
            sources,
            a,
        ) by {}
        assert(next.place(sources, last) == seq![Some(selector_position), sources[n]]);
        assert forall|m: int| 0 <= m < next.records.len() implies #[trigger] next.input_fits(
            next_calls,
            sources,
            m,
        ) by {
            if m < last {
                assert(self.input_fits(calls, sources, m));
                if let crate::interning::Input::Value(value) = self.inputs[m] {
                    let k = choose|k: int|
                        0 <= k < calls.records.len() && #[trigger] calls.records[k]
                            == self.records[m] && calls.outcomes[k].0 == value;
                    assert(next_calls.records[k] == next.records[m]);
                    assert forall|a: int| 0 <= a < m implies #[trigger] next.place(sources, a)
                        != next.place(sources, m) by {
                        assert(self.place(sources, a) != self.place(sources, m));
                    }
                } else if let crate::interning::Input::Again(a) = self.inputs[m] {
                    assert(next.place(sources, a) == next.place(sources, m));
                }
            } else if input is Value {
                let k = calls.records.len() as int;
                assert(next_calls.records[k] == next.records[m]);
                assert forall|a: int| 0 <= a < m implies #[trigger] next.place(sources, a)
                    != next.place(sources, m) by {
                    assert(self.place(sources, a) != seq![Some(selector_position), sources[n]]);
                }
            } else {
                let a = input->Again_0;
                assert(next.place(sources, a) == self.place(sources, a));
            }
        }
        assert forall|k: int| 0 <= k < next_calls.records.len() implies #[trigger] next.called(
            next_calls,
            k,
        ) by {
            if k < calls.records.len() {
                assert(self.called(calls, k));
                let m = choose|m: int|
                    0 <= m < self.records.len() && #[trigger] self.records[m] == calls.records[k]
                        && self.inputs[m] is Value;
                assert(next.records[m] == next_calls.records[k]);
            } else {
                assert(next.records[last] == next_calls.records[k]);
            }
        }
        assert forall|i: int| 0 <= i < n + 1 && #[trigger] request.changes(key_filter, i) implies next.records.contains(
        i) by {
            if i < n {
                let m = self.records.index_of(i);
                assert(next.records[m] == i);
            } else {
                assert(next.records[last] == i);
            }
        }
        assert forall|m: int| 0 <= m < next.records.len() implies more[#[trigger] next.records[m]]
            == next.positions[m] by {
            if m < last {
                assert(keys[self.records[m]] == self.positions[m]);
            }
        }
    }
}

impl PathLayout {
    /// Whether the first records are laid out so, and what is remembered of their places is right.
    #[verifier::opaque]
    spec fn tracks(
        self,
        calls: PathCalls,
        request: PathRequest,
        key_filter: Option<&RoaringBitmap>,
        sources: Seq<Option<usize>>,
        start: Seq<ValueOrRef>,
        selectors: Seq<ValueOrRef>,
        kept: Seq<ValueOrRef>,
        keys: Seq<Option<usize>>,
        n: int,
        visited: Map<Seq<Option<usize>>, Option<usize>>,
    ) -> bool {
        &&& self.built(calls, request, key_filter, sources, start, selectors, kept, keys, n)
        &&& forall|place: Seq<Option<usize>>| #[trigger]
            visited.contains_key(place) ==> self.recalls(sources, place, visited[place])
        &&& forall|m: int|
            0 <= m < self.records.len() ==> visited.contains_key(#[trigger] self.place(sources, m))
    }

    proof fn lemma_tracks_unchanged(
        self,
        calls: PathCalls,
        request: PathRequest,
        key_filter: Option<&RoaringBitmap>,
        sources: Seq<Option<usize>>,
        start: Seq<ValueOrRef>,
        selectors: Seq<ValueOrRef>,
        kept: Seq<ValueOrRef>,
        keys: Seq<Option<usize>>,
        n: int,
        visited: Map<Seq<Option<usize>>, Option<usize>>,
        key: Option<usize>,
    )
        requires
            self.tracks(calls, request, key_filter, sources, start, selectors, kept, keys, n, visited),
            !request.changes(key_filter, n),
            key == (if request.source.rows()[n] is Null {
                None
            } else {
                sources[n]
            }),
        ensures
            self.tracks(
                calls,
                request,
                key_filter,
                sources,
                start,
                selectors,
                kept,
                keys.push(key),
                n + 1,
                visited,
            ),
    {
        reveal(PathLayout::tracks);
        self.lemma_built_unchanged(
            calls,
            request,
            key_filter,
            sources,
            start,
            selectors,
            kept,
            keys,
            n,
            key,
        );
    }

    proof fn lemma_tracks_again(
        self,
        calls: PathCalls,
        request: PathRequest,
        key_filter: Option<&RoaringBitmap>,
        sources: Seq<Option<usize>>,
        start: Seq<ValueOrRef>,
        selectors: Seq<ValueOrRef>,
        kept: Seq<ValueOrRef>,
        keys: Seq<Option<usize>>,
        n: int,
        visited: Map<Seq<Option<usize>>, Option<usize>>,
        next_selectors: Seq<ValueOrRef>,
        selector_position: usize,
        place: Seq<Option<usize>>,
    ) -> (next: PathLayout)
        requires
            self.tracks(calls, request, key_filter, sources, start, selectors, kept, keys, n, visited),
            n >= 0,
            request.changes(key_filter, n),
            crate::interning::inserted(
                selectors,
                request.selector(n),
                selector_position,
                next_selectors,
            ),
            place == seq![Some(selector_position), sources[n]],
            visited.contains_key(place),
        ensures
            next.tracks(
                calls,
                request,
                key_filter,
                sources,
                start,
                next_selectors,
                kept,
                keys.push(visited[place]),
                n + 1,
                visited,
            ),
    {
        reveal(PathLayout::tracks);
        let m = choose|m: int|
            0 <= m < self.records.len() && #[trigger] self.place(sources, m) == place
                && self.inputs[m] is Value && self.positions[m] == visited[place];
        let input = crate::interning::Input::Again(m);
        self.lemma_built_changed(
            calls,
            request,
            key_filter,
            sources,
            start,
            selectors,
            kept,
            keys,
            n,
            calls,
            next_selectors,
            kept,
            selector_position,
            input,
            visited[place],
            (ValueOrRef::Null, None),
        );
        self.lemma_recalls(
            n,
            selector_position,
            input,
            visited[place],
            sources,
            visited,
            visited,
        );
        self.with(n, selector_position, input, visited[place])
    }

    proof fn lemma_tracks_made(
        self,
        calls: PathCalls,
        request: PathRequest,
        key_filter: Option<&RoaringBitmap>,
        sources: Seq<Option<usize>>,
        start: Seq<ValueOrRef>,
        selectors: Seq<ValueOrRef>,
        kept: Seq<ValueOrRef>,
        keys: Seq<Option<usize>>,
        n: int,
        visited: Map<Seq<Option<usize>>, Option<usize>>,
        next_selectors: Seq<ValueOrRef>,
        selector_position: usize,
        place: Seq<Option<usize>>,
        outcome: Outcome,
        position: usize,
        next_kept: Seq<ValueOrRef>,
    ) -> (next: PathLayout)
        requires
            self.tracks(calls, request, key_filter, sources, start, selectors, kept, keys, n, visited),
            n >= 0,
            request.changes(key_filter, n),
            crate::interning::inserted(
                selectors,
                request.selector(n),
                selector_position,
                next_selectors,
            ),
            place == seq![Some(selector_position), sources[n]],
            !visited.contains_key(place),
            crate::interning::inserted(kept, outcome.0, position, next_kept),
        ensures
            next.tracks(
                calls.with(n, outcome),
                request,
                key_filter,
                sources,
                start,
                next_selectors,
                next_kept,
                keys.push(Some(position)),
                n + 1,
                visited.insert(place, Some(position)),
            ),
    {
        reveal(PathLayout::tracks);
        let input = crate::interning::Input::Value(outcome.0);
        assert forall|a: int| 0 <= a < self.records.len() implies #[trigger] self.place(sources, a)
            != place by {
            assert(visited.contains_key(self.place(sources, a)));
        }
        self.lemma_built_changed(
            calls,
            request,
            key_filter,
            sources,
            start,
            selectors,
            kept,
            keys,
            n,
            calls.with(n, outcome),
            next_selectors,
            next_kept,
            selector_position,
            input,
            Some(position),
            outcome,
        );
        self.lemma_recalls(
            n,
            selector_position,
            input,
            Some(position),
            sources,
            visited,
            visited.insert(place, Some(position)),
        );
        self.with(n, selector_position, input, Some(position))
    }

    proof fn lemma_tracks_start(
        request: PathRequest,
        key_filter: Option<&RoaringBitmap>,
        sources: Seq<Option<usize>>,
        start: Seq<ValueOrRef>,
        visited: Map<Seq<Option<usize>>, Option<usize>>,
    ) -> (layout: PathLayout)
        requires
            visited == Map::<Seq<Option<usize>>, Option<usize>>::empty(),
        ensures
            layout.tracks(
                PathCalls { records: Seq::empty(), outcomes: Seq::empty() },
                request,
                key_filter,
                sources,
                start,
                Seq::empty(),
                start,
                Seq::empty(),
                0,
                visited,
            ),
    {
        reveal(PathLayout::tracks);
        let layout = PathLayout {
            records: Seq::empty(),
            selector_positions: Seq::empty(),
            inputs: Seq::empty(),
            positions: Seq::empty(),
        };
        crate::interning::lemma_filled_start(start);
        crate::interning::lemma_filled_start(Seq::empty());
        assert(layout.selector_inputs(request) =~= Seq::empty());
        layout
    }
}

/// A value that is not null is still none after it has been written into.
proof fn lemma_updated_not_null(
    before: ValueOrRef,
    steps: Seq<Step>,
    value: ValueOrRef,
    outcome: Outcome,
)
    requires
        !(before is Null),
        value_updated(before, steps, value, outcome),
    ensures
        !(outcome.0 is Null),
{
}

/// Whether `after` is laid out as the calls have filled it: the values that were there stay, each once,
/// and those that were made come behind them, in the order of the records.
pub open spec fn laid_out(
    calls: PathCalls,
    request: PathRequest,
    key_filter: Option<&RoaringBitmap>,
    after: Dictionary,
) -> bool {
    &&& after.keys is KeyArray
    &&& exists|
        layout: PathLayout,
        start: Seq<ValueOrRef>,
        lookup: IndexLookup,
        selectors: Seq<ValueOrRef>,
    |
        request.source.interned_so(start, lookup) && #[trigger] layout.built(
            calls,
            request,
            key_filter,
            request.source.keys.remapped(lookup),
            start,
            selectors,
            after.values.values(),
            after.keys.positions(),
            request.source.rows().len() as int,
        )
}

/// Whether `after` holds the values of the records after `values` has been written into them at the
/// end of a path, with the diagnostics that this has given.
pub open spec fn written_inside(
    source: Dictionary,
    key_filter: Option<&RoaringBitmap>,
    path: Seq<ColumnarEngineSelectionPath>,
    depth: int,
    values: Dictionary,
    after: Dictionary,
    added: Seq<ColumnarEngineDiagnostic>,
) -> bool {
    let request = PathRequest { source, path, depth, values };
    exists|calls: PathCalls| #[trigger]
        calls.answer(request, key_filter) && added == crate::dictionary_values::notes_of(
            calls.outcomes,
        ) && laid_out(calls, request, key_filter, after) && forall|i: int|
            0 <= i < source.rows().len() ==> calls.row(
                request,
                key_filter,
                i,
                #[trigger] after.rows()[i],
            )
}

/// Writes `values` into the values of the records, at the end of a path.
///
/// Records that share their value, and the key or index that the path starts with, get one new value
/// between them: that of the first of them.
pub fn update_dictionary_values_for_path(
    notes: &mut Vec<ColumnarEngineDiagnostic>,
    source: &Dictionary,
    key_filter: Option<&RoaringBitmap>,
    path: &Vec<ColumnarEngineSelectionPath>,
    depth: usize,
    values: &Dictionary,
) -> (r: Dictionary)
    requires
        source.wf(),
        source.rows().len() <= 0x1_0000_0000,
        depth < path@.len(),
    ensures
        r.wf(),
        r.keys.key_type() == KeyDataType::UInt16,
        r.rows().len() == source.rows().len(),
        exists|added: Seq<ColumnarEngineDiagnostic>| #[trigger]
            written_inside(*source, key_filter, path@, depth as int, *values, r, added)
                && final(notes)@ == old(notes)@ + added,
{
    let ghost request = PathRequest {
        source: *source,
        path: path@,
        depth: depth as int,
        values: *values,
    };
    let ghost started = notes@;
    let source_keys = &source.keys;
    let (source_values, lookup) = source.values.clone().into_set();
    let mut source_values = source_values;
    let ghost initial = crate::collections::set_values(source_values);
    let key_length: usize = source_keys.len();
    let ghost sources = source_keys.remapped(lookup);
    let mut selectors: ValueOrRefSet = value_set_new();
    let mut visited: PositionsMap = positions_map_new();
    let mut keys: Vec<Option<usize>> = Vec::new();
    let ghost mut calls = PathCalls { records: Seq::empty(), outcomes: Seq::empty() };
    let ghost mut layout = PathLayout::lemma_tracks_start(
        request,
        key_filter,
        sources,
        initial,
        crate::collections::positions_entries(visited),
    );
    assert(keys@ =~= Seq::<Option<usize>>::empty());
    let mut i: usize = 0;
    assert(started =~= started + crate::dictionary_values::notes_of(calls.outcomes));
    while i < key_length
        invariant
            i <= key_length,
            key_length <= 0x1_0000_0000,
            source.wf(),
            *source_keys == source.keys,
            key_length == source.keys.spec_len(),
            depth < path@.len(),
            request == (PathRequest {
                source: *source,
                path: path@,
                depth: depth as int,
                values: *values,
            }),
            sources == source.keys.remapped(lookup),
            match source.values {
                DictionaryValueArray::SetValues(set) => initial == source.values.values()
                    && lookup is None,
                DictionaryValueArray::Boolean => initial == source.values.values()
                    && lookup is None,
                _ => crate::interning::interning(
                    Seq::new(
                        source.values.values().len(),
                        |k: int| crate::dictionary_values::non_null(source.values.values()[k]),
                    ),
                    None,
                    initial,
                    lookup,
                ),
            },
            initial.is_prefix_of(crate::collections::set_values(source_values)),
            keys@.len() == i,
            layout.tracks(
                calls,
                request,
                key_filter,
                sources,
                initial,
                crate::collections::set_values(selectors),
                crate::collections::set_values(source_values),
                keys@,
                i as int,
                crate::collections::positions_entries(visited),
            ),
            calls.answer(request, key_filter),
            forall|k: int| 0 <= k < calls.records.len() ==> #[trigger] calls.records[k] < i,
            notes@ == started + crate::dictionary_values::notes_of(calls.outcomes),
            forall|j: int|
                0 <= j < i ==> calls.key_leads(
                    request,
                    key_filter,
                    j,
                    #[trigger] keys@[j],
                    crate::collections::set_values(source_values),
                ),
            forall|key: Seq<Option<usize>>|
                #[trigger] crate::collections::positions_entries(visited).contains_key(key)
                    ==> calls.remembers(
                    request,
                    key,
                    crate::collections::positions_entries(visited)[key],
                    crate::collections::set_values(selectors),
                    sources,
                    crate::collections::set_values(source_values),
                ),
        decreases key_length - i,
    {
        let ghost before = crate::collections::set_values(source_values);
        let ghost old_calls = calls;
        let ghost old_keys = keys@;
        let ghost old_visited = crate::collections::positions_entries(visited);
        let ghost old_selectors = crate::collections::set_values(selectors);
        let ghost mut record: int = 0;
        let ghost mut made: Outcome = (ValueOrRef::Null, None);
        proof {
            source.lemma_interned_key(initial, lookup, i as int);
        }
        let position: Option<usize> = match source_keys.get_value_index_for_key_index(i) {
            Some(position) => apply_lookup(&lookup, position),
            None => None,
        };
        assert(position == sources[i as int]);
        let held: ValueOrRef = match position {
            Some(position) => match value_set_get_index(&source_values, position) {
                Some(held) => held.clone(),
                None => ValueOrRef::Null,
            },
            None => ValueOrRef::Null,
        };
        assert(crate::dictionary::held_for(held, source.rows()[i as int]));
        let key: Option<usize> = if held.is_null() {
            None
        } else {
            let chosen: bool = match key_filter {
                Some(filter) => bitmap_contains(filter, i as u32),
                None => true,
            };
            assert(chosen == Dictionary::selected(key_filter, i as int));
            if !chosen {
                position
            } else {
                let (_, selector) = resolve_step(&path[depth], i);
                let ghost start = selector;
                let selector_position: usize = insert_value(&mut selectors, selector);
                let ghost new_selectors = crate::collections::set_values(selectors);
                let mut place: Vec<Option<usize>> = Vec::new();
                place.push(Some(selector_position));
                place.push(position);
                let ghost wanted = place@;
                assert(request.changes(key_filter, i as int));
                match positions_map_get(&visited, &place) {
                    Some(entry) => {
                        proof {
                            let p = entry->0;
                            let k = choose|k: int|
                                0 <= k < calls.records.len() && #[trigger] sources[calls.records[k]]
                                    == place@[1] && crate::dictionary::held_for(
                                    old_selectors[selector_position as int],
                                    request.selector(calls.records[k]),
                                ) && crate::dictionary::held_for(before[p as int], calls.outcomes[k].0);
                            let j = calls.records[k];
                            source.lemma_interned_key(initial, lookup, j);
                            assert(crate::dictionary::held_for(held, source.rows()[j]));
                            assert(alike(source.rows()[j], source.rows()[i as int]));
                            assert(crate::dictionary::held_for(
                                old_selectors[selector_position as int],
                                start,
                            ));
                            assert(alike(request.selector(j), request.selector(i as int)));
                            assert(request.serves(calls.records[k], i as int));
                            assert(place@ =~= seq![Some(selector_position), sources[i as int]]);
                            layout = layout.lemma_tracks_again(
                                calls,
                                request,
                                key_filter,
                                sources,
                                initial,
                                old_selectors,
                                before,
                                keys@,
                                i as int,
                                old_visited,
                                new_selectors,
                                selector_position,
                                place@,
                            );
                        }
                        entry
                    },
                    None => {
                        let value = values.get_value(i);
                        let outcome = update_any_value_for_path(i, &held, path, depth, &value);
                        let (after, note) = outcome;
                        proof {
                            record = i as int;
                            made = (after, note);
                            assert(request.makes(record, made));
                            lemma_updated_not_null(
                                held,
                                steps_for(path@, depth as int, i),
                                value,
                                made,
                            );
                            calls = calls.with(record, made);
                            crate::dictionary_values::lemma_notes_push(old_calls.outcomes, made);
                        }
                        push_note(notes, note);
                        let inserted: usize = insert_value(&mut source_values, after);
                        positions_map_insert(&mut visited, place, Some(inserted));
                        proof {
                            let kept = crate::collections::set_values(source_values);
                            let last = old_calls.records.len() as int;
                            assert(calls.records[last] == record && calls.outcomes[last] == made);
                            assert(wanted =~= seq![Some(selector_position), sources[i as int]]);
                            layout = layout.lemma_tracks_made(
                                old_calls,
                                request,
                                key_filter,
                                sources,
                                initial,
                                old_selectors,
                                before,
                                keys@,
                                i as int,
                                old_visited,
                                new_selectors,
                                selector_position,
                                wanted,
                                made,
                                inserted,
                                kept,
                            );
                            assert(crate::dictionary::held_for(kept[inserted as int], made.0));
                            assert(alike(source.rows()[record], source.rows()[record]));
                            assert(request.serves(calls.records[last], i as int));
                            assert(crate::dictionary::held_for(
                                crate::collections::set_values(selectors)[selector_position as int],
                                start,
                            ) || start is Null);
                        }
                        Some(inserted)
                    },
                }
            }
        };
        keys.push(key);
        proof {
            let kept = crate::collections::set_values(source_values);
            assert(before.is_prefix_of(kept));
            if !request.changes(key_filter, i as int) {
                layout.lemma_tracks_unchanged(
                    calls,
                    request,
                    key_filter,
                    sources,
                    initial,
                    old_selectors,
                    before,
                    old_keys,
                    i as int,
                    old_visited,
                    key,
                );
            }
            let entries = crate::collections::positions_entries(visited);
            let all_selectors = crate::collections::set_values(selectors);
            assert(old_selectors.is_prefix_of(all_selectors));
            assert forall|place: Seq<Option<usize>>| #[trigger] entries.contains_key(
                place,
            ) implies calls.remembers(
                request,
                place,
                entries[place],
                all_selectors,
                sources,
                kept,
            ) by {
                if old_visited.contains_key(place) && entries[place] == old_visited[place] {
                    old_calls.lemma_remembers(
                        calls,
                        request,
                        place,
                        entries[place],
                        old_selectors,
                        all_selectors,
                        sources,
                        before,
                        kept,
                        record,
                        made,
                    );
                } else {
                    let last = old_calls.records.len() as int;
                    assert(sources[calls.records[last]] == place[1]);
                }
            }
            assert forall|j: int| 0 <= j < i + 1 implies calls.key_leads(
                request,
                key_filter,
                j,
                #[trigger] keys@[j],
                kept,
            ) by {
                if j < i {
                    assert(old_calls.key_leads(request, key_filter, j, old_keys[j], before));
                    old_calls.lemma_key_leads(
                        calls,
                        request,
                        key_filter,
                        j,
                        old_keys[j],
                        before,
                        kept,
                        record,
                        made,
                    );
                }
            }
        }
        i = i + 1;
    }
    let r = Dictionary::new(
        DictionaryKeyArray::KeyArray { data_type: KeyDataType::UInt16, keys: Rc::new(keys) },
        DictionaryValueArray::SetValues(Rc::new(source_values)),
    );
    proof {
        reveal(PathLayout::tracks);
        assert(r.keys.positions() =~= keys@);
        assert(source.interned_so(initial, lookup));
        assert(layout.built(
            calls,
            request,
            key_filter,
            request.source.keys.remapped(lookup),
            initial,
            crate::collections::set_values(selectors),
            r.values.values(),
            r.keys.positions(),
            request.source.rows().len() as int,
        ));
        assert(laid_out(calls, request, key_filter, r));
        assert(calls.answer(request, key_filter));
        assert(written_inside(
            *source,
            key_filter,
            path@,
            depth as int,
            *values,
            r,
            crate::dictionary_values::notes_of(calls.outcomes),
        ));
    }
    r
}

} // verus!
