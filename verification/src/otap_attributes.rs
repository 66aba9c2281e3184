//! The attributes of records, as they are read and written.

use std::rc::Rc;

use roaring::RoaringBitmap;
use vstd::prelude::*;

use crate::attribute_columns::ValueCodec;
use crate::attributes_batch::OtapAttributesBatch;
use crate::columnar_records::{ColumnarEngineSelectionPath, ColumnarRecordsWriteResult};
use crate::dictionary::Dictionary;
use crate::dictionary_keys::KeyDataType;
use crate::engine_diagnostic::{ColumnarEngineDiagnostic, DiagnosticMessage};
use crate::expressions::ExpressionInfo;
use crate::log_updates::{build_plan, list_records, new_remark, KeyPlan};
use crate::named_values::NamedValues;
use crate::otap_value::OtapValue;
use crate::path_update::update_dictionary_values_for_path;
use crate::selection::new_warning;
use crate::value::ValueOrRef;

verus! {

/// The attributes of records: what is known of the values under each key, and the columns that they
/// come from.
pub struct OtapAttributes {
    pub modified: bool,
    pub values: NamedValues<OtapValue>,
    pub batch: Option<OtapAttributesBatch>,
}

impl OtapAttributes {
    /// Whether what is known under each key is a value for each record, or none.
    pub open spec fn wf(&self, record_count: nat) -> bool {
        forall|key: Seq<char>|
            self.values@.contains_key(key) ==> crate::log_fields::value_wf(
                #[trigger] self.values@[key],
                record_count,
            )
    }

    /// What is known of the values under a key.
    pub open spec fn value(&self, key: Seq<char>) -> OtapValue {
        if self.values@.contains_key(key) {
            self.values@[key]
        } else {
            OtapValue::NotFound
        }
    }

    /// Attributes that come in columns: what each record has under each key is read.
    pub fn new<C: ValueCodec>(codec: &C, batch: OtapAttributesBatch) -> (r: Self)
        requires
            batch.wf(),
        ensures
            r.wf(batch.ids@.len()),
            r.batch == Some(batch),
            !r.modified,
            forall|key: Seq<char>|
                #[trigger] r.values@.contains_key(key) == (exists|k: int|
                    #[trigger] batch.columns.keys.first_at(key, k)),
            forall|key: Seq<char>|
                r.values@.contains_key(key) ==> read_from(codec, batch, key, #[trigger] r.values@[key]),
    {
        let mut values: NamedValues<OtapValue> = NamedValues::new();
        let keys = &batch.columns.keys.values;
        let mut k: usize = 0;
        while k < keys.len()
            invariant
                k <= keys@.len(),
                keys@ == batch.columns.keys.values@,
                batch.wf(),
                forall|key: Seq<char>|
                    #[trigger] values@.contains_key(key) == (exists|j: int|
                        0 <= j < k && (#[trigger] keys@[j])@ == key),
                forall|key: Seq<char>|
                    values@.contains_key(key) ==> read_from(
                        codec,
                        batch,
                        key,
                        #[trigger] values@[key],
                    ),
            decreases keys@.len() - k,
        {
            let ghost before = values@;
            let key = keys[k].as_str();
            let read: OtapValue = match batch.get_values(codec, key) {
                Some(dictionary) => OtapValue::Read(dictionary),
                None => OtapValue::NotFound,
            };
            proof {
                lemma_first_at(batch.columns.keys.values@, k as int);
                let first = choose|j: int|
                    0 <= j <= k && keys@[j]@ == key@ && forall|m: int|
                        0 <= m < j ==> (#[trigger] keys@[m])@ != keys@[k as int]@;
                assert(batch.columns.keys.first_at(key@, first));
            }
            values.insert(key.to_owned(), read);
            proof {
                assert forall|name: Seq<char>| #[trigger] values@.contains_key(name) == (exists|j: int|
                    0 <= j < k + 1 && (#[trigger] keys@[j])@ == name) by {
                    if name == key@ {
                        assert(keys@[k as int]@ == name);
                    } else if before.contains_key(name) {
                        let j = choose|j: int| 0 <= j < k && (#[trigger] keys@[j])@ == name;
                        assert(keys@[j]@ == name);
                    }
                }
            }
            k = k + 1;
        }
        proof {
            assert forall|key: Seq<char>| #[trigger] values@.contains_key(key) == (exists|j: int|
                #[trigger] batch.columns.keys.first_at(key, j)) by {
                if values@.contains_key(key) {
                    let j = choose|j: int| 0 <= j < k && (#[trigger] keys@[j])@ == key;
                    lemma_first_at(keys@, j);
                    let first = choose|m: int|
                        0 <= m <= j && keys@[m]@ == keys@[j]@ && forall|l: int|
                            0 <= l < m ==> (#[trigger] keys@[l])@ != keys@[j]@;
                    assert(batch.columns.keys.first_at(key, first));
                }
                if exists|j: int| #[trigger] batch.columns.keys.first_at(key, j) {
                    let j = choose|j: int| #[trigger] batch.columns.keys.first_at(key, j);
                    assert(keys@[j]@ == key);
                }
            }
        }
        OtapAttributes { modified: false, values, batch: Some(batch) }
    }

    /// No attributes.
    pub fn new_empty() -> (r: Self)
        ensures
            r.values@ == (Map::<Seq<char>, OtapValue>::empty()),
            r.batch is None,
            !r.modified,
            forall|n: nat| r.wf(n),
    {
        OtapAttributes { modified: false, values: NamedValues::new(), batch: None }
    }

    /// What is known of the values under a key.
    pub fn get_values(&self, key: &str) -> (r: OtapValue)
        ensures
            r == self.value(key@),
    {
        match self.values.get(key) {
            Some(value) => value.clone(),
            None => OtapValue::NotFound,
        }
    }
}

/// Whether what is known of the values under a key is what its attributes give each record.
pub open spec fn read_from<C: ValueCodec>(
    codec: &C,
    batch: OtapAttributesBatch,
    key: Seq<char>,
    value: OtapValue,
) -> bool {
    &&& value matches OtapValue::Read(dictionary)
    &&& batch.gathered(codec, key, dictionary)
}

/// A text has a first place among texts that hold it.
proof fn lemma_first_at(texts: Seq<String>, k: int)
    requires
        0 <= k < texts.len(),
    ensures
        exists|j: int|
            0 <= j <= k && (#[trigger] texts[j])@ == texts[k]@ && forall|m: int|
                0 <= m < j ==> (#[trigger] texts[m])@ != texts[k]@,
    decreases k,
{
    if exists|m: int| 0 <= m < k && (#[trigger] texts[m])@ == texts[k]@ {
        let m = choose|m: int| 0 <= m < k && (#[trigger] texts[m])@ == texts[k]@;
        lemma_first_at(texts, m);
        let j = choose|j: int|
            0 <= j <= m && (#[trigger] texts[j])@ == texts[m]@ && forall|l: int|
                0 <= l < j ==> (#[trigger] texts[l])@ != texts[m]@;
        assert(texts[j]@ == texts[k]@);
    } else {
        assert(texts[k]@ == texts[k]@);
    }
}

/// Whether `after` is what attributes hold under a key once `values` have been written there, with
/// the diagnostics that this has given.
///
/// Only the third part of a path, and those after it, lead inside a value; a second alone does not.
pub open spec fn attribute_after(
    before: OtapValue,
    path: Seq<ColumnarEngineSelectionPath>,
    key_filter: Option<&RoaringBitmap>,
    values: Dictionary,
    after: Dictionary,
    added: Seq<ColumnarEngineDiagnostic>,
) -> bool {
    exists|existing: Dictionary| #[trigger]
        crate::log_updates::existing_values(before, values.rows().len(), existing) && if path.len()
            > 2 {
            crate::path_update::written_inside(
                existing,
                key_filter,
                path,
                1,
                values,
                after,
                added,
            )
        } else {
            &&& added.len() == 0
            &&& if key_filter is None && values.nothing() {
                &&& after.nothing()
                &&& after.is_scalar(KeyDataType::UInt16, values.rows().len(), ValueOrRef::Null)
                &&& after.rows() == Seq::new(values.rows().len(), |i: int| ValueOrRef::Null)
            } else {
                existing.replaced(key_filter, values, after)
            }
        }
}

/// What is said of an attribute that has been written.
pub open spec fn attribute_remark(
    expression: ExpressionInfo,
    key: Rc<String>,
    after: Dictionary,
) -> ColumnarEngineDiagnostic {
    crate::log_updates::remark(
        expression,
        if after.nothing() {
            DiagnosticMessage::AttributeRemoved(key)
        } else {
            DiagnosticMessage::AttributeWritten { key, values: after }
        },
    )
}

/// Writes values under a key.
fn write_attribute(
    notes: &mut Vec<ColumnarEngineDiagnostic>,
    expression: &ExpressionInfo,
    attribute_key: &Rc<String>,
    path: &Vec<ColumnarEngineSelectionPath>,
    key_filter: Option<&RoaringBitmap>,
    values: &Dictionary,
    attributes: &mut OtapAttributes,
) -> (after: Ghost<Dictionary>)
    requires
        values.rows().len() <= 0x1_0000_0000,
        crate::log_updates::column_wf(*values, values.rows().len()),
        crate::log_updates::filter_wf(key_filter, values.rows().len()),
        old(attributes).wf(values.rows().len()),
    ensures
        final(attributes).wf(values.rows().len()),
        final(attributes).modified,
        final(attributes).batch == old(attributes).batch,
        final(attributes).values@ == old(attributes).values@.insert(
            attribute_key@,
            crate::log_updates::written(after@),
        ),
        exists|added: Seq<ColumnarEngineDiagnostic>| #[trigger]
            attribute_after(
                old(attributes).value(attribute_key@),
                path@,
                key_filter,
                *values,
                after@,
                added,
            ) && final(notes)@ == (old(notes)@ + added).push(
                attribute_remark(*expression, *attribute_key, after@),
            ),
{
    let ghost noted = notes@;
    let before: OtapValue = attributes.get_values(attribute_key.as_str());
    let ghost known = before;
    let record_count: usize = values.len();
    attributes.modified = true;
    let existing: Dictionary = match before {
        OtapValue::Read(held) => held,
        OtapValue::Written(held) => held,
        _ => Dictionary::new_null_with_data_type(record_count, KeyDataType::UInt16),
    };
    let ghost there = existing;
    assert(crate::log_updates::existing_values(known, values.rows().len(), there));
    let ghost mut added: Seq<ColumnarEngineDiagnostic> = Seq::empty();
    let after: Dictionary = if path.len() > 2 {
        let after = update_dictionary_values_for_path(
            notes,
            &existing,
            key_filter,
            path,
            1,
            values,
        );
        proof {
            added =
            choose|added: Seq<ColumnarEngineDiagnostic>| #[trigger]
                crate::path_update::written_inside(
                    there,
                    key_filter,
                    path@,
                    1,
                    *values,
                    after,
                    added,
                ) && notes@ == noted + added;
        }
        after
    } else if key_filter.is_none() && values.is_null() {
        Dictionary::new_null_with_data_type(record_count, KeyDataType::UInt16)
    } else {
        existing.with_values(key_filter, values)
    };
    let ghost made = after;
    proof {
        assert(notes@ =~= noted + added);
        assert(attribute_after(known, path@, key_filter, *values, made, added));
        assert(made.wf() && made.rows().len() == values.rows().len());
    }
    if after.is_null() {
        notes.push(
            new_remark(expression, DiagnosticMessage::AttributeRemoved(attribute_key.clone())),
        );
        attributes.values.insert(attribute_key.as_str().to_owned(), OtapValue::Removed);
    } else {
        notes.push(
            new_remark(
                expression,
                DiagnosticMessage::AttributeWritten {
                    key: attribute_key.clone(),
                    values: after.clone(),
                },
            ),
        );
        attributes.values.insert(attribute_key.as_str().to_owned(), OtapValue::Written(after));
    }
    Ghost(made)
}

/// What has been written under each key of a plan, with the diagnostics that this has given.
pub ghost struct PlanWrites {
    pub afters: Seq<Dictionary>,
    pub added: Seq<Seq<ColumnarEngineDiagnostic>>,
}

impl PlanWrites {
    /// The diagnostics of the first `n` keys, one after the other.
    pub open spec fn notes(
        self,
        expression: ExpressionInfo,
        plan: KeyPlan,
        noted: Seq<ColumnarEngineDiagnostic>,
        n: int,
    ) -> Seq<ColumnarEngineDiagnostic>
        decreases n,
    {
        if n <= 0 {
            noted
        } else {
            (self.notes(expression, plan, noted, n - 1) + self.added[n - 1]).push(
                attribute_remark(expression, plan.keys@[n - 1], self.afters[n - 1]),
            )
        }
    }

    /// Whether the first `n` keys have been written.
    pub open spec fn done(
        self,
        before: OtapAttributes,
        plan: KeyPlan,
        path: Seq<ColumnarEngineSelectionPath>,
        values: Dictionary,
        after: OtapAttributes,
        n: int,
    ) -> bool {
        &&& self.afters.len() == n
        &&& self.added.len() == n
        &&& forall|k: int|
            0 <= k < n ==> attribute_after(
                before.value((#[trigger] plan.keys@[k])@),
                path,
                Some(&plan.filters@[k]),
                values,
                self.afters[k],
                self.added[k],
            )
        &&& forall|k: int|
            0 <= k < n ==> after.value((#[trigger] plan.keys@[k])@) == crate::log_updates::written(
                self.afters[k],
            )
        &&& forall|key: Seq<char>|
            !(exists|k: int| 0 <= k < n && (#[trigger] plan.keys@[k])@ == key)
                ==> #[trigger] after.value(key) == before.value(key)
    }

    spec fn with(
        self,
        after: Dictionary,
        added: Seq<ColumnarEngineDiagnostic>,
    ) -> PlanWrites {
        PlanWrites { afters: self.afters.push(after), added: self.added.push(added) }
    }

    proof fn lemma_notes_with(
        self,
        expression: ExpressionInfo,
        plan: KeyPlan,
        noted: Seq<ColumnarEngineDiagnostic>,
        n: int,
        after: Dictionary,
        added: Seq<ColumnarEngineDiagnostic>,
    )
        requires
            0 <= n <= self.afters.len(),
            self.afters.len() == self.added.len(),
        ensures
            self.with(after, added).notes(expression, plan, noted, n) == self.notes(
                expression,
                plan,
                noted,
                n,
            ),
        decreases n,
    {
        if n > 0 {
            self.lemma_notes_with(expression, plan, noted, n - 1, after, added);
        }
    }
}

/// Whether values have been written to attributes: under the key that the path starts with, or,
/// where it starts with a key for each record, under each of those for the records that have it. An
/// index leads nowhere, with a warning.
pub open spec fn attributes_updated(
    expression: ExpressionInfo,
    path: Seq<ColumnarEngineSelectionPath>,
    key_filter: Option<&RoaringBitmap>,
    values: Dictionary,
    before: OtapAttributes,
    after: OtapAttributes,
    noted: Seq<ColumnarEngineDiagnostic>,
    notes: Seq<ColumnarEngineDiagnostic>,
    r: ColumnarRecordsWriteResult,
) -> bool {
    match path[0] {
        ColumnarEngineSelectionPath::Key { key, .. } => {
            &&& r == ColumnarRecordsWriteResult::Success
            &&& after.modified
            &&& exists|column: Dictionary, added: Seq<ColumnarEngineDiagnostic>| #[trigger]
                attribute_after(before.value(key@), path, key_filter, values, column, added)
                    && after.values@ == before.values@.insert(
                    key@,
                    crate::log_updates::written(column),
                ) && notes == (noted + added).push(attribute_remark(expression, key, column))
        },
        ColumnarEngineSelectionPath::Index { expression: selector, .. } => {
            &&& r == ColumnarRecordsWriteResult::NotFound
            &&& after == before
            &&& notes == noted.push(
                crate::selection::warning(selector, DiagnosticMessage::AttributesByIndex),
            )
        },
        ColumnarEngineSelectionPath::Dictionary { expression: selector, values: keys } => {
            &&& r == ColumnarRecordsWriteResult::Success
            &&& exists|plan: KeyPlan, writes: PlanWrites| #[trigger]
                plan_written(expression, selector, path, key_filter, keys, values, before, after, noted, notes, plan, writes)
        },
    }
}

/// Whether values have been written under each key of a plan of the records.
pub open spec fn plan_written(
    expression: ExpressionInfo,
    selector: ExpressionInfo,
    path: Seq<ColumnarEngineSelectionPath>,
    key_filter: Option<&RoaringBitmap>,
    keys: Dictionary,
    values: Dictionary,
    before: OtapAttributes,
    after: OtapAttributes,
    noted: Seq<ColumnarEngineDiagnostic>,
    notes: Seq<ColumnarEngineDiagnostic>,
    plan: KeyPlan,
    writes: PlanWrites,
) -> bool {
    let records = crate::log_updates::filtered_records(key_filter, keys.rows().len());
    let planned = if crate::log_updates::any_not_text(keys, records, records.len() as int) {
        noted.push(crate::selection::warning(selector, DiagnosticMessage::LogRecordKeyNotText))
    } else {
        noted
    };
    &&& plan.covers(keys, records, records.len() as int)
    &&& writes.done(before, plan, path, values, after, plan.keys@.len() as int)
    &&& after.modified == (before.modified || plan.keys@.len() > 0)
    &&& notes == writes.notes(expression, plan, planned, plan.keys@.len() as int)
}

/// Writes values to attributes.
pub fn process_attributes_update(
    notes: &mut Vec<ColumnarEngineDiagnostic>,
    expression: &ExpressionInfo,
    path: &Vec<ColumnarEngineSelectionPath>,
    key_filter: Option<&RoaringBitmap>,
    values: &Dictionary,
    attributes: &mut OtapAttributes,
) -> (r: ColumnarRecordsWriteResult)
    requires
        path@.len() > 0,
        values.rows().len() <= 0x1_0000_0000,
        crate::log_updates::column_wf(*values, values.rows().len()),
        crate::log_updates::filter_wf(key_filter, values.rows().len()),
        path@[0] matches ColumnarEngineSelectionPath::Dictionary { values: keys, .. }
            ==> keys.rows().len() <= values.rows().len(),
        old(attributes).wf(values.rows().len()),
    ensures
        final(attributes).wf(values.rows().len()),
        final(attributes).batch == old(attributes).batch,
        attributes_updated(
            *expression,
            path@,
            key_filter,
            *values,
            *old(attributes),
            *final(attributes),
            old(notes)@,
            final(notes)@,
            r,
        ),
{
    match &path[0] {
        ColumnarEngineSelectionPath::Key { key, .. } => {
            let after = write_attribute(
                notes,
                expression,
                key,
                path,
                key_filter,
                values,
                attributes,
            );
            ColumnarRecordsWriteResult::Success
        },
        ColumnarEngineSelectionPath::Index { expression: selector, .. } => {
            notes.push(new_warning(selector, DiagnosticMessage::AttributesByIndex));
            ColumnarRecordsWriteResult::NotFound
        },
        ColumnarEngineSelectionPath::Dictionary { expression: selector, values: keys } => {
            let ghost before = *attributes;
            let ghost noted = notes@;
            let records: Vec<u32> = list_records(key_filter, keys.len());
            let plan = build_plan(notes, selector, keys, &records);
            let ghost planned = notes@;
            let ghost mut writes = PlanWrites { afters: Seq::empty(), added: Seq::empty() };
            let mut k: usize = 0;
            while k < plan.keys.len()
                invariant
                    k <= plan.keys@.len(),
                    plan.keys@.len() == plan.filters@.len(),
                    plan.covers(*keys, records@, records@.len() as int),
                    records@ == crate::log_updates::filtered_records(
                        key_filter,
                        keys.rows().len(),
                    ),
                    keys.rows().len() <= values.rows().len(),
                    values.rows().len() <= 0x1_0000_0000,
                    crate::log_updates::column_wf(*values, values.rows().len()),
                    crate::log_updates::filter_wf(key_filter, values.rows().len()),
                    attributes.wf(values.rows().len()),
                    attributes.batch == before.batch,
                    attributes.modified == (before.modified || k > 0),
                    writes.done(before, plan, path@, *values, *attributes, k as int),
                    notes@ == writes.notes(*expression, plan, planned, k as int),
                decreases plan.keys@.len() - k,
            {
                let ghost at = *attributes;
                let ghost old_writes = writes;
                let ghost at_notes = notes@;
                proof {
                    lemma_plan_filter(plan, *keys, records@, key_filter, values.rows().len(), k as int);
                    assert forall|j: int| 0 <= j < k implies (#[trigger] plan.keys@[j])@
                        != plan.keys@[k as int]@ by {}
                    assert(at.value(plan.keys@[k as int]@) == before.value(plan.keys@[k as int]@));
                }
                let after = write_attribute(
                    notes,
                    expression,
                    &plan.keys[k],
                    path,
                    Some(&plan.filters[k]),
                    values,
                    attributes,
                );
                proof {
                    let added = choose|added: Seq<ColumnarEngineDiagnostic>| #[trigger]
                        attribute_after(
                            at.value(plan.keys@[k as int]@),
                            path@,
                            Some(&plan.filters@[k as int]),
                            *values,
                            after@,
                            added,
                        ) && notes@ == (at_notes + added).push(
                            attribute_remark(*expression, plan.keys@[k as int], after@),
                        );
                    writes = old_writes.with(after@, added);
                    old_writes.lemma_notes_with(
                        *expression,
                        plan,
                        planned,
                        k as int,
                        after@,
                        added,
                    );
                    assert forall|key: Seq<char>|
                        !(exists|j: int| 0 <= j < k + 1 && (#[trigger] plan.keys@[j])@
                            == key) implies #[trigger] attributes.value(key) == before.value(key) by {
                        assert(plan.keys@[k as int]@ != key);
                        if exists|j: int| 0 <= j < k && (#[trigger] plan.keys@[j])@ == key {
                            let j = choose|j: int| 0 <= j < k && (#[trigger] plan.keys@[j])@ == key;
                            assert(plan.keys@[j]@ == key);
                        }
                        assert(at.value(key) == before.value(key));
                    }
                    assert forall|j: int| 0 <= j < k + 1 implies attributes.value(
                        (#[trigger] plan.keys@[j])@,
                    ) == crate::log_updates::written(writes.afters[j]) by {
                        if j < k {
                            assert(at.value(plan.keys@[j]@) == crate::log_updates::written(
                                old_writes.afters[j],
                            ));
                        }
                    }
                    assert forall|j: int| 0 <= j < k + 1 implies attribute_after(
                        before.value((#[trigger] plan.keys@[j])@),
                        path@,
                        Some(&plan.filters@[j]),
                        *values,
                        writes.afters[j],
                        writes.added[j],
                    ) by {}
                }
                k = k + 1;
            }
            proof {
                assert(plan_written(
                    *expression,
                    *selector,
                    path@,
                    key_filter,
                    *keys,
                    *values,
                    before,
                    *attributes,
                    noted,
                    notes@,
                    plan,
                    writes,
                ));
            }
            ColumnarRecordsWriteResult::Success
        },
    }
}

/// The filters of a plan let only records through that there are.
pub proof fn lemma_plan_filter(
    plan: KeyPlan,
    keys: Dictionary,
    records: Seq<u32>,
    key_filter: Option<&RoaringBitmap>,
    record_count: nat,
    k: int,
)
    requires
        plan.covers(keys, records, records.len() as int),
        records == crate::log_updates::filtered_records(key_filter, keys.rows().len()),
        keys.rows().len() <= record_count <= 0x1_0000_0000,
        crate::log_updates::filter_wf(key_filter, record_count),
        0 <= k < plan.keys@.len(),
    ensures
        crate::log_updates::filter_wf(Some(&plan.filters@[k]), record_count),
{
    let rows = crate::row_bitmap::bitmap_values(plan.filters@[k]);
    crate::log_updates::lemma_records_with_key(
        keys,
        records,
        plan.keys@[k]@,
        records.len() as int,
    );
    assert forall|i: int| 0 <= i < rows.len() implies #[trigger] rows[i] < record_count by {
        assert(records.subrange(0, records.len() as int) =~= records);
        assert(records.contains(rows[i]));
        let j = records.index_of(rows[i]);
        assert(records[j] == rows[i]);
    }
}

} // verus!
