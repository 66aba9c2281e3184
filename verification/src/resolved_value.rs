//! What expressions evaluate to.

use std::rc::Rc;

use arrow::array::BooleanArray;
use vstd::prelude::*;

use crate::dictionary::Dictionary;
use crate::dictionary_keys::{DictionaryKeyArray, KeyDataType};
use crate::dictionary_values::DictionaryValueArray;
use crate::value::ValueOrRef;

verus! {

/// What a scalar expression evaluates to: a value for all records, a value for each, or a table.
pub enum ResolvedScalarValue {
    Single(ValueOrRef),
    Dictionary(Dictionary),
    Table(usize),
}

/// What a logical expression evaluates to: a truth for all records, or one for each.
pub enum ResolvedLogicalValue {
    Single(bool),
    Array { data_type: KeyDataType, values: Rc<BooleanArray> },
}

/// What a variable holds: a value for all records, or one for each.
pub enum ResolvedSingleOrDictionaryValue {
    Single(ValueOrRef),
    Dictionary(Dictionary),
}

/// The single value, or the dictionary, as a dictionary of `key_count` records.
pub open spec fn spread(value: ValueOrRef, key_type: KeyDataType, key_count: nat, r: Dictionary) -> bool {
    &&& r.wf()
    &&& r.is_scalar(key_type, key_count, value)
    &&& r.rows() == Seq::new(key_count, |i: int| value)
}

impl ResolvedScalarValue {
    /// Whether the positions in the dictionary, if it is one, are those of values.
    pub open spec fn wf(self) -> bool {
        self matches ResolvedScalarValue::Dictionary(d) ==> d.wf()
    }

    /// Null for all records.
    pub fn new_null() -> (r: Self)
        ensures
            r == ResolvedScalarValue::Single(ValueOrRef::Null),
    {
        ResolvedScalarValue::Single(ValueOrRef::Null)
    }

    /// An integer for all records.
    pub fn new_int(value: i64) -> (r: Self)
        ensures
            r == ResolvedScalarValue::Single(ValueOrRef::Integer(value)),
    {
        ResolvedScalarValue::Single(ValueOrRef::Integer(value))
    }

    /// The value as a dictionary. There is none for a table.
    pub fn try_into_dictionary(self, key_type: KeyDataType, key_count: usize) -> (r: Result<
        Dictionary,
        (),
    >)
        ensures
            r is Err == self is Table,
            self matches ResolvedScalarValue::Dictionary(d) ==> r == Ok::<Dictionary, ()>(d),
            self matches ResolvedScalarValue::Single(value) ==> spread(
                value,
                key_type,
                key_count as nat,
                r->Ok_0,
            ),
    {
        match self {
            ResolvedScalarValue::Single(value) => {
                if value.is_null() {
                    Ok(Dictionary::new_null_with_data_type(key_count, key_type))
                } else {
                    Ok(Dictionary::new_scalar_with_data_type(key_type, key_count, value))
                }
            },
            ResolvedScalarValue::Dictionary(d) => Ok(d),
            ResolvedScalarValue::Table(_) => Err(()),
        }
    }

    /// The number of records and the key type of the first dictionary among three values.
    pub open spec fn first_key_info(
        first: ResolvedScalarValue,
        second: ResolvedScalarValue,
        third: ResolvedScalarValue,
    ) -> Option<(nat, KeyDataType)> {
        match (first, second, third) {
            (ResolvedScalarValue::Dictionary(d), _, _) => Some((d.rows().len(), d.keys.key_type())),
            (_, ResolvedScalarValue::Dictionary(d), _) => Some((d.rows().len(), d.keys.key_type())),
            (_, _, ResolvedScalarValue::Dictionary(d)) => Some((d.rows().len(), d.keys.key_type())),
            _ => None,
        }
    }

    fn key_info(&self) -> (r: Option<(usize, KeyDataType)>)
        ensures
            r is Some == self is Dictionary,
            self matches ResolvedScalarValue::Dictionary(d) ==> r == Some(
                (d.rows().len() as usize, d.keys.key_type()),
            ) && d.rows().len() <= usize::MAX,
    {
        match self {
            ResolvedScalarValue::Dictionary(d) => Some((d.len(), d.keys.data_type())),
            _ => None,
        }
    }

    /// The number of records and the key type of the first dictionary among the values.
    pub fn try_get_key_info(
        first: &ResolvedScalarValue,
        second: &ResolvedScalarValue,
        third: &ResolvedScalarValue,
    ) -> (r: Result<(usize, KeyDataType), ()>)
        ensures
            match Self::first_key_info(*first, *second, *third) {
                Some(info) => r matches Ok(found) && found.0 == info.0 && found.1 == info.1,
                None => r is Err,
            },
    {
        if let Some(info) = first.key_info() {
            return Ok(info);
        }
        if let Some(info) = second.key_info() {
            return Ok(info);
        }
        if let Some(info) = third.key_info() {
            return Ok(info);
        }
        Err(())
    }

    /// The value of a logical expression as that of a scalar one.
    pub fn from_logical(value: ResolvedLogicalValue) -> (r: Self)
        ensures
            match value {
                ResolvedLogicalValue::Single(single) => r == ResolvedScalarValue::Single(
                    ValueOrRef::Boolean(single),
                ),
                ResolvedLogicalValue::Array { data_type, values } => {
                    &&& r matches ResolvedScalarValue::Dictionary(d)
                    &&& d.wf()
                    &&& d.keys == (DictionaryKeyArray::BooleanArray { data_type, values })
                    &&& d.values == DictionaryValueArray::Boolean
                    &&& d.rows() == Seq::new(
                        crate::boolean_array::boolean_values(*values).len(),
                        |i: int|
                            match crate::boolean_array::boolean_values(*values)[i] {
                                Some(b) => ValueOrRef::Boolean(b),
                                None => ValueOrRef::Null,
                            },
                    )
                },
            },
    {
        match value {
            ResolvedLogicalValue::Single(single) => ResolvedScalarValue::Single(
                ValueOrRef::Boolean(single),
            ),
            ResolvedLogicalValue::Array { data_type, values } => {
                let ghost source = values;
                let d = Dictionary::new(
                    DictionaryKeyArray::BooleanArray { data_type, values },
                    DictionaryValueArray::Boolean,
                );
                assert(d.rows() =~= Seq::new(
                    crate::boolean_array::boolean_values(*source).len(),
                    |i: int|
                        match crate::boolean_array::boolean_values(*source)[i] {
                            Some(b) => ValueOrRef::Boolean(b),
                            None => ValueOrRef::Null,
                        },
                ));
                ResolvedScalarValue::Dictionary(d)
            },
        }
    }
}

impl ResolvedSingleOrDictionaryValue {
    /// Whether the positions in the dictionary, if it is one, are those of values.
    pub open spec fn wf(self) -> bool {
        self matches ResolvedSingleOrDictionaryValue::Dictionary(d) ==> d.wf()
    }

    /// The value as a dictionary.
    pub fn into_dictionary(self, key_data_type: KeyDataType, key_count: usize) -> (r: Dictionary)
        ensures
            match self {
                ResolvedSingleOrDictionaryValue::Single(value) => spread(
                    value,
                    key_data_type,
                    key_count as nat,
                    r,
                ),
                ResolvedSingleOrDictionaryValue::Dictionary(d) => r == d,
            },
    {
        match self {
            ResolvedSingleOrDictionaryValue::Single(value) => {
                if value.is_null() {
                    Dictionary::new_null_with_data_type(key_count, key_data_type)
                } else {
                    Dictionary::new_scalar_with_data_type(key_data_type, key_count, value)
                }
            },
            ResolvedSingleOrDictionaryValue::Dictionary(d) => d,
        }
    }

    /// The value as that of a scalar expression.
    pub open spec fn as_scalar(self) -> ResolvedScalarValue {
        match self {
            ResolvedSingleOrDictionaryValue::Single(value) => ResolvedScalarValue::Single(value),
            ResolvedSingleOrDictionaryValue::Dictionary(d) => ResolvedScalarValue::Dictionary(d),
        }
    }

    /// The value as that of a scalar expression.
    pub fn to_scalar(&self) -> (r: ResolvedScalarValue)
        ensures
            r == self.as_scalar(),
    {
        match self {
            ResolvedSingleOrDictionaryValue::Single(value) => ResolvedScalarValue::Single(
                value.clone(),
            ),
            ResolvedSingleOrDictionaryValue::Dictionary(d) => ResolvedScalarValue::Dictionary(
                d.clone(),
            ),
        }
    }
}

impl Clone for ResolvedScalarValue {
    fn clone(&self) -> (copy: Self)
        ensures
            copy == *self,
    {
        match self {
            ResolvedScalarValue::Single(value) => ResolvedScalarValue::Single(value.clone()),
            ResolvedScalarValue::Dictionary(d) => ResolvedScalarValue::Dictionary(d.clone()),
            ResolvedScalarValue::Table(t) => ResolvedScalarValue::Table(*t),
        }
    }
}

impl Clone for ResolvedLogicalValue {
    fn clone(&self) -> (copy: Self)
        ensures
            copy == *self,
    {
        match self {
            ResolvedLogicalValue::Single(b) => ResolvedLogicalValue::Single(*b),
            ResolvedLogicalValue::Array { data_type, values } => ResolvedLogicalValue::Array {
                data_type: *data_type,
                values: values.clone(),
            },
        }
    }
}

}
