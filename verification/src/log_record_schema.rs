//! The names that a query may use on log records, and the types of what they lead to.

use std::rc::Rc;

use vstd::prelude::*;

use crate::log_schema::{normalize_key, LogRecordKey, OtapLogRecordField, FIELD_COUNT};
use crate::named_values::NamedValues;

verus! {

/// The type of what a key leads to.
pub enum KeySchema {
    Any,
    Array,
    Boolean,
    DateTime,
    Double,
    Integer,
    MapOf(Option<Rc<MapSchema>>),
    Regex,
    String,
    TimeSpan,
}

/// The keys of a map, and whether it may have others.
pub struct MapSchema {
    pub keys: NamedValues<KeySchema>,
    pub allow_undefined_keys: bool,
}

impl Clone for KeySchema {
    fn clone(&self) -> (copy: Self)
        ensures
            copy == *self,
    {
        match self {
            KeySchema::Any => KeySchema::Any,
            KeySchema::Array => KeySchema::Array,
            KeySchema::Boolean => KeySchema::Boolean,
            KeySchema::DateTime => KeySchema::DateTime,
            KeySchema::Double => KeySchema::Double,
            KeySchema::Integer => KeySchema::Integer,
            KeySchema::MapOf(Some(map)) => KeySchema::MapOf(Some(map.clone())),
            KeySchema::MapOf(None) => KeySchema::MapOf(None),
            KeySchema::Regex => KeySchema::Regex,
            KeySchema::String => KeySchema::String,
            KeySchema::TimeSpan => KeySchema::TimeSpan,
        }
    }
}

impl OtapLogRecordField {
    /// The type of the field.
    pub open spec fn schema(self) -> KeySchema {
        match self {
            OtapLogRecordField::TimeUnixNano => KeySchema::DateTime,
            OtapLogRecordField::ObservedTimeUnixNano => KeySchema::DateTime,
            OtapLogRecordField::SeverityNumber => KeySchema::Integer,
            OtapLogRecordField::SeverityText => KeySchema::String,
            OtapLogRecordField::TraceId => KeySchema::Array,
            OtapLogRecordField::SpanId => KeySchema::Array,
            OtapLogRecordField::Flags => KeySchema::Integer,
            OtapLogRecordField::EventName => KeySchema::String,
            OtapLogRecordField::Body => KeySchema::Any,
        }
    }

    /// The type of the field.
    pub fn get_schema(&self) -> (r: KeySchema)
        ensures
            r == self.schema(),
    {
        match self {
            OtapLogRecordField::TimeUnixNano => KeySchema::DateTime,
            OtapLogRecordField::ObservedTimeUnixNano => KeySchema::DateTime,
            OtapLogRecordField::SeverityNumber => KeySchema::Integer,
            OtapLogRecordField::SeverityText => KeySchema::String,
            OtapLogRecordField::TraceId => KeySchema::Array,
            OtapLogRecordField::SpanId => KeySchema::Array,
            OtapLogRecordField::Flags => KeySchema::Integer,
            OtapLogRecordField::EventName => KeySchema::String,
            OtapLogRecordField::Body => KeySchema::Any,
        }
    }

    /// Whether a type is that of the field.
    fn has_schema(&self, declared: &KeySchema) -> (r: bool)
        ensures
            r == (*declared == self.schema()),
    {
        match (self.get_schema(), declared) {
            (KeySchema::Any, KeySchema::Any) => true,
            (KeySchema::Array, KeySchema::Array) => true,
            (KeySchema::DateTime, KeySchema::DateTime) => true,
            (KeySchema::Integer, KeySchema::Integer) => true,
            (KeySchema::String, KeySchema::String) => true,
            _ => false,
        }
    }
}

/// A key of attributes that goes by the name of a field, but has another type.
pub struct SchemaConflict {
    pub key: String,
    pub declared: KeySchema,
}

/// Whether a key goes by the name of a field.
pub open spec fn names_field(key: Seq<char>) -> bool {
    crate::log_schema::log_record_key(key) is Field
}

/// Whether a key goes by the name of a field, but has another type.
pub open spec fn conflicts(key: Seq<char>, declared: KeySchema) -> bool {
    crate::log_schema::log_record_key(key) matches LogRecordKey::Field(field) && declared
        != field.schema()
}

/// The keys of attributes that do not go by the name of a field.
pub open spec fn own_keys(keys: Map<Seq<char>, KeySchema>) -> Map<Seq<char>, KeySchema> {
    Map::new(
        |key: Seq<char>| keys.contains_key(key) && !names_field(key),
        |key: Seq<char>| keys[key],
    )
}

/// The types of the first `n` fields, by the names of their columns.
pub open spec fn field_keys(n: int) -> Map<Seq<char>, KeySchema>
    decreases n,
{
    if n <= 0 {
        Map::empty()
    } else {
        let field = crate::log_columns::field_at(n - 1);
        field_keys(n - 1).insert(field.column_name(), field.schema())
    }
}

/// Adds the fields to keys.
fn insert_fields(keys: &mut NamedValues<KeySchema>)
    requires
        old(keys)@ == (Map::<Seq<char>, KeySchema>::empty()),
    ensures
        final(keys)@ == field_keys(FIELD_COUNT as int),
{
    let mut k: usize = 0;
    while k < FIELD_COUNT
        invariant
            k <= FIELD_COUNT,
            keys@ == field_keys(k as int),
        decreases FIELD_COUNT - k,
    {
        if let Some(field) = OtapLogRecordField::from_index(k) {
            proof {
                crate::log_columns::lemma_field_at(field);
            }
            keys.insert(field.get_column_name().to_owned(), field.get_schema());
        }
        k = k + 1;
    }
}

/// The keys of attributes that do not go by the name of a field, unless one that does has another
/// type than the field.
fn remove_fields(attributes: &NamedValues<KeySchema>) -> (r: Result<
    NamedValues<KeySchema>,
    SchemaConflict,
>)
    ensures
        match r {
            Ok(keys) => {
                &&& keys@ == own_keys(attributes@)
                &&& forall|key: Seq<char>|
                    attributes@.contains_key(key) ==> !conflicts(key, #[trigger] attributes@[key])
            },
            Err(conflict) => {
                &&& attributes@.contains_key(conflict.key@)
                &&& attributes@[conflict.key@] == conflict.declared
                &&& conflicts(conflict.key@, conflict.declared)
            },
        },
{
    let count: usize = attributes.len();
    let mut keys: NamedValues<KeySchema> = NamedValues::new();
    let mut i: usize = 0;
    while i < count
        invariant
            i <= count,
            count == attributes.names().len(),
            forall|key: Seq<char>|
                #[trigger] attributes@.contains_key(key) == attributes.names().contains(key),
            forall|key: Seq<char>|
                #[trigger] keys@.contains_key(key) == (!names_field(key) && exists|j: int|
                    0 <= j < i && #[trigger] attributes.names()[j] == key),
            forall|key: Seq<char>|
                keys@.contains_key(key) ==> #[trigger] keys@[key] == attributes@[key],
            forall|j: int|
                0 <= j < i ==> !conflicts(
                    #[trigger] attributes.names()[j],
                    attributes@[attributes.names()[j]],
                ),
        decreases attributes.names().len() - i,
    {
        let (name, declared) = attributes.entry(i);
        let ghost before = keys@;
        match normalize_key(name) {
            LogRecordKey::Field(field) => {
                if !field.has_schema(declared) {
                    return Err(
                        SchemaConflict { key: name.to_owned(), declared: declared.clone() },
                    );
                }
            },
            _ => {
                keys.insert(name.to_owned(), declared.clone());
            },
        }
        proof {
            assert forall|key: Seq<char>|
                #[trigger] keys@.contains_key(key) == (!names_field(key) && exists|j: int|
                    0 <= j < i + 1 && #[trigger] attributes.names()[j] == key) by {
                if key == name@ {
                    assert(attributes.names()[i as int] == key);
                } else if before.contains_key(key) {
                    let j = choose|j: int| 0 <= j < i && #[trigger] attributes.names()[j] == key;
                    assert(attributes.names()[j] == key);
                }
            }
        }
        i = i + 1;
    }
    proof {
        assert forall|key: Seq<char>| attributes@.contains_key(key) implies !conflicts(
            key,
            #[trigger] attributes@[key],
        ) by {
            let j = choose|j: int|
                0 <= j < attributes.names().len() && attributes.names()[j] == key;
            assert(attributes.names()[j] == key);
        }
        assert(keys@ =~= own_keys(attributes@)) by {
            assert forall|key: Seq<char>| keys@.contains_key(key) == own_keys(
                attributes@,
            ).contains_key(key) by {
                if attributes@.contains_key(key) {
                    let j = choose|j: int|
                        0 <= j < attributes.names().len() && attributes.names()[j] == key;
                    assert(attributes.names()[j] == key);
                }
            }
        }
    }
    Ok(keys)
}

/// Whether a key is among the first `n` names.
spec fn among(names: Seq<Seq<char>>, n: int, key: Seq<char>) -> bool {
    exists|j: int| 0 <= j < n && #[trigger] names[j] == key
}

/// Adds keys to others.
fn insert_all(keys: &mut NamedValues<KeySchema>, more: &NamedValues<KeySchema>)
    ensures
        final(keys)@ == old(keys)@.union_prefer_right(more@),
{
    let count: usize = more.len();
    let mut i: usize = 0;
    while i < count
        invariant
            i <= count,
            count == more.names().len(),
            forall|key: Seq<char>|
                #[trigger] more@.contains_key(key) == more.names().contains(key),
            forall|key: Seq<char>|
                #[trigger] keys@.contains_key(key) == (old(keys)@.contains_key(key) || among(
                    more.names(),
                    i as int,
                    key,
                )),
            forall|key: Seq<char>|
                keys@.contains_key(key) ==> #[trigger] keys@[key] == (if among(
                    more.names(),
                    i as int,
                    key,
                ) {
                    more@[key]
                } else {
                    old(keys)@[key]
                }),
        decreases more.names().len() - i,
    {
        let (name, schema) = more.entry(i);
        let ghost before = keys@;
        keys.insert(name.to_owned(), schema.clone());
        proof {
            assert forall|key: Seq<char>| #[trigger]
                among(more.names(), i + 1, key) == (key == name@ || among(
                    more.names(),
                    i as int,
                    key,
                )) by {
                if key == name@ {
                    assert(more.names()[i as int] == key);
                }
            }
            assert forall|key: Seq<char>| #[trigger] keys@.contains_key(key) == (
            old(keys)@.contains_key(key) || among(more.names(), i + 1, key)) by {
                assert(before.contains_key(key) == (old(keys)@.contains_key(key) || among(
                    more.names(),
                    i as int,
                    key,
                )));
            }
            assert forall|key: Seq<char>| keys@.contains_key(key) implies #[trigger] keys@[key]
                == (if among(more.names(), i + 1, key) {
                more@[key]
            } else {
                old(keys)@[key]
            }) by {
                if key != name@ {
                    assert(before.contains_key(key));
                    assert(before[key] == keys@[key]);
                }
            }
        }
        i = i + 1;
    }
    proof {
        assert forall|key: Seq<char>| #[trigger] more@.contains_key(key) == among(
            more.names(),
            i as int,
            key,
        ) by {
            if more@.contains_key(key) {
                let j = choose|j: int| 0 <= j < more.names().len() && more.names()[j] == key;
                assert(more.names()[j] == key);
            }
        }
        assert(keys@ =~= old(keys)@.union_prefer_right(more@));
    }
}

/// The keys of log records, and those of what a summary of them may use. Those of attributes that go
/// by the name of a field are left out, so that the name means the field; it is an error if one has
/// another type than the field.
pub fn build_log_record_schema(attributes_schema: Option<&MapSchema>) -> (r: Result<
    (MapSchema, Option<MapSchema>),
    SchemaConflict,
>)
    ensures
        match attributes_schema {
            None => {
                &&& r matches Ok((record, summary))
                &&& record.keys@ == field_keys(FIELD_COUNT as int)
                &&& summary is None
            },
            Some(attributes) => match r {
                Ok((record, summary)) => {
                    &&& forall|key: Seq<char>|
                        attributes.keys@.contains_key(key) ==> !conflicts(
                            key,
                            #[trigger] attributes.keys@[key],
                        )
                    &&& record.keys@.contains_key("attributes"@)
                    &&& record.keys@["attributes"@] matches KeySchema::MapOf(Some(own))
                    &&& own.keys@ == own_keys(attributes.keys@)
                    &&& own.allow_undefined_keys == attributes.allow_undefined_keys
                    &&& record.keys@ == field_keys(FIELD_COUNT as int).insert(
                        "attributes"@,
                        record.keys@["attributes"@],
                    )
                    &&& summary matches Some(summary)
                    &&& summary.allow_undefined_keys == attributes.allow_undefined_keys
                    &&& summary.keys@ == field_keys(FIELD_COUNT as int).union_prefer_right(
                        own_keys(attributes.keys@),
                    )
                },
                Err(conflict) => {
                    &&& attributes.keys@.contains_key(conflict.key@)
                    &&& attributes.keys@[conflict.key@] == conflict.declared
                    &&& conflicts(conflict.key@, conflict.declared)
                },
            },
        },
        r matches Ok((record, _)) ==> !record.allow_undefined_keys,
{
    let mut record_keys: NamedValues<KeySchema> = NamedValues::new();
    insert_fields(&mut record_keys);
    match attributes_schema {
        None => Ok((MapSchema { keys: record_keys, allow_undefined_keys: false }, None)),
        Some(attributes) => {
            let own: NamedValues<KeySchema> = match remove_fields(&attributes.keys) {
                Ok(own) => own,
                Err(conflict) => {
                    return Err(conflict);
                },
            };
            let mut summary_keys: NamedValues<KeySchema> = NamedValues::new();
            insert_fields(&mut summary_keys);
            insert_all(&mut summary_keys, &own);
            let allow_undefined_keys: bool = attributes.allow_undefined_keys;
            record_keys.insert(
                "attributes".to_owned(),
                KeySchema::MapOf(Some(Rc::new(MapSchema { keys: own, allow_undefined_keys }))),
            );
            Ok(
                (
                    MapSchema { keys: record_keys, allow_undefined_keys: false },
                    Some(MapSchema { keys: summary_keys, allow_undefined_keys }),
                ),
            )
        },
    }
}

} // verus!
