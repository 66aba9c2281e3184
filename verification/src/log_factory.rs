//! Making log records out of their columns.

use vstd::prelude::*;

use crate::attribute_columns::ValueCodec;
use crate::attributes_batch::OtapAttributesBatch;
use crate::dictionary::Dictionary;
use crate::engine_diagnostic::ColumnarEngineDiagnosticLevel;
use crate::log_fields::{LogsTable, OtapLogRecordFields};
use crate::log_records::{LogRecords, OtapLogRecordBatch, OtapResource, OtapScope};
use crate::otap_attributes::OtapAttributes;

verus! {

/// The columns of the scopes that log records come from.
pub struct ScopeColumns {
    pub name: Option<Dictionary>,
    pub version: Option<Dictionary>,
}

/// The columns of log records and of what belongs to them. A resource or scope is there if the
/// records have a column of it.
pub struct LogSource {
    pub logs: Option<LogsTable>,
    pub log_attributes: Option<OtapAttributesBatch>,
    pub has_resource: bool,
    pub resource_attributes: Option<OtapAttributesBatch>,
    pub scope: Option<ScopeColumns>,
    pub scope_attributes: Option<OtapAttributesBatch>,
}

/// Whether attributes that come in columns are those of the records.
pub open spec fn batch_wf(batch: Option<OtapAttributesBatch>, record_count: nat) -> bool {
    batch matches Some(batch) ==> batch.wf() && batch.ids@.len() == record_count
}

impl LogSource {
    /// Whether every column has a value for each record.
    pub open spec fn wf(&self) -> bool {
        self.logs matches Some(logs) ==> {
            &&& logs.wf()
            &&& logs.record_count <= 0x1_0000_0000
            &&& batch_wf(self.log_attributes, logs.record_count as nat)
            &&& self.has_resource ==> batch_wf(self.resource_attributes, logs.record_count as nat)
            &&& self.scope matches Some(scope) ==> {
                &&& batch_wf(self.scope_attributes, logs.record_count as nat)
                &&& scope.name matches Some(column) ==> column.wf()
                &&& scope.version matches Some(column) ==> column.wf()
            }
        }
    }
}

/// Whether `attributes` are those that come in columns: what each record has under each key.
pub open spec fn attributes_from<C: ValueCodec>(
    codec: &C,
    batch: Option<OtapAttributesBatch>,
    attributes: Option<OtapAttributes>,
) -> bool {
    match (batch, attributes) {
        (None, None) => true,
        (Some(batch), Some(attributes)) => {
            &&& attributes.batch == Some(batch)
            &&& !attributes.modified
            &&& forall|key: Seq<char>|
                #[trigger] attributes.values@.contains_key(key) == (exists|k: int|
                    #[trigger] batch.columns.keys.first_at(key, k))
            &&& forall|key: Seq<char>|
                attributes.values@.contains_key(key) ==> crate::otap_attributes::read_from(
                    codec,
                    batch,
                    key,
                    #[trigger] attributes.values@[key],
                )
        },
        _ => false,
    }
}

/// The attributes that come in columns.
fn read_attributes<C: ValueCodec>(codec: &C, batch: Option<OtapAttributesBatch>) -> (r: Option<
    OtapAttributes,
>)
    requires
        batch matches Some(batch) ==> batch.wf(),
    ensures
        attributes_from(codec, batch, r),
        batch matches Some(batch) ==> r->0.wf(batch.ids@.len()),
{
    match batch {
        Some(batch) => Some(OtapAttributes::new(codec, batch)),
        None => None,
    }
}

/// Makes log records.
#[derive(Debug, Clone, Copy)]
pub struct OtapLogRecordBatchFactory {
    pub diagnostic_level: Option<ColumnarEngineDiagnosticLevel>,
}

/// Whether a factory makes these records of the columns. What is known of fields from before is kept.
/// Without columns of records there are none, whatever else there is.
pub open spec fn made_of<C: ValueCodec>(
    factory: OtapLogRecordBatchFactory,
    codec: &C,
    state: Option<OtapLogRecordFields>,
    source: LogSource,
    records: LogRecords,
) -> bool {
    match source.logs {
        Some(logs) => {
            &&& records.diagnostic_level == factory.diagnostic_level
            &&& records.logs == Some(logs)
            &&& attributes_from(codec, source.log_attributes, records.attributes)
            &&& records.resource is Some == source.has_resource
            &&& records.resource matches Some(resource) ==> attributes_from(
                codec,
                source.resource_attributes,
                resource.attributes,
            )
            &&& records.scope is Some == source.scope is Some
            &&& records.scope matches Some(scope) ==> {
                &&& scope.name == source.scope->0.name
                &&& scope.version == source.scope->0.version
                &&& attributes_from(codec, source.scope_attributes, scope.attributes)
            }
            &&& match state {
                Some(fields) => records.fields == fields,
                None => forall|k: int|
                    0 <= k < crate::log_schema::FIELD_COUNT
                        ==> #[trigger] records.fields.cells@[k] is None,
            }
        },
        None => {
            &&& records.logs is None
            &&& records.attributes is None
            &&& records.resource is None
            &&& records.scope is None
            &&& records.diagnostic_level is None
        },
    }
}

impl OtapLogRecordBatchFactory {
    /// A factory of records that ask for no level of diagnostics.
    pub fn new() -> (r: Self)
        ensures
            r.diagnostic_level is None,
    {
        Self::new_with_options(None)
    }

    /// A factory of records that ask for a level of diagnostics.
    pub fn new_with_options(diagnostic_level: Option<ColumnarEngineDiagnosticLevel>) -> (r: Self)
        ensures
            r.diagnostic_level == diagnostic_level,
    {
        OtapLogRecordBatchFactory { diagnostic_level }
    }

    /// The records of the columns. What is known of fields from before is kept. Without columns of
    /// records there are none, whatever else there is.
    pub fn create<C: ValueCodec>(
        &self,
        codec: &C,
        state: Option<OtapLogRecordFields>,
        source: LogSource,
    ) -> (r: OtapLogRecordBatch)
        requires
            source.wf(),
            state matches Some(fields) ==> source.logs matches Some(logs) ==> fields.wf(
                logs.record_count as nat,
            ),
        ensures
            made_of(*self, codec, state, source, r@),
            crate::source_laws::as_in_source(codec, source, state is Some, r@),
    {
        let ghost given = source;
        let ghost known = state;
        let logs = match source.logs {
            Some(logs) => logs,
            None => {
                let r = OtapLogRecordBatch::new_empty();
                proof {
                    crate::source_laws::lemma_records_read_as_their_source(
                        *self,
                        codec,
                        known,
                        given,
                        r@,
                    );
                }
                return r;
            },
        };
        let attributes = read_attributes(codec, source.log_attributes);
        let resource: Option<OtapResource> = if source.has_resource {
            Some(OtapResource { attributes: read_attributes(codec, source.resource_attributes) })
        } else {
            None
        };
        let scope: Option<OtapScope> = match source.scope {
            Some(columns) => Some(
                OtapScope {
                    name: columns.name,
                    version: columns.version,
                    attributes: read_attributes(codec, source.scope_attributes),
                },
            ),
            None => None,
        };
        let fields: OtapLogRecordFields = match state {
            Some(fields) => fields,
            None => OtapLogRecordFields::new(),
        };
        let r = OtapLogRecordBatch::new(
            LogRecords {
                diagnostic_level: self.diagnostic_level,
                logs: Some(logs),
                attributes,
                resource,
                scope,
                fields,
            },
        );
        proof {
            crate::source_laws::lemma_records_read_as_their_source(*self, codec, known, given, r@);
        }
        r
    }
}

} // verus!
