//! A columnar query engine over dictionary encoded log records.

pub mod arrow_utils;
pub mod attribute_columns;
pub mod attribute_laws;
pub mod attribute_value_laws;
pub mod attributes_batch;
pub mod attributes_builder;
pub mod attributes_writer;
pub mod batches_factory;
pub mod boolean_array;
pub mod bridge;
pub mod bridge_error;
pub mod collections;
pub mod column_array;
pub mod column_laws;
pub mod column_value_laws;
pub mod column_writer;
pub mod columnar_records;
pub mod dictionary;
pub mod dictionary_keys;
pub mod dictionary_laws;
pub mod dictionary_merge;
pub mod dictionary_transform;
pub mod dictionary_values;
pub mod engine;
pub mod engine_diagnostic;
pub mod engine_laws;
pub mod execution_context;
pub mod existing_attributes;
pub mod expressions;
pub mod filter_laws;
pub mod format_diagnostics;
pub mod id_bitmap;
pub mod id_laws;
pub mod interning;
pub mod json;
pub mod log_body;
pub mod log_columns;
pub mod log_factory;
pub mod log_fields;
pub mod log_laws;
pub mod log_record_schema;
pub mod log_records;
pub mod log_schema;
pub mod log_updates;
pub mod logical_expressions;
pub mod logical_laws;
pub mod message_laws;
pub mod message_text;
pub mod named_values;
pub mod note_laws;
pub mod nullable_column;
pub mod otap_attributes;
pub mod otap_ids;
pub mod otap_value;
pub mod path_laws;
pub mod path_update;
pub mod pipeline_laws;
pub mod processed_value;
pub mod record_batches;
pub mod resolved_value;
pub mod row_bitmap;
pub mod scalar_laws;
pub mod scalars;
pub mod schema_laws;
pub mod selection;
pub mod serialization;
pub mod slice_expression;
pub mod slicing;
pub mod source_laws;
pub mod table_records;
pub mod text;
pub mod text_laws;
pub mod value;
pub mod value_column;
pub mod value_laws;
pub mod value_text;
pub mod write_laws;
