# data_engine_columnar

A query engine for log records that are held in columns. A pipeline drops records by a predicate, or
writes values to them; it is evaluated on whole columns, most of which are dictionaries: a key for
each record, and the values that the keys lead to.

- `src/` is the library, verified with Verus.
  - Values and columns: `value`, `column_array`, `nullable_column`, `dictionary*`, `boolean_array`.
  - Expressions: `expressions`, `scalars`, `selection`, `slicing`, `slice_expression`,
    `logical_expressions`.
  - Runs of a pipeline, and what they tell: `engine`, `engine_diagnostic`, `format_diagnostics`,
    `message_text`, `bridge`.
  - Log records and their attributes: `log_*`, `otap_*`, `attribute*`, `existing_attributes`,
    `record_batches`, `batches_factory`, `column_writer`.
  - Laws that relate several functions are the public proof functions, most of them in
    `attribute_laws`, `log_laws`, `log_columns`, `logical_expressions`, `engine`,
    `batches_factory` and `slicing`.
- `app/` reads the columns from Arrow record batches, writes them back, and turns values into CBOR.
- `tests/` runs the library.

The conversions and comparisons of the query language, the encoding of ids and the layout of bodies
come from callers, through traits whose methods promise nothing (`ExpressionFunctions`,
`ValueConversions`, `ValueCodec`, `IdDecoder`, `BodyColumns`, `LogBatchFormat`).

Calls into other crates are in functions marked `external_body` and in `assume_specification` items;
the comment above each names the function that is called and says what is claimed of it.
