//! What diagnostics say.

use vstd::prelude::*;

use crate::engine_diagnostic::DiagnosticMessage;
use crate::expressions::ExpressionFunctions;
use crate::text::{decimal_text, integer_to_text};
use crate::value_text::{dictionary_text, scalar_text, write_logical};

verus! {

/// Whether a message is written so. `tables` are the texts that tables are written as.
pub open spec fn message_says<F: ExpressionFunctions>(
    functions: &F,
    tables: Seq<String>,
    message: DiagnosticMessage,
    out: Seq<char>,
) -> bool {
    match message {
        DiagnosticMessage::Text(text) => out == text@,
        DiagnosticMessage::EvaluatedScalar(value) => exists|text: Seq<char>| #[trigger]
            crate::value_text::scalar_says(functions, tables, value, text) && out
                == "Evaluated as: "@ + text,
        DiagnosticMessage::EvaluatedLogical(value) => out == "Evaluated as: "@
            + crate::value_text::logical_text(value),
        DiagnosticMessage::FieldWritten { field, values } => exists|text: Seq<char>| #[trigger]
            crate::value_text::dictionary_says(functions, values, text) && out == "Field '"@
                + field.name() + "' set to: "@ + text,
        DiagnosticMessage::AttributeWritten { key, values } => exists|text: Seq<char>| #[trigger]
            crate::value_text::dictionary_says(functions, values, text) && out == "Attribute '"@
                + key@ + "' set to: "@ + text,
        DiagnosticMessage::SliceOfType(value_type) => out == "Cannot take a slice of '"@
            + value_type.name() + "' input"@,
        DiagnosticMessage::SliceOfTable => out == "Cannot take a slice of Map input"@,
        DiagnosticMessage::RangeStartNotInteger => out == "Range start for a slice expression should be an integer type"@,
        DiagnosticMessage::RangeEndNotInteger => out == "Range end for a slice expression should be an integer type"@,
        DiagnosticMessage::LengthOfType(value_type) => out == "Cannot calculate the length of '"@
            + value_type.name() + "' input"@,
        DiagnosticMessage::KeyIntoType { key, value_type } => out == "Could not search for map key '"@
            + key@ + "' specified in accessor expression because current node is a '"@
            + value_type.name() + "' value"@,
        DiagnosticMessage::IndexInvalid(index) => out == "Array index '"@
            + crate::text::integer_text(index as int)
            + "' specified in accessor expression is invalid"@,
        DiagnosticMessage::IndexIntoType { index, value_type } => out == "Could not search for array index '"@
            + crate::text::integer_text(index as int)
            + "' specified in accessor expression because current node is a '"@ + value_type.name()
            + "' value"@,
        DiagnosticMessage::IndexIntoTable(index) => out == "Could not search for array index '"@
            + crate::text::integer_text(index as int)
            + "' specified in accessor expression because current node is a 'Map' value"@,
        DiagnosticMessage::SelectorOfType(value_type) => out == "Unexpected scalar expression with '"@
            + value_type.name() + "' value type encountered in accessor expression"@,
        DiagnosticMessage::SelectorIsTable => out == "Unexpected scalar expression with Map value type encountered in accessor expression"@,
        DiagnosticMessage::SourceNotFound => out == "Source could not be found"@,
        DiagnosticMessage::AttachedDataNotFound => out == "Attached data could not be found"@,
        DiagnosticMessage::AttachedNameNotFound(name) => out == "Attached record matching name '"@
            + name@ + "' could not be found"@,
        DiagnosticMessage::VariableResolved(name) => out == "Resolved variable with name '"@
            + name@ + "'"@,
        DiagnosticMessage::VariableNotFound(name) => out == "Variable matching name '"@ + name@
            + "' could not be found"@,
        DiagnosticMessage::ConstantResolved { value_type, id, line, column } => out == "Resolved '"@
            + value_type.name() + "' constant with id '"@ + crate::text::decimal(id as nat)
            + "' defined on line "@ + crate::text::decimal(line as nat) + " at column "@
            + crate::text::decimal(column as nat),
        DiagnosticMessage::TypeNotBoolean(value_type) => out == "Value of '"@ + value_type.name()
            + "' type returned by scalar expression could not be converted to bool"@,
        DiagnosticMessage::TableNotBoolean => out == "Table type returned by scalar expression could not be converted to bool"@,
        DiagnosticMessage::AllRecordsIncluded => out == "All records included"@,
        DiagnosticMessage::AllRecordsDropped => out == "All records dropped"@,
        DiagnosticMessage::RecordsDropped(count) => out == "Dropped "@
            + crate::text::decimal(count as nat) + " record(s)"@,
        DiagnosticMessage::FieldHasNoInside(field) => out == "Cannot access into field '"@
            + field.name() + "'"@,
        DiagnosticMessage::FieldIsEmpty(field) => out == "Cannot access into empty '"@
            + field.name() + "'"@,
        DiagnosticMessage::FieldRemoved(field) => out == "Field '"@ + field.name() + "' removed"@,
        DiagnosticMessage::FieldNotFound(name) => out == "Field '"@ + name@
            + "' does not exist on log record"@,
        DiagnosticMessage::LogRecordKeyNotText => out == "Log record can only be accessed by string keys"@,
        DiagnosticMessage::LogRecordByIndex => out == "Log record cannot be accessed by array index"@,
        DiagnosticMessage::AttributesByIndex => out == "Attributes cannot be accessed by array index"@,
        DiagnosticMessage::AttributeRemoved(key) => out == "Attribute '"@ + key@ + "' removed"@,
        DiagnosticMessage::ColumnRemoved(field) => out == "Column '"@ + field.column_name()
            + "' removed"@,
        DiagnosticMessage::ColumnWritten { field, valid, nulls } => out == "Column '"@
            + field.column_name() + "' updated ["@ + crate::text::decimal(valid as nat)
            + " valid row(s), "@ + crate::text::decimal(nulls as nat) + " null row(s)]"@,
        DiagnosticMessage::IdsRemoved => out == "Column 'id' removed"@,
    }
}

/// Writes a message.
pub fn message_text<F: ExpressionFunctions>(
    functions: &F,
    tables: &Vec<String>,
    message: &DiagnosticMessage,
) -> (r: String)
    ensures
        message_says(functions, tables@, *message, r@),
{
    match message {
        DiagnosticMessage::Text(text) => text.as_str().to_owned(),
        DiagnosticMessage::EvaluatedScalar(value) => {
            let text: String = scalar_text(functions, tables, value);
            let mut r: String = "Evaluated as: ".to_owned();
            r.append(text.as_str());
            r
        },
        DiagnosticMessage::EvaluatedLogical(value) => {
            let mut r: String = "Evaluated as: ".to_owned();
            r.append(write_logical(value).as_str());
            r
        },
        DiagnosticMessage::FieldWritten { field, values } => {
            let text: String = dictionary_text(functions, values);
            let mut r: String = "Field '".to_owned();
            r.append(field.get_name());
            r.append("' set to: ");
            r.append(text.as_str());
            r
        },
        DiagnosticMessage::AttributeWritten { key, values } => {
            let text: String = dictionary_text(functions, values);
            let mut r: String = "Attribute '".to_owned();
            r.append(key.as_str());
            r.append("' set to: ");
            r.append(text.as_str());
            r
        },
        DiagnosticMessage::SliceOfType(value_type) => {
            let mut r: String = "Cannot take a slice of '".to_owned();
            r.append(value_type.get_name());
            r.append("' input");
            r
        },
        DiagnosticMessage::SliceOfTable => "Cannot take a slice of Map input".to_owned(),
        DiagnosticMessage::RangeStartNotInteger => "Range start for a slice expression should be an integer type".to_owned(),
        DiagnosticMessage::RangeEndNotInteger => "Range end for a slice expression should be an integer type".to_owned(),
        DiagnosticMessage::LengthOfType(value_type) => {
            let mut r: String = "Cannot calculate the length of '".to_owned();
            r.append(value_type.get_name());
            r.append("' input");
            r
        },
        DiagnosticMessage::KeyIntoType { key, value_type } => {
            let mut r: String = "Could not search for map key '".to_owned();
            r.append(key.as_str());
            r.append("' specified in accessor expression because current node is a '");
            r.append(value_type.get_name());
            r.append("' value");
            r
        },
        DiagnosticMessage::IndexInvalid(index) => {
            let mut r: String = "Array index '".to_owned();
            r.append(integer_to_text(*index).as_str());
            r.append("' specified in accessor expression is invalid");
            r
        },
        DiagnosticMessage::IndexIntoType { index, value_type } => {
            let mut r: String = "Could not search for array index '".to_owned();
            r.append(integer_to_text(*index).as_str());
            r.append("' specified in accessor expression because current node is a '");
            r.append(value_type.get_name());
            r.append("' value");
            r
        },
        DiagnosticMessage::IndexIntoTable(index) => {
            let mut r: String = "Could not search for array index '".to_owned();
            r.append(integer_to_text(*index).as_str());
            r.append("' specified in accessor expression because current node is a 'Map' value");
            r
        },
        DiagnosticMessage::SelectorOfType(value_type) => {
            let mut r: String = "Unexpected scalar expression with '".to_owned();
            r.append(value_type.get_name());
            r.append("' value type encountered in accessor expression");
            r
        },
        DiagnosticMessage::SelectorIsTable => "Unexpected scalar expression with Map value type encountered in accessor expression".to_owned(),
        DiagnosticMessage::SourceNotFound => "Source could not be found".to_owned(),
        DiagnosticMessage::AttachedDataNotFound => "Attached data could not be found".to_owned(),
        DiagnosticMessage::AttachedNameNotFound(name) => {
            let mut r: String = "Attached record matching name '".to_owned();
            r.append(name.as_str());
            r.append("' could not be found");
            r
        },
        DiagnosticMessage::VariableResolved(name) => {
            let mut r: String = "Resolved variable with name '".to_owned();
            r.append(name.as_str());
            r.append("'");
            r
        },
        DiagnosticMessage::VariableNotFound(name) => {
            let mut r: String = "Variable matching name '".to_owned();
            r.append(name.as_str());
            r.append("' could not be found");
            r
        },
        DiagnosticMessage::ConstantResolved { value_type, id, line, column } => {
            let mut r: String = "Resolved '".to_owned();
            r.append(value_type.get_name());
            r.append("' constant with id '");
            r.append(decimal_text(*id as u64).as_str());
            r.append("' defined on line ");
            r.append(decimal_text(*line as u64).as_str());
            r.append(" at column ");
            r.append(decimal_text(*column as u64).as_str());
            r
        },
        DiagnosticMessage::TypeNotBoolean(value_type) => {
            let mut r: String = "Value of '".to_owned();
            r.append(value_type.get_name());
            r.append("' type returned by scalar expression could not be converted to bool");
            r
        },
        DiagnosticMessage::TableNotBoolean => "Table type returned by scalar expression could not be converted to bool".to_owned(),
        DiagnosticMessage::AllRecordsIncluded => "All records included".to_owned(),
        DiagnosticMessage::AllRecordsDropped => "All records dropped".to_owned(),
        DiagnosticMessage::RecordsDropped(count) => {
            let mut r: String = "Dropped ".to_owned();
            r.append(decimal_text(*count as u64).as_str());
            r.append(" record(s)");
            r
        },
        DiagnosticMessage::FieldHasNoInside(field) => {
            let mut r: String = "Cannot access into field '".to_owned();
            r.append(field.get_name());
            r.append("'");
            r
        },
        DiagnosticMessage::FieldIsEmpty(field) => {
            let mut r: String = "Cannot access into empty '".to_owned();
            r.append(field.get_name());
            r.append("'");
            r
        },
        DiagnosticMessage::FieldRemoved(field) => {
            let mut r: String = "Field '".to_owned();
            r.append(field.get_name());
            r.append("' removed");
            r
        },
        DiagnosticMessage::FieldNotFound(name) => {
            let mut r: String = "Field '".to_owned();
            r.append(name.as_str());
            r.append("' does not exist on log record");
            r
        },
        DiagnosticMessage::LogRecordKeyNotText => "Log record can only be accessed by string keys".to_owned(),
        DiagnosticMessage::LogRecordByIndex => "Log record cannot be accessed by array index".to_owned(),
        DiagnosticMessage::AttributesByIndex => "Attributes cannot be accessed by array index".to_owned(),
        DiagnosticMessage::AttributeRemoved(key) => {
            let mut r: String = "Attribute '".to_owned();
            r.append(key.as_str());
            r.append("' removed");
            r
        },
        DiagnosticMessage::ColumnRemoved(field) => {
            let mut r: String = "Column '".to_owned();
            r.append(field.get_column_name());
            r.append("' removed");
            r
        },
        DiagnosticMessage::ColumnWritten { field, valid, nulls } => {
            let mut r: String = "Column '".to_owned();
            r.append(field.get_column_name());
            r.append("' updated [");
            r.append(decimal_text(*valid as u64).as_str());
            r.append(" valid row(s), ");
            r.append(decimal_text(*nulls as u64).as_str());
            r.append(" null row(s)]");
            r
        },
        DiagnosticMessage::IdsRemoved => "Column 'id' removed".to_owned(),
    }
}

} // verus!
