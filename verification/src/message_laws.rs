//! What messages name.

use vstd::prelude::*;

use crate::engine_diagnostic::DiagnosticMessage;
use crate::expressions::ExpressionFunctions;

verus! {

/// Whether a message has to hold a text: the name, the type or the number that it is about.
pub open spec fn mentions(message: DiagnosticMessage, part: Seq<char>) -> bool {
    match message {
        DiagnosticMessage::Text(text) => part == text@,
        DiagnosticMessage::SliceOfType(value_type) => part == value_type.name(),
        DiagnosticMessage::LengthOfType(value_type) => part == value_type.name(),
        DiagnosticMessage::KeyIntoType { key, value_type } => {
            ||| part == key@
            ||| part == value_type.name()
        },
        DiagnosticMessage::IndexInvalid(index) => part == crate::text::integer_text(index as int),
        DiagnosticMessage::IndexIntoType { index, value_type } => {
            ||| part == crate::text::integer_text(index as int)
            ||| part == value_type.name()
        },
        DiagnosticMessage::IndexIntoTable(index) => part == crate::text::integer_text(index as int),
        DiagnosticMessage::SelectorOfType(value_type) => part == value_type.name(),
        DiagnosticMessage::AttachedNameNotFound(name) => part == name@,
        DiagnosticMessage::VariableResolved(name) => part == name@,
        DiagnosticMessage::VariableNotFound(name) => part == name@,
        DiagnosticMessage::ConstantResolved { value_type, id, line, column } => {
            ||| part == value_type.name()
            ||| part == "' constant with id '"@ + crate::text::decimal(id as nat)
            ||| part == "' defined on line "@ + crate::text::decimal(line as nat)
            ||| part == " at column "@ + crate::text::decimal(column as nat)
        },
        DiagnosticMessage::TypeNotBoolean(value_type) => part == value_type.name(),
        DiagnosticMessage::RecordsDropped(count) => part == crate::text::decimal(count as nat)
            + " record(s)"@,
        DiagnosticMessage::FieldHasNoInside(field) => part == field.name(),
        DiagnosticMessage::FieldIsEmpty(field) => part == field.name(),
        DiagnosticMessage::FieldRemoved(field) => part == field.name(),
        DiagnosticMessage::FieldNotFound(name) => part == name@,
        DiagnosticMessage::AttributeRemoved(key) => part == key@,
        DiagnosticMessage::ColumnRemoved(field) => part == field.column_name(),
        DiagnosticMessage::ColumnWritten { field, valid, nulls } => {
            ||| part == field.column_name()
            ||| part == crate::text::decimal(valid as nat) + " valid row(s), "@
            ||| part == crate::text::decimal(nulls as nat) + " null row(s)]"@
        },
        DiagnosticMessage::FieldWritten { field, .. } => part == field.name(),
        DiagnosticMessage::AttributeWritten { key, .. } => part == key@,
        _ => false,
    }
}

proof fn lemma_one_part(a: Seq<char>, b: Seq<char>, c: Seq<char>)
    ensures
        crate::text_laws::stands_in(b, a + b + c),
        crate::text_laws::stands_in(b + c, a + b + c),
{
    assert(a + b + c =~= a + (b + c) + Seq::<char>::empty());
}

proof fn lemma_two_parts(a: Seq<char>, b: Seq<char>, c: Seq<char>, d: Seq<char>, e: Seq<char>)
    ensures
        crate::text_laws::stands_in(b, a + b + c + d + e),
        crate::text_laws::stands_in(d, a + b + c + d + e),
{
    assert(a + b + c + d + e =~= a + b + (c + d + e));
    assert(a + b + c + d + e =~= (a + b + c) + d + e);
}

proof fn lemma_column_parts(
    a: Seq<char>,
    b: Seq<char>,
    c: Seq<char>,
    d: Seq<char>,
    e: Seq<char>,
    f: Seq<char>,
    g: Seq<char>,
)
    ensures
        crate::text_laws::stands_in(b, a + b + c + d + e + f + g),
        crate::text_laws::stands_in(d + e, a + b + c + d + e + f + g),
        crate::text_laws::stands_in(f + g, a + b + c + d + e + f + g),
{
    let out = a + b + c + d + e + f + g;
    assert(out =~= a + b + (c + d + e + f + g));
    assert(out =~= (a + b + c) + (d + e) + (f + g));
    assert(out =~= (a + b + c + d + e) + (f + g) + Seq::<char>::empty());
}

proof fn lemma_constant_parts(
    a: Seq<char>,
    b: Seq<char>,
    c: Seq<char>,
    d: Seq<char>,
    e: Seq<char>,
    f: Seq<char>,
    g: Seq<char>,
    h: Seq<char>,
)
    ensures
        crate::text_laws::stands_in(b, a + b + c + d + e + f + g + h),
        crate::text_laws::stands_in(c + d, a + b + c + d + e + f + g + h),
        crate::text_laws::stands_in(e + f, a + b + c + d + e + f + g + h),
        crate::text_laws::stands_in(g + h, a + b + c + d + e + f + g + h),
{
    let out = a + b + c + d + e + f + g + h;
    assert(out =~= a + b + (c + d + e + f + g + h));
    assert(out =~= (a + b) + (c + d) + (e + f + g + h));
    assert(out =~= (a + b + c + d) + (e + f) + (g + h));
    assert(out =~= (a + b + c + d + e + f) + (g + h) + Seq::<char>::empty());
}

/// A message holds the names, types and numbers that it is about, each number in front of or behind
/// what it counts.
pub proof fn lemma_message_names_what_it_is_about<F: ExpressionFunctions>(
    functions: &F,
    tables: Seq<String>,
    message: DiagnosticMessage,
    out: Seq<char>,
    part: Seq<char>,
)
    requires
        crate::message_text::message_says(functions, tables, message, out),
        mentions(message, part),
    ensures
        crate::text_laws::stands_in(part, out),
{
    match message {
        DiagnosticMessage::Text(text) => {
            let nothing = Seq::<char>::empty();
            assert(out =~= nothing + text@ + nothing);
        },
        DiagnosticMessage::SliceOfType(value_type) => {
            lemma_one_part("Cannot take a slice of '"@, value_type.name(), "' input"@);
        },
        DiagnosticMessage::LengthOfType(value_type) => {
            lemma_one_part("Cannot calculate the length of '"@, value_type.name(), "' input"@);
        },
        DiagnosticMessage::KeyIntoType { key, value_type } => {
            lemma_two_parts(
                "Could not search for map key '"@,
                key@,
                "' specified in accessor expression because current node is a '"@,
                value_type.name(),
                "' value"@,
            );
        },
        DiagnosticMessage::IndexInvalid(index) => {
            lemma_one_part(
                "Array index '"@,
                crate::text::integer_text(index as int),
                "' specified in accessor expression is invalid"@,
            );
        },
        DiagnosticMessage::IndexIntoType { index, value_type } => {
            lemma_two_parts(
                "Could not search for array index '"@,
                crate::text::integer_text(index as int),
                "' specified in accessor expression because current node is a '"@,
                value_type.name(),
                "' value"@,
            );
        },
        DiagnosticMessage::IndexIntoTable(index) => {
            lemma_one_part(
                "Could not search for array index '"@,
                crate::text::integer_text(index as int),
                "' specified in accessor expression because current node is a 'Map' value"@,
            );
        },
        DiagnosticMessage::SelectorOfType(value_type) => {
            lemma_one_part(
                "Unexpected scalar expression with '"@,
                value_type.name(),
                "' value type encountered in accessor expression"@,
            );
        },
        DiagnosticMessage::AttachedNameNotFound(name) => {
            lemma_one_part("Attached record matching name '"@, name@, "' could not be found"@);
        },
        DiagnosticMessage::VariableResolved(name) => {
            lemma_one_part("Resolved variable with name '"@, name@, "'"@);
        },
        DiagnosticMessage::VariableNotFound(name) => {
            lemma_one_part("Variable matching name '"@, name@, "' could not be found"@);
        },
        DiagnosticMessage::ConstantResolved { value_type, id, line, column } => {
            lemma_constant_parts(
                "Resolved '"@,
                value_type.name(),
                "' constant with id '"@,
                crate::text::decimal(id as nat),
                "' defined on line "@,
                crate::text::decimal(line as nat),
                " at column "@,
                crate::text::decimal(column as nat),
            );
        },
        DiagnosticMessage::TypeNotBoolean(value_type) => {
            lemma_one_part(
                "Value of '"@,
                value_type.name(),
                "' type returned by scalar expression could not be converted to bool"@,
            );
        },
        DiagnosticMessage::RecordsDropped(count) => {
            lemma_one_part("Dropped "@, crate::text::decimal(count as nat), " record(s)"@);
        },
        DiagnosticMessage::FieldHasNoInside(field) => {
            lemma_one_part("Cannot access into field '"@, field.name(), "'"@);
        },
        DiagnosticMessage::FieldIsEmpty(field) => {
            lemma_one_part("Cannot access into empty '"@, field.name(), "'"@);
        },
        DiagnosticMessage::FieldRemoved(field) => {
            lemma_one_part("Field '"@, field.name(), "' removed"@);
        },
        DiagnosticMessage::FieldNotFound(name) => {
            lemma_one_part("Field '"@, name@, "' does not exist on log record"@);
        },
        DiagnosticMessage::AttributeRemoved(key) => {
            lemma_one_part("Attribute '"@, key@, "' removed"@);
        },
        DiagnosticMessage::ColumnRemoved(field) => {
            lemma_one_part("Column '"@, field.column_name(), "' removed"@);
        },
        DiagnosticMessage::ColumnWritten { field, valid, nulls } => {
            lemma_column_parts(
                "Column '"@,
                field.column_name(),
                "' updated ["@,
                crate::text::decimal(valid as nat),
                " valid row(s), "@,
                crate::text::decimal(nulls as nat),
                " null row(s)]"@,
            );
        },
        DiagnosticMessage::FieldWritten { field, values } => {
            let text = choose|text: Seq<char>| #[trigger]
                crate::value_text::dictionary_says(functions, values, text) && out == "Field '"@
                    + field.name() + "' set to: "@ + text;
            lemma_two_parts("Field '"@, field.name(), "' set to: "@, text, Seq::<char>::empty());
            assert(out =~= out + Seq::<char>::empty());
        },
        DiagnosticMessage::AttributeWritten { key, values } => {
            let text = choose|text: Seq<char>| #[trigger]
                crate::value_text::dictionary_says(functions, values, text) && out
                    == "Attribute '"@ + key@ + "' set to: "@ + text;
            lemma_two_parts("Attribute '"@, key@, "' set to: "@, text, Seq::<char>::empty());
            assert(out =~= out + Seq::<char>::empty());
        },
        _ => {},
    }
}

}
