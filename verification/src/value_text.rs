//! How values are written in diagnostics.

use arrow::array::BooleanArray;
use vstd::prelude::*;

use crate::boolean_array::{boolean_array_get, boolean_array_len};
use crate::dictionary::Dictionary;
use crate::expressions::ExpressionFunctions;
use crate::resolved_value::{ResolvedLogicalValue, ResolvedScalarValue};
use crate::text::{decimal_text, surround};
use crate::value::{ValueOrRef, ValueType};

verus! {

/// The number of bytes of a text that is written in full.
pub const FULL_TEXT: usize = 32;

impl ValueType {
    /// The name of the type.
    pub open spec fn name(self) -> Seq<char> {
        match self {
            ValueType::Array => "Array"@,
            ValueType::Boolean => "Boolean"@,
            ValueType::DateTime => "DateTime"@,
            ValueType::Double => "Double"@,
            ValueType::Integer => "Integer"@,
            ValueType::MapValue => "Map"@,
            ValueType::Null => "Null"@,
            ValueType::Regex => "Regex"@,
            ValueType::String => "String"@,
            ValueType::TimeSpan => "TimeSpan"@,
        }
    }

    /// The name of the type.
    pub fn get_name(&self) -> (r: &'static str)
        ensures
            r@ == self.name(),
    {
        match self {
            ValueType::Array => "Array",
            ValueType::Boolean => "Boolean",
            ValueType::DateTime => "DateTime",
            ValueType::Double => "Double",
            ValueType::Integer => "Integer",
            ValueType::MapValue => "Map",
            ValueType::Null => "Null",
            ValueType::Regex => "Regex",
            ValueType::String => "String",
            ValueType::TimeSpan => "TimeSpan",
        }
    }
}

/// A hexadecimal digit.
pub open spec fn hex_digit(n: int) -> char {
    if n < 10 {
        (48 + n) as char
    } else {
        (87 + n) as char
    }
}

/// A character inside a JSON string.
pub open spec fn json_escape(c: char) -> Seq<char> {
    if c == '"' || c == '\\' {
        seq!['\\', c]
    } else if c as int == 8 {
        seq!['\\', 'b']
    } else if c == '\t' {
        seq!['\\', 't']
    } else if c == '\n' {
        seq!['\\', 'n']
    } else if c as int == 12 {
        seq!['\\', 'f']
    } else if c == '\r' {
        seq!['\\', 'r']
    } else if (c as int) < 32 {
        seq!['\\', 'u', '0', '0', hex_digit(c as int / 16), hex_digit(c as int % 16)]
    } else {
        seq![c]
    }
}

/// A text inside a JSON string.
pub open spec fn json_escaped(text: Seq<char>) -> Seq<char>
    decreases text.len(),
{
    if text.len() == 0 {
        Seq::empty()
    } else {
        json_escaped(text.drop_last()) + json_escape(text.last())
    }
}

/// A text as a JSON string.
pub open spec fn json_quoted(text: Seq<char>) -> Seq<char> {
    seq!['"'] + json_escaped(text) + seq!['"']
}

/// Calls `serde_json::to_string` on a text, which writes it between quotation marks and escapes
/// quotation marks, backslashes and control characters.
#[verifier::external_body]
fn json_string(text: &str) -> (r: String)
    ensures
        r@ == json_quoted(text@),
{
    serde_json::to_string(text).unwrap()
}

/// How many bytes the first `n` characters of a text take up.
pub open spec fn prefix_bytes(text: Seq<char>, n: int) -> nat {
    vstd::utf8::encode_utf8(text.subrange(0, n)).len()
}

/// Whether `short` is a text as far as it is written: in full, or else as many characters as fit,
/// and three dots.
pub open spec fn shortened(text: Seq<char>, short: Seq<char>) -> bool {
    if prefix_bytes(text, text.len() as int) <= FULL_TEXT {
        short == text
    } else {
        exists|n: int| #[trigger]
            cut_at(text, n) && short == text.subrange(0, n) + "..."@
    }
}

/// Whether the first `n` characters fit, and no more.
pub open spec fn cut_at(text: Seq<char>, n: int) -> bool {
    &&& 0 <= n < text.len()
    &&& prefix_bytes(text, n) <= FULL_TEXT
    &&& prefix_bytes(text, n + 1) > FULL_TEXT
}

/// A text as far as it is written.
fn shorten(text: &str) -> (short: String)
    ensures
        shortened(text@, short@),
{
    let whole: &[u8] = text.as_bytes();
    proof {
        assert(text@.subrange(0, text@.len() as int) =~= text@);
    }
    if whole.len() <= FULL_TEXT {
        return text.to_owned();
    }
    let length: usize = text.unicode_len();
    let mut n: usize = 0;
    proof {
        assert(text@.subrange(0, 0) =~= Seq::<char>::empty());
        reveal_with_fuel(vstd::utf8::encode_utf8, 1);
    }
    while n < length
        invariant
            n <= length,
            length == text@.len(),
            prefix_bytes(text@, n as int) <= FULL_TEXT,
            prefix_bytes(text@, length as int) > FULL_TEXT,
        decreases length - n,
    {
        let more: &str = text.substring_char(0, n + 1);
        let bytes: &[u8] = more.as_bytes();
        if bytes.len() > FULL_TEXT {
            let mut short: String = text.substring_char(0, n).to_owned();
            short.append("...");
            assert(cut_at(text@, n as int));
            return short;
        }
        n = n + 1;
    }
    text.to_owned()
}

/// Whether a value is written so.
pub open spec fn value_says<F: ExpressionFunctions>(
    functions: &F,
    value: ValueOrRef,
    out: Seq<char>,
) -> bool {
    match value {
        ValueOrRef::Null => out == "Null"@,
        ValueOrRef::Array(array) => out == "Array(Count="@ + crate::text::decimal(
            array.elements().len(),
        ) + ")"@,
        ValueOrRef::MapValue(map) => out == "Map(Count="@ + crate::text::decimal(
            map.map.entries().len(),
        ) + ")"@,
        ValueOrRef::String(text) => exists|short: Seq<char>| #[trigger]
            shortened(text@, short) && out == "String("@ + json_quoted(short) + ")"@,
        _ => exists|text: String|
            #[trigger] call_ensures(F::format_value, (functions, &value), text) && out
                == value.value_type().name() + "("@ + text@ + ")"@,
    }
}

/// Writes a value.
pub fn fmt_value<F: ExpressionFunctions>(functions: &F, value: &ValueOrRef) -> (r: String)
    ensures
        value_says(functions, *value, r@),
{
    match value {
        ValueOrRef::Null => "Null".to_owned(),
        ValueOrRef::Array(array) => surround(
            "Array(Count=",
            decimal_text(array.len() as u64).as_str(),
            ")",
        ),
        ValueOrRef::MapValue(map) => surround(
            "Map(Count=",
            decimal_text(map.map.len() as u64).as_str(),
            ")",
        ),
        ValueOrRef::String(text) => {
            let short: String = shorten(text.as_str());
            surround("String(", json_string(short.as_str()).as_str(), ")")
        },
        _ => {
            let text: String = functions.format_value(value);
            assert(call_ensures(F::format_value, (functions, value), text));
            let mut r: String = value.get_value_type().get_name().to_owned();
            r.append("(");
            r.append(text.as_str());
            r.append(")");
            r
        },
    }
}

/// Texts, each behind its number, with commas between them.
pub open spec fn numbered(parts: Seq<Seq<char>>, n: int) -> Seq<char>
    decreases n,
{
    if n <= 0 {
        Seq::empty()
    } else {
        numbered(parts, n - 1) + (if n > 1 {
            ","@
        } else {
            Seq::empty()
        }) + crate::text::decimal((n - 1) as nat) + ":"@ + parts[n - 1]
    }
}

proof fn lemma_numbered(parts: Seq<Seq<char>>, part: Seq<char>, n: int)
    requires
        0 <= n <= parts.len(),
    ensures
        numbered(parts.push(part), n) == numbered(parts, n),
    decreases n,
{
    if n > 0 {
        lemma_numbered(parts, part, n - 1);
        assert(parts.push(part)[n - 1] == parts[n - 1]);
    }
}

/// Adds a text behind its number.
fn append_numbered(
    r: &mut String,
    k: usize,
    part: &str,
    Ghost(parts): Ghost<Seq<Seq<char>>>,
)
    requires
        k == parts.len(),
        old(r)@ == "{"@ + numbered(parts, k as int),
    ensures
        final(r)@ == "{"@ + numbered(parts.push(part@), k + 1),
{
    if k > 0 {
        r.append(",");
    }
    r.append(decimal_text(k as u64).as_str());
    r.append(":");
    r.append(part);
    proof {
        lemma_numbered(parts, part@, k as int);
        assert(r@ =~= "{"@ + numbered(parts.push(part@), k + 1));
    }
}

/// Whether a dictionary is written so: the value of each record behind its number.
pub open spec fn dictionary_says<F: ExpressionFunctions>(
    functions: &F,
    dictionary: Dictionary,
    out: Seq<char>,
) -> bool {
    exists|parts: Seq<Seq<char>>| #[trigger]
        rows_say(functions, dictionary.rows(), parts) && out == "{"@ + numbered(
            parts,
            parts.len() as int,
        ) + "}"@
}

/// Whether each value is written so.
pub open spec fn rows_say<F: ExpressionFunctions>(
    functions: &F,
    rows: Seq<ValueOrRef>,
    parts: Seq<Seq<char>>,
) -> bool {
    &&& parts.len() == rows.len()
    &&& forall|i: int|
        0 <= i < rows.len() ==> value_says(functions, rows[i], #[trigger] parts[i])
}

/// Writes a dictionary.
pub fn dictionary_text<F: ExpressionFunctions>(functions: &F, dictionary: &Dictionary) -> (r:
    String)
    ensures
        dictionary_says(functions, *dictionary, r@),
{
    let count: usize = dictionary.len();
    let ghost mut parts: Seq<Seq<char>> = Seq::empty();
    let mut r: String = "{".to_owned();
    proof {
        assert("{"@ + numbered(parts, 0) =~= "{"@);
    }
    let mut k: usize = 0;
    while k < count
        invariant
            k <= count,
            count == dictionary.rows().len(),
            parts.len() == k,
            r@ == "{"@ + numbered(parts, k as int),
            forall|i: int|
                0 <= i < k ==> value_says(functions, dictionary.rows()[i], #[trigger] parts[i]),
        decreases count - k,
    {
        let part: String = fmt_value(functions, &dictionary.get_value(k));
        append_numbered(&mut r, k, part.as_str(), Ghost(parts));
        proof {
            parts = parts.push(part@);
        }
        k = k + 1;
    }
    r.append("}");
    proof {
        assert(rows_say(functions, dictionary.rows(), parts));
    }
    r
}

/// What a truth that may be missing is written as.
pub open spec fn truth_text(truth: Option<bool>) -> Seq<char> {
    match truth {
        Some(true) => "Boolean(true)"@,
        Some(false) => "Boolean(false)"@,
        None => "Null"@,
    }
}

/// What a logical value is written as.
pub open spec fn logical_text(value: ResolvedLogicalValue) -> Seq<char> {
    match value {
        ResolvedLogicalValue::Single(b) => "["@ + truth_text(Some(b)) + "]"@,
        ResolvedLogicalValue::Array { values, .. } => {
            let entries = crate::boolean_array::boolean_values(*values);
            "{"@ + numbered(
                Seq::new(entries.len(), |i: int| truth_text(entries[i])),
                entries.len() as int,
            ) + "}"@
        },
    }
}

/// Writes a truth that may be missing.
fn write_truth(truth: Option<bool>) -> (r: &'static str)
    ensures
        r@ == truth_text(truth),
{
    match truth {
        Some(true) => "Boolean(true)",
        Some(false) => "Boolean(false)",
        None => "Null",
    }
}

/// Writes a logical value.
pub fn write_logical(value: &ResolvedLogicalValue) -> (r: String)
    ensures
        r@ == logical_text(*value),
{
    match value {
        ResolvedLogicalValue::Single(b) => surround("[", write_truth(Some(*b)), "]"),
        ResolvedLogicalValue::Array { data_type: _, values } => write_truths(values),
    }
}

/// Writes truths.
fn write_truths(values: &BooleanArray) -> (r: String)
    ensures
        r@ == "{"@ + numbered(
            Seq::new(
                crate::boolean_array::boolean_values(*values).len(),
                |i: int| truth_text(crate::boolean_array::boolean_values(*values)[i]),
            ),
            crate::boolean_array::boolean_values(*values).len() as int,
        ) + "}"@,
{
    let count: usize = boolean_array_len(values);
    let ghost entries = crate::boolean_array::boolean_values(*values);
    let ghost mut parts: Seq<Seq<char>> = Seq::empty();
    let mut r: String = "{".to_owned();
    proof {
        assert("{"@ + numbered(parts, 0) =~= "{"@);
    }
    let mut k: usize = 0;
    while k < count
        invariant
            k <= count,
            entries == crate::boolean_array::boolean_values(*values),
            count == entries.len(),
            parts.len() == k,
            r@ == "{"@ + numbered(parts, k as int),
            forall|i: int| 0 <= i < k ==> #[trigger] parts[i] == truth_text(entries[i]),
        decreases count - k,
    {
        let part: &'static str = write_truth(boolean_array_get(values, k));
        append_numbered(&mut r, k, part, Ghost(parts));
        proof {
            parts = parts.push(part@);
        }
        k = k + 1;
    }
    r.append("}");
    proof {
        assert(parts =~= Seq::new(entries.len(), |i: int| truth_text(entries[i])));
    }
    r
}

/// What a table is written as, given that for each.
pub open spec fn table_text(tables: Seq<String>, table: usize) -> Seq<char> {
    if table < tables.len() {
        tables[table as int]@
    } else {
        Seq::empty()
    }
}

/// Whether the value of an expression is written so.
pub open spec fn scalar_says<F: ExpressionFunctions>(
    functions: &F,
    tables: Seq<String>,
    value: ResolvedScalarValue,
    out: Seq<char>,
) -> bool {
    match value {
        ResolvedScalarValue::Table(table) => out == table_text(tables, table),
        ResolvedScalarValue::Single(value) => exists|text: Seq<char>| #[trigger]
            value_says(functions, value, text) && out == "["@ + text + "]"@,
        ResolvedScalarValue::Dictionary(dictionary) => dictionary_says(functions, dictionary, out),
    }
}

/// Writes the value of an expression.
pub fn scalar_text<F: ExpressionFunctions>(
    functions: &F,
    tables: &Vec<String>,
    value: &ResolvedScalarValue,
) -> (r: String)
    ensures
        scalar_says(functions, tables@, *value, r@),
{
    match value {
        ResolvedScalarValue::Table(table) => if *table < tables.len() {
            tables[*table].clone()
        } else {
            String::new()
        },
        ResolvedScalarValue::Single(value) => {
            let text: String = fmt_value(functions, value);
            surround("[", text.as_str(), "]")
        },
        ResolvedScalarValue::Dictionary(dictionary) => dictionary_text(functions, dictionary),
    }
}

} // verus!
