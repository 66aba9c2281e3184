//! What serialized values are read as.

use vstd::prelude::*;

use crate::text::{decimal_text, surround};
use crate::value::ValueOrRef;

verus! {

/// The message about a number that is too large.
pub open spec fn out_of_range(value: u64) -> Seq<char> {
    "value "@ + crate::text::decimal(value as nat) + " out of range (max 9223372036854775807)"@
}

/// An unsigned number is read as an integer; it is an error if it is too large for one.
pub fn visit_u64(value: u64) -> (r: Result<ValueOrRef, String>)
    ensures
        match r {
            Ok(read) => value <= i64::MAX && read == ValueOrRef::Integer(value as i64),
            Err(text) => value > i64::MAX && text@ == out_of_range(value),
        },
{
    if value > i64::MAX as u64 {
        Err(
            surround(
                "value ",
                decimal_text(value).as_str(),
                " out of range (max 9223372036854775807)",
            ),
        )
    } else {
        Ok(ValueOrRef::Integer(value as i64))
    }
}

} // verus!
