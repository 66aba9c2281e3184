//! What is known of the values under a name.

use vstd::prelude::*;

use crate::dictionary::Dictionary;

verus! {

/// What is known of the values under a name.
pub enum OtapValue {
    /// There are none.
    NotFound,
    /// They have been taken away.
    Removed,
    /// They have been read.
    Read(Dictionary),
    /// They have been written.
    Written(Dictionary),
}

impl OtapValue {
    /// The values, if there are any.
    pub open spec fn values(self) -> Option<Dictionary> {
        match self {
            OtapValue::Read(values) => Some(values),
            OtapValue::Written(values) => Some(values),
            _ => None,
        }
    }

    /// The values, if there are any.
    pub fn get_values(&self) -> (r: Option<&Dictionary>)
        ensures
            match r {
                Some(values) => self.values() == Some(*values),
                None => self.values() is None,
            },
    {
        match self {
            OtapValue::Read(values) => Some(values),
            OtapValue::Written(values) => Some(values),
            _ => None,
        }
    }
}

impl Clone for OtapValue {
    fn clone(&self) -> (copy: Self)
        ensures
            copy == *self,
    {
        match self {
            OtapValue::NotFound => OtapValue::NotFound,
            OtapValue::Removed => OtapValue::Removed,
            OtapValue::Read(values) => OtapValue::Read(values.clone()),
            OtapValue::Written(values) => OtapValue::Written(values.clone()),
        }
    }
}

} // verus!
