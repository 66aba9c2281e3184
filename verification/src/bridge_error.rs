//! The errors of setting a pipeline up.

use vstd::prelude::*;

use crate::text::surround;

verus! {

/// Why a pipeline could not be set up.
pub enum BridgeError {
    /// The query or its constants were refused, for the reason given.
    PipelineInitializationError(String),
}

impl BridgeError {
    /// The text of the error.
    pub open spec fn text(&self) -> Seq<char> {
        match self {
            BridgeError::PipelineInitializationError(reason) => "Pipeline could not be initialized: "@
                + reason@,
        }
    }

    /// Writes the error out for a reader.
    pub fn message(&self) -> (r: String)
        ensures
            r@ == self.text(),
    {
        match self {
            BridgeError::PipelineInitializationError(reason) => {
                let r = surround("Pipeline could not be initialized: ", reason.as_str(), "");
                proof {
                    reveal_strlit("");
                    assert(r@ =~= self.text());
                }
                r
            },
        }
    }
}

} // verus!
