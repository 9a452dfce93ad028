//! The failures that the store and the extraction pipeline report.

use vstd::prelude::*;

verus! {

/// Why an operation did not succeed.
#[derive(Clone, Copy, Debug, PartialEq, Eq, Structural, Hash)]
pub enum KbError {
    /// A referenced node, edge or query target does not exist.
    NotFound,
    /// An insert named an id that is already taken.
    Conflict,
    /// A patch or a stored property document is not an object.
    InvalidInput,
    /// The provider does not offer the requested capability.
    Unsupported,
    /// The text-generation collaborator failed or could not be reached.
    UpstreamFailure,
    /// The collaborator's output is not the expected JSON document.
    ParseFailure,
}

impl KbError {
    /// The name of the failure as a sequence of characters.
    pub open spec fn name_spec(self) -> Seq<char> {
        match self {
            KbError::NotFound => "NotFound"@,
            KbError::Conflict => "Conflict"@,
            KbError::InvalidInput => "InvalidInput"@,
            KbError::Unsupported => "Unsupported"@,
            KbError::UpstreamFailure => "UpstreamFailure"@,
            KbError::ParseFailure => "ParseFailure"@,
        }
    }

    /// The name of the failure, for messages and logs.
    pub fn name(&self) -> (r: &'static str)
        ensures
            r@ == self.name_spec(),
    {
        match self {
            KbError::NotFound => "NotFound",
            KbError::Conflict => "Conflict",
            KbError::InvalidInput => "InvalidInput",
            KbError::Unsupported => "Unsupported",
            KbError::UpstreamFailure => "UpstreamFailure",
            KbError::ParseFailure => "ParseFailure",
        }
    }
}

} // verus!
