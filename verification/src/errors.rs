//! The failures a query can report to its caller.

use vstd::prelude::*;

verus! {

/// Why a query could not produce a coordinate. Both query failures are
/// expected, recoverable conditions; `Other` carries a caller-supplied
/// message for errors outside the two query conditions.
#[derive(Debug)]
pub enum ToolError {
    /// No cell of the world has been observed yet: querying is premature.
    WorldNotDiscovered,
    /// The world has observations, but none of the requested kind.
    ContentNotDiscovered,
    /// Any other failure, described by a message.
    Other(String),
}

impl ToolError {
    /// A human-readable description of the error.
    pub fn message(&self) -> (r: String)
        ensures
            r@ == self.spec_message(),
    {
        match self {
            ToolError::WorldNotDiscovered => "World not discovered yet".to_string(),
            ToolError::ContentNotDiscovered => "Content not discovered yet".to_string(),
            ToolError::Other(message) => message.clone(),
        }
    }

    /// What `message` returns for each variant.
    pub open spec fn spec_message(&self) -> Seq<char> {
        match self {
            ToolError::WorldNotDiscovered => "World not discovered yet"@,
            ToolError::ContentNotDiscovered => "Content not discovered yet"@,
            ToolError::Other(message) => message@,
        }
    }
}

} // verus!
