use vstd::prelude::*;

verus! {

/// Why setting up the toolchain environment failed.
#[derive(Debug, Clone, PartialEq, Eq)]
pub enum SetupError {
    /// A required environment variable, named here, is not set.
    MissingVariable(String),
    /// No installation of the toolchain was found.
    NotFound,
    /// The captured output did not split into exactly three stages.
    MalformedOutput,
    /// The configuration script reported these usage errors, verbatim.
    InvalidParameters(Vec<Vec<u8>>),
}

} // verus!
