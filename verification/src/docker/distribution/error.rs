//! Error type for Docker repository-index failures.

use vstd::prelude::*;

verus! {

/// A failure concerning the repository index.
#[derive(Debug, PartialEq, Eq)]
pub enum Error {
    /// The repositories file is missing.
    MissingRepositories,
    /// The repositories file holds invalid content.
    InvalidRepositories,
}

} // verus!
