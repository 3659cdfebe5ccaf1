//! Error type for Docker image failures.

use vstd::prelude::*;

verus! {

/// A failure concerning a Docker image artifact.
#[derive(Debug, PartialEq, Eq)]
pub enum Error {
    /// The manifest file is missing from the image.
    MissingImageManifest,
    /// The manifest file holds invalid content.
    InvalidImageManifest,
    /// The configuration file is missing from the image.
    MissingImageConfiguration,
    /// The configuration file holds invalid content.
    InvalidImageConfiguration,
}

} // verus!
