//! Error type for Docker-artifact failures.

use vstd::prelude::*;

verus! {

/// A failure concerning one of the Docker artifacts.
#[derive(Debug, PartialEq, Eq)]
pub enum Error {
    /// A failure concerning the image configuration or manifest.
    ImageError(crate::docker::image::error::Error),
    /// A failure concerning the repository index.
    DistributionError(crate::docker::distribution::error::Error),
}

} // verus!
