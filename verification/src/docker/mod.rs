//! Docker image-artifact schemas: image configuration, image manifest and
//! the repository index.

pub mod distribution;
pub mod error;
pub mod image;

pub use error::Error;
