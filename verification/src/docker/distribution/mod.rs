//! Docker repository-index schema.

pub mod error;
pub mod repository;

pub use repository::{Repositories, Repository};
