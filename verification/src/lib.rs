//! Verified codec for container-image metadata artifacts.
//!
//! The crate centres on two pieces of logic: a generic, null-aware JSON
//! merge primitive ([`util::json::merge`]) and a layered schema codec
//! ([`docker::image::ImageConfiguration`]) that reads one JSON object into
//! two independent schema layers and writes them back as a single merged
//! object without corrupting either layer's fields.

pub mod docker;
pub mod error;
pub mod util;
