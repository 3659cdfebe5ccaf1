//! Utility modules: the generic JSON tree with its merge primitive, and the
//! trusted text boundary that turns JSON text into trees and back.

pub mod codec;
pub mod json;
pub mod text;
