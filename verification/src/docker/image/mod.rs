//! Docker image configuration and manifest schemas.

pub mod config;
pub mod error;
pub mod manifest;
pub mod oci;

pub use config::{
    ConfigExtension, DurationNanos, HealthcheckConfig, ImageConfiguration,
    ImageConfigurationExtension, deserialize_duration, serialize_duration,
};
pub use manifest::{Descriptor, ImageManifest, ManifestItem};
pub use oci::{OciConfig, OciHistory, OciImageConfiguration, RootFs};
