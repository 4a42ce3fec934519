//! The image configuration as read from the image: id, tags, platform, the
//! container configuration and the build history.
use vstd::prelude::*;
pub use crate::extracted_image::HistoryEntry;

verus! {

/// The container configuration of an image.
#[derive(Debug, Clone)]
pub struct ContainerConfig {
    pub env: Vec<String>,
    pub cmd: Option<Vec<String>>,
    pub entrypoint: Option<Vec<String>>,
    /// The exposed `port/protocol` keys.
    pub exposed_ports: Option<Vec<String>>,
    pub working_dir: Option<String>,
    /// The declared volume paths.
    pub volumes: Option<Vec<String>>,
    /// Label keys and values, one entry per key.
    pub labels: Option<Vec<(String, String)>>,
}

/// The image facts that the conversion records.
#[derive(Debug, Clone)]
pub struct ImageMetadata {
    pub id: String,
    pub repo_tags: Vec<String>,
    pub created: String,
    pub container_config: ContainerConfig,
    pub history: Vec<HistoryEntry>,
    pub architecture: String,
    pub os: String,
}

} // verus!
