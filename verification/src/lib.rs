//! Verified core of the gallery backend: the decisions behind the data
//! endpoints, the video queue and the file-system watcher.

pub mod prefetch;
pub mod snapshot;
pub mod video;
pub mod watcher;
