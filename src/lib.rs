//! Operations toolkit for an NSQ-style pub/sub cluster: discovery and
//! filtering of broker hosts, snapshots folded from their statistics, the
//! dashboard's comparisons between snapshots, and the publisher's decisions.
pub mod cluster;
pub mod dashboard;
pub mod errors;
pub mod fetch;
pub mod har;
pub mod json_path;
pub mod keys;
pub mod laws;
pub mod model;
pub mod output;
pub mod progress;
pub mod publisher;
pub mod snapshot;
pub mod text;
pub mod topic_urls;
