//! Kubernetes-facing logic: resource quantities, names and manifests.

pub mod manifests;
pub mod names;
pub mod quantity;
pub mod secret;
pub mod cluster;

pub use cluster::{AppStatus, JobOutcome, PodStatus, SslStatus};
