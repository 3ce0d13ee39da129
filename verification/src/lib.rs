//! Control-plane logic of the Spark platform: validation of user input,
//! login attempt limiting, Kubernetes resource quantities and manifests,
//! webhook verification and the decisions of the deploy worker.

pub mod auth;
pub mod config;
pub mod error;
pub mod git;
pub mod handlers;
pub mod k8s;
pub mod models;
pub mod queue;
pub mod services;
pub mod text;


