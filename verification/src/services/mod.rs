//! The rules applied to requests before anything is stored or deployed.

pub mod applications;
pub mod auth;
pub mod deployments;
pub mod domains;
pub mod env;
pub mod git_credentials;
pub mod webhooks;
