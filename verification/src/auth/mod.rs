//! Authentication: login attempt limiting and session tokens.

pub mod rate_limit;
pub mod session;
