//! Background work.
//!
//! Work is claimed from a table rather than held in memory, so a deployment
//! survives the control plane restarting and is retried if the cluster is
//! briefly unreachable. What is decided here is what becomes of a claimed job
//! once it has run.

pub mod deploy;
pub mod maintenance;

use crate::error::Error;
use crate::text::{concat_str, str_eq};
use vstd::prelude::*;

verus! {

broadcast use vstd::string::group_string_axioms;

pub const KIND_DEPLOY: &'static str = "deploy";

/// A lock older than this belongs to a worker that died; the job is reclaimed.
pub const STALE_LOCK_MINUTES: i32 = 30;

/// How many times a job is tried before it is given up.
pub const MAX_ATTEMPTS: i32 = 3;

/// Seconds the worker sleeps when there is nothing to do.
pub const IDLE_POLL_SECS: u64 = 2;

/// Seconds between housekeeping passes.
pub const MAINTENANCE_EVERY_SECS: u64 = 3600;

/// The kinds of work the queue carries.
#[derive(Clone, Copy, Debug, PartialEq, Eq, Structural)]
pub enum JobKind {
    Deploy,
}

/// The kind a job's `kind` column names; any other is a control-plane error.
pub fn job_kind(kind: &str) -> (r: Result<JobKind, Error>)
    ensures
        r is Ok <==> kind@ == KIND_DEPLOY@,
        r is Ok ==> r == Ok::<JobKind, Error>(JobKind::Deploy),
        r is Err ==> (r matches Err(Error::Internal(m)) && m@ == "unknown job kind "@ + kind@),
{
    if str_eq(kind, KIND_DEPLOY) {
        Ok(JobKind::Deploy)
    } else {
        Err(Error::Internal(concat_str("unknown job kind ", kind)))
    }
}

/// What becomes of a job after one run.
#[derive(Clone, Copy, Debug, PartialEq, Eq, Structural)]
pub enum Settlement {
    /// Done with: it succeeded.
    Complete,
    /// Done with: it failed and has used up its attempts, so the failure is
    /// recorded and the job completed.
    GiveUp,
    /// Run again after this many seconds.
    RetryIn(i32),
}

pub open spec fn settlement_of(succeeded: bool, attempts: i32) -> Settlement {
    if succeeded {
        Settlement::Complete
    } else if attempts >= MAX_ATTEMPTS {
        Settlement::GiveUp
    } else {
        Settlement::RetryIn((10 * attempts) as i32)
    }
}

/// Settles a job that has been tried `attempts` times, counting this run.
/// Linear backoff is enough here: the failures worth retrying are a briefly
/// unreachable cluster, not a thundering herd.
pub fn settle(succeeded: bool, attempts: i32) -> (s: Settlement)
    requires
        !succeeded && attempts < MAX_ATTEMPTS ==> i32::MIN <= 10 * attempts,
    ensures
        s == settlement_of(succeeded, attempts),
{
    if succeeded {
        Settlement::Complete
    } else if attempts >= MAX_ATTEMPTS {
        Settlement::GiveUp
    } else {
        Settlement::RetryIn(10 * attempts)
    }
}

/// A job is never retried past its attempts, a success is never retried, and
/// each retry waits ten seconds more than the one before.
pub proof fn law_retries_are_bounded_and_linear(attempts: i32)
    requires
        i32::MIN <= 10 * attempts,
    ensures
        settlement_of(true, attempts) == Settlement::Complete,
        attempts >= MAX_ATTEMPTS ==> settlement_of(false, attempts) == Settlement::GiveUp,
        attempts < MAX_ATTEMPTS ==> settlement_of(false, attempts) == Settlement::RetryIn(
            (10 * attempts) as i32,
        ),
        0 < attempts < MAX_ATTEMPTS - 1 ==> (settlement_of(false, attempts) matches Settlement::RetryIn(
            d,
        ) && settlement_of(false, (attempts + 1) as i32) == Settlement::RetryIn((d + 10) as i32)),
{
}

/// Whether the worker rests before looking for more work: only straight after
/// processing a job does it look again at once.
pub fn rest_after(processed: Option<bool>) -> (rest: bool)
    ensures
        rest == !(processed == Some(true)),
{
    match processed {
        Some(true) => false,
        _ => true,
    }
}

} // verus!
