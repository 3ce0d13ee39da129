//! Deployments: which may be listed, rolled back or queued, and against which
//! commit.

use crate::error::{invalid, is_invalid, unique_violation_as_conflict, Error};
use crate::models::Deployment;
use crate::text::str_eq;
use vstd::prelude::*;

verus! {

broadcast use vstd::string::group_string_axioms;

/// How many deployments a listing returns: the requested number, clamped to
/// 1-100.
pub fn list_limit(limit: i64) -> (n: i64)
    ensures
        n == if limit < 1 {
            1
        } else if limit > 100 {
            100
        } else {
            limit
        },
{
    if limit < 1 {
        1
    } else if limit > 100 {
        100
    } else {
        limit
    }
}

pub open spec fn no_image_rule() -> Seq<char> {
    "that deployment never produced an image, so there is nothing to roll back to"@
}

pub open spec fn not_deployed_rule() -> Seq<char> {
    "only a deployment that reached 'deployed' can be rolled back to"@
}

/// Whether `source` may be rolled back to: it must have produced an image and
/// have reached `deployed`. No rebuild follows: a rollback returns to the
/// exact artefact that was known to work.
pub fn check_rollback(source: &Deployment) -> (r: Result<(), Error>)
    ensures
        source.image_ref is None ==> is_invalid(r, no_image_rule()),
        source.image_ref is Some && source.status@ != "deployed"@ ==> is_invalid(
            r,
            not_deployed_rule(),
        ),
        r is Ok <==> source.image_ref is Some && source.status@ == "deployed"@,
{
    if source.image_ref.is_none() {
        return Err(
            invalid("that deployment never produced an image, so there is nothing to roll back to"),
        );
    }
    if !str_eq(source.status.as_str(), "deployed") {
        return Err(invalid("only a deployment that reached 'deployed' can be rolled back to"));
    }
    Ok(())
}

/// The commit a deployment is pinned to: the one a webhook supplied, else the
/// one the branch resolved to, else the branch name itself.
pub fn pinned_ref(commit_sha: Option<String>, resolved: Option<String>, branch: &str) -> (r: String)
    ensures
        r@ == match commit_sha {
            Some(sha) => sha@,
            None => match resolved {
                Some(c) => c@,
                None => branch@,
            },
        },
{
    match commit_sha {
        Some(sha) => sha,
        None => match resolved {
            Some(c) => c,
            None => branch.to_string(),
        },
    }
}

pub open spec fn in_flight_rule() -> Seq<char> {
    "a deployment is already in progress for this application"@
}

/// A partial unique index allows one in-flight deployment per application, so
/// two concurrent deploys cannot race and let the older commit win; hitting
/// it is a conflict.
pub fn in_flight_conflict(error: Error, is_unique_violation: bool) -> (e: Error)
    ensures
        is_unique_violation ==> (e matches Error::Conflict(m) && m@ == in_flight_rule()),
        !is_unique_violation ==> e == error,
{
    unique_violation_as_conflict(
        error,
        is_unique_violation,
        "a deployment is already in progress for this application",
    )
}

} // verus!
