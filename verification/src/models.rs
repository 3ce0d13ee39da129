//! The records the control plane keeps, as far as its decisions read them.

use crate::text::str_eq;
use vstd::prelude::*;

verus! {

broadcast use vstd::string::group_string_axioms;

/// A user's application. Ids are UUIDs held as their 128-bit value.
pub struct Application {
    pub id: u128,
    pub owner_id: u128,
    pub name: String,
    pub git_repo: String,
    pub git_branch: String,
    pub build_type: String,
    pub dockerfile_path: String,
    pub container_port: i32,
    pub cpu_limit: String,
    pub memory_limit: String,
    pub replicas: i32,
    /// Whether a git credential exists in the application's Kubernetes Secret.
    pub git_credentials_set: bool,
    /// The shared secret a Git provider signs with; never shown with the
    /// application itself.
    pub webhook_secret: String,
}

/// One build-and-release of an application.
pub struct Deployment {
    pub id: u128,
    pub app_id: u128,
    pub commit_sha: String,
    pub status: String,
    pub image_ref: Option<String>,
    /// Set when this deployment reused an earlier deployment's image.
    pub rolled_back_from: Option<u128>,
}

/// Terminal states are the ones a log stream should stop following.
pub open spec fn is_finished_status(status: Seq<char>) -> bool {
    status == "deployed"@ || status == "failed"@
}

/// Only the terminal statuses finish a deployment: "deployed" and "failed"
/// do, no other status does, and in particular none of "queued", "building"
/// and "deploying", through which a deployment is still moving.
pub proof fn law_only_terminal_statuses_finish(status: Seq<char>)
    ensures
        is_finished_status("deployed"@),
        is_finished_status("failed"@),
        is_finished_status(status) ==> status == "deployed"@ || status == "failed"@,
        !is_finished_status("queued"@),
        !is_finished_status("building"@),
        !is_finished_status("deploying"@),
{
    reveal_strlit("deployed");
    reveal_strlit("failed");
    reveal_strlit("queued");
    reveal_strlit("building");
    reveal_strlit("deploying");
    assert("deploying"@[6] != "deployed"@[6]);
    assert("queued"@.len() != "deployed"@.len());
    assert("queued"@[0] != "failed"@[0]);
    assert("building"@.len() != "failed"@.len());
    assert("building"@[0] != "deployed"@[0]);
    assert("deploying"@.len() != "failed"@.len());
}

impl Deployment {
    /// Whether the deployment has reached a terminal state.
    pub fn is_finished(&self) -> (b: bool)
        ensures
            b == is_finished_status(self.status@),
    {
        str_eq(self.status.as_str(), "deployed") || str_eq(self.status.as_str(), "failed")
    }
}

/// One line of a deployment's build output, numbered in the order written.
pub struct LogLine {
    pub seq: i64,
    pub line: String,
}

} // verus!
