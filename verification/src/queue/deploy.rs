//! The deploy job: build the image, then roll it out.
//!
//! The job alternates cluster calls with decisions. The calls, and the clock,
//! belong to the caller; each decision it takes on their results is made here.

use crate::error::Error;
use crate::k8s::cluster::JobOutcome;
use crate::k8s::manifests::{image_ref, image_ref_of, AppSpec, BuildSpec};
use crate::models::{Application, Deployment};
use crate::text::{concat_str, str_eq};
use vstd::prelude::*;

verus! {

broadcast use vstd::string::group_string_axioms;

/// Seconds a single build may take before the job is abandoned.
pub const BUILD_TIMEOUT_SECS: u64 = 1200;

/// Seconds after which a container that has not passed its readiness probe is
/// not going to.
pub const ROLLOUT_TIMEOUT_SECS: u64 = 300;

/// Seconds between two looks at the cluster.
pub const POLL_SECS: u64 = 2;

/// What a deploy job carries.
pub struct DeployPayload {
    pub deployment_id: u128,
}

/// Where the image a deployment runs comes from.
pub enum ImagePlan {
    /// A rollback already has an image; rebuilding it would defeat the point
    /// of rolling back to a known-good artefact.
    Reuse(String),
    /// Build and push this image.
    Build(String),
}

/// Whether a deployment reuses the image it carries.
pub open spec fn reuses_image(d: Deployment) -> bool {
    d.image_ref is Some && d.rolled_back_from is Some
}

/// The image plan of a deployment of the application `app_id`.
pub fn image_plan(deployment: &Deployment, registry_url: &str, app_id: u128) -> (p: ImagePlan)
    ensures
        reuses_image(*deployment) <==> p is Reuse,
        p matches ImagePlan::Reuse(i) ==> i@ == deployment.image_ref.unwrap()@,
        p matches ImagePlan::Build(i) ==> i@ == image_ref_of(registry_url@, app_id, deployment.id),
{
    match &deployment.image_ref {
        Some(existing) => {
            if deployment.rolled_back_from.is_some() {
                return ImagePlan::Reuse(existing.clone());
            }
        },
        None => {},
    }
    ImagePlan::Build(image_ref(registry_url, app_id, deployment.id))
}

/// What a build is given: the application's repository and Dockerfile, the
/// deployment's commit, and where to push.
pub fn build_spec(
    app: &Application,
    deployment: &Deployment,
    namespace: String,
    image: String,
    registry_insecure: bool,
) -> (s: BuildSpec)
    ensures
        s.deployment_id == deployment.id,
        s.app_id == app.id,
        s.namespace@ == namespace@,
        s.git_repo@ == app.git_repo@,
        s.git_ref@ == deployment.commit_sha@,
        s.dockerfile_path@ == app.dockerfile_path@,
        s.image_ref@ == image@,
        s.registry_insecure == registry_insecure,
{
    BuildSpec {
        deployment_id: deployment.id,
        app_id: app.id,
        namespace,
        git_repo: app.git_repo.clone(),
        git_ref: deployment.commit_sha.clone(),
        dockerfile_path: app.dockerfile_path.clone(),
        image_ref: image,
        registry_insecure,
    }
}

/// What the runtime objects are made from: the application's port and
/// limits, the image, and the hosts (the generated one first).
pub fn rollout_spec(app: &Application, namespace: String, image: String, hosts: Vec<String>) -> (s:
    AppSpec)
    ensures
        s.app_id == app.id,
        s.namespace@ == namespace@,
        s.image@ == image@,
        s.container_port == app.container_port,
        s.cpu_limit@ == app.cpu_limit@,
        s.memory_limit@ == app.memory_limit@,
        s.hosts@ == hosts@,
{
    AppSpec {
        app_id: app.id,
        namespace,
        image,
        container_port: app.container_port,
        cpu_limit: app.cpu_limit.clone(),
        memory_limit: app.memory_limit.clone(),
        hosts,
    }
}

/// The next move in a polling loop.
#[derive(Clone, Copy, Debug, PartialEq, Eq, Structural)]
pub enum Poll {
    /// Go on to the next stage.
    Proceed,
    /// Sleep, then look again.
    Again,
    /// Stop waiting.
    Stop,
}

/// Applying the build Job after deleting its predecessor: deleting is not
/// instant, so a refused apply is tried again until the build's deadline,
/// after which its error stands.
pub fn apply_job_step(applied: bool, before_deadline: bool) -> (p: Poll)
    ensures
        p == if applied {
            Poll::Proceed
        } else if before_deadline {
            Poll::Again
        } else {
            Poll::Stop
        },
{
    if applied {
        Poll::Proceed
    } else if before_deadline {
        Poll::Again
    } else {
        Poll::Stop
    }
}

/// Looking for the builder pod: `lookup` is `None` when the lookup failed,
/// else whether a pod was found. A found pod's log is followed; no pod yet is
/// waited for until the deadline; a failed lookup ends the log copy, which is
/// best effort.
pub fn pod_search_step(lookup: Option<Option<String>>, before_deadline: bool) -> (p: Poll)
    ensures
        p == match lookup {
            Some(Some(_)) => Poll::Proceed,
            Some(None) => if before_deadline {
                Poll::Again
            } else {
                Poll::Stop
            },
            None => Poll::Stop,
        },
{
    match lookup {
        Some(Some(_)) => Poll::Proceed,
        Some(None) => if before_deadline {
            Poll::Again
        } else {
            Poll::Stop
        },
        None => Poll::Stop,
    }
}

/// Waiting, before the deadline, for the builder pod to leave `Pending`: logs
/// are unavailable while it is still pulling its image. `phase` is `None`
/// when it could not be read.
pub fn pod_phase_step(phase: Option<&str>) -> (p: Poll)
    ensures
        p == match phase {
            Some(ph) => if ph@ == "Pending"@ {
                Poll::Again
            } else {
                Poll::Proceed
            },
            None => Poll::Stop,
        },
{
    match phase {
        Some(ph) => if str_eq(ph, "Pending") {
            Poll::Again
        } else {
            Poll::Proceed
        },
        None => Poll::Stop,
    }
}

pub open spec fn build_failed_rule() -> Seq<char> {
    "build failed; see the deployment log"@
}

/// Reading the build Job's outcome once its log has ended, which does not
/// mean it has been marked complete yet. `Ok(true)` is a finished build,
/// `Ok(false)` a look again.
pub fn build_outcome_step(outcome: JobOutcome, before_deadline: bool) -> (r: Result<bool, Error>)
    ensures
        outcome == JobOutcome::Succeeded ==> r == Ok::<bool, Error>(true),
        outcome == JobOutcome::Failed ==> (r matches Err(Error::Invalid(m)) && m@
            == build_failed_rule()),
        outcome == JobOutcome::Running && before_deadline ==> r == Ok::<bool, Error>(false),
        outcome == JobOutcome::Running && !before_deadline ==> (r matches Err(Error::Internal(m))
            && m@ == "build timed out"@),
{
    match outcome {
        JobOutcome::Succeeded => Ok(true),
        JobOutcome::Failed => Err(Error::Invalid("build failed; see the deployment log".to_string())),
        JobOutcome::Running => if before_deadline {
            Ok(false)
        } else {
            Err(Error::Internal("build timed out".to_string()))
        },
    }
}

pub open spec fn not_ready_rule() -> Seq<char> {
    "the application did not become ready; check that it listens on the configured port"@
}

/// Whether the new pods are ready: as many as the application asks for, and
/// never fewer than one, so a deployment is only reported as deployed once a
/// pod has passed its readiness probe.
pub open spec fn rollout_ready(replicas: int, ready_replicas: int) -> bool {
    ready_replicas >= replicas && ready_replicas >= 1
}

/// A rollout is finished only once every replica the application asks for
/// is ready, and never while no pod is; once that holds it is finished, and
/// more ready pods never undo it.
pub proof fn law_rollout_finishes_only_with_every_replica_ready(replicas: int, ready: int)
    ensures
        rollout_ready(replicas, ready) ==> ready >= replicas && ready >= 1,
        ready >= replicas && ready >= 1 ==> rollout_ready(replicas, ready),
        rollout_ready(replicas, ready) ==> rollout_ready(replicas, ready + 1),
        !rollout_ready(replicas, 0),
{
}

/// Waiting for the new pods to become ready, so a deployment is only reported
/// as deployed once it can actually serve traffic. `Ok(true)` is a finished
/// rollout, `Ok(false)` a look again.
pub fn rollout_step(replicas: i32, ready_replicas: i32, before_deadline: bool) -> (r: Result<
    bool,
    Error,
>)
    ensures
        r == Ok::<bool, Error>(true) <==> rollout_ready(replicas as int, ready_replicas as int),
        r == Ok::<bool, Error>(false) <==> !rollout_ready(replicas as int, ready_replicas as int)
            && before_deadline,
        r is Err <==> !rollout_ready(replicas as int, ready_replicas as int) && !before_deadline,
        r is Err ==> (r matches Err(Error::Invalid(m)) && m@ == not_ready_rule()),
{
    if ready_replicas >= replicas && ready_replicas >= 1 {
        Ok(true)
    } else if !before_deadline {
        Err(
            Error::Invalid(
                "the application did not become ready; check that it listens on the configured port".to_string(),
            ),
        )
    } else {
        Ok(false)
    }
}

/// The log line a rollback starts with.
pub fn rolling_back_line(image: &str) -> (l: String)
    ensures
        l@ == "[spark] rolling back to "@ + image@,
{
    concat_str("[spark] rolling back to ", image)
}

/// The log line a deployment ends with.
pub fn deployed_line(host: &str) -> (l: String)
    ensures
        l@ == "[spark] deployed to http://"@ + host@,
{
    concat_str("[spark] deployed to http://", host)
}

/// The log line recorded when the queue stops retrying a deployment.
pub fn failed_line(message: &str) -> (l: String)
    ensures
        l@ == "[spark] deployment failed: "@ + message@,
{
    concat_str("[spark] deployment failed: ", message)
}

/// The log line recorded when the builder's log could not be followed to its
/// end.
pub fn stream_ended_line(error: &str) -> (l: String)
    ensures
        l@ == "[spark] log stream ended early: "@ + error@,
{
    concat_str("[spark] log stream ended early: ", error)
}

} // verus!
