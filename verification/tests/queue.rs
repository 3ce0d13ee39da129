use spark_api::error::Error;
use spark_api::k8s::JobOutcome;
use spark_api::models::{Application, Deployment};
use spark_api::queue::deploy::{
    apply_job_step, build_outcome_step, build_spec, deployed_line, failed_line, image_plan,
    pod_phase_step, pod_search_step, rolling_back_line, rollout_spec, rollout_step,
    stream_ended_line, ImagePlan, Poll,
};
use spark_api::queue::maintenance::{
    digest_to_delete, images_to_delete, manifest_url, repository_url, stale_ids,
};
use spark_api::queue::{job_kind, rest_after, settle, JobKind, Settlement, MAX_ATTEMPTS};

#[test]
fn a_failed_job_is_retried_with_linear_backoff_then_given_up() {
    assert_eq!(settle(true, 1), Settlement::Complete);
    assert_eq!(settle(true, MAX_ATTEMPTS), Settlement::Complete);
    assert_eq!(settle(false, 1), Settlement::RetryIn(10));
    assert_eq!(settle(false, 2), Settlement::RetryIn(20));
    assert_eq!(settle(false, 3), Settlement::GiveUp);
    assert_eq!(settle(false, 7), Settlement::GiveUp);
}

#[test]
fn only_deploy_jobs_are_known() {
    assert_eq!(job_kind("deploy").ok(), Some(JobKind::Deploy));
    match job_kind("resize") {
        Err(Error::Internal(m)) => assert_eq!(m, "unknown job kind resize"),
        _ => panic!("an unknown kind is an internal error"),
    }
}

#[test]
fn the_worker_looks_again_at_once_only_after_a_job() {
    assert!(!rest_after(Some(true)));
    assert!(rest_after(Some(false)));
    assert!(rest_after(None));
}

fn deployment(image: Option<&str>, rolled_back_from: Option<u128>) -> Deployment {
    Deployment {
        id: 2,
        app_id: 1,
        commit_sha: "abc123".to_string(),
        status: "queued".to_string(),
        image_ref: image.map(str::to_string),
        rolled_back_from,
    }
}

fn app() -> Application {
    Application {
        id: 1,
        owner_id: 9,
        name: "blog".to_string(),
        git_repo: "https://github.com/o/r.git".to_string(),
        git_branch: "main".to_string(),
        build_type: "dockerfile".to_string(),
        dockerfile_path: "Dockerfile".to_string(),
        container_port: 3000,
        cpu_limit: "250m".to_string(),
        memory_limit: "256Mi".to_string(),
        replicas: 1,
        git_credentials_set: false,
        webhook_secret: "s".to_string(),
    }
}

#[test]
fn a_rollback_reuses_its_image_and_everything_else_builds() {
    match image_plan(&deployment(Some("reg/spark/a:old"), Some(5)), "reg", 1) {
        ImagePlan::Reuse(i) => assert_eq!(i, "reg/spark/a:old"),
        ImagePlan::Build(_) => panic!("a rollback must not rebuild"),
    }
    let built = "reg/spark/00000000-0000-0000-0000-000000000001:00000000-0000-0000-0000-000000000002";
    for d in [deployment(None, None), deployment(Some("x"), None), deployment(None, Some(5))] {
        match image_plan(&d, "reg", 1) {
            ImagePlan::Build(i) => assert_eq!(i, built),
            ImagePlan::Reuse(_) => panic!("only a rollback with an image reuses it"),
        }
    }
}

#[test]
fn specs_carry_the_application_and_deployment_fields() {
    let s = build_spec(&app(), &deployment(None, None), "ns".to_string(), "img".to_string(), true);
    assert_eq!((s.deployment_id, s.app_id), (2, 1));
    assert_eq!(s.git_ref, "abc123");
    assert_eq!(s.git_repo, "https://github.com/o/r.git");
    assert_eq!(s.image_ref, "img");
    assert!(s.registry_insecure);

    let r = rollout_spec(&app(), "ns".to_string(), "img".to_string(), vec!["blog.localhost".to_string()]);
    assert_eq!(r.container_port, 3000);
    assert_eq!(r.cpu_limit, "250m");
    assert_eq!(r.hosts, vec!["blog.localhost"]);
}

#[test]
fn polling_steps_wait_until_the_deadline() {
    assert_eq!(apply_job_step(true, false), Poll::Proceed);
    assert_eq!(apply_job_step(false, true), Poll::Again);
    assert_eq!(apply_job_step(false, false), Poll::Stop);

    assert_eq!(pod_search_step(Some(Some("p".to_string())), false), Poll::Proceed);
    assert_eq!(pod_search_step(Some(None), true), Poll::Again);
    assert_eq!(pod_search_step(Some(None), false), Poll::Stop);
    assert_eq!(pod_search_step(None, true), Poll::Stop);

    assert_eq!(pod_phase_step(Some("Pending")), Poll::Again);
    assert_eq!(pod_phase_step(Some("Running")), Poll::Proceed);
    assert_eq!(pod_phase_step(Some("")), Poll::Proceed);
    assert_eq!(pod_phase_step(None), Poll::Stop);
}

#[test]
fn a_build_ends_on_its_outcome_or_its_deadline() {
    assert!(matches!(build_outcome_step(JobOutcome::Succeeded, false), Ok(true)));
    assert!(matches!(build_outcome_step(JobOutcome::Running, true), Ok(false)));
    match build_outcome_step(JobOutcome::Failed, true) {
        Err(Error::Invalid(m)) => assert_eq!(m, "build failed; see the deployment log"),
        _ => panic!("a failed build is reported to the user"),
    }
    match build_outcome_step(JobOutcome::Running, false) {
        Err(Error::Internal(m)) => assert_eq!(m, "build timed out"),
        _ => panic!("a build past its deadline times out"),
    }
}

#[test]
fn a_rollout_is_done_only_once_enough_pods_are_ready() {
    // No ready pod is never a finished rollout, whatever the replica count.
    assert!(matches!(rollout_step(0, 0, true), Ok(false)));
    assert!(matches!(rollout_step(-1, 0, false), Err(Error::Invalid(_))));
    assert!(matches!(rollout_step(0, 1, true), Ok(true)));
    assert!(matches!(rollout_step(2, 2, true), Ok(true)));
    assert!(matches!(rollout_step(2, 1, true), Ok(false)));
    match rollout_step(2, 1, false) {
        Err(Error::Invalid(m)) => assert_eq!(
            m,
            "the application did not become ready; check that it listens on the configured port"
        ),
        _ => panic!("a rollout past its deadline fails"),
    }
}

#[test]
fn log_lines_name_what_happened() {
    assert_eq!(rolling_back_line("img"), "[spark] rolling back to img");
    assert_eq!(deployed_line("blog.localhost"), "[spark] deployed to http://blog.localhost");
    assert_eq!(failed_line("boom"), "[spark] deployment failed: boom");
    assert_eq!(stream_ended_line("eof"), "[spark] log stream ended early: eof");
}

#[test]
fn pruning_deletes_the_images_of_stale_deployments() {
    let stale = vec![deployment(Some("a"), None), deployment(None, None), deployment(Some("b"), Some(1))];
    assert_eq!(images_to_delete(&stale), vec!["a", "b"]);
    assert_eq!(stale_ids(&stale), vec![2, 2, 2]);
    let base = repository_url(true, "localhost:30500", "spark/x");
    assert_eq!(base, "http://localhost:30500/v2/spark/x");
    assert_eq!(repository_url(false, "r.io", "p"), "https://r.io/v2/p");
    assert_eq!(manifest_url(&base, "tag"), "http://localhost:30500/v2/spark/x/manifests/tag");
    assert_eq!(digest_to_delete(true, Some("sha256:1".to_string())).as_deref(), Some("sha256:1"));
    assert_eq!(digest_to_delete(false, Some("sha256:1".to_string())), None);
    assert_eq!(digest_to_delete(true, None), None);
}
