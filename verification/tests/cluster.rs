use spark_api::k8s::cluster::{
    already_gone, app_selector, app_status_from, certificate_status_from, job_outcome_from,
    job_pod_selector, metrics_unavailable, pod_status, usage_totals, CertCondition, ContainerInfo,
    ContainerUsage, PodInfo,
};
use spark_api::k8s::{JobOutcome, SslStatus};

#[test]
fn ssl_states_have_their_stored_names() {
    assert_eq!(SslStatus::NotRequested.as_str(), "none");
    assert_eq!(SslStatus::Pending.as_str(), "pending");
    assert_eq!(SslStatus::Ready.as_str(), "ready");
    assert_eq!(SslStatus::Failed.as_str(), "failed");
}

#[test]
fn a_job_succeeds_before_it_fails() {
    assert_eq!(job_outcome_from(Some(1), Some(3)), JobOutcome::Succeeded);
    assert_eq!(job_outcome_from(None, Some(1)), JobOutcome::Failed);
    assert_eq!(job_outcome_from(Some(0), None), JobOutcome::Running);
}

fn cond(kind: &str, status: &str) -> CertCondition {
    CertCondition {
        kind: Some(kind.to_string()),
        status: Some(status.to_string()),
    }
}

#[test]
fn the_first_ready_condition_decides_the_certificate() {
    assert_eq!(certificate_status_from(None), SslStatus::Pending);
    assert_eq!(certificate_status_from(Some(&vec![])), SslStatus::Pending);
    let issuing = vec![cond("Issuing", "True"), cond("Ready", "True"), cond("Ready", "False")];
    assert_eq!(certificate_status_from(Some(&issuing)), SslStatus::Ready);
    assert_eq!(certificate_status_from(Some(&vec![cond("Ready", "False")])), SslStatus::Failed);
    assert_eq!(certificate_status_from(Some(&vec![cond("Ready", "Unknown")])), SslStatus::Pending);
}

fn container(ready: bool, restarts: i32, waiting: Option<&str>) -> ContainerInfo {
    ContainerInfo {
        ready,
        restart_count: restarts,
        waiting_reason: waiting.map(str::to_string),
    }
}

fn pod(name: &str, build: bool, containers: Vec<ContainerInfo>) -> PodInfo {
    PodInfo {
        name: Some(name.to_string()),
        has_job_name_label: build,
        phase: Some("Running".to_string()),
        containers,
    }
}

#[test]
fn a_pod_is_ready_only_when_every_container_is() {
    let p = pod("a", false, vec![container(true, 1, None), container(false, 2, Some("CrashLoopBackOff"))]);
    let s = pod_status(&p);
    assert_eq!(s.name, "a");
    assert_eq!(s.phase, "Running");
    assert!(!s.ready);
    assert_eq!(s.restarts, 3);
    assert_eq!(s.message.as_deref(), Some("CrashLoopBackOff"));

    let empty = PodInfo {
        name: None,
        has_job_name_label: false,
        phase: None,
        containers: vec![],
    };
    let s = pod_status(&empty);
    assert!(!s.ready, "a pod with no containers is not ready");
    assert_eq!(s.name, "");
    assert_eq!(s.phase, "Unknown");
    assert_eq!(s.message, None);
}

#[test]
fn build_pods_are_left_out_of_an_applications_health() {
    let pods = vec![
        pod("build", true, vec![container(false, 5, Some("ErrImagePull"))]),
        pod("app-1", false, vec![container(true, 1, None)]),
        pod("app-2", false, vec![container(true, 2, None)]),
    ];
    let s = app_status_from(2, 2, &pods, Some((120, 4096)));
    assert!(s.ready);
    assert_eq!(s.replicas, 2);
    assert_eq!(s.pods.len(), 2);
    assert_eq!(s.pods[0].name, "app-1");
    assert_eq!(s.pods[1].name, "app-2");
    assert_eq!(s.restarts, 3);
    assert_eq!(s.cpu_millicores, Some(120));
    assert_eq!(s.memory_bytes, Some(4096));

    let none = app_status_from(0, 0, &vec![], None);
    assert!(!none.ready);
    assert_eq!(none.cpu_millicores, None, "no metrics is not zero usage");
}

#[test]
fn usage_is_summed_and_unreadable_values_count_as_zero() {
    let usage = |cpu: Option<&str>, memory: Option<&str>| ContainerUsage {
        cpu: cpu.map(str::to_string),
        memory: memory.map(str::to_string),
    };
    let containers = vec![
        usage(Some("12345678n"), Some("1Ki")),
        usage(Some("250m"), Some("bogus")),
        usage(None, Some("2Mi")),
    ];
    assert_eq!(usage_totals(&containers), (262, 1024 + 2 * 1024 * 1024));
    assert_eq!(usage_totals(&vec![]), (0, 0));
}

#[test]
fn selectors_and_missing_objects() {
    assert_eq!(job_pod_selector("build-x"), "job-name=build-x");
    assert_eq!(app_selector(1), "spark.io/app=00000000-0000-0000-0000-000000000001");
    assert!(already_gone(404) && !already_gone(500));
    assert!(metrics_unavailable(503) && metrics_unavailable(404) && !metrics_unavailable(500));
}
