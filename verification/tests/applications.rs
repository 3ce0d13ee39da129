use spark_api::error::Error;
use spark_api::services::applications::{
    application_update, name_conflict, new_application, validate_git_repo, validate_name,
    validate_port, CreateApplication, UpdateApplication,
};

#[test]
fn name_validation_matches_dns_label_rules() {
    for good in ["a", "my-app", "app123", &"a".repeat(40)] {
        assert!(validate_name(good).is_ok(), "should accept {good:?}");
    }
    for bad in [
        "",
        "-lead",
        "trail-",
        "Upper",
        "has space",
        "under_score",
        &"a".repeat(41),
    ] {
        assert!(validate_name(bad).is_err(), "should reject {bad:?}");
    }
}

#[test]
fn git_repo_validation_rejects_argument_injection() {
    assert!(validate_git_repo("https://github.com/o/r.git").is_ok());
    assert!(validate_git_repo("git@github.com:o/r.git").is_ok());
    for bad in [
        "--upload-pack=touch /tmp/x",
        "file:///etc/passwd",
        "ext::sh -c id",
        "",
    ] {
        assert!(validate_git_repo(bad).is_err(), "should reject {bad:?}");
    }
}

#[test]
fn port_validation_covers_boundaries() {
    assert!(validate_port(1).is_ok());
    assert!(validate_port(65535).is_ok());
    assert!(validate_port(0).is_err());
    assert!(validate_port(65536).is_err());
    assert!(validate_port(-1).is_err());
}

fn input(name: &str, repo: &str, port: Option<i32>) -> CreateApplication {
    CreateApplication {
        name: name.to_string(),
        git_repo: repo.to_string(),
        git_branch: None,
        dockerfile_path: None,
        container_port: port,
        cpu_limit: None,
        memory_limit: None,
    }
}

#[test]
fn a_new_application_is_normalised_and_takes_the_defaults() {
    let app = new_application(9, input("  My-App ", " https://github.com/o/r.git ", None))
        .ok()
        .expect("valid input");
    assert_eq!(app.owner_id, 9);
    assert_eq!(app.name, "my-app");
    assert_eq!(app.git_repo, "https://github.com/o/r.git");
    assert_eq!(app.git_branch, "main");
    assert_eq!(app.build_type, "dockerfile");
    assert_eq!(app.dockerfile_path, "Dockerfile");
    assert_eq!(app.container_port, 8080);
    assert_eq!(app.cpu_limit, "500m");
    assert_eq!(app.memory_limit, "512Mi");
    assert_eq!(app.webhook_secret.len(), 64);
    assert!(app.webhook_secret.chars().all(|c| c.is_ascii_hexdigit() && !c.is_ascii_uppercase()));
}

#[test]
fn a_new_application_reports_the_first_rule_broken() {
    let message = |r: Result<_, Error>| match r {
        Err(Error::Invalid(m)) => m,
        _ => panic!("expected an invalid input"),
    };
    assert_eq!(
        message(new_application(1, input("bad name", "ftp://x", Some(0)))),
        "name must be 1-40 characters of lowercase letters, digits or hyphens, and may not start or end with a hyphen"
    );
    assert_eq!(
        message(new_application(1, input("ok", "ftp://x", Some(0)))),
        "git_repo must be an http(s) or git@ URL"
    );
    assert_eq!(
        message(new_application(1, input("ok", "https://x", Some(0)))),
        "container_port must be 1-65535"
    );
}

#[test]
fn an_update_checks_only_a_supplied_port() {
    let patch = |port| UpdateApplication {
        git_branch: Some("dev".to_string()),
        dockerfile_path: None,
        container_port: port,
        cpu_limit: None,
        memory_limit: Some("1Gi".to_string()),
    };
    let update = application_update(patch(None)).ok().expect("no port to check");
    assert_eq!(update.git_branch.as_deref(), Some("dev"));
    assert_eq!(update.memory_limit.as_deref(), Some("1Gi"));
    assert_eq!(update.replicas, None);
    assert!(application_update(patch(Some(3000))).is_ok());
    assert!(application_update(patch(Some(70000))).is_err());
}

#[test]
fn a_duplicate_name_is_a_conflict() {
    match name_conflict(Error::Database("duplicate key".to_string()), true) {
        Error::Conflict(m) => assert_eq!(m, "an application with that name already exists"),
        _ => panic!("expected a conflict"),
    }
    match name_conflict(Error::Database("timeout".to_string()), false) {
        Error::Database(m) => assert_eq!(m, "timeout"),
        _ => panic!("other errors pass through"),
    }
}
