use spark_api::error::Error;
use spark_api::k8s::secret::SecretData;
use spark_api::models::Deployment;
use spark_api::services::auth::{
    login_result, normalize_email, registration_check, signup_gate, signup_is_open,
    validate_credentials,
};
use spark_api::services::applications::{after_namespace, AfterNamespace};
use spark_api::services::deployments::{check_rollback, in_flight_conflict, list_limit, pinned_ref};
use spark_api::services::git_credentials::{credentials_data, normalize_token, token_from, TOKEN_KEY};

fn invalid_message(r: Result<(), Error>) -> String {
    match r {
        Err(Error::Invalid(m)) => m,
        _ => panic!("expected an invalid input"),
    }
}

#[test]
fn credentials_are_checked_email_first() {
    assert!(validate_credentials("a@b", "twelve chars").is_ok());
    assert_eq!(invalid_message(validate_credentials("ab", "x")), "a valid email address is required");
    assert_eq!(
        invalid_message(validate_credentials("a@b.c", "short")),
        "password must be at least 12 characters"
    );
    assert_eq!(
        invalid_message(validate_credentials("a@b.c", &"p".repeat(1025))),
        "password is too long"
    );
    // Counted in characters at the lower bound.
    assert!(validate_credentials("a@b.c", "ééééééééééé").is_err());
    assert!(validate_credentials("a@b.c", "éééééééééééé").is_ok());
}

#[test]
fn accounts_follow_the_bootstrap_rule() {
    assert!(signup_is_open(0));
    assert!(!signup_is_open(1));
    assert_eq!(normalize_email("  Me@Example.COM "), "me@example.com");
    assert!(registration_check(false).is_ok());
    assert!(matches!(registration_check(true), Err(Error::Conflict(m)) if m == "that email is already registered"));
    assert!(login_result(true, true).is_ok());
    assert!(matches!(login_result(true, false), Err(Error::Unauthorized)));
    assert!(matches!(login_result(false, true), Err(Error::Unauthorized)));
}

fn source(status: &str, image: Option<&str>) -> Deployment {
    Deployment {
        id: 3,
        app_id: 1,
        commit_sha: "c".to_string(),
        status: status.to_string(),
        image_ref: image.map(str::to_string),
        rolled_back_from: None,
    }
}

#[test]
fn only_a_deployed_image_can_be_rolled_back_to() {
    assert!(check_rollback(&source("deployed", Some("img"))).is_ok());
    assert_eq!(
        invalid_message(check_rollback(&source("deployed", None))),
        "that deployment never produced an image, so there is nothing to roll back to"
    );
    assert_eq!(
        invalid_message(check_rollback(&source("failed", Some("img")))),
        "only a deployment that reached 'deployed' can be rolled back to"
    );
}

#[test]
fn listings_are_clamped_and_refs_pinned() {
    assert_eq!(list_limit(0), 1);
    assert_eq!(list_limit(50), 50);
    assert_eq!(list_limit(1000), 100);
    assert_eq!(pinned_ref(Some("sha".to_string()), Some("other".to_string()), "main"), "sha");
    assert_eq!(pinned_ref(None, Some("resolved".to_string()), "main"), "resolved");
    assert_eq!(pinned_ref(None, None, "main"), "main");
    assert!(matches!(
        in_flight_conflict(Error::Database("dup".to_string()), true),
        Error::Conflict(m) if m == "a deployment is already in progress for this application"
    ));
}

#[test]
fn tokens_are_trimmed_and_must_be_one_word() {
    assert_eq!(normalize_token("  ghp_abc \n").ok().as_deref(), Some("ghp_abc"));
    assert!(matches!(normalize_token("   "), Err(Error::Invalid(m)) if m == "token must not be empty"));
    assert!(matches!(
        normalize_token("Bearer ghp_abc"),
        Err(Error::Invalid(m)) if m == "token must not contain spaces; paste only the token itself"
    ));
}

#[test]
fn the_stored_token_is_read_back_unless_empty() {
    let data = credentials_data("ghp_abc".to_string());
    assert_eq!(data.keys(), vec![TOKEN_KEY]);
    assert_eq!(token_from(&data).as_deref(), Some("ghp_abc"));
    assert_eq!(token_from(&credentials_data(String::new())), None);
    assert_eq!(token_from(&SecretData::new()), None);
}

#[test]
fn signup_needs_a_session_once_there_are_users() {
    assert!(signup_gate(0, false, false).is_ok());
    assert!(signup_gate(3, true, true).is_ok());
    assert!(matches!(signup_gate(3, true, false), Err(Error::Forbidden)));
    assert!(matches!(signup_gate(3, false, false), Err(Error::Forbidden)));
}

#[test]
fn a_refused_namespace_rolls_the_application_back() {
    assert!(matches!(after_namespace(Ok(())), AfterNamespace::Keep));
    match after_namespace(Err(Error::Kube("forbidden".to_string()))) {
        AfterNamespace::RollBack(Error::Kube(m)) => assert_eq!(m, "forbidden"),
        _ => panic!("the cluster's error is returned"),
    }
}
