use hmac::{Hmac, Mac};
use sha2::Sha256;
use spark_api::error::Error;
use spark_api::services::webhooks::{decide_push, verify_github, verify_gitlab, PushDecision, PushEvent};

const SECRET: &str = "a-webhook-secret";
const BODY: &[u8] = br#"{"ref":"refs/heads/main","after":"abc"}"#;

/// Signature produced by the same construction GitHub uses.
fn sign(secret: &str, body: &[u8]) -> String {
    let mut mac = <Hmac<Sha256>>::new_from_slice(secret.as_bytes()).expect("key");
    mac.update(body);
    format!("sha256={}", hex::encode(mac.finalize().into_bytes()))
}

#[test]
fn accepts_a_correct_signature() {
    assert!(verify_github(SECRET, &sign(SECRET, BODY), BODY).is_ok());
}

#[test]
fn rejects_a_tampered_body() {
    let signature = sign(SECRET, BODY);
    let tampered = br#"{"ref":"refs/heads/main","after":"evil"}"#;
    assert!(verify_github(SECRET, &signature, tampered).is_err());
}

#[test]
fn rejects_the_wrong_secret_and_malformed_headers() {
    assert!(verify_github("other-secret", &sign(SECRET, BODY), BODY).is_err());
    assert!(verify_github(SECRET, "not-a-signature", BODY).is_err());
    assert!(verify_github(SECRET, "sha256=zzzz", BODY).is_err());
    assert!(verify_github(SECRET, "", BODY).is_err());
}

#[test]
fn an_uppercase_hex_signature_is_accepted_and_a_refusal_is_forbidden() {
    let signature = sign(SECRET, BODY);
    let upper = format!("sha256={}", signature["sha256=".len()..].to_uppercase());
    assert!(verify_github(SECRET, &upper, BODY).is_ok());
    assert!(matches!(verify_github(SECRET, "sha256=00", BODY), Err(Error::Forbidden)));
}

#[test]
fn gitlab_token_must_match_exactly() {
    assert!(verify_gitlab(SECRET, SECRET).is_ok());
    assert!(verify_gitlab(SECRET, "a-webhook-secre").is_err());
    assert!(verify_gitlab(SECRET, "a-webhook-secretX").is_err());
    assert!(verify_gitlab(SECRET, "").is_err());
}

/// The fields the endpoint reads from a push payload.
fn event(json: &str) -> PushEvent {
    let value: serde_json::Value = serde_json::from_str(json).expect("valid event");
    let field = |name: &str| value.get(name).and_then(|v| v.as_str()).map(str::to_string);
    PushEvent {
        ref_name: field("ref"),
        after: field("after"),
        checkout_sha: field("checkout_sha"),
    }
}

#[test]
fn extracts_branch_and_sha_from_both_providers() {
    let github = event(r#"{"ref":"refs/heads/main","after":"1234"}"#);
    assert_eq!(github.branch(), Some("main"));
    assert_eq!(github.sha(), Some("1234"));

    let gitlab = event(r#"{"ref":"refs/heads/dev","checkout_sha":"5678"}"#);
    assert_eq!(gitlab.branch(), Some("dev"));
    assert_eq!(gitlab.sha(), Some("5678"));
}

#[test]
fn ignores_tags_pings_and_branch_deletions() {
    assert_eq!(event(r#"{"ref":"refs/tags/v1"}"#).branch(), None);
    assert_eq!(event(r#"{"zen":"hi"}"#).branch(), None);
    // An all-zero `after` is how a branch deletion is reported.
    let deleted = event(
        r#"{"ref":"refs/heads/main","after":"0000000000000000000000000000000000000000"}"#,
    );
    assert_eq!(deleted.branch(), Some("main"));
    assert_eq!(deleted.sha(), None, "a deletion must not trigger a build");
}

fn ignored(d: PushDecision) -> &'static str {
    match d {
        PushDecision::Ignore(reason) => reason,
        PushDecision::Deploy(_) => panic!("expected the push to be ignored"),
    }
}

#[test]
fn only_a_push_to_the_followed_branch_deploys() {
    match decide_push(&event(r#"{"ref":"refs/heads/main","after":"1234"}"#), "main") {
        PushDecision::Deploy(sha) => assert_eq!(sha, "1234"),
        PushDecision::Ignore(_) => panic!("a push to main deploys"),
    }
    assert_eq!(ignored(decide_push(&event(r#"{"zen":"hi"}"#), "main")), "not a branch push");
    assert_eq!(
        ignored(decide_push(&event(r#"{"ref":"refs/heads/dev","after":"1"}"#), "main")),
        "push was to a different branch"
    );
    assert_eq!(
        ignored(decide_push(&event(r#"{"ref":"refs/heads/main","after":"000"}"#), "main")),
        "branch was deleted"
    );
}
