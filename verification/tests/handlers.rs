use spark_api::handlers::{
    default_limit, split_lines, stream_end, webhook_config, Window, RECENT_LIMIT,
};
use spark_api::models::Deployment;

#[test]
fn the_window_defaults_to_thirty_days_and_is_clamped() {
    assert_eq!(Window { days: None }.days(), 30);
    assert_eq!(Window { days: Some(7) }.days(), 7);
    assert_eq!(Window { days: Some(0) }.days(), 1);
    assert_eq!(Window { days: Some(-5) }.days(), 1);
    assert_eq!(Window { days: Some(10_000) }.days(), 365);
    assert_eq!(RECENT_LIMIT, 12);
    assert_eq!(default_limit(), 50);
}

#[test]
fn webhook_urls_carry_the_application_id() {
    let c = webhook_config(1, "secret".to_string());
    assert_eq!(c.github_url, "/api/v1/webhooks/github/00000000-0000-0000-0000-000000000001");
    assert_eq!(c.gitlab_url, "/api/v1/webhooks/gitlab/00000000-0000-0000-0000-000000000001");
    assert_eq!(c.secret, "secret");
}

#[test]
fn log_text_splits_like_str_lines() {
    for text in ["", "a", "a\n", "a\nb", "a\r\nb\r\n", "\n\n", "x\r", "a\n\r\nb", "é\nü"] {
        let expected: Vec<&str> = text.lines().collect();
        assert_eq!(split_lines(text), expected, "splitting {text:?}");
    }
}

#[test]
fn the_stream_ends_with_a_terminal_status() {
    assert!(stream_end("deployed"));
    assert!(stream_end("failed"));
    assert!(!stream_end("building"));
    let d = Deployment {
        id: 1,
        app_id: 1,
        commit_sha: String::new(),
        status: "failed".to_string(),
        image_ref: None,
        rolled_back_from: None,
    };
    assert!(d.is_finished());
}
