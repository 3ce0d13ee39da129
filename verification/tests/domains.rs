use spark_api::error::Error;
use spark_api::k8s::SslStatus;
use spark_api::services::domains::{
    domain_conflict, ingress_hosts, normalize_domain, recorded_ssl_status, validate_domain,
};

#[test]
fn accepts_hostnames_and_rejects_urls_and_malformed_names() {
    for good in ["example.com", "app.example.com", "a-b.example.co.uk"] {
        assert!(validate_domain(good).is_ok(), "should accept {good:?}");
    }
    for bad in [
        "",
        "localhost",           // needs a dot
        "https://example.com", // scheme
        "example.com/path",    // path
        "example.com:8080",    // port
        "-lead.example.com",
        "trail-.example.com",
        "double..dot.com",
        ".leading.dot.com",
        "UPPER.example.com",
    ] {
        assert!(validate_domain(bad).is_err(), "should reject {bad:?}");
    }
}

#[test]
fn labels_are_at_most_sixty_three_characters() {
    let ok = format!("{}.com", "a".repeat(63));
    let long = format!("{}.com", "a".repeat(64));
    assert!(validate_domain(&ok).is_ok());
    assert!(validate_domain(&long).is_err());
    let too_long = format!("{}.com", vec!["a".repeat(60); 5].join("."));
    assert!(too_long.len() > 253);
    assert!(validate_domain(&too_long).is_err());
}

#[test]
fn a_typed_domain_is_trimmed_and_lowercased() {
    assert_eq!(normalize_domain("  App.Example.COM ").ok().as_deref(), Some("app.example.com"));
    match normalize_domain("https://example.com") {
        Err(Error::Invalid(m)) => assert_eq!(
            m,
            "enter a hostname such as app.example.com, without a scheme or path"
        ),
        _ => panic!("a URL is not a hostname"),
    }
}

#[test]
fn the_generated_host_comes_first() {
    let hosts = ingress_hosts(
        "blog.localhost".to_string(),
        vec!["example.com".to_string(), "www.example.com".to_string()],
    );
    assert_eq!(hosts, vec!["blog.localhost", "example.com", "www.example.com"]);
}

#[test]
fn a_domain_in_use_is_a_conflict() {
    match domain_conflict(Error::Database("dup".to_string()), true) {
        Error::Conflict(m) => assert_eq!(m, "that domain is already in use"),
        _ => panic!("expected a conflict"),
    }
}

#[test]
fn certificate_state_is_recorded_only_with_tls() {
    assert_eq!(recorded_ssl_status(false, Some(SslStatus::Ready)), None);
    assert_eq!(recorded_ssl_status(true, Some(SslStatus::Ready)), Some(SslStatus::Ready));
    assert_eq!(recorded_ssl_status(true, None), Some(SslStatus::NotRequested));
}
