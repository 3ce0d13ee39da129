use spark_api::k8s::names::{default_host, namespace};

#[test]
fn namespace_fits_the_kubernetes_limit() {
    let ns = namespace(0);
    assert!(
        ns.len() <= 63,
        "namespace {ns} exceeds the 63 character limit"
    );
    assert!(ns.starts_with("spark-app-"));
}

#[test]
fn ids_are_written_as_hyphenated_lowercase_uuids() {
    assert_eq!(namespace(0), "spark-app-00000000-0000-0000-0000-000000000000");
    assert_eq!(
        namespace(0x0123_4567_89ab_cdef_0123_4567_89AB_CDEF),
        "spark-app-01234567-89ab-cdef-0123-456789abcdef"
    );
    assert_eq!(namespace(1), "spark-app-00000000-0000-0000-0000-000000000001");
    assert_eq!(namespace(u128::MAX).len(), 46);
}

#[test]
fn hosts_are_the_name_under_the_base_domain() {
    assert_eq!(default_host("blog", "localhost"), "blog.localhost");
}

#[test]
fn different_ids_get_different_namespaces() {
    assert_ne!(namespace(1), namespace(1 << 64));
    assert_ne!(namespace(u128::MAX), namespace(u128::MAX - 1));
}
