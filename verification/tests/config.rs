use spark_api::config::{cidr_list, config_from, issuer_setting, parse_flag, EnvVars};

fn env() -> EnvVars {
    EnvVars {
        database_url: Some("postgres://db".to_string()),
        bind_addr: None,
        app_base_domain: None,
        registry_url: None,
        registry_insecure: None,
        cluster_issuer: None,
        cookie_secure: None,
        build_cache: None,
        cluster_cidrs: None,
    }
}

#[test]
fn defaults_match_a_stock_local_cluster() {
    let c = config_from(env()).ok().expect("only the database is required");
    assert_eq!(c.database_url, "postgres://db");
    assert_eq!(c.bind_addr, "0.0.0.0:8080");
    assert_eq!(c.app_base_domain, "localhost");
    assert_eq!(c.registry_url, "localhost:30500");
    assert!(c.registry_insecure);
    assert_eq!(c.cluster_issuer.as_deref(), Some("spark-selfsigned"));
    assert!(!c.cookie_secure);
    assert!(c.build_cache);
    assert_eq!(c.cluster_cidrs, vec!["10.96.0.0/12", "10.244.0.0/16"]);
}

#[test]
fn missing_and_malformed_values_are_refused_in_order() {
    let mut e = env();
    e.database_url = None;
    e.registry_insecure = Some("yes".to_string());
    assert_eq!(config_from(e).err().as_deref(), Some("required environment variable DATABASE_URL is not set"));

    let mut e = env();
    e.registry_insecure = Some("yes".to_string());
    e.cookie_secure = Some("1".to_string());
    assert_eq!(config_from(e).err().as_deref(), Some("REGISTRY_INSECURE must be true or false"));

    let mut e = env();
    e.cookie_secure = Some("TRUE".to_string());
    assert_eq!(config_from(e).err().as_deref(), Some("COOKIE_SECURE must be true or false"));

    let mut e = env();
    e.build_cache = Some(" true".to_string());
    assert_eq!(config_from(e).err().as_deref(), Some("BUILD_CACHE must be true or false"));
}

#[test]
fn flags_are_exactly_true_or_false() {
    assert_eq!(parse_flag("true"), Some(true));
    assert_eq!(parse_flag("false"), Some(false));
    assert_eq!(parse_flag("True"), None);
    assert_eq!(parse_flag(""), None);
}

#[test]
fn a_blank_issuer_disables_tls() {
    assert_eq!(issuer_setting("  ".to_string()), None);
    assert_eq!(issuer_setting(" le ".to_string()).as_deref(), Some(" le "));
}

#[test]
fn cidrs_are_split_trimmed_and_blank_ones_dropped() {
    assert_eq!(cidr_list(" 10.0.0.0/8 , ,192.168.0.0/16,"), vec!["10.0.0.0/8", "192.168.0.0/16"]);
    assert!(cidr_list("").is_empty());
    assert_eq!(cidr_list("a"), vec!["a"]);
}
