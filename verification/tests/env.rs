use spark_api::error::Error;
use spark_api::k8s::secret::SecretData;
use spark_api::services::env::{merge_vars, remove_var, reveal_value, validate_key, validate_keys};

#[test]
fn accepts_conventional_names_and_rejects_the_rest() {
    for good in ["DATABASE_URL", "PORT", "a", "my.key", "my-key", "X1"] {
        assert!(validate_key(good).is_ok(), "should accept {good:?}");
    }
    for bad in [
        "",
        "1LEADING",
        "has space",
        "has=equals",
        "dollar$",
        &"a".repeat(254),
    ] {
        assert!(validate_key(bad).is_err(), "should reject {bad:?}");
    }
}

#[test]
fn an_unusable_name_is_quoted_in_the_message() {
    match validate_key("has space") {
        Err(Error::Invalid(m)) => assert_eq!(
            m,
            "\"has space\" is not a usable variable name: use letters, digits, '_', '.' or '-', and do not start with a digit"
        ),
        _ => panic!("expected an invalid name"),
    }
    let keys = vec!["OK".to_string(), "1BAD".to_string(), "ALSO BAD".to_string()];
    match validate_keys(&keys) {
        Err(Error::Invalid(m)) => assert!(m.starts_with("\"1BAD\"")),
        _ => panic!("the first bad name is reported"),
    }
}

fn secret(pairs: &[(&str, &str)]) -> SecretData {
    let mut s = SecretData::new();
    for (k, v) in pairs {
        s.insert(k.to_string(), v.to_string());
    }
    s
}

#[test]
fn a_revealed_value_is_the_one_last_set() {
    let mut data = secret(&[("PORT", "3000"), ("MODE", "dev")]);
    merge_vars(&mut data, &secret(&[("MODE", "prod"), ("NEW", "1")])).ok().expect("valid names");
    assert_eq!(reveal_value(&data, "MODE").ok().as_deref(), Some("prod"));
    assert_eq!(reveal_value(&data, "NEW").ok().as_deref(), Some("1"));
    assert_eq!(reveal_value(&data, "PORT").ok().as_deref(), Some("3000"));
    assert_eq!(data.keys(), vec!["MODE", "NEW", "PORT"]);
}

#[test]
fn a_bad_name_changes_nothing() {
    let mut data = secret(&[("PORT", "3000")]);
    assert!(merge_vars(&mut data, &secret(&[("GOOD", "1"), ("bad name", "2")])).is_err());
    assert_eq!(data.keys(), vec!["PORT"]);
    assert!(matches!(reveal_value(&data, "GOOD"), Err(Error::NotFound("environment variable"))));
}

#[test]
fn a_removed_variable_is_not_found() {
    let mut data = secret(&[("A", "1"), ("B", "2")]);
    assert!(remove_var(&mut data, "A").is_ok());
    assert!(matches!(reveal_value(&data, "A"), Err(Error::NotFound("environment variable"))));
    assert_eq!(reveal_value(&data, "B").ok().as_deref(), Some("2"));
    assert!(matches!(remove_var(&mut data, "A"), Err(Error::NotFound("environment variable"))));
}

#[test]
fn the_first_unusable_name_in_key_order_is_reported() {
    let mut data = secret(&[]);
    match merge_vars(&mut data, &secret(&[("zz bad", "1"), ("OK", "2"), ("a bad", "3")])) {
        Err(Error::Invalid(m)) => assert!(m.starts_with("\"a bad\""), "{m}"),
        _ => panic!("an unusable name is refused"),
    }
}
