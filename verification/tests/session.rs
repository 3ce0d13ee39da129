use sha2::{Digest, Sha256};
use spark_api::auth::session::{
    cookie, generate_token, hash_token, removal_cookie, COOKIE_NAME, SESSION_DAYS,
};

#[test]
fn tokens_are_sixty_four_lowercase_hex_digits_and_differ() {
    let a = generate_token();
    let b = generate_token();
    assert_eq!(a.len(), 64);
    assert!(a.chars().all(|c| matches!(c, '0'..='9' | 'a'..='f')));
    assert_ne!(a, b);
}

#[test]
fn the_stored_digest_is_sha256_in_hex() {
    assert_eq!(
        hash_token("abc"),
        "ba7816bf8f01cfea414140de5dae2223b00361a396177a9cb410ff61f20015ad"
    );
    assert_eq!(hash_token("abc"), hex::encode(Sha256::digest(b"abc")));
    assert_ne!(hash_token("abc"), "abc");
}

#[test]
fn the_session_cookie_lives_as_long_as_the_session() {
    let c = cookie("tok".to_string(), true);
    assert_eq!(c.name, COOKIE_NAME);
    assert_eq!(c.value, "tok");
    assert!(c.http_only && c.same_site_lax && c.secure);
    assert_eq!(c.path, "/");
    assert_eq!(c.max_age_seconds, SESSION_DAYS * 86400);
    assert!(!cookie("tok".to_string(), false).secure);
}

#[test]
fn the_removal_cookie_is_empty_and_expired() {
    let c = removal_cookie();
    assert_eq!(c.name, "spark_session");
    assert_eq!(c.value, "");
    assert_eq!(c.max_age_seconds, 0);
    assert_eq!(c.path, "/");
}
