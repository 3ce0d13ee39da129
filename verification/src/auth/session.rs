//! Session tokens and the cookie that carries them.

use argon2::password_hash::rand_core::RngCore;
use sha2::Digest;
use vstd::prelude::*;

verus! {

broadcast use vstd::string::group_string_axioms;

pub const COOKIE_NAME: &'static str = "spark_session";

pub const SESSION_DAYS: i64 = 30;

/// The lower-case hexadecimal digit for a value below 16.
pub open spec fn hex_digit(v: nat) -> char {
    if v < 10 {
        (('0' as u32) + v) as char
    } else {
        (('a' as u32) + v - 10) as char
    }
}

/// Bytes as lower-case hexadecimal, two digits per byte, high nibble first.
pub open spec fn hex_encoded(b: Seq<u8>) -> Seq<char> {
    Seq::new(
        2 * b.len(),
        |i: int|
            if i % 2 == 0 {
                hex_digit((b[i / 2] / 16) as nat)
            } else {
                hex_digit((b[i / 2] % 16) as nat)
            },
    )
}

/// The shape of a session token: 32 bytes, hex encoded.
pub open spec fn is_hex_token(t: Seq<char>) -> bool {
    exists|b: Seq<u8>| b.len() == 32 && t == hex_encoded(b)
}

/// `hex::encode`.
#[verifier::external_body]
fn hex_encode(bytes: &[u8]) -> (s: String)
    ensures
        s@ == hex_encoded(bytes@),
{
    hex::encode(bytes)
}

/// 32 bytes from the operating system's random source (`OsRng::fill_bytes`).
/// Nothing is stated of the bytes but their number.
#[verifier::external_body]
fn random_bytes() -> (b: [u8; 32])
    ensures
        b@.len() == 32,
{
    let mut bytes = [0u8; 32];
    argon2::password_hash::rand_core::OsRng.fill_bytes(&mut bytes);
    bytes
}

/// 256 bits of entropy, hex encoded.
pub fn generate_token() -> (t: String)
    ensures
        is_hex_token(t@),
{
    let bytes = random_bytes();
    let t = hex_encode(&bytes);
    assert(bytes@.len() == 32 && t@ == hex_encoded(bytes@));
    t
}

/// What `Sha256::digest` returns for the given bytes.
pub uninterp spec fn sha256(data: Seq<u8>) -> Seq<u8>;

/// `sha2::Sha256::digest`: the SHA-256 digest of `data`, whose 32 bytes are
/// all that is stated of it beyond its name.
#[verifier::external_body]
fn sha256_digest(data: &[u8]) -> (d: [u8; 32])
    ensures
        d@ == sha256(data@),
        d@.len() == 32,
{
    sha2::Sha256::digest(data).into()
}

/// The digest the database stores in place of a session token: SHA-256 of
/// the token's UTF-8 bytes, hex encoded.
pub open spec fn token_digest(token: Seq<char>) -> Seq<char> {
    hex_encoded(sha256(vstd::utf8::encode_utf8(token)))
}

/// The database stores only this digest. SHA-256 is right here where argon2
/// would not be: the input is already high-entropy random, so there is nothing
/// to brute force and no reason to pay a KDF's cost on every request.
pub fn hash_token(token: &str) -> (h: String)
    ensures
        h@ == token_digest(token@),
        h@.len() == 64,
{
    let d = sha256_digest(token.as_bytes());
    hex_encode(&d)
}

/// The session cookie as the browser is told to keep it.
pub struct SessionCookie {
    pub name: String,
    pub value: String,
    pub http_only: bool,
    /// `SameSite=Lax`.
    pub same_site_lax: bool,
    pub path: String,
    pub secure: bool,
    pub max_age_seconds: i64,
}

/// Seconds in a day.
pub const DAY_SECONDS: i64 = 86400;

/// The cookie that carries a new session: HTTP-only, `SameSite=Lax`, for the
/// whole site, living as long as the session.
///
/// `secure` is driven by config rather than hard-coded: a browser silently
/// drops a Secure cookie sent over plain HTTP, which is exactly what host
/// development uses.
pub fn cookie(token: String, secure: bool) -> (c: SessionCookie)
    ensures
        c.name@ == COOKIE_NAME@,
        c.value@ == token@,
        c.http_only,
        c.same_site_lax,
        c.path@ == "/"@,
        c.secure == secure,
        c.max_age_seconds == SESSION_DAYS * DAY_SECONDS,
{
    SessionCookie {
        name: COOKIE_NAME.to_string(),
        value: token,
        http_only: true,
        same_site_lax: true,
        path: "/".to_string(),
        secure,
        max_age_seconds: SESSION_DAYS * DAY_SECONDS,
    }
}

/// The cookie that clears a session: the same name and path, an empty value
/// and no lifetime left.
pub fn removal_cookie() -> (c: SessionCookie)
    ensures
        c.name@ == COOKIE_NAME@,
        c.value@.len() == 0,
        c.http_only,
        c.same_site_lax,
        c.path@ == "/"@,
        !c.secure,
        c.max_age_seconds == 0,
{
    SessionCookie {
        name: COOKIE_NAME.to_string(),
        value: String::new(),
        http_only: true,
        same_site_lax: true,
        path: "/".to_string(),
        secure: false,
        max_age_seconds: 0,
    }
}

} // verus!
