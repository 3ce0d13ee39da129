//! Account rules: who may sign up, and what an account's credentials look like.

use crate::error::{invalid, is_invalid, Error};
use crate::text::{chars_of, to_lowercase, trim, trimmed, unicode_lowercase};
use vstd::prelude::*;
use vstd::utf8::encode_utf8;

verus! {

broadcast use {vstd::string::group_string_axioms, vstd::slice::group_slice_axioms};

pub open spec fn email_rule() -> Seq<char> {
    "a valid email address is required"@
}

pub open spec fn short_password_rule() -> Seq<char> {
    "password must be at least 12 characters"@
}

pub open spec fn long_password_rule() -> Seq<char> {
    "password is too long"@
}

/// An email that could plausibly be routed: it holds '@' and is 3-254 bytes
/// long. Deliberately loose, since any stricter check is wrong in some locale.
pub open spec fn plausible_email(email: Seq<char>) -> bool {
    &&& email.contains('@')
    &&& 3 <= encode_utf8(email).len() <= 254
}

/// The first account is created without authentication so the instance can be
/// bootstrapped; after that, only an existing user may add accounts.
pub fn signup_is_open(user_count: i64) -> (open: bool)
    ensures
        open == (user_count == 0),
{
    user_count == 0
}

/// The form an email is stored and looked up in: trimmed and lower-cased.
pub fn normalize_email(email: &str) -> (e: String)
    ensures
        e@ == unicode_lowercase(trimmed(email@)),
{
    to_lowercase(trim(email).as_str())
}

/// Checks an email and a password, in that order. A password is 12 to 1024
/// bytes long, counted in characters at the lower bound and in bytes at the
/// upper one.
pub fn validate_credentials(email: &str, password: &str) -> (r: Result<(), Error>)
    ensures
        !plausible_email(email@) ==> is_invalid(r, email_rule()),
        plausible_email(email@) && password@.len() < 12 ==> is_invalid(r, short_password_rule()),
        plausible_email(email@) && password@.len() >= 12 && encode_utf8(password@).len() > 1024
            ==> is_invalid(r, long_password_rule()),
        r is Ok <==> plausible_email(email@) && password@.len() >= 12 && encode_utf8(password@).len()
            <= 1024,
{
    let e = chars_of(email);
    let mut has_at = false;
    let mut i: usize = 0;
    while i < e.len()
        invariant
            e@ == email@,
            i <= e@.len(),
            has_at == exists|j: int| 0 <= j < i && e@[j] == '@',
        decreases e.len() - i,
    {
        if e[i] == '@' {
            has_at = true;
        }
        i += 1;
    }
    assert(has_at == email@.contains('@'));
    let email_len = email.as_bytes().len();
    if !has_at || email_len < 3 || email_len > 254 {
        return Err(invalid("a valid email address is required"));
    }
    if chars_of(password).len() < 12 {
        return Err(invalid("password must be at least 12 characters"));
    }
    if password.as_bytes().len() > 1024 {
        return Err(invalid("password is too long"));
    }
    Ok(())
}

/// Whether a signup may go ahead: freely while the instance has no users,
/// afterwards only for a request whose session cookie matches an unexpired
/// session; anything else is forbidden.
pub fn signup_gate(user_count: i64, has_cookie: bool, session_found: bool) -> (r: Result<(), Error>)
    ensures
        r is Ok <==> user_count == 0 || (has_cookie && session_found),
        r is Err ==> r == Err::<(), Error>(Error::Forbidden),
{
    if signup_is_open(user_count) || (has_cookie && session_found) {
        Ok(())
    } else {
        Err(Error::Forbidden)
    }
}

/// Registering an email that already has an account is a conflict.
pub fn registration_check(already_registered: bool) -> (r: Result<(), Error>)
    ensures
        r is Ok <==> !already_registered,
        r is Err ==> (r matches Err(Error::Conflict(m)) && m@ == "that email is already registered"@),
{
    if already_registered {
        Err(Error::Conflict("that email is already registered".to_string()))
    } else {
        Ok(())
    }
}

/// A login succeeds only for a known account whose password matches; an
/// unknown email and a wrong password get the same answer, so the response
/// does not reveal whether an email is registered.
pub fn login_result(account_found: bool, password_matches: bool) -> (r: Result<(), Error>)
    ensures
        r is Ok <==> account_found && password_matches,
        r is Err ==> r == Err::<(), Error>(Error::Unauthorized),
{
    if account_found && password_matches {
        Ok(())
    } else {
        Err(Error::Unauthorized)
    }
}

} // verus!
