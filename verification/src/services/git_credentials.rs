//! Git credentials for private repositories.
//!
//! Stored in a Secret of their own, not in the application's environment
//! Secret: that one is injected into the running container, and a deploy
//! token has no business being readable by the application it deploys.
//! HTTPS tokens only.

use crate::error::{invalid, is_invalid, Error};
use crate::k8s::secret::SecretData;
use crate::text::{any_whitespace, chars_of, is_white_space, trim, trimmed};
use vstd::prelude::*;

verus! {

broadcast use vstd::string::group_string_axioms;

/// Secret holding the deploy token, separate from the application's env.
pub const GIT_SECRET: &'static str = "app-git";

pub const TOKEN_KEY: &'static str = "token";

pub open spec fn empty_token_rule() -> Seq<char> {
    "token must not be empty"@
}

pub open spec fn spaced_token_rule() -> Seq<char> {
    "token must not contain spaces; paste only the token itself"@
}

pub open spec fn has_white_space(s: Seq<char>) -> bool {
    exists|i: int| 0 <= i < s.len() && is_white_space(#[trigger] s[i])
}

/// The token as it is stored: trimmed, and refused when that leaves nothing
/// or leaves white space inside, since a pasted URL or a whole
/// `Authorization:` header is a common mistake worth catching before a build
/// fails.
pub fn normalize_token(token: &str) -> (r: Result<String, Error>)
    ensures
        trimmed(token@).len() == 0 ==> is_invalid(r, empty_token_rule()),
        trimmed(token@).len() > 0 && has_white_space(trimmed(token@)) ==> is_invalid(
            r,
            spaced_token_rule(),
        ),
        r is Ok <==> trimmed(token@).len() > 0 && !has_white_space(trimmed(token@)),
        r matches Ok(t) ==> t@ == trimmed(token@),
{
    let t = trim(token);
    let v = chars_of(t.as_str());
    if v.len() == 0 {
        return Err(invalid("token must not be empty"));
    }
    if any_whitespace(&v) {
        return Err(invalid("token must not contain spaces; paste only the token itself"));
    }
    Ok(t)
}

/// The data of the credentials Secret: the token under its key.
pub fn credentials_data(token: String) -> (d: SecretData)
    ensures
        d.view() == Map::<Seq<char>, Seq<char>>::empty().insert(TOKEN_KEY@, token@),
{
    let mut d = SecretData::new();
    d.insert(TOKEN_KEY.to_string(), token);
    d
}

/// The token read back from the credentials Secret; an empty one counts as
/// none.
pub fn token_from(secret: &SecretData) -> (t: Option<String>)
    ensures
        match t {
            Some(v) => secret.view().contains_key(TOKEN_KEY@) && v@ == secret.view()[TOKEN_KEY@]
                && v@.len() > 0,
            None => !secret.view().contains_key(TOKEN_KEY@) || secret.view()[TOKEN_KEY@].len()
                == 0,
        },
{
    match secret.get(TOKEN_KEY) {
        Some(v) => {
            if v.as_str().is_empty() {
                None
            } else {
                Some(v)
            }
        },
        None => None,
    }
}

} // verus!
