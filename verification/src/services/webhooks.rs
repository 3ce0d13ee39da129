//! Git provider webhooks.
//!
//! Each application has its own webhook URL and secret, so a push names the
//! application it is for and the secret to verify it against.

use crate::error::Error;
use crate::text::{chars_of, str_eq, strip_prefix};
use hmac::{Hmac, Mac};
use sha2::Sha256;
use vstd::prelude::*;
use vstd::utf8::encode_utf8;

verus! {

broadcast use {vstd::string::group_string_axioms, vstd::slice::group_slice_axioms};

/// The fields of a push event that decide whether to deploy.
pub struct PushEvent {
    /// The pushed ref, e.g. `refs/heads/main`. Both GitHub and GitLab send it.
    pub ref_name: Option<String>,
    /// Commit the branch now points at (GitHub).
    pub after: Option<String>,
    /// Commit the branch now points at (GitLab).
    pub checkout_sha: Option<String>,
}

/// What the endpoint decided, so the response can say why nothing happened.
pub enum Outcome {
    Deployed(u128),
    Ignored(&'static str),
}

/// Whether to deploy a push: the commit to build, or why nothing happens.
pub enum PushDecision {
    Deploy(String),
    Ignore(&'static str),
}

/// The branch a ref names, when it names one.
pub open spec fn branch_of(r: Option<String>) -> Option<Seq<char>> {
    match r {
        Some(r) => if "refs/heads/"@.is_prefix_of(r@) {
            Some(r@.skip("refs/heads/"@.len() as int))
        } else {
            None
        },
        None => None,
    }
}

/// Whether a commit id is all zeros, which is how a branch deletion is
/// reported.
pub open spec fn all_zeros(s: Seq<char>) -> bool {
    forall|i: int| 0 <= i < s.len() ==> #[trigger] s[i] == '0'
}

/// The commit a push moved its branch to: `after`, else `checkout_sha`,
/// unless it is all zeros.
pub open spec fn sha_of(e: PushEvent) -> Option<Seq<char>> {
    let candidate = match e.after {
        Some(a) => Some(a@),
        None => match e.checkout_sha {
            Some(c) => Some(c@),
            None => None,
        },
    };
    match candidate {
        Some(s) => if all_zeros(s) {
            None
        } else {
            Some(s)
        },
        None => None,
    }
}

impl PushEvent {
    pub fn branch(&self) -> (b: Option<&str>)
        ensures
            match b {
                Some(b) => branch_of(self.ref_name) == Some(b@),
                None => branch_of(self.ref_name) is None,
            },
    {
        match &self.ref_name {
            Some(r) => strip_prefix(r.as_str(), "refs/heads/"),
            None => None,
        }
    }

    pub fn sha(&self) -> (s: Option<&str>)
        ensures
            match s {
                Some(s) => sha_of(*self) == Some(s@),
                None => sha_of(*self) is None,
            },
    {
        // GitLab populates checkout_sha; GitHub populates after.
        let candidate: Option<&String> = match &self.after {
            Some(a) => Some(a),
            None => match &self.checkout_sha {
                Some(c) => Some(c),
                None => None,
            },
        };
        match candidate {
            Some(sha) => {
                let v = chars_of(sha.as_str());
                let mut zeros = true;
                let mut i: usize = 0;
                while i < v.len()
                    invariant
                        v@ == sha@,
                        i <= v@.len(),
                        zeros == forall|j: int| 0 <= j < i ==> #[trigger] v@[j] == '0',
                    decreases v.len() - i,
                {
                    if v[i] != '0' {
                        zeros = false;
                    }
                    i += 1;
                }
                if zeros {
                    None
                } else {
                    Some(sha.as_str())
                }
            },
            None => None,
        }
    }
}

/// Whether to deploy a push to an application that follows `app_branch`.
pub fn decide_push(event: &PushEvent, app_branch: &str) -> (d: PushDecision)
    ensures
        branch_of(event.ref_name) is None ==> (d matches PushDecision::Ignore(m) && m@
            == "not a branch push"@),
        branch_of(event.ref_name) matches Some(b) && b != app_branch@ ==> (d matches PushDecision::Ignore(
            m,
        ) && m@ == "push was to a different branch"@),
        branch_of(event.ref_name) == Some(app_branch@) && sha_of(*event) is None ==> (d matches PushDecision::Ignore(
            m,
        ) && m@ == "branch was deleted"@),
        d is Deploy <==> branch_of(event.ref_name) == Some(app_branch@) && sha_of(*event) is Some,
        d matches PushDecision::Deploy(sha) ==> sha_of(*event) == Some(sha@),
{
    let branch = match event.branch() {
        Some(b) => b,
        None => {
            return PushDecision::Ignore("not a branch push");
        },
    };
    if !str_eq(branch, app_branch) {
        return PushDecision::Ignore("push was to a different branch");
    }
    match event.sha() {
        Some(sha) => PushDecision::Deploy(sha.to_string()),
        None => PushDecision::Ignore("branch was deleted"),
    }
}

/// GitLab sends the secret verbatim, so it is compared without
/// short-circuiting.
pub fn verify_gitlab(secret: &str, token: &str) -> (r: Result<(), Error>)
    ensures
        r is Ok <==> secret@ == token@,
        r is Err ==> r matches Err(Error::Forbidden),
{
    proof {
        vstd::utf8::encode_utf8_decode_utf8(secret@);
        vstd::utf8::encode_utf8_decode_utf8(token@);
    }
    let a = secret.as_bytes();
    let b = token.as_bytes();
    let mut equal = a.len() == b.len();
    if equal {
        let mut acc: u8 = 0;
        let mut i: usize = 0;
        while i < a.len()
            invariant
                a@.len() == b@.len(),
                i <= a@.len(),
                (acc == 0) == forall|j: int| 0 <= j < i ==> a@[j] == b@[j],
            decreases a.len() - i,
        {
            let x = a[i];
            let y = b[i];
            let next = acc | (x ^ y);
            assert((next == 0) == (acc == 0 && x == y)) by (bit_vector)
                requires
                    next == acc | (x ^ y),
            ;
            acc = next;
            i += 1;
        }
        equal = acc == 0;
        assert(equal ==> a@ =~= b@);
    }
    if equal {
        Ok(())
    } else {
        Err(Error::Forbidden)
    }
}

/// The value of one hexadecimal digit, either case.
pub open spec fn hex_nibble(b: u8) -> Option<u8> {
    if 48 <= b <= 57 {
        Some((b - 48) as u8)
    } else if 97 <= b <= 102 {
        Some((b - 87) as u8)
    } else if 65 <= b <= 70 {
        Some((b - 55) as u8)
    } else {
        None
    }
}

/// Hexadecimal text decoded two digits per byte, high nibble first; `None`
/// for an odd length or any non-hex character (`hex::decode`).
pub open spec fn hex_decoded(s: Seq<u8>) -> Option<Seq<u8>> {
    if s.len() % 2 != 0 {
        None
    } else if forall|i: int| 0 <= i < s.len() ==> #[trigger] hex_nibble(s[i]) is Some {
        Some(
            Seq::new(
                s.len() / 2,
                |i: int| (hex_nibble(s[2 * i])->0 * 16 + hex_nibble(s[2 * i + 1])->0) as u8,
            ),
        )
    } else {
        None
    }
}

/// The HMAC-SHA256 tag of `message` under `key`.
pub uninterp spec fn hmac_sha256(key: Seq<u8>, message: Seq<u8>) -> Seq<u8>;

/// `hex::decode`.
#[verifier::external_body]
fn hex_decode(s: &str) -> (r: Option<Vec<u8>>)
    ensures
        match r {
            Some(v) => hex_decoded(encode_utf8(s@)) == Some(v@),
            None => hex_decoded(encode_utf8(s@)) is None,
        },
{
    hex::decode(s).ok()
}

/// HMAC-SHA256 verification with the `hmac` crate (`new_from_slice`,
/// `update`, `verify_slice`): true exactly when `tag` is the tag of `message`
/// under `key`. The comparison is constant-time; HMAC accepts keys of any
/// length.
#[verifier::external_body]
fn hmac_sha256_verify(key: &[u8], message: &[u8], tag: &[u8]) -> (ok: bool)
    ensures
        ok == (tag@ == hmac_sha256(key@, message@)),
{
    match <Hmac<Sha256> as Mac>::new_from_slice(key) {
        Ok(mut mac) => {
            mac.update(message);
            mac.verify_slice(tag).is_ok()
        },
        Err(_) => false,
    }
}

/// Verifies a GitHub `X-Hub-Signature-256` header: `sha256=` followed by the
/// hex-encoded HMAC-SHA256 of the body under the webhook secret.
pub fn verify_github(secret: &str, signature_header: &str, body: &[u8]) -> (r: Result<(), Error>)
    ensures
        r is Ok <==> "sha256="@.is_prefix_of(signature_header@) && hex_decoded(
            encode_utf8(signature_header@.skip(7)),
        ) == Some(hmac_sha256(encode_utf8(secret@), body@)),
        r is Err ==> r matches Err(Error::Forbidden),
{
    proof {
        reveal_strlit("sha256=");
    }
    let hex = match strip_prefix(signature_header, "sha256=") {
        Some(h) => h,
        None => {
            return Err(Error::Forbidden);
        },
    };
    let expected = match hex_decode(hex) {
        Some(e) => e,
        None => {
            return Err(Error::Forbidden);
        },
    };
    if hmac_sha256_verify(secret.as_bytes(), body, expected.as_slice()) {
        Ok(())
    } else {
        Err(Error::Forbidden)
    }
}

} // verus!
