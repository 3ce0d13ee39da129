//! Custom domains: which hostnames an application may be published at.

use crate::error::{invalid, is_invalid, unique_violation_as_conflict, Error};
use crate::k8s::cluster::SslStatus;
use crate::text::{chars_of, to_lowercase, trim, trimmed, unicode_lowercase};
use vstd::prelude::*;
use vstd::utf8::encode_utf8;

verus! {

broadcast use {vstd::string::group_string_axioms, vstd::slice::group_slice_axioms};

pub open spec fn domain_rule() -> Seq<char> {
    "enter a hostname such as app.example.com, without a scheme or path"@
}

pub open spec fn is_domain_char(c: char) -> bool {
    ('a' <= c && c <= 'z') || ('0' <= c && c <= '9') || c == '-' || c == '.'
}

/// Length of the label that `s[i]` ends: how many characters, up to and
/// including `s[i]`, come after the last '.' before it (zero at a '.').
pub open spec fn run_len(s: Seq<char>, i: int) -> nat
    decreases i,
{
    if i < 0 || s[i] == '.' {
        0
    } else if i == 0 {
        1
    } else {
        1 + run_len(s, i - 1)
    }
}

/// A hostname, not a URL: no scheme, no path, no port. At most 253 bytes of
/// lowercase letters, digits, '-' and '.', split by '.' into at least two
/// labels, each of 1-63 characters that neither starts nor ends with '-'.
pub open spec fn valid_domain(s: Seq<char>) -> bool {
    &&& s.len() > 0
    &&& encode_utf8(s).len() <= 253
    &&& s[0] != '.'
    &&& s.last() != '.'
    &&& forall|i: int| 0 <= i < s.len() ==> is_domain_char(#[trigger] s[i])
    &&& exists|i: int| 0 <= i < s.len() && #[trigger] s[i] == '.'
    // No empty label between two dots.
    &&& forall|i: int| 0 <= i < s.len() - 1 && #[trigger] s[i] == '.' ==> s[i + 1] != '.'
    // No label starts or ends with '-'.
    &&& forall|i: int|
        0 <= i < s.len() && #[trigger] s[i] == '-' ==> (i > 0 && s[i - 1] != '.' && i + 1 < s.len()
            && s[i + 1] != '.')
    // No label is longer than 63 characters.
    &&& forall|i: int| 0 <= i < s.len() ==> #[trigger] run_len(s, i) <= 63
}

/// Checks a hostname; see `valid_domain`.
pub fn validate_domain(domain: &str) -> (r: Result<(), Error>)
    ensures
        r is Ok <==> valid_domain(domain@),
        r is Err ==> is_invalid(r, domain_rule()),
{
    let v = chars_of(domain);
    let n = v.len();
    let mut ok = n > 0 && domain.as_bytes().len() <= 253 && v[0] != '.' && v[n - 1] != '.';
    let mut dots: usize = 0;
    let mut run: usize = 0;
    let mut i: usize = 0;
    while i < n
        invariant
            n == v@.len(),
            v@ == domain@,
            i <= n,
            dots <= i,
            (dots > 0) == exists|j: int| 0 <= j < i && #[trigger] v@[j] == '.',
            run == if i == 0 {
                0
            } else if run_len(v@, i - 1) < 64 {
                run_len(v@, i - 1)
            } else {
                64
            },
            ok == (n > 0 && encode_utf8(domain@).len() <= 253 && v@[0] != '.' && v@[n - 1] != '.'
                && (forall|j: int| 0 <= j < i ==> is_domain_char(#[trigger] v@[j])) && (forall|j: int|
                0 <= j < i && j < n - 1 && #[trigger] v@[j] == '.' ==> v@[j + 1] != '.') && (forall|
                j: int|
                0 <= j < i && #[trigger] v@[j] == '-' ==> (j > 0 && v@[j - 1] != '.' && j + 1 < n
                    && v@[j + 1] != '.')) && (forall|j: int| 0 <= j < i ==> #[trigger] run_len(v@, j)
                <= 63)),
        decreases n - i,
    {
        let c = v[i];
        let char_ok = ('a' <= c && c <= 'z') || ('0' <= c && c <= '9') || c == '-' || c == '.';
        let no_double = !(c == '.' && i + 1 < n && v[i + 1] == '.');
        let hyphen_ok = c != '-' || (i > 0 && v[i - 1] != '.' && i + 1 < n && v[i + 1] != '.');
        if c == '.' {
            dots += 1;
            run = 0;
        } else {
            if run < 64 {
                run += 1;
            }
        }
        proof {
            if i == 0 {
                assert(run_len(v@, -1) == 0);
            }
            assert(run_len(v@, i as int) == if c == '.' {
                0
            } else {
                1 + run_len(v@, i - 1)
            });
        }
        let run_ok = run <= 63;
        assert(run_ok == (run_len(v@, i as int) <= 63));
        ok = ok && char_ok && no_double && hyphen_ok && run_ok;
        i += 1;
    }
    if ok && dots > 0 {
        Ok(())
    } else {
        Err(invalid("enter a hostname such as app.example.com, without a scheme or path"))
    }
}

/// The hostname a user typed, as it is stored: trimmed and lower-cased.
pub open spec fn normalized_domain(raw: Seq<char>) -> Seq<char> {
    unicode_lowercase(trimmed(raw))
}

/// The stored form of a custom domain, if it is a valid hostname.
pub fn normalize_domain(raw: &str) -> (r: Result<String, Error>)
    ensures
        r is Ok <==> valid_domain(normalized_domain(raw@)),
        r is Err ==> is_invalid(r, domain_rule()),
        r matches Ok(d) ==> d@ == normalized_domain(raw@),
{
    let d = to_lowercase(trim(raw).as_str());
    validate_domain(d.as_str())?;
    Ok(d)
}

/// The hosts an Ingress serves: the generated host first, then every custom
/// domain in the order given.
pub fn ingress_hosts(default_host: String, domains: Vec<String>) -> (hosts: Vec<String>)
    ensures
        hosts@.len() == domains@.len() + 1,
        hosts@[0]@ == default_host@,
        forall|i: int| 0 <= i < domains@.len() ==> #[trigger] hosts@[i + 1]@ == domains@[i]@,
{
    let mut hosts: Vec<String> = Vec::new();
    hosts.push(default_host);
    let mut domains = domains;
    let mut rest: Vec<String> = Vec::new();
    let ghost all = domains@;
    while domains.len() > 0
        invariant
            domains@ == all.take(domains@.len() as int),
            rest@.len() + domains@.len() == all.len(),
            forall|i: int| 0 <= i < rest@.len() ==> #[trigger] rest@[i] == all[all.len() - 1 - i],
        decreases domains.len(),
    {
        let d = domains.pop().unwrap();
        rest.push(d);
        assert(all.take(domains@.len() as int) =~= all.take(domains@.len() as int + 1).drop_last());
    }
    let ghost h0 = hosts@;
    while rest.len() > 0
        invariant
            hosts@.len() + rest@.len() == all.len() + 1,
            hosts@.len() >= 1,
            hosts@[0] == h0[0],
            forall|i: int| 0 <= i < rest@.len() ==> #[trigger] rest@[i] == all[all.len() - 1 - i],
            forall|i: int| 1 <= i < hosts@.len() ==> #[trigger] hosts@[i] == all[i - 1],
        decreases rest.len(),
    {
        let d = rest.pop().unwrap();
        hosts.push(d);
    }
    hosts
}

pub open spec fn domain_taken_rule() -> Seq<char> {
    "that domain is already in use"@
}

/// A domain already recorded for any application is a conflict.
pub fn domain_conflict(error: Error, is_unique_violation: bool) -> (e: Error)
    ensures
        is_unique_violation ==> (e matches Error::Conflict(m) && m@ == domain_taken_rule()),
        !is_unique_violation ==> e == error,
{
    unique_violation_as_conflict(error, is_unique_violation, "that domain is already in use")
}

/// The certificate state recorded for an application's domains: read from
/// the cluster when TLS is on, a failed read counting as no certificate;
/// nothing is recorded when TLS is off.
pub fn recorded_ssl_status(tls_enabled: bool, read: Option<SslStatus>) -> (s: Option<SslStatus>)
    ensures
        !tls_enabled ==> s is None,
        tls_enabled ==> s == Some(
            match read {
                Some(st) => st,
                None => SslStatus::NotRequested,
            },
        ),
{
    if !tls_enabled {
        None
    } else {
        match read {
            Some(st) => Some(st),
            None => Some(SslStatus::NotRequested),
        }
    }
}

} // verus!
