//! Application environment variables.
//!
//! Values are stored only in the application's Kubernetes Secret; Postgres
//! keeps the key names so the dashboard can list variables without a cluster
//! round-trip. What is decided here is which names are usable and how the
//! Secret's data changes.

use crate::error::{is_not_found, Error};
use crate::k8s::secret::SecretData;
use crate::text::{chars_of, concat_str, lemma_lex_irreflexive, lemma_lex_transitive, lex_lt};
use vstd::prelude::*;
use vstd::utf8::encode_utf8;

verus! {

broadcast use {vstd::string::group_string_axioms, vstd::slice::group_slice_axioms};

pub open spec fn is_key_char(c: char) -> bool {
    ('a' <= c && c <= 'z') || ('A' <= c && c <= 'Z') || ('0' <= c && c <= '9') || c == '_' || c
        == '.' || c == '-'
}

/// A name Kubernetes accepts as a Secret key and a shell will export: 1-253
/// bytes of ASCII letters, digits, '_', '.' or '-', not starting with a
/// digit.
pub open spec fn valid_key(s: Seq<char>) -> bool {
    &&& s.len() > 0
    &&& encode_utf8(s).len() <= 253
    &&& !('0' <= s[0] && s[0] <= '9')
    &&& forall|i: int| 0 <= i < s.len() ==> is_key_char(#[trigger] s[i])
}

/// What `format!("{:?}", s)` makes of a string: the string quoted, with
/// characters escaped as `str::escape_debug` does.
pub uninterp spec fn debug_quoted(s: Seq<char>) -> Seq<char>;

/// `format!("{:?}", s)` for a string. The escaping rules are not restated;
/// the result is named by `debug_quoted`.
#[verifier::external_body]
fn debug_str(s: &str) -> (r: String)
    ensures
        r@ == debug_quoted(s@),
{
    format!("{s:?}")
}

pub open spec fn key_rule(key: Seq<char>) -> Seq<char> {
    debug_quoted(key)
        + " is not a usable variable name: use letters, digits, '_', '.' or '-', and do not start with a digit"@
}

/// Kubernetes accepts only these characters in a Secret key, and the shell in
/// the container will not export anything else usefully.
pub fn validate_key(key: &str) -> (r: Result<(), Error>)
    ensures
        r is Ok <==> valid_key(key@),
        r is Err ==> (r matches Err(Error::Invalid(m)) && m@ == key_rule(key@)),
{
    let v = chars_of(key);
    let n = v.len();
    let mut all_ok = true;
    let mut i: usize = 0;
    while i < n
        invariant
            n == v@.len(),
            v@ == key@,
            i <= n,
            all_ok == forall|j: int| 0 <= j < i ==> is_key_char(#[trigger] v@[j]),
        decreases n - i,
    {
        let c = v[i];
        if !(('a' <= c && c <= 'z') || ('A' <= c && c <= 'Z') || ('0' <= c && c <= '9') || c == '_'
            || c == '.' || c == '-') {
            all_ok = false;
        }
        i += 1;
    }
    let valid = n > 0 && key.as_bytes().len() <= 253 && !('0' <= v[0] && v[0] <= '9') && all_ok;
    if valid {
        Ok(())
    } else {
        let quoted = debug_str(key);
        Err(
            Error::Invalid(
                concat_str(
                    quoted.as_str(),
                    " is not a usable variable name: use letters, digits, '_', '.' or '-', and do not start with a digit",
                ),
            ),
        )
    }
}

/// Whether `r` is the error that names `key` as unusable.
pub open spec fn names_key(r: Result<(), Error>, key: Seq<char>) -> bool {
    r matches Err(Error::Invalid(m)) && m@ == key_rule(key)
}

/// Checks every name in turn and reports the first unusable one.
pub fn validate_keys(keys: &Vec<String>) -> (r: Result<(), Error>)
    ensures
        r is Ok <==> forall|i: int| 0 <= i < keys@.len() ==> valid_key(#[trigger] keys@[i]@),
        r is Err ==> exists|i: int|
            0 <= i < keys@.len() && !valid_key(#[trigger] keys@[i]@) && (forall|j: int|
                0 <= j < i ==> valid_key(#[trigger] keys@[j]@)) && (r matches Err(Error::Invalid(m))
                && m@ == key_rule(keys@[i]@)),
{
    let mut i: usize = 0;
    while i < keys.len()
        invariant
            i <= keys@.len(),
            forall|j: int| 0 <= j < i ==> valid_key(#[trigger] keys@[j]@),
        decreases keys.len() - i,
    {
        match validate_key(keys[i].as_str()) {
            Ok(()) => {},
            Err(e) => {
                return Err(e);
            },
        }
        i += 1;
    }
    Ok(())
}

/// The Secret's data once `vars` are merged into it: every supplied variable
/// takes its new value, every other one keeps its old value.
pub open spec fn merged(secret: Map<Seq<char>, Seq<char>>, vars: Map<Seq<char>, Seq<char>>) -> Map<
    Seq<char>,
    Seq<char>,
> {
    secret.union_prefer_right(vars)
}

/// Merges the supplied variables into the Secret's data, after checking every
/// name. Nothing changes when a name is unusable.
pub fn merge_vars(secret: &mut SecretData, vars: &SecretData) -> (r: Result<(), Error>)
    ensures
        r is Ok <==> forall|k: Seq<char>| #[trigger] vars.view().contains_key(k) ==> valid_key(k),
        r is Ok ==> final(secret).view() == merged(old(secret).view(), vars.view()),
        r is Err ==> final(secret).view() == old(secret).view(),
        // The error names the first unusable name in key order.
        r is Err ==> exists|k: Seq<char>|
            #[trigger] vars.view().contains_key(k) && !valid_key(k) && names_key(r, k) && (forall|
                k2: Seq<char>,
            | #[trigger] vars.view().contains_key(k2) && lex_lt(k2, k) ==> valid_key(k2)),
{
    let keys = vars.keys();
    match validate_keys(&keys) {
        Ok(()) => {},
        Err(e) => {
            proof {
                let i = choose|i: int|
                    0 <= i < keys@.len() && !valid_key(#[trigger] keys@[i]@) && (forall|j: int|
                        0 <= j < i ==> valid_key(#[trigger] keys@[j]@)) && (Err::<(), Error>(e) matches Err(
                        Error::Invalid(m),
                    ) && m@ == key_rule(keys@[i]@));
                let k = keys@[i]@;
                assert(vars.view().contains_key(k));
                assert forall|k2: Seq<char>| #[trigger]
                    vars.view().contains_key(k2) && lex_lt(k2, k) implies valid_key(k2) by {
                    let j = choose|j: int| 0 <= j < keys@.len() && keys@[j]@ == k2;
                    if j == i {
                        lemma_lex_irreflexive(k);
                    } else if j > i {
                        assert(lex_lt(keys@[i]@, keys@[j]@));
                        lemma_lex_transitive(k, k2, k);
                        lemma_lex_irreflexive(k);
                    }
                }
                assert(names_key(Err::<(), Error>(e), k));
            }
            return Err(e);
        },
    }
    let ghost start = secret.view();
    let mut i: usize = 0;
    while i < keys.len()
        invariant
            i <= keys@.len(),
            keys@.len() == vars.view().dom().len(),
            forall|j: int| 0 <= j < keys@.len() ==> vars.view().contains_key(#[trigger] keys@[j]@),
            secret.view() == start.union_prefer_right(
                vars.view().restrict(Set::new(|k: Seq<char>| exists|j: int| 0 <= j < i && keys@[j]@ == k)),
            ),
        decreases keys.len() - i,
    {
        let k = keys[i].clone();
        let v = match vars.get(k.as_str()) {
            Some(v) => v,
            None => String::new(),
        };
        secret.insert(k, v);
        i += 1;
        proof {
            let done = Set::new(|q: Seq<char>| exists|j: int| 0 <= j < i && keys@[j]@ == q);
            let before = Set::new(|q: Seq<char>| exists|j: int| 0 <= j < i - 1 && keys@[j]@ == q);
            assert(done =~= before.insert(keys@[i - 1]@)) by {
                assert forall|q: Seq<char>| done.contains(q) implies before.insert(keys@[i - 1]@).contains(q) by {
                    let j = choose|j: int| 0 <= j < i && keys@[j]@ == q;
                    if j < i - 1 {
                        assert(before.contains(q));
                    }
                }
                assert forall|q: Seq<char>| before.insert(keys@[i - 1]@).contains(q) implies done.contains(q) by {
                    if q == keys@[i - 1]@ {
                        assert(keys@[i - 1]@ == q);
                    } else {
                        let j = choose|j: int| 0 <= j < i - 1 && keys@[j]@ == q;
                        assert(0 <= j < i && keys@[j]@ == q);
                    }
                }
            }
        }
    }
    proof {
        let done = Set::new(|q: Seq<char>| exists|j: int| 0 <= j < keys@.len() && keys@[j]@ == q);
        assert(vars.view().restrict(done) =~= vars.view()) by {
            assert forall|q: Seq<char>| vars.view().contains_key(q) implies done.contains(q) by {
                let j = choose|j: int| 0 <= j < keys@.len() && keys@[j]@ == q;
                assert(keys@[j]@ == q);
            }
        }
    }
    Ok(())
}

/// Reveals one value.
pub fn reveal_value(secret: &SecretData, key: &str) -> (r: Result<String, Error>)
    ensures
        r is Ok <==> secret.view().contains_key(key@),
        r matches Ok(v) ==> v@ == secret.view()[key@],
        r is Err ==> is_not_found(r, "environment variable"@),
{
    match secret.get(key) {
        Some(v) => Ok(v),
        None => Err(Error::NotFound("environment variable")),
    }
}

/// Removes one variable from the Secret's data; a name that is not there is
/// not found.
pub fn remove_var(secret: &mut SecretData, key: &str) -> (r: Result<(), Error>)
    ensures
        r is Ok <==> old(secret).view().contains_key(key@),
        final(secret).view() == old(secret).view().remove(key@),
        r is Err ==> is_not_found(r, "environment variable"@),
{
    if secret.remove(key) {
        Ok(())
    } else {
        Err(Error::NotFound("environment variable"))
    }
}

/// What a read gives back of a write: after a merge, a supplied variable
/// reveals the value it was given, and every other variable reveals what it
/// held before.
pub proof fn law_reveal_gives_back_what_was_set(
    secret: Map<Seq<char>, Seq<char>>,
    vars: Map<Seq<char>, Seq<char>>,
    key: Seq<char>,
)
    ensures
        vars.contains_key(key) ==> merged(secret, vars).contains_key(key) && merged(secret, vars)[key]
            == vars[key],
        !vars.contains_key(key) ==> (merged(secret, vars).contains_key(key) == secret.contains_key(key)),
        !vars.contains_key(key) && secret.contains_key(key) ==> merged(secret, vars)[key] == secret[key],
{
}

/// A removed variable cannot be revealed, and removing it touches no other.
pub proof fn law_removed_variable_is_gone(secret: Map<Seq<char>, Seq<char>>, key: Seq<char>, other: Seq<char>)
    requires
        other != key,
    ensures
        !secret.remove(key).contains_key(key),
        secret.remove(key).contains_key(other) == secret.contains_key(other),
        secret.contains_key(other) ==> secret.remove(key)[other] == secret[other],
{
}

} // verus!
