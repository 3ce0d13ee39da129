//! Names of the Kubernetes objects and hosts that belong to an application.

use crate::auth::session::hex_digit;
use crate::text::concat_str;
use vstd::arithmetic::div_mod::{lemma_breakdown, lemma_small_mod};
use vstd::arithmetic::power2::{lemma2_to64, lemma_pow2_adds, lemma_pow2_pos, pow2};
use vstd::prelude::*;

verus! {

broadcast use vstd::string::group_string_axioms;

/// A UUID as `Uuid::to_string` writes it: 32 lower-case hex digits of the
/// big-endian value, grouped 8-4-4-4-12 by hyphens.
pub open spec fn uuid_text(id: u128) -> Seq<char> {
    Seq::new(
        36,
        |i: int|
            if i == 8 || i == 13 || i == 18 || i == 23 {
                '-'
            } else {
                let j = if i < 8 {
                    i
                } else if i < 13 {
                    i - 1
                } else if i < 18 {
                    i - 2
                } else if i < 23 {
                    i - 3
                } else {
                    i - 4
                };
                hex_digit((((id as nat) / pow2((4 * (31 - j)) as nat)) % 16) as nat)
            },
    )
}

/// `Uuid::from_u128(id).to_string()`: the hyphenated lower-case form.
#[verifier::external_body]
pub(crate) fn uuid_string(id: u128) -> (s: String)
    ensures
        s@ == uuid_text(id),
{
    uuid::Uuid::from_u128(id).to_string()
}

/// No character of a UUID's text is a ':'.
pub proof fn lemma_uuid_text_has_no_colon(id: u128, j: int)
    requires
        0 <= j < 36,
    ensures
        uuid_text(id)[j] != ':',
{
    let t = uuid_text(id);
    if !(j == 8 || j == 13 || j == 18 || j == 23) {
        let k = if j < 8 {
            j
        } else if j < 13 {
            j - 1
        } else if j < 18 {
            j - 2
        } else if j < 23 {
            j - 3
        } else {
            j - 4
        };
        let v = (((id as nat) / pow2((4 * (31 - k)) as nat)) % 16) as nat;
        assert(v < 16);
        assert(t[j] == hex_digit(v));
        if v < 10 {
            assert(((('0' as u32) + v) as char) != ':');
        } else {
            assert(((('a' as u32) + v - 10) as char) != ':');
        }
    }
}

/// The hex digit of `id` worth `16^n`.
pub open spec fn nibble(id: u128, n: nat) -> nat {
    (((id as nat) / pow2(4 * n)) % 16) as nat
}

/// Where the digit worth `16^(31 - j)` stands in a UUID's text.
pub open spec fn digit_position(j: int) -> int {
    if j < 8 {
        j
    } else if j < 12 {
        j + 1
    } else if j < 16 {
        j + 2
    } else if j < 20 {
        j + 3
    } else {
        j + 4
    }
}

/// Different digit values are written differently.
proof fn lemma_hex_digit_injective(u: nat, v: nat)
    requires
        u < 16,
        v < 16,
        hex_digit(u) == hex_digit(v),
    ensures
        u == v,
{
    let cu = hex_digit(u);
    let cv = hex_digit(v);
    assert(cu as u32 == cv as u32);
    if u < 10 {
        assert(cu as u32 == 48 + u);
    } else {
        assert(cu as u32 == 87 + u);
    }
    if v < 10 {
        assert(cv as u32 == 48 + v);
    } else {
        assert(cv as u32 == 87 + v);
    }
}

/// The text of a UUID shows each of its 32 hex digits.
proof fn lemma_uuid_text_digit(id: u128, j: int)
    requires
        0 <= j < 32,
    ensures
        uuid_text(id)[digit_position(j)] == hex_digit(nibble(id, (31 - j) as nat)),
{
}

/// Agreeing on the lowest `n` hex digits is agreeing modulo `16^n`.
proof fn lemma_low_digits(a: u128, b: u128, n: nat)
    requires
        n <= 32,
        forall|m: nat| m < n ==> #[trigger] nibble(a, m) == nibble(b, m),
    ensures
        (a as nat) % pow2(4 * n) == (b as nat) % pow2(4 * n),
    decreases n,
{
    if n == 0 {
        lemma2_to64();
    } else {
        let k = (n - 1) as nat;
        lemma_low_digits(a, b, k);
        lemma_pow2_adds(4 * k, 4);
        lemma2_to64();
        lemma_pow2_pos(4 * k);
        assert(4 * n == 4 * k + 4);
        assert(pow2(4 * n) == pow2(4 * k) * 16);
        lemma_breakdown(a as int, pow2(4 * k) as int, 16);
        lemma_breakdown(b as int, pow2(4 * k) as int, 16);
        assert(nibble(a, k) == nibble(b, k));
    }
}

/// Different ids are written differently.
pub proof fn lemma_uuid_text_injective(a: u128, b: u128)
    requires
        uuid_text(a) == uuid_text(b),
    ensures
        a == b,
{
    assert forall|m: nat| m < 32 implies #[trigger] nibble(a, m) == nibble(b, m) by {
        let j = 31 - m;
        lemma_uuid_text_digit(a, j);
        lemma_uuid_text_digit(b, j);
        lemma_hex_digit_injective(nibble(a, m), nibble(b, m));
    }
    lemma_low_digits(a, b, 32);
    lemma2_to64();
    lemma_pow2_adds(64, 64);
    assert(pow2(128) == 0x1_0000_0000_0000_0000_0000_0000_0000_0000nat);
    lemma_small_mod(a as nat, pow2(128));
    lemma_small_mod(b as nat, pow2(128));
}

pub open spec fn namespace_of(app_id: u128) -> Seq<char> {
    "spark-app-"@ + uuid_text(app_id)
}

/// One namespace per application. Keyed on the id rather than the name so a
/// rename can never collide with an existing namespace.
pub fn namespace(app_id: u128) -> (ns: String)
    ensures
        ns@ == namespace_of(app_id),
{
    let id = uuid_string(app_id);
    concat_str("spark-app-", id.as_str())
}

/// Host an application is published at, e.g. `blog.localhost`.
pub fn default_host(app_name: &str, base_domain: &str) -> (host: String)
    ensures
        host@ == app_name@ + "."@ + base_domain@,
{
    let with_dot = concat_str(app_name, ".");
    concat_str(with_dot.as_str(), base_domain)
}

/// Different applications get different namespaces.
pub proof fn law_namespaces_are_distinct(a: u128, b: u128)
    requires
        a != b,
    ensures
        namespace_of(a) != namespace_of(b),
{
    reveal_strlit("spark-app-");
    if namespace_of(a) == namespace_of(b) {
        assert(namespace_of(a).skip(10) =~= uuid_text(a));
        assert(namespace_of(b).skip(10) =~= uuid_text(b));
        lemma_uuid_text_injective(a, b);
    }
}

/// A namespace name fits the 63-character limit Kubernetes puts on it, and
/// always carries the platform's prefix.
pub proof fn law_namespace_fits_the_kubernetes_limit(app_id: u128)
    ensures
        namespace_of(app_id).len() <= 63,
        "spark-app-"@.is_prefix_of(namespace_of(app_id)),
{
    reveal_strlit("spark-app-");
    assert(namespace_of(app_id).len() == 46);
    assert forall|i: int| 0 <= i < "spark-app-"@.len() implies #[trigger] "spark-app-"@[i]
        == namespace_of(app_id)[i] by {
    }
}

} // verus!
