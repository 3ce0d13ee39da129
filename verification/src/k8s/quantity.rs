//! Parsing Kubernetes resource quantities.
//!
//! metrics-server reports CPU in nanocores ("12345n") and memory in binary
//! suffixes ("123456Ki"), but the units it chooses vary with magnitude. Getting
//! this wrong misreports usage by a factor of a thousand without failing.
//!
//! The number is read as an exact decimal, scaled by the unit, rounded to the
//! nearest integer with halves away from zero, and clamped to the range of
//! `i64`.

use crate::text::{chars_of, first_of, is_white_space, lemma_first_of_is, trim, trim_end, trim_start, trimmed};
use vstd::arithmetic::div_mod::{lemma_div_denominator, lemma_div_is_ordered, lemma_hoist_over_denominator};
use vstd::prelude::*;

verus! {

/// Characters that belong to the number rather than the unit.
pub open spec fn is_number_char(c: char) -> bool {
    ('0' <= c && c <= '9') || c == '.' || c == '-'
}

/// Index of the first character of the unit: the first character that is
/// not a digit, '.' or '-', or the length when there is none.
pub open spec fn suffix_start(s: Seq<char>) -> nat
    decreases s.len(),
{
    if s.len() == 0 || !is_number_char(s[0]) {
        0
    } else {
        1 + suffix_start(s.drop_first())
    }
}

pub open spec fn is_digit(c: char) -> bool {
    '0' <= c && c <= '9'
}

pub open spec fn all_digits(s: Seq<char>) -> bool {
    forall|i: int| 0 <= i < s.len() ==> is_digit(#[trigger] s[i])
}

pub open spec fn digit_value(c: char) -> nat {
    ((c as u32) - ('0' as u32)) as nat
}

/// The natural number written by a string of decimal digits.
pub open spec fn digits_val(s: Seq<char>) -> nat
    decreases s.len(),
{
    if s.len() == 0 {
        0
    } else {
        digits_val(s.drop_last()) * 10 + digit_value(s.last())
    }
}

pub open spec fn pow10(k: nat) -> nat
    decreases k,
{
    if k == 0 {
        1
    } else {
        10 * pow10((k - 1) as nat)
    }
}

/// A decimal number as `f64::from_str` accepts it when it holds only digits,
/// '.' and '-': an optional leading '-', then digits with at most one '.',
/// and at least one digit. The parts are the sign, the integer digits and
/// the fraction digits.
pub open spec fn parse_decimal(d: Seq<char>) -> Option<(bool, Seq<char>, Seq<char>)> {
    let negative = d.len() > 0 && d[0] == '-';
    let body = if negative {
        d.drop_first()
    } else {
        d
    };
    let p = first_of(body, '.');
    if p == body.len() {
        if body.len() > 0 && all_digits(body) {
            Some((negative, body, Seq::<char>::empty()))
        } else {
            None
        }
    } else if body.len() > 1 && all_digits(body.take(p as int)) && all_digits(
        body.skip(p as int + 1),
    ) {
        Some((negative, body.take(p as int), body.skip(p as int + 1)))
    } else {
        None
    }
}

/// `n / d` rounded to the nearest integer, halves rounded up.
pub open spec fn round_half_up(n: nat, d: nat) -> nat {
    ((2 * n + d) / (2 * d)) as nat
}

/// A magnitude with a sign, saturated to the range of `i64` (as the cast of
/// a float to `i64` does).
pub open spec fn clamp_i64(negative: bool, m: nat) -> i64 {
    if negative {
        if m > 0x8000_0000_0000_0000 {
            i64::MIN
        } else {
            (-m) as i64
        }
    } else if m > i64::MAX {
        i64::MAX
    } else {
        m as i64
    }
}

/// The decimal `±int.frac` multiplied by `p / q`, rounded half away from zero
/// and clamped to `i64`.
pub open spec fn scaled_decimal(
    negative: bool,
    int_digits: Seq<char>,
    frac_digits: Seq<char>,
    p: nat,
    q: nat,
) -> i64 {
    let k = frac_digits.len();
    let n = digits_val(int_digits) * pow10(k) + digits_val(frac_digits);
    clamp_i64(negative, round_half_up(n * p, pow10(k) * q))
}

/// Multiplier `p / q` that turns a CPU quantity in unit `u` into millicores.
pub open spec fn cpu_scale(u: Seq<char>) -> Option<(nat, nat)> {
    if u =~= Seq::<char>::empty() {
        Some((1000, 1))
    } else if u =~= seq!['m'] {
        Some((1, 1))
    } else if u =~= seq!['u'] {
        Some((1, 1000))
    } else if u =~= seq!['n'] {
        Some((1, 1_000_000))
    } else {
        None
    }
}

/// Multiplier that turns a memory quantity in unit `u` into bytes.
pub open spec fn memory_scale(u: Seq<char>) -> Option<nat> {
    if u =~= Seq::<char>::empty() {
        Some(1)
    } else if u =~= seq!['K', 'i'] {
        Some(1024)
    } else if u =~= seq!['M', 'i'] {
        Some(1024 * 1024)
    } else if u =~= seq!['G', 'i'] {
        Some(1024 * 1024 * 1024)
    } else if u =~= seq!['T', 'i'] {
        Some(1024 * 1024 * 1024 * 1024)
    } else if u =~= seq!['k'] {
        Some(1000)
    } else if u =~= seq!['M'] {
        Some(1_000_000)
    } else if u =~= seq!['G'] {
        Some(1_000_000_000)
    } else if u =~= seq!['T'] {
        Some(1_000_000_000_000)
    } else {
        None
    }
}

/// The quantity `s` in the unit whose multiplier `scale` gives, or `None`
/// when the number is malformed or the unit unknown.
pub open spec fn quantity(s: Seq<char>, scale: Option<(nat, nat)>) -> Option<i64> {
    let t = trimmed(s);
    let i = suffix_start(t);
    match (parse_decimal(t.take(i as int)), scale) {
        (Some((negative, a, b)), Some((p, q))) => Some(scaled_decimal(negative, a, b, p, q)),
        _ => None,
    }
}

pub open spec fn cpu_millicores_of(s: Seq<char>) -> Option<i64> {
    let t = trimmed(s);
    quantity(s, cpu_scale(t.skip(suffix_start(t) as int)))
}

pub open spec fn memory_bytes_of(s: Seq<char>) -> Option<i64> {
    let t = trimmed(s);
    quantity(
        s,
        match memory_scale(t.skip(suffix_start(t) as int)) {
            Some(p) => Some((p, 1nat)),
            None => None,
        },
    )
}

/// What the default resource requests come to: 50m is 50 millicores, 64Mi
/// is 67108864 bytes.
pub proof fn lemma_default_requests()
    ensures
        cpu_millicores_of("50m"@) == Some(50i64),
        memory_bytes_of("64Mi"@) == Some(67108864i64),
{
    reveal_strlit("50m");
    reveal_strlit("64Mi");
    let c = "50m"@;
    let m = "64Mi"@;
    assert(c =~= seq!['5', '0', 'm']);
    assert(m =~= seq!['6', '4', 'M', 'i']);
    assert(!is_white_space(c[0]) && !is_white_space(c.last()));
    assert(!is_white_space(m[0]) && !is_white_space(m.last()));
    assert(trim_start(c) == c);
    assert(trim_end(c) == c);
    assert(trim_start(m) == m);
    assert(trim_end(m) == m);
    assert(trimmed(c) == c);
    assert(trimmed(m) == m);
    lemma_suffix_start_is(c, 2);
    lemma_suffix_start_is(m, 2);
    assert(c.skip(2) =~= seq!['m']);
    assert(m.skip(2) =~= seq!['M', 'i']);
    let cd = c.take(2);
    let md = m.take(2);
    assert(cd =~= seq!['5', '0']);
    assert(md =~= seq!['6', '4']);
    lemma_first_of_is(cd, '.', 2);
    lemma_first_of_is(md, '.', 2);
    assert(all_digits(cd));
    assert(all_digits(md));
    assert(cd.drop_last() =~= seq!['5']);
    assert(cd.drop_last().drop_last() =~= Seq::<char>::empty());
    assert(md.drop_last() =~= seq!['6']);
    assert(md.drop_last().drop_last() =~= Seq::<char>::empty());
    assert(digits_val(cd.drop_last()) == 5);
    assert(digits_val(cd) == 50);
    assert(digits_val(md.drop_last()) == 6);
    assert(digits_val(md) == 64);
    assert(parse_decimal(cd) == Some((false, cd, Seq::<char>::empty())));
    assert(parse_decimal(md) == Some((false, md, Seq::<char>::empty())));
    assert(round_half_up(50, 1) == 50) by {
        assert((2 * 50nat + 1nat) / (2 * 1nat) == 50) by (nonlinear_arith);
    }
    assert(round_half_up(67108864, 1) == 67108864) by {
        assert((2 * 67108864nat + 1nat) / (2 * 1nat) == 67108864) by (nonlinear_arith);
    }
}

/// A whole number written in digits, followed by a unit that starts with
/// neither a digit, '.' nor '-', reads as that number scaled by the unit.
proof fn lemma_whole_quantity(d: Seq<char>, u: Seq<char>, scale: Option<(nat, nat)>)
    requires
        d.len() > 0,
        all_digits(d),
        u.len() > 0 ==> !is_number_char(u[0]) && !is_white_space(u.last()),
    ensures
        trimmed(d + u) == d + u,
        (d + u).skip(suffix_start(d + u) as int) == u,
        quantity(d + u, scale) == match scale {
            Some((p, q)) => Some(clamp_i64(false, round_half_up(digits_val(d) * p, q))),
            None => None::<i64>,
        },
{
    let s = d + u;
    assert(is_digit(d[0]));
    assert(is_digit(d.last()));
    assert(s[0] == d[0]);
    if u.len() > 0 {
        assert(s.last() == u.last());
    } else {
        assert(s =~= d);
    }
    assert(trim_start(s) == s);
    assert(trim_end(s) == s);
    assert forall|j: int| 0 <= j < d.len() implies is_number_char(#[trigger] s[j]) by {
        assert(s[j] == d[j]);
        assert(is_digit(d[j]));
    }
    if u.len() > 0 {
        assert(s[d.len() as int] == u[0]);
    }
    lemma_suffix_start_is(s, d.len() as int);
    assert(s.take(d.len() as int) =~= d);
    assert(s.skip(d.len() as int) =~= u);
    assert forall|j: int| 0 <= j < d.len() implies d[j] != '.' by {
        assert(is_digit(d[j]));
    }
    lemma_first_of_is(d, '.', d.len() as int);
    assert(d[0] != '-');
    assert(parse_decimal(d) == Some((false, d, Seq::<char>::empty())));
    assert(digits_val(Seq::<char>::empty()) == 0);
    assert(pow10(0) == 1);
}

/// Rounding to whole units changes nothing when the divisor is one.
proof fn lemma_round_by_one(m: nat)
    ensures
        round_half_up(m, 1) == m,
{
    assert((2 * m + 1) / 2 == m) by (nonlinear_arith);
}

/// A multiple of the divisor rounds to the exact quotient.
proof fn lemma_round_exact(k: nat, q: nat)
    requires
        q > 0,
    ensures
        round_half_up(k * q, q) == k,
{
    assert((2 * (k * q) + q) / (2 * q) == k) by (nonlinear_arith)
        requires
            q > 0,
    {
        assert(2 * (k * q) + q == k * (2 * q) + q);
        assert(0 <= q < 2 * q);
    }
}

/// A memory quantity that is a whole number `n` of a unit reads as `n`
/// times the unit: the decimal suffixes are powers of 1000, the binary ones
/// (`Ki`, `Mi`, `Gi`, `Ti`) powers of 1024, and a bare number is bytes; a
/// result beyond `i64` saturates.
pub proof fn law_memory_units_scale_whole_numbers(d: Seq<char>)
    requires
        d.len() > 0,
        all_digits(d),
    ensures
        memory_bytes_of(d) == Some(clamp_i64(false, digits_val(d))),
        memory_bytes_of(d + seq!['k']) == Some(clamp_i64(false, digits_val(d) * 1000)),
        memory_bytes_of(d + seq!['M']) == Some(clamp_i64(false, digits_val(d) * 1_000_000)),
        memory_bytes_of(d + seq!['G']) == Some(clamp_i64(false, digits_val(d) * 1_000_000_000)),
        memory_bytes_of(d + seq!['T']) == Some(clamp_i64(false, digits_val(d) * 1_000_000_000_000)),
        memory_bytes_of(d + seq!['K', 'i']) == Some(clamp_i64(false, digits_val(d) * 1024)),
        memory_bytes_of(d + seq!['M', 'i']) == Some(clamp_i64(false, digits_val(d) * 1_048_576)),
        memory_bytes_of(d + seq!['G', 'i']) == Some(clamp_i64(false, digits_val(d) * 1_073_741_824)),
        memory_bytes_of(d + seq!['T', 'i']) == Some(
            clamp_i64(false, digits_val(d) * 1_099_511_627_776),
        ),
{
    let n = digits_val(d);
    let e = Seq::<char>::empty();
    assert(d + e =~= d);
    let units: Seq<Seq<char>> = seq![
        e,
        seq!['k'],
        seq!['M'],
        seq!['G'],
        seq!['T'],
        seq!['K', 'i'],
        seq!['M', 'i'],
        seq!['G', 'i'],
        seq!['T', 'i'],
    ];
    assert forall|i: int| 0 <= i < units.len() implies memory_bytes_of(d + #[trigger] units[i]) == Some(
        clamp_i64(false, n * memory_scale(units[i]).unwrap()),
    ) && memory_scale(units[i]) is Some by {
        let u = units[i];
        let m = match memory_scale(u) {
            Some(p) => Some((p, 1nat)),
            None => None,
        };
        lemma_whole_quantity(d, u, m);
        lemma_round_by_one(n * memory_scale(u).unwrap());
    }
    assert(units[0] == e);
    assert(memory_scale(e) == Some(1nat));
    assert(memory_bytes_of(d + e) == Some(clamp_i64(false, n * 1)));
    assert(n * 1 == n);
    assert(units[1] == seq!['k']);
    assert(units[2] == seq!['M']);
    assert(units[3] == seq!['G']);
    assert(units[4] == seq!['T']);
    assert(units[5] == seq!['K', 'i']);
    assert(units[6] == seq!['M', 'i']);
    assert(units[7] == seq!['G', 'i']);
    assert(units[8] == seq!['T', 'i']);
}

/// A CPU quantity that is a whole number `n` of a unit reads as `n` cores
/// (`n * 1000` millicores) when bare, `n` millicores with `m`, and a
/// thousandth or a millionth of that with `u` and `n`, exactly when it
/// divides evenly; a result beyond `i64` saturates.
pub proof fn law_cpu_units_scale_whole_numbers(d: Seq<char>)
    requires
        d.len() > 0,
        all_digits(d),
    ensures
        cpu_millicores_of(d) == Some(clamp_i64(false, digits_val(d) * 1000)),
        cpu_millicores_of(d + seq!['m']) == Some(clamp_i64(false, digits_val(d))),
        digits_val(d) % 1000 == 0 ==> cpu_millicores_of(d + seq!['u']) == Some(
            clamp_i64(false, digits_val(d) / 1000),
        ),
        digits_val(d) % 1_000_000 == 0 ==> cpu_millicores_of(d + seq!['n']) == Some(
            clamp_i64(false, digits_val(d) / 1_000_000),
        ),
{
    let n = digits_val(d);
    let e = Seq::<char>::empty();
    assert(d + e =~= d);
    lemma_whole_quantity(d, e, cpu_scale(e));
    lemma_round_by_one(n * 1000);
    lemma_whole_quantity(d, seq!['m'], cpu_scale(seq!['m']));
    lemma_round_by_one(n * 1);
    lemma_whole_quantity(d, seq!['u'], cpu_scale(seq!['u']));
    if n % 1000 == 0 {
        let k = n / 1000;
        assert(n == k * 1000);
        lemma_round_exact(k, 1000);
    }
    lemma_whole_quantity(d, seq!['n'], cpu_scale(seq!['n']));
    if n % 1_000_000 == 0 {
        let k = n / 1_000_000;
        assert(n == k * 1_000_000);
        lemma_round_exact(k, 1_000_000);
    }
}

/// Integer parts beyond this are clamped whatever the unit: the result then
/// exceeds the range of `i64` anyway.
const CAP: u128 = 100_000_000_000_000_000_000_000_000;

proof fn lemma_suffix_start_is(s: Seq<char>, i: int)
    requires
        0 <= i <= s.len(),
        forall|j: int| 0 <= j < i ==> is_number_char(#[trigger] s[j]),
        i < s.len() ==> !is_number_char(s[i]),
    ensures
        suffix_start(s) == i,
    decreases s.len(),
{
    if i > 0 {
        assert forall|j: int| 0 <= j < i - 1 implies is_number_char(#[trigger] s.drop_first()[j]) by {
            assert(s.drop_first()[j] == s[j + 1]);
        }
        lemma_suffix_start_is(s.drop_first(), i - 1);
    }
}

proof fn lemma_pow10_pos(k: nat)
    ensures
        pow10(k) >= 1,
    decreases k,
{
    if k > 0 {
        lemma_pow10_pos((k - 1) as nat);
    }
}

proof fn lemma_digits_prepend(d: char, s: Seq<char>)
    ensures
        digits_val(seq![d] + s) == digit_value(d) * pow10(s.len()) + digits_val(s),
    decreases s.len(),
{
    let t = seq![d] + s;
    if s.len() == 0 {
        assert(t.drop_last() =~= Seq::<char>::empty());
        assert(digits_val(t) == digits_val(t.drop_last()) * 10 + digit_value(t.last()));
        assert(pow10(0) == 1);
    } else {
        assert(t.drop_last() =~= seq![d] + s.drop_last());
        lemma_digits_prepend(d, s.drop_last());
        let p = pow10((s.len() - 1) as nat);
        assert(t.last() == s.last());
        let a = digit_value(d);
        let b = digits_val(s.drop_last());
        assert((a * p + b) * 10 + digit_value(s.last()) == a * (10 * p) + (b * 10 + digit_value(
            s.last(),
        ))) by (nonlinear_arith);
        assert(digits_val(t) == digits_val(t.drop_last()) * 10 + digit_value(t.last()));
        assert(digits_val(s) == b * 10 + digit_value(s.last()));
        assert(pow10(s.len()) == 10 * p);
    }
}

/// Largest position at which `body` holds '.', when it holds one.
fn find_dot(v: &Vec<char>, from: usize, to: usize) -> (r: Option<usize>)
    requires
        from <= to <= v.len(),
    ensures
        match r {
            Some(p) => from <= p < to && v@[p as int] == '.' && forall|j: int|
                from <= j < p ==> v@[j] != '.',
            None => forall|j: int| from <= j < to ==> v@[j] != '.',
        },
{
    let mut i = from;
    while i < to
        invariant
            from <= i <= to <= v.len(),
            forall|j: int| from <= j < i ==> v@[j] != '.',
        decreases to - i,
    {
        if v[i] == '.' {
            return Some(i);
        }
        i += 1;
    }
    None
}

fn digits_between(v: &Vec<char>, from: usize, to: usize) -> (b: bool)
    requires
        from <= to <= v.len(),
    ensures
        b == all_digits(v@.subrange(from as int, to as int)),
{
    let mut i = from;
    while i < to
        invariant
            from <= i <= to <= v.len(),
            forall|j: int| from <= j < i ==> is_digit(v@[j]),
        decreases to - i,
    {
        if !('0' <= v[i] && v[i] <= '9') {
            assert(v@.subrange(from as int, to as int)[i - from] == v@[i as int]);
            return false;
        }
        i += 1;
    }
    assert forall|j: int| 0 <= j < to - from implies is_digit(
        #[trigger] v@.subrange(from as int, to as int)[j],
    ) by {
        assert(v@.subrange(from as int, to as int)[j] == v@[from + j]);
    }
    true
}

/// The digits `v[from..to]` as a number, saturated at `CAP`.
fn capped_value(v: &Vec<char>, from: usize, to: usize) -> (r: u128)
    requires
        from <= to <= v.len(),
        all_digits(v@.subrange(from as int, to as int)),
    ensures
        r == if digits_val(v@.subrange(from as int, to as int)) < CAP {
            digits_val(v@.subrange(from as int, to as int))
        } else {
            CAP as nat
        },
{
    let mut acc: u128 = 0;
    let mut i = from;
    assert(v@.subrange(from as int, from as int) =~= Seq::<char>::empty());
    while i < to
        invariant
            from <= i <= to <= v.len(),
            all_digits(v@.subrange(from as int, to as int)),
            acc == if digits_val(v@.subrange(from as int, i as int)) < CAP {
                digits_val(v@.subrange(from as int, i as int))
            } else {
                CAP as nat
            },
        decreases to - i,
    {
        let ghost prev = v@.subrange(from as int, i as int);
        assert(v@.subrange(from as int, i + 1).drop_last() =~= prev);
        assert(v@.subrange(from as int, to as int)[i - from] == v@[i as int]);
        let d = ((v[i] as u32) - ('0' as u32)) as u128;
        let next = acc * 10 + d;
        acc = if next < CAP {
            next
        } else {
            CAP
        };
        i += 1;
    }
    acc
}

/// `(m2 * digits(v[from..to])) / 10^(to - from)`, computed from the last
/// digit backwards so that no intermediate value exceeds `10 * m2`.
fn scaled_fraction(v: &Vec<char>, from: usize, to: usize, m2: u128) -> (r: u128)
    requires
        from <= to <= v.len(),
        all_digits(v@.subrange(from as int, to as int)),
        m2 <= 4_000_000_000_000,
    ensures
        r == (m2 * digits_val(v@.subrange(from as int, to as int))) / (pow10((to - from) as nat) as int),
        r < m2 || m2 == 0,
{
    let mut c: u128 = 0;
    let mut i = to;
    assert(v@.subrange(to as int, to as int) =~= Seq::<char>::empty());
    assert(digits_val(Seq::<char>::empty()) == 0);
    assert(pow10(0) == 1);
    while i > from
        invariant
            from <= i <= to <= v.len(),
            all_digits(v@.subrange(from as int, to as int)),
            m2 <= 4_000_000_000_000,
            c == (m2 * digits_val(v@.subrange(i as int, to as int))) / (pow10((to - i) as nat) as int),
            c < m2 || m2 == 0,
        decreases i,
    {
        let ghost rest = v@.subrange(i as int, to as int);
        let ghost r = (to - i) as nat;
        assert(v@.subrange(from as int, to as int)[i - 1 - from] == v@[i - 1]);
        let d = ((v[i - 1] as u32) - ('0' as u32)) as u128;
        proof {
            assert(v@.subrange(i - 1, to as int) =~= seq![v@[i - 1]] + rest);
            lemma_digits_prepend(v@[i - 1], rest);
            lemma_pow10_pos(r);
            let p = pow10(r);
            let vv = digits_val(rest);
            assert(rest.len() == r);
            let x = m2 * vv;
            // (m2 * (d * p + vv)) / (10 * p) == (m2 * d + (m2 * vv) / p) / 10
            assert(m2 * (d * p + vv) == x + (m2 * d) * p) by (nonlinear_arith)
                requires
                    x == m2 * vv,
            ;
            lemma_hoist_over_denominator(x as int, (m2 * d) as int, p);
            lemma_div_denominator((x + (m2 * d) * p) as int, p as int, 10);
            assert(pow10((r + 1) as nat) == 10 * p);
            assert(p * 10 == 10 * p) by (nonlinear_arith);
            if m2 > 0 {
                assert(d <= 9);
                assert(m2 * d + c < 10 * m2) by (nonlinear_arith)
                    requires
                        d <= 9,
                        c < m2,
                ;
            }
        }
        c = (m2 * d + c) / 10;
        i -= 1;
    }
    c
}

/// `±int.frac * p / q`, rounded half away from zero and clamped to `i64`,
/// for the digits `v[int_from..int_to]` and `v[frac_from..frac_to]`.
fn scale_decimal(
    negative: bool,
    v: &Vec<char>,
    int_from: usize,
    int_to: usize,
    frac_from: usize,
    frac_to: usize,
    p: u128,
    q: u128,
) -> (r: i64)
    requires
        int_from <= int_to <= v.len(),
        frac_from <= frac_to <= v.len(),
        all_digits(v@.subrange(int_from as int, int_to as int)),
        all_digits(v@.subrange(frac_from as int, frac_to as int)),
        1 <= p <= 1_100_000_000_000,
        1 <= q <= 1_000_000,
    ensures
        r == scaled_decimal(
            negative,
            v@.subrange(int_from as int, int_to as int),
            v@.subrange(frac_from as int, frac_to as int),
            p as nat,
            q as nat,
        ),
{
    let ghost a = v@.subrange(int_from as int, int_to as int);
    let ghost b = v@.subrange(frac_from as int, frac_to as int);
    let int_part = capped_value(v, int_from, int_to);
    let c = scaled_fraction(v, frac_from, frac_to, 2 * p);
    assert(2 * int_part * p + c <= 220_000_000_000_000_000_000_000_000_000_000_000_000 + c) by (nonlinear_arith)
        requires
            int_part <= CAP,
            p <= 1_100_000_000_000,
    ;
    let total = 2 * int_part * p + c;
    let m = (total / q + 1) / 2;
    proof {
        let k = b.len();
        lemma_pow10_pos(k);
        let kk = pow10(k);
        assert(b.len() == frac_to - frac_from);
        let fv = digits_val(b);
        let iv = digits_val(a);
        let n = iv * kk + fv;
        let target = round_half_up(n * (p as nat), kk * (q as nat));
        // The value computed from the integer part `ip` and the fraction.
        let ip = int_part as nat;
        let x = 2 * (ip * kk + fv) * p + kk * q;
        assert(x == (2 * p * fv) + (2 * ip * p + q) * kk) by (nonlinear_arith)
            requires
                x == 2 * (ip * kk + fv) * p + kk * q,
        ;
        lemma_hoist_over_denominator((2 * p * fv) as int, (2 * ip * p + q) as int, kk);
        assert(x / (kk as int) == total + q);
        lemma_div_denominator(x as int, kk as int, 2 * q);
        assert(kk * (2 * q) == 2 * (kk * q)) by (nonlinear_arith);
        lemma_div_denominator((total + q) as int, q as int, 2);
        lemma_hoist_over_denominator(total as int, 1, q as nat);
        assert(m == x / (2 * (kk * q)));
        assert(2 * (n * p) + kk * q == 2 * (iv * kk + fv) * p + kk * q) by (nonlinear_arith)
            requires
                n == iv * kk + fv,
        ;
        if iv < CAP {
            assert(ip == iv);
            assert(m == target);
        } else {
            assert(ip == CAP);
            // The clamped magnitude already exceeds the range of i64, and the
            // true one is at least as large.
            assert(iv * kk + fv >= ip * kk + fv) by (nonlinear_arith)
                requires
                    iv >= ip,
            ;
            assert(2 * (n * p) + kk * q >= x) by (nonlinear_arith)
                requires
                    n >= ip * kk + fv,
                    x == 2 * (ip * kk + fv) * p + kk * q,
            ;
            lemma_div_is_ordered(x as int, 2 * (n * p) + kk * q, 2 * (kk * q));
            assert(total >= 200_000_000_000_000_000_000_000_000) by (nonlinear_arith)
                requires
                    total == 2 * int_part * p + c,
                    int_part == CAP,
                    p >= 1,
            ;
            lemma_div_is_ordered(200_000_000_000_000_000_000_000_000, total as int, q as int);
            lemma_div_is_ordered_by_denominator_small(q as int);
            assert(m >= 100_000_000_000_000_000_000);
            assert(target >= m);
        }
    }
    if negative {
        if m > 0x8000_0000_0000_0000 {
            i64::MIN
        } else if m == 0x8000_0000_0000_0000 {
            i64::MIN
        } else {
            -(m as i64)
        }
    } else if m > (i64::MAX as u128) {
        i64::MAX
    } else {
        m as i64
    }
}

proof fn lemma_div_is_ordered_by_denominator_small(q: int)
    requires
        1 <= q <= 1_000_000,
    ensures
        200_000_000_000_000_000_000_000_000int / q >= 200_000_000_000_000_000_000,
{
    vstd::arithmetic::div_mod::lemma_div_is_ordered_by_denominator(
        200_000_000_000_000_000_000_000_000,
        q,
        1_000_000,
    );
}

/// Splits a quantity into its number and its unit.
pub fn split_suffix(value: &str) -> (r: (&str, &str))
    ensures
        r.0@ == value@.take(suffix_start(value@) as int),
        r.1@ == value@.skip(suffix_start(value@) as int),
{
    let v = chars_of(value);
    let mut i: usize = 0;
    while i < v.len() && (('0' <= v[i] && v[i] <= '9') || v[i] == '.' || v[i] == '-')
        invariant
            i <= v@.len(),
            v@ == value@,
            forall|j: int| 0 <= j < i ==> is_number_char(#[trigger] v@[j]),
        decreases v.len() - i,
    {
        i += 1;
    }
    proof {
        lemma_suffix_start_is(value@, i as int);
    }
    (value.substring_char(0, i), value.substring_char(i, v.len()))
}

/// Reads the number part of a quantity and scales it by `p / q`.
fn scaled_number(digits: &str, p: u128, q: u128) -> (r: Option<i64>)
    requires
        1 <= p <= 1_100_000_000_000,
        1 <= q <= 1_000_000,
    ensures
        r == match parse_decimal(digits@) {
            Some((negative, a, b)) => Some(scaled_decimal(negative, a, b, p as nat, q as nat)),
            None => None,
        },
{
    let v = chars_of(digits);
    let n = v.len();
    let negative = n > 0 && v[0] == '-';
    let start: usize = if negative {
        1
    } else {
        0
    };
    let ghost body = if negative {
        v@.drop_first()
    } else {
        v@
    };
    assert(body =~= v@.subrange(start as int, n as int));
    match find_dot(&v, start, n) {
        None => {
            proof {
                lemma_first_of_is(body, '.', body.len() as int);
            }
            if n > start && digits_between(&v, start, n) {
                assert(v@.subrange(n as int, n as int) =~= Seq::<char>::empty());
                Some(scale_decimal(negative, &v, start, n, n, n, p, q))
            } else {
                None
            }
        },
        Some(dot) => {
            let ok = n - start > 1 && digits_between(&v, start, dot) && digits_between(
                &v,
                dot + 1,
                n,
            );
            proof {
                let x = dot - start;
                lemma_first_of_is(body, '.', x as int);
                assert(body.take(x as int) =~= v@.subrange(start as int, dot as int));
                assert(body.skip(x + 1) =~= v@.subrange(dot + 1, n as int));
            }
            if ok {
                Some(scale_decimal(negative, &v, start, dot, dot + 1, n, p, q))
            } else {
                None
            }
        },
    }
}

/// CPU quantity to millicores.
pub fn cpu_millicores(value: &str) -> (r: Option<i64>)
    ensures
        r == cpu_millicores_of(value@),
{
    let t = trim(value);
    let (digits, scale) = split_suffix(t.as_str());
    let u = chars_of(scale);
    let (p, q): (u128, u128) = if u.len() == 0 {
        (1000, 1)
    } else if u.len() == 1 && u[0] == 'm' {
        (1, 1)
    } else if u.len() == 1 && u[0] == 'u' {
        (1, 1000)
    } else if u.len() == 1 && u[0] == 'n' {
        (1, 1_000_000)
    } else {
        return None;
    };
    scaled_number(digits, p, q)
}

/// Memory quantity to bytes.
pub fn memory_bytes(value: &str) -> (r: Option<i64>)
    ensures
        r == memory_bytes_of(value@),
{
    let t = trim(value);
    let (digits, scale) = split_suffix(t.as_str());
    let u = chars_of(scale);
    let n = u.len();
    let p: u128 = if n == 0 {
        1
    } else if n == 2 && u[0] == 'K' && u[1] == 'i' {
        1024
    } else if n == 2 && u[0] == 'M' && u[1] == 'i' {
        1024 * 1024
    } else if n == 2 && u[0] == 'G' && u[1] == 'i' {
        1024 * 1024 * 1024
    } else if n == 2 && u[0] == 'T' && u[1] == 'i' {
        1024 * 1024 * 1024 * 1024
    } else if n == 1 && u[0] == 'k' {
        1000
    } else if n == 1 && u[0] == 'M' {
        1_000_000
    } else if n == 1 && u[0] == 'G' {
        1_000_000_000
    } else if n == 1 && u[0] == 'T' {
        1_000_000_000_000
    } else {
        return None;
    };
    scaled_number(digits, p, 1)
}

} // verus!
