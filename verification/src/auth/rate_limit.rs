//! Login attempt limiting.
//!
//! Argon2 makes each guess expensive but not impossible; this bounds how many
//! an attacker gets. Keyed on the email being attempted rather than the client
//! address, because the address is trivially varied and a proxy hides it
//! anyway. The cost of that choice is that an attacker can lock a known
//! account out of fast logins, not out of the system, since the window is
//! short.
//!
//! The state is in-process, so it resets on restart and does not span
//! replicas, which matches a single-replica control plane.

use crate::text::{ascii_lower, to_ascii_lowercase};
use vstd::prelude::*;

verus! {

/// Attempts allowed per account within one window.
pub const MAX_ATTEMPTS: u32 = 10;

/// Length of the counting window: fifteen minutes, in nanoseconds.
pub const WINDOW_NANOS: u128 = 15 * 60 * 1_000_000_000;

/// Past this many tracked accounts, a check first drops the expired ones, so
/// the table cannot grow without limit from a stream of distinct emails.
pub const CLEANUP_THRESHOLD: usize = 10_000;

#[verifier::external_type_specification]
#[verifier::external_body]
pub struct ExInstant(std::time::Instant);

/// Attempts recorded for one account.
#[derive(Clone, Copy, Debug, PartialEq, Eq)]
pub struct Attempts {
    pub count: u32,
    /// Clock reading, in nanoseconds, at which the current window started.
    pub first_seen: u128,
}

/// The account an attempt counts against: the key with ASCII letters folded
/// to lower case.
pub open spec fn account(key: Seq<char>) -> Seq<char> {
    key.map_values(|c: char| ascii_lower(c))
}

/// Time from `since` to `now`, zero when `now` is earlier
/// (`Instant::duration_since` saturates).
pub open spec fn elapsed(now: u128, since: u128) -> int {
    if now >= since {
        now - since
    } else {
        0
    }
}

/// Whether a record still lies within its window at `now`.
pub open spec fn in_window(a: Attempts, now: u128) -> bool {
    elapsed(now, a.first_seen) < WINDOW_NANOS
}

/// The records of `m` whose window is still open at `now`.
pub open spec fn live_only(m: Map<Seq<char>, Attempts>, now: u128) -> Map<Seq<char>, Attempts> {
    Map::new(|k: Seq<char>| m.contains_key(k) && in_window(m[k], now), |k: Seq<char>| m[k])
}

/// The table after the bounded cleanup that precedes every check.
pub open spec fn pruned(m: Map<Seq<char>, Attempts>, now: u128) -> Map<Seq<char>, Attempts> {
    if m.dom().len() > CLEANUP_THRESHOLD {
        live_only(m, now)
    } else {
        m
    }
}

/// The record of an account after one more attempt at `now`: a missing or
/// expired record starts a new window, then the count goes up by one.
pub open spec fn bumped(prev: Option<Attempts>, now: u128) -> Attempts {
    let base = match prev {
        Some(a) => if elapsed(now, a.first_seen) >= WINDOW_NANOS {
            Attempts { count: 0, first_seen: now }
        } else {
            a
        },
        None => Attempts { count: 0, first_seen: now },
    };
    Attempts {
        count: if base.count < u32::MAX { (base.count + 1) as u32 } else { u32::MAX },
        first_seen: base.first_seen,
    }
}

/// One check of `key` at `now` on table `m`: the new table, and whether the
/// attempt may proceed.
pub open spec fn check_step(m: Map<Seq<char>, Attempts>, key: Seq<char>, now: u128) -> (
    Map<Seq<char>, Attempts>,
    bool,
) {
    let p = pruned(m, now);
    let k = account(key);
    let a = bumped(if p.contains_key(k) { Some(p[k]) } else { None }, now);
    (p.insert(k, a), a.count <= MAX_ATTEMPTS)
}

pub open spec fn key_views(keys: Seq<String>) -> Seq<Seq<char>> {
    keys.map_values(|s: String| s@)
}

/// The table held by parallel sequences of keys and records.
pub open spec fn table(keys: Seq<String>, slots: Seq<Attempts>) -> Map<Seq<char>, Attempts> {
    Map::new(
        |k: Seq<char>| key_views(keys).contains(k),
        |k: Seq<char>| slots[key_views(keys).index_of(k)],
    )
}

/// The table after checking `key` once at each of `times`, in order.
pub open spec fn replay(m: Map<Seq<char>, Attempts>, key: Seq<char>, times: Seq<u128>) -> Map<
    Seq<char>,
    Attempts,
>
    decreases times.len(),
{
    if times.len() == 0 {
        m
    } else {
        check_step(replay(m, key, times.drop_last()), key, times.last()).0
    }
}

/// The verdict of the `i`-th of those checks.
pub open spec fn verdict(m: Map<Seq<char>, Attempts>, key: Seq<char>, times: Seq<u128>, i: int) -> bool {
    check_step(replay(m, key, times.take(i)), key, times[i]).1
}

pub open spec fn capped(n: int) -> u32 {
    if n < u32::MAX {
        n as u32
    } else {
        u32::MAX
    }
}

proof fn lemma_replay_within_window(m: Map<Seq<char>, Attempts>, key: Seq<char>, times: Seq<u128>, i: int)
    requires
        times.len() > 0,
        forall|j: int| 0 <= j < times.len() ==> times[0] <= #[trigger] times[j] && times[j] - times[0]
            < WINDOW_NANOS,
        !m.contains_key(account(key)) || !in_window(m[account(key)], times[0]),
        1 <= i <= times.len(),
    ensures
        replay(m, key, times.take(i)).contains_key(account(key)),
        replay(m, key, times.take(i))[account(key)] == (Attempts {
            count: capped(i),
            first_seen: times[0],
        }),
    decreases i,
{
    let k = account(key);
    let prefix = times.take(i);
    assert(prefix.drop_last() =~= times.take(i - 1));
    assert(prefix.last() == times[i - 1]);
    let prev = replay(m, key, times.take(i - 1));
    let p = pruned(prev, times[i - 1]);
    if i == 1 {
        assert(times.take(0) =~= Seq::<u128>::empty());
        if p.contains_key(k) {
            assert(prev.contains_key(k));
        }
    } else {
        lemma_replay_within_window(m, key, times, i - 1);
        assert(in_window(prev[k], times[i - 1]));
        assert(p.contains_key(k));
    }
}

/// Within one window, the first `MAX_ATTEMPTS` checks of an account are
/// allowed and every later one is refused.
pub proof fn law_attempts_within_a_window_are_capped(
    m: Map<Seq<char>, Attempts>,
    key: Seq<char>,
    times: Seq<u128>,
)
    requires
        times.len() > 0,
        forall|j: int| 0 <= j < times.len() ==> times[0] <= #[trigger] times[j] && times[j] - times[0]
            < WINDOW_NANOS,
        !m.contains_key(account(key)) || !in_window(m[account(key)], times[0]),
    ensures
        forall|i: int| 0 <= i < times.len() ==> #[trigger] verdict(m, key, times, i) == (i
            < MAX_ATTEMPTS),
{
    assert forall|i: int| 0 <= i < times.len() implies #[trigger] verdict(m, key, times, i) == (i
        < MAX_ATTEMPTS) by {
        lemma_replay_within_window(m, key, times, i + 1);
        assert(times.take(i + 1).drop_last() =~= times.take(i));
        let k = account(key);
        let prev = replay(m, key, times.take(i));
        let p = pruned(prev, times[i]);
        if i == 0 {
            assert(times.take(0) =~= Seq::<u128>::empty());
            if p.contains_key(k) {
                assert(prev.contains_key(k));
            }
        } else {
            lemma_replay_within_window(m, key, times, i);
            assert(p.contains_key(k));
        }
    }
}

/// After the counter of an account is cleared, its next attempt is allowed,
/// whatever case its email is written in.
pub proof fn law_reset_allows_the_next_attempt(
    m: Map<Seq<char>, Attempts>,
    key: Seq<char>,
    again: Seq<char>,
    now: u128,
)
    requires
        account(again) == account(key),
    ensures
        check_step(m.remove(account(key)), again, now).1,
{
    let k = account(key);
    let p = pruned(m.remove(k), now);
    assert(!p.contains_key(k));
}

/// Once an account's window has run out, its next attempt is allowed again:
/// an attacker can lock an account out of fast logins, not out of the system.
pub proof fn law_an_expired_window_allows_again(m: Map<Seq<char>, Attempts>, key: Seq<char>, now: u128)
    requires
        m.contains_key(account(key)) ==> !in_window(m[account(key)], now),
    ensures
        check_step(m, key, now).1,
{
    let k = account(key);
    let p = pruned(m, now);
    if p.contains_key(k) {
        assert(m.contains_key(k) && p[k] == m[k]);
    }
}

/// Emails that differ only in the case of ASCII letters are one account.
pub proof fn law_accounts_ignore_ascii_case(
    m: Map<Seq<char>, Attempts>,
    a: Seq<char>,
    b: Seq<char>,
    now: u128,
)
    requires
        account(a) == account(b),
    ensures
        check_step(m, a, now) == check_step(m, b, now),
{
}

/// The verdict for an account depends on nothing but that account's own
/// record: the other accounts, and the cleanup of expired records, do not
/// change it.
pub proof fn law_verdict_depends_only_on_own_record(
    m1: Map<Seq<char>, Attempts>,
    m2: Map<Seq<char>, Attempts>,
    key: Seq<char>,
    now: u128,
)
    requires
        m1.contains_key(account(key)) == m2.contains_key(account(key)),
        m1.contains_key(account(key)) ==> m1[account(key)] == m2[account(key)],
    ensures
        check_step(m1, key, now).1 == check_step(m2, key, now).1,
{
    let k = account(key);
    let p1 = pruned(m1, now);
    let p2 = pruned(m2, now);
    if m1.contains_key(k) && in_window(m1[k], now) {
        assert(p1.contains_key(k) && p1[k] == m1[k]);
        assert(p2.contains_key(k) && p2[k] == m2[k]);
    }
}

/// A check leaves every other account's open record as it was.
pub proof fn law_other_accounts_are_untouched(
    m: Map<Seq<char>, Attempts>,
    key: Seq<char>,
    other: Seq<char>,
    now: u128,
)
    requires
        account(other) != account(key),
        m.contains_key(account(other)),
        in_window(m[account(other)], now),
    ensures
        check_step(m, key, now).0.contains_key(account(other)),
        check_step(m, key, now).0[account(other)] == m[account(other)],
{
}

/// The table after a run of checks, each event the key attempted and the
/// clock reading, in order.
pub open spec fn run(m: Map<Seq<char>, Attempts>, events: Seq<(Seq<char>, u128)>) -> Map<
    Seq<char>,
    Attempts,
>
    decreases events.len(),
{
    if events.len() == 0 {
        m
    } else {
        check_step(run(m, events.drop_last()), events.last().0, events.last().1).0
    }
}

/// The verdict on the `i`-th event of a run.
pub open spec fn run_verdict(m: Map<Seq<char>, Attempts>, events: Seq<(Seq<char>, u128)>, i: int) -> bool {
    check_step(run(m, events.take(i)), events[i].0, events[i].1).1
}

/// The events of one account, in order.
pub open spec fn events_of(events: Seq<(Seq<char>, u128)>, k: Seq<char>) -> Seq<(Seq<char>, u128)>
    decreases events.len(),
{
    if events.len() == 0 {
        Seq::empty()
    } else if account(events.last().0) == k {
        events_of(events.drop_last(), k).push(events.last())
    } else {
        events_of(events.drop_last(), k)
    }
}

/// Clock readings that never go back.
pub open spec fn nondecreasing(events: Seq<(Seq<char>, u128)>) -> bool {
    forall|i: int, j: int| 0 <= i <= j < events.len() ==> (#[trigger] events[i]).1 <= (#[trigger] events[j]).1
}

/// The record of account `k` that is still open at `t`.
pub open spec fn live_record(m: Map<Seq<char>, Attempts>, k: Seq<char>, t: u128) -> Option<Attempts> {
    if m.contains_key(k) && in_window(m[k], t) {
        Some(m[k])
    } else {
        None
    }
}

/// Two tables hold the same open record of `k` at every time from `t0` on.
pub open spec fn agree_from(
    m1: Map<Seq<char>, Attempts>,
    m2: Map<Seq<char>, Attempts>,
    k: Seq<char>,
    t0: u128,
) -> bool {
    forall|t: u128| t0 <= t ==> #[trigger] live_record(m1, k, t) == live_record(m2, k, t)
}

/// A check of another account leaves `k`'s open record as it was.
proof fn lemma_other_step(m: Map<Seq<char>, Attempts>, key: Seq<char>, now: u128, k: Seq<char>, t: u128)
    requires
        account(key) != k,
        now <= t,
    ensures
        live_record(check_step(m, key, now).0, k, t) == live_record(m, k, t),
{
    let p = pruned(m, now);
    if m.contains_key(k) && in_window(m[k], now) {
        assert(p.contains_key(k) && p[k] == m[k]);
    } else if p.contains_key(k) {
        assert(p[k] == m[k]);
    }
}

/// A check of `k` depends on, and leaves, only `k`'s open record.
proof fn lemma_own_step(m: Map<Seq<char>, Attempts>, key: Seq<char>, now: u128)
    ensures
        check_step(m, key, now).1 == (bumped(live_record(m, account(key), now), now).count
            <= MAX_ATTEMPTS),
        check_step(m, key, now).0.contains_key(account(key)),
        check_step(m, key, now).0[account(key)] == bumped(live_record(m, account(key), now), now),
{
    let k = account(key);
    let p = pruned(m, now);
    if p.contains_key(k) {
        assert(m.contains_key(k) && p[k] == m[k]);
    }
}

/// Checking the same account from two tables that agree on it gives the same
/// verdict, and tables that still agree.
proof fn lemma_same_step(
    m1: Map<Seq<char>, Attempts>,
    m2: Map<Seq<char>, Attempts>,
    key: Seq<char>,
    now: u128,
    t0: u128,
)
    requires
        agree_from(m1, m2, account(key), t0),
        t0 <= now,
    ensures
        check_step(m1, key, now).1 == check_step(m2, key, now).1,
        agree_from(check_step(m1, key, now).0, check_step(m2, key, now).0, account(key), now),
{
    lemma_own_step(m1, key, now);
    lemma_own_step(m2, key, now);
    assert(live_record(m1, account(key), now) == live_record(m2, account(key), now));
}

proof fn lemma_run_projection(
    m1: Map<Seq<char>, Attempts>,
    m2: Map<Seq<char>, Attempts>,
    events: Seq<(Seq<char>, u128)>,
    k: Seq<char>,
    t0: u128,
    n: int,
)
    requires
        nondecreasing(events),
        events.len() > 0 ==> t0 <= events[0].1,
        agree_from(m1, m2, k, t0),
        0 <= n <= events.len(),
    ensures
        agree_from(
            run(m1, events.take(n)),
            run(m2, events_of(events.take(n), k)),
            k,
            if n == 0 {
                t0
            } else {
                events[n - 1].1
            },
        ),
    decreases n,
{
    if n == 0 {
        assert(events.take(0) =~= Seq::<(Seq<char>, u128)>::empty());
    } else {
        lemma_run_projection(m1, m2, events, k, t0, n - 1);
        let before = events.take(n - 1);
        let upto = events.take(n);
        assert(upto.drop_last() =~= before);
        let e = events[n - 1];
        assert(upto.last() == e);
        let tp = if n - 1 == 0 {
            t0
        } else {
            events[n - 2].1
        };
        assert(tp <= e.1);
        let r1 = run(m1, before);
        let r2 = run(m2, events_of(before, k));
        if account(e.0) == k {
            assert(events_of(upto, k) =~= events_of(before, k).push(e));
            assert(events_of(upto, k).drop_last() =~= events_of(before, k));
            lemma_same_step(r1, r2, e.0, e.1, tp);
        } else {
            assert(events_of(upto, k) == events_of(before, k));
            assert forall|t: u128| e.1 <= t implies #[trigger] live_record(run(m1, upto), k, t)
                == live_record(run(m2, events_of(upto, k)), k, t) by {
                lemma_other_step(r1, e.0, e.1, k, t);
            }
        }
    }
}

/// The verdict on an attempt is what it would be had no other account made
/// an attempt: the attempts of other accounts, interleaved in any way, do
/// not change it.
pub proof fn law_other_accounts_never_change_a_verdict(
    m: Map<Seq<char>, Attempts>,
    events: Seq<(Seq<char>, u128)>,
    i: int,
)
    requires
        nondecreasing(events),
        0 <= i < events.len(),
    ensures
        run_verdict(m, events, i) == check_step(
            run(m, events_of(events.take(i), account(events[i].0))),
            events[i].0,
            events[i].1,
        ).1,
{
    let k = account(events[i].0);
    lemma_run_projection(m, m, events, k, events[0].1, i);
    let tp = if i == 0 {
        events[0].1
    } else {
        events[i - 1].1
    };
    lemma_same_step(run(m, events.take(i)), run(m, events_of(events.take(i), k)), events[i].0, events[i].1, tp);
}

/// Clearing one account's counter changes no verdict on any other account,
/// however many attempts follow; clearing it twice is clearing it once.
pub proof fn law_reset_touches_only_its_account(
    m: Map<Seq<char>, Attempts>,
    key: Seq<char>,
    events: Seq<(Seq<char>, u128)>,
    i: int,
)
    requires
        nondecreasing(events),
        0 <= i < events.len(),
        account(events[i].0) != account(key),
    ensures
        run_verdict(m.remove(account(key)), events, i) == run_verdict(m, events, i),
        m.remove(account(key)).remove(account(key)) == m.remove(account(key)),
{
    let k = account(events[i].0);
    let r = m.remove(account(key));
    assert forall|t: u128| events[0].1 <= t implies #[trigger] live_record(r, k, t) == live_record(m, k, t) by {}
    lemma_run_projection(r, m, events, k, events[0].1, i);
    lemma_run_projection(m, m, events, k, events[0].1, i);
    let tp = if i == 0 {
        events[0].1
    } else {
        events[i - 1].1
    };
    let own = run(m, events_of(events.take(i), k));
    lemma_same_step(run(r, events.take(i)), own, events[i].0, events[i].1, tp);
    lemma_same_step(run(m, events.take(i)), own, events[i].0, events[i].1, tp);
    assert(r.remove(account(key)) =~= r);
}

/// The events of one account are events of that account, in the order of
/// their clock readings when the run's readings never go back.
proof fn lemma_events_of(events: Seq<(Seq<char>, u128)>, k: Seq<char>)
    requires
        nondecreasing(events),
    ensures
        nondecreasing(events_of(events, k)),
        forall|j: int| 0 <= j < events_of(events, k).len() ==> account((#[trigger] events_of(events, k)[j]).0) == k,
        events.len() > 0 ==> forall|j: int|
            0 <= j < events_of(events, k).len() ==> (#[trigger] events_of(events, k)[j]).1 <= events.last().1,
    decreases events.len(),
{
    if events.len() > 0 {
        let init = events.drop_last();
        assert(nondecreasing(init)) by {
            assert forall|a: int, b: int| 0 <= a <= b < init.len() implies (#[trigger] init[a]).1
                <= (#[trigger] init[b]).1 by {
                assert(init[a] == events[a] && init[b] == events[b]);
            }
        }
        lemma_events_of(init, k);
        let r = events_of(init, k);
        if init.len() > 0 {
            assert(init.last() == events[events.len() - 2]);
            assert(forall|j: int| 0 <= j < r.len() ==> (#[trigger] r[j]).1 <= events.last().1);
        }
        if account(events.last().0) == k {
            let s = r.push(events.last());
            assert forall|a: int, b: int| 0 <= a <= b < s.len() implies (#[trigger] s[a]).1 <= (
            #[trigger] s[b]).1 by {
                if b == s.len() - 1 && a < b {
                    assert(s[a] == r[a]);
                } else if b < s.len() - 1 {
                    assert(s[a] == r[a] && s[b] == r[b]);
                }
            }
            assert forall|j: int| 0 <= j < s.len() implies account((#[trigger] s[j]).0) == k by {
                if j < r.len() {
                    assert(s[j] == r[j]);
                }
            }
            assert forall|j: int| 0 <= j < s.len() implies (#[trigger] s[j]).1 <= events.last().1 by {
                if j < r.len() {
                    assert(s[j] == r[j]);
                }
            }
        }
    }
}

/// A run of one account's attempts, all within the window its first one
/// opens, counts them from one.
proof fn lemma_single_account_run(m: Map<Seq<char>, Attempts>, s: Seq<(Seq<char>, u128)>, k: Seq<char>, n: int)
    requires
        nondecreasing(s),
        forall|j: int| 0 <= j < s.len() ==> account((#[trigger] s[j]).0) == k,
        forall|j: int| 0 <= j < s.len() ==> (#[trigger] s[j]).1 - s[0].1 < WINDOW_NANOS,
        s.len() > 0 ==> live_record(m, k, s[0].1) is None,
        1 <= n <= s.len(),
    ensures
        run(m, s.take(n)).contains_key(k),
        run(m, s.take(n))[k] == (Attempts { count: capped(n), first_seen: s[0].1 }),
    decreases n,
{
    let prefix = s.take(n);
    assert(prefix.drop_last() =~= s.take(n - 1));
    assert(prefix.last() == s[n - 1]);
    lemma_own_step(run(m, s.take(n - 1)), s[n - 1].0, s[n - 1].1);
    if n == 1 {
        assert(s.take(0) =~= Seq::<(Seq<char>, u128)>::empty());
    } else {
        lemma_single_account_run(m, s, k, n - 1);
        assert(s[0].1 <= s[n - 1].1);
    }
}

/// Within the window an account's first attempt opens, its first
/// `MAX_ATTEMPTS` attempts are allowed and every later one refused, however
/// the attempts of other accounts are interleaved with them.
pub proof fn law_attempts_within_a_window_are_capped_among_others(
    m: Map<Seq<char>, Attempts>,
    events: Seq<(Seq<char>, u128)>,
    i: int,
)
    requires
        nondecreasing(events),
        0 <= i < events.len(),
        forall|j: int|
            0 <= j < events_of(events.take(i + 1), account(events[i].0)).len() ==> (
            #[trigger] events_of(events.take(i + 1), account(events[i].0))[j]).1 - events_of(
                events.take(i + 1),
                account(events[i].0),
            )[0].1 < WINDOW_NANOS,
        live_record(m, account(events[i].0), events_of(events.take(i + 1), account(events[i].0))[0].1)
            is None,
    ensures
        run_verdict(m, events, i) == (events_of(events.take(i), account(events[i].0)).len()
            < MAX_ATTEMPTS),
{
    let k = account(events[i].0);
    let e = events[i];
    let upto = events.take(i + 1);
    let own = events_of(events.take(i), k);
    assert(upto.drop_last() =~= events.take(i));
    assert(upto.last() == e);
    let s = events_of(upto, k);
    assert(s == own.push(e));
    assert(nondecreasing(upto)) by {
        assert forall|a: int, b: int| 0 <= a <= b < upto.len() implies (#[trigger] upto[a]).1 <= (
        #[trigger] upto[b]).1 by {
            assert(upto[a] == events[a] && upto[b] == events[b]);
        }
    }
    lemma_events_of(upto, k);
    law_other_accounts_never_change_a_verdict(m, events, i);
    lemma_own_step(run(m, own), e.0, e.1);
    let n = own.len() as int;
    if n == 0 {
        assert(s[0] == e);
        assert(own =~= Seq::<(Seq<char>, u128)>::empty());
    } else {
        lemma_single_account_run(m, s, k, n);
        assert(s.take(n) =~= own);
        assert(s[n] == e);
        assert(s[0].1 <= s[n].1);
        assert(s[n].1 - s[0].1 < WINDOW_NANOS);
    }
}

/// The events of a sequence of checks: the key each attempted and the clock
/// reading it used, which is the limiter's clock after it.
pub open spec fn calls(keys: Seq<Seq<char>>, clocks: Seq<u128>) -> Seq<(Seq<char>, u128)> {
    Seq::new(keys.len(), |j: int| (keys[j], clocks[j + 1]))
}

/// What `RateLimiter::check` promises of each call in a sequence: `tables[j]`
/// and `clocks[j]` are the limiter's view and clock before the `j`-th call,
/// made with `keys[j]` and answered `verdicts[j]`.
pub open spec fn successive_checks(
    tables: Seq<Map<Seq<char>, Attempts>>,
    clocks: Seq<u128>,
    keys: Seq<Seq<char>>,
    verdicts: Seq<bool>,
) -> bool {
    &&& tables.len() == keys.len() + 1
    &&& clocks.len() == keys.len() + 1
    &&& verdicts.len() == keys.len()
    &&& forall|j: int|
        #![trigger keys[j]]
        0 <= j < keys.len() ==> clocks[j] <= clocks[j + 1] && (tables[j + 1], verdicts[j])
            == check_step(tables[j], keys[j], clocks[j + 1])
}

proof fn lemma_clocks_ordered(
    tables: Seq<Map<Seq<char>, Attempts>>,
    clocks: Seq<u128>,
    keys: Seq<Seq<char>>,
    verdicts: Seq<bool>,
    a: int,
    b: int,
)
    requires
        successive_checks(tables, clocks, keys, verdicts),
        0 <= a <= b <= keys.len(),
    ensures
        clocks[a] <= clocks[b],
    decreases b - a,
{
    if a < b {
        assert(keys[a] == keys[a]);
        lemma_clocks_ordered(tables, clocks, keys, verdicts, a + 1, b);
    }
}

proof fn lemma_tables_are_the_run(
    tables: Seq<Map<Seq<char>, Attempts>>,
    clocks: Seq<u128>,
    keys: Seq<Seq<char>>,
    verdicts: Seq<bool>,
    n: int,
)
    requires
        successive_checks(tables, clocks, keys, verdicts),
        0 <= n <= keys.len(),
    ensures
        run(tables[0], calls(keys, clocks).take(n)) == tables[n],
    decreases n,
{
    let ev = calls(keys, clocks);
    if n == 0 {
        assert(ev.take(0) =~= Seq::<(Seq<char>, u128)>::empty());
    } else {
        lemma_tables_are_the_run(tables, clocks, keys, verdicts, n - 1);
        assert(ev.take(n).drop_last() =~= ev.take(n - 1));
        assert(ev.take(n).last() == ev[n - 1]);
        assert(keys[n - 1] == keys[n - 1]);
    }
}

/// Successive checks on one limiter form a run: their clock readings never
/// go back, the limiter ends with the run's table, and each answer is the
/// run's verdict on that event. So what holds of runs holds of calls of
/// `RateLimiter::check`.
pub proof fn law_checks_form_a_run(
    tables: Seq<Map<Seq<char>, Attempts>>,
    clocks: Seq<u128>,
    keys: Seq<Seq<char>>,
    verdicts: Seq<bool>,
)
    requires
        successive_checks(tables, clocks, keys, verdicts),
    ensures
        nondecreasing(calls(keys, clocks)),
        tables.last() == run(tables[0], calls(keys, clocks)),
        forall|j: int|
            0 <= j < keys.len() ==> #[trigger] verdicts[j] == run_verdict(tables[0], calls(keys, clocks), j),
{
    let ev = calls(keys, clocks);
    assert forall|i: int, j: int| 0 <= i <= j < ev.len() implies (#[trigger] ev[i]).1 <= (
    #[trigger] ev[j]).1 by {
        lemma_clocks_ordered(tables, clocks, keys, verdicts, i + 1, j + 1);
    }
    lemma_tables_are_the_run(tables, clocks, keys, verdicts, keys.len() as int);
    assert(ev.take(keys.len() as int) =~= ev);
    assert forall|j: int| 0 <= j < keys.len() implies #[trigger] verdicts[j] == run_verdict(
        tables[0],
        ev,
        j,
    ) by {
        lemma_tables_are_the_run(tables, clocks, keys, verdicts, j);
        assert(keys[j] == keys[j]);
    }
}

/// Of successive checks on one limiter, the answer to one is what it would
/// be had no other account been checked in between.
pub proof fn law_other_accounts_never_change_a_check(
    tables: Seq<Map<Seq<char>, Attempts>>,
    clocks: Seq<u128>,
    keys: Seq<Seq<char>>,
    verdicts: Seq<bool>,
    i: int,
)
    requires
        successive_checks(tables, clocks, keys, verdicts),
        0 <= i < keys.len(),
    ensures
        verdicts[i] == check_step(
            run(tables[0], events_of(calls(keys, clocks).take(i), account(keys[i]))),
            keys[i],
            clocks[i + 1],
        ).1,
{
    law_checks_form_a_run(tables, clocks, keys, verdicts);
    law_other_accounts_never_change_a_verdict(tables[0], calls(keys, clocks), i);
}

/// Of successive checks on one limiter, within the window an account's first
/// check opens, its first `MAX_ATTEMPTS` checks are allowed and every later
/// one is refused, whatever other accounts are checked in between.
pub proof fn law_checks_within_a_window_are_capped(
    tables: Seq<Map<Seq<char>, Attempts>>,
    clocks: Seq<u128>,
    keys: Seq<Seq<char>>,
    verdicts: Seq<bool>,
    i: int,
)
    requires
        successive_checks(tables, clocks, keys, verdicts),
        0 <= i < keys.len(),
        forall|j: int|
            0 <= j < events_of(calls(keys, clocks).take(i + 1), account(keys[i])).len() ==> (
            #[trigger] events_of(calls(keys, clocks).take(i + 1), account(keys[i]))[j]).1
                - events_of(calls(keys, clocks).take(i + 1), account(keys[i]))[0].1 < WINDOW_NANOS,
        live_record(
            tables[0],
            account(keys[i]),
            events_of(calls(keys, clocks).take(i + 1), account(keys[i]))[0].1,
        ) is None,
    ensures
        verdicts[i] == (events_of(calls(keys, clocks).take(i), account(keys[i])).len()
            < MAX_ATTEMPTS),
{
    law_checks_form_a_run(tables, clocks, keys, verdicts);
    let ev = calls(keys, clocks);
    assert(ev[i].0 == keys[i]);
    law_attempts_within_a_window_are_capped_among_others(tables[0], ev, i);
}

/// Per-account login attempt counter.
pub struct RateLimiter {
    keys: Vec<String>,
    slots: Vec<Attempts>,
    origin: std::time::Instant,
    /// The latest clock reading a check has used, so readings never go back.
    last: u128,
}

/// Parallel sequences of keys and records that hold one record per key and
/// no key twice.
spec fn parts_wf(keys: Seq<String>, slots: Seq<Attempts>) -> bool {
    &&& keys.len() == slots.len()
    &&& key_views(keys).no_duplicates()
}

proof fn lemma_index_unique(ks: Seq<Seq<char>>, i: int, j: int)
    requires
        ks.no_duplicates(),
        0 <= i < ks.len(),
        0 <= j < ks.len(),
        ks[i] == ks[j],
    ensures
        i == j,
{
}

proof fn lemma_table_lookup(keys: Seq<String>, slots: Seq<Attempts>, i: int)
    requires
        key_views(keys).no_duplicates(),
        keys.len() == slots.len(),
        0 <= i < keys.len(),
    ensures
        table(keys, slots).contains_key(keys[i]@),
        table(keys, slots)[keys[i]@] == slots[i],
{
    let ks = key_views(keys);
    assert(ks[i] == keys[i]@);
    assert(ks.contains(keys[i]@));
    let j = ks.index_of(keys[i]@);
    lemma_index_unique(ks, i, j);
}

proof fn lemma_table_len(keys: Seq<String>, slots: Seq<Attempts>)
    requires
        key_views(keys).no_duplicates(),
        keys.len() == slots.len(),
    ensures
        table(keys, slots).dom() == key_views(keys).to_set(),
        table(keys, slots).dom().len() == keys.len(),
{
    let ks = key_views(keys);
    assert(table(keys, slots).dom() =~= ks.to_set());
    ks.unique_seq_to_set();
}

proof fn lemma_table_push(keys: Seq<String>, slots: Seq<Attempts>, key: String, a: Attempts)
    requires
        key_views(keys).no_duplicates(),
        keys.len() == slots.len(),
        !key_views(keys).contains(key@),
    ensures
        key_views(keys.push(key)) == key_views(keys).push(key@),
        key_views(keys.push(key)).no_duplicates(),
        table(keys.push(key), slots.push(a)) == table(keys, slots).insert(key@, a),
{
    let ks = key_views(keys);
    assert(key_views(keys.push(key)) =~= ks.push(key@));
    let ks2 = key_views(keys.push(key));
    assert forall|i: int, j: int| 0 <= i < ks2.len() && 0 <= j < ks2.len() && i != j implies ks2[i]
        != ks2[j] by {
        if i < ks.len() && j < ks.len() {
        } else if i < ks.len() {
            assert(ks.contains(ks[i]));
        } else {
            assert(ks.contains(ks[j]));
        }
    }
    let t2 = table(keys.push(key), slots.push(a));
    let t1 = table(keys, slots).insert(key@, a);
    assert forall|k: Seq<char>| t2.contains_key(k) <==> t1.contains_key(k) by {
        assert(ks2[ks.len() as int] == key@);
        if ks.contains(k) {
            let i = ks.index_of(k);
            assert(ks2[i] == k);
        }
        if ks2.contains(k) {
            let i = ks2.index_of(k);
            if i < ks.len() {
                assert(ks[i] == k);
            }
        }
    }
    assert forall|k: Seq<char>| #[trigger] t2.contains_key(k) implies t2[k] == t1[k] by {
        let i = ks2.index_of(k);
        if k == key@ {
            lemma_index_unique(ks2, i, ks.len() as int);
        } else {
            let j = ks.index_of(k);
            assert(ks2[j] == k);
            lemma_index_unique(ks2, i, j);
        }
    }
    assert(t2 =~= t1);
}

proof fn lemma_table_update(keys: Seq<String>, slots: Seq<Attempts>, i: int, a: Attempts)
    requires
        key_views(keys).no_duplicates(),
        keys.len() == slots.len(),
        0 <= i < keys.len(),
    ensures
        table(keys, slots.update(i, a)) == table(keys, slots).insert(keys[i]@, a),
{
    let ks = key_views(keys);
    let t2 = table(keys, slots.update(i, a));
    let t1 = table(keys, slots).insert(keys[i]@, a);
    assert(ks[i] == keys[i]@);
    assert forall|k: Seq<char>| t2.contains_key(k) <==> t1.contains_key(k) by {
        if k == keys[i]@ {
            assert(ks.contains(k));
        }
    }
    assert forall|k: Seq<char>| #[trigger] t2.contains_key(k) implies t2[k] == t1[k] by {
        let j = ks.index_of(k);
        if k == keys[i]@ {
            lemma_index_unique(ks, i, j);
        }
    }
    assert(t2 =~= t1);
}

proof fn lemma_table_remove(keys: Seq<String>, slots: Seq<Attempts>, i: int)
    requires
        key_views(keys).no_duplicates(),
        keys.len() == slots.len(),
        0 <= i < keys.len(),
    ensures
        key_views(keys.remove(i)) == key_views(keys).remove(i),
        key_views(keys.remove(i)).no_duplicates(),
        table(keys.remove(i), slots.remove(i)) == table(keys, slots).remove(keys[i]@),
{
    let ks = key_views(keys);
    assert(key_views(keys.remove(i)) =~= ks.remove(i));
    let ks2 = key_views(keys.remove(i));
    assert forall|x: int, y: int| 0 <= x < ks2.len() && 0 <= y < ks2.len() && x != y implies ks2[x]
        != ks2[y] by {
        let x1 = if x < i { x } else { x + 1 };
        let y1 = if y < i { y } else { y + 1 };
        assert(ks2[x] == ks[x1]);
        assert(ks2[y] == ks[y1]);
    }
    let t2 = table(keys.remove(i), slots.remove(i));
    let t1 = table(keys, slots).remove(keys[i]@);
    assert(ks[i] == keys[i]@);
    assert forall|k: Seq<char>| t2.contains_key(k) <==> t1.contains_key(k) by {
        if ks2.contains(k) {
            let x = ks2.index_of(k);
            let x1 = if x < i { x } else { x + 1 };
            assert(ks[x1] == k);
            assert(ks.contains(k));
        }
        if ks.contains(k) && k != keys[i]@ {
            let x = ks.index_of(k);
            assert(x != i);
            let x2 = if x < i { x } else { x - 1 };
            assert(ks2[x2] == k);
        }
    }
    assert forall|k: Seq<char>| #[trigger] t2.contains_key(k) implies t2[k] == t1[k] by {
        let x = ks2.index_of(k);
        let x1 = if x < i { x } else { x + 1 };
        assert(ks[x1] == k);
        let y = ks.index_of(k);
        lemma_index_unique(ks, x1, y);
    }
    assert(t2 =~= t1);
}

/// Position of `key` among the tracked accounts.
fn find(keys: &Vec<String>, key: &String) -> (r: Option<usize>)
    ensures
        match r {
            Some(i) => i < keys@.len() && keys@[i as int]@ == key@,
            None => !key_views(keys@).contains(key@),
        },
{
    let mut i: usize = 0;
    while i < keys.len()
        invariant
            i <= keys@.len(),
            forall|j: int| 0 <= j < i ==> keys@[j]@ != key@,
        decreases keys.len() - i,
    {
        if keys[i] == *key {
            return Some(i);
        }
        i += 1;
    }
    proof {
        let ks = key_views(keys@);
        if ks.contains(key@) {
            let j = ks.index_of(key@);
            assert(keys@[j]@ == key@);
        }
    }
    None
}

/// Drops every record whose window has closed at `now`.
fn drop_expired(ks: &mut Vec<String>, ss: &mut Vec<Attempts>, now: u128)
    requires
        parts_wf(old(ks)@, old(ss)@),
    ensures
        parts_wf(final(ks)@, final(ss)@),
        table(final(ks)@, final(ss)@) == live_only(table(old(ks)@, old(ss)@), now),
{
    let ghost old_keys = ks@;
    let ghost old_slots = ss@;
    let ghost target = live_only(table(old_keys, old_slots), now);
    let mut keys: Vec<String> = Vec::new();
    let mut slots: Vec<Attempts> = Vec::new();
    let mut i: usize = 0;
    while i < ks.len()
        invariant
            ks@ == old_keys,
            ss@ == old_slots,
            target == live_only(table(old_keys, old_slots), now),
            old_keys.len() == old_slots.len(),
            key_views(old_keys).no_duplicates(),
            i <= old_keys.len(),
            keys@.len() == slots@.len(),
            key_views(keys@).no_duplicates(),
            forall|k: Seq<char>| #[trigger]
                key_views(keys@).contains(k) ==> key_views(old_keys.take(i as int)).contains(k),
            forall|k: Seq<char>|
                #![trigger table(keys@, slots@).contains_key(k)]
                key_views(old_keys.take(i as int)).contains(k) ==> (table(
                    keys@,
                    slots@,
                ).contains_key(k) == target.contains_key(k)),
            forall|k: Seq<char>| #[trigger]
                table(keys@, slots@).contains_key(k) ==> target.contains_key(k) && table(
                    keys@,
                    slots@,
                )[k] == target[k],
        decreases old_keys.len() - i,
    {
        let a = ss[i];
        let ghost prev_keys = keys@;
        let ghost prev_slots = slots@;
        proof {
            lemma_table_lookup(old_keys, old_slots, i as int);
            let ko = key_views(old_keys);
            let t_old = key_views(old_keys.take(i as int));
            assert(key_views(old_keys.take(i + 1)) =~= t_old.push(ko[i as int]));
            assert(ko[i as int] == old_keys[i as int]@);
            if t_old.contains(ko[i as int]) {
                let x = t_old.index_of(ko[i as int]);
                assert(ko[x] == ko[i as int]);
                lemma_index_unique(ko, x, i as int);
            }
        }
        let keep = now < a.first_seen || now - a.first_seen < WINDOW_NANOS;
        if keep {
            let k = ks[i].clone();
            proof {
                lemma_table_push(keys@, slots@, k, a);
            }
            keys.push(k);
            slots.push(a);
        }
        proof {
            let ko = key_views(old_keys);
            let t_old = key_views(old_keys.take(i as int));
            let t_new = key_views(old_keys.take(i + 1));
            let kn = ko[i as int];
            assert(t_new.contains(kn)) by {
                assert(t_new[i as int] == kn);
            }
            assert(table(old_keys, old_slots)[kn] == a);
            assert(in_window(a, now) == keep);
            assert(target.contains_key(kn) == keep);
            assert forall|x: Seq<char>| #[trigger]
                table(keys@, slots@).contains_key(x) implies target.contains_key(x) && table(
                    keys@,
                    slots@,
                )[x] == target[x] by {
                if keep && x == kn {
                } else {
                    assert(table(prev_keys, prev_slots).contains_key(x));
                }
            }
            assert forall|x: Seq<char>| #[trigger] key_views(keys@).contains(x) implies t_new.contains(
                x,
            ) by {
                if key_views(prev_keys).contains(x) {
                    let y = t_old.index_of(x);
                    assert(t_new[y] == x);
                } else {
                    let y = key_views(keys@).index_of(x);
                    assert(key_views(keys@)[y] == x);
                    assert(y == prev_keys.len());
                }
            }
            assert forall|x: Seq<char>| t_new.contains(x) implies (#[trigger] table(
                keys@,
                slots@,
            ).contains_key(x) == target.contains_key(x)) by {
                if x != kn {
                    let y = t_new.index_of(x);
                    assert(y != i);
                    assert(t_old[y] == x);
                    assert(t_old.contains(x));
                    assert(table(prev_keys, prev_slots).contains_key(x) == target.contains_key(x));
                } else {
                    if keep {
                    } else {
                        assert(!key_views(prev_keys).contains(kn));
                    }
                }
            }
        }
        i += 1;
    }
    proof {
        assert(old_keys.take(i as int) =~= old_keys);
        let t = table(keys@, slots@);
        assert forall|k: Seq<char>| t.contains_key(k) <==> target.contains_key(k) by {
            if target.contains_key(k) {
                assert(table(old_keys, old_slots).contains_key(k));
            }
        }
        assert(t =~= target);
    }
    *ks = keys;
    *ss = slots;
}

/// Records an attempt of `key` at clock reading `now` in the table held by
/// `ks` and `ss`, and reports whether it is allowed to proceed.
fn record(ks: &mut Vec<String>, ss: &mut Vec<Attempts>, key: &str, now: u128) -> (allowed: bool)
    requires
        parts_wf(old(ks)@, old(ss)@),
    ensures
        parts_wf(final(ks)@, final(ss)@),
        (table(final(ks)@, final(ss)@), allowed) == check_step(table(old(ks)@, old(ss)@), key@, now),
{
    proof {
        lemma_table_len(ks@, ss@);
    }
    if ks.len() > CLEANUP_THRESHOLD {
        drop_expired(ks, ss, now);
    }
    let k = to_ascii_lowercase(key);
    assert(k@ == account(key@));
    let a = match find(ks, &k) {
        Some(i) => {
            proof {
                lemma_table_lookup(ks@, ss@, i as int);
            }
            let prev = ss[i];
            let base = if now >= prev.first_seen && now - prev.first_seen >= WINDOW_NANOS {
                Attempts { count: 0, first_seen: now }
            } else {
                prev
            };
            let a = Attempts { count: base.count.saturating_add(1), first_seen: base.first_seen };
            proof {
                lemma_table_update(ks@, ss@, i as int, a);
            }
            ss.set(i, a);
            a
        },
        None => {
            let a = Attempts { count: 1, first_seen: now };
            proof {
                lemma_table_push(ks@, ss@, k, a);
            }
            ks.push(k);
            ss.push(a);
            a
        },
    };
    a.count <= MAX_ATTEMPTS
}

/// Removes the record of `key`'s account from the table held by `ks` and `ss`.
fn forget(ks: &mut Vec<String>, ss: &mut Vec<Attempts>, key: &str)
    requires
        parts_wf(old(ks)@, old(ss)@),
    ensures
        parts_wf(final(ks)@, final(ss)@),
        table(final(ks)@, final(ss)@) == table(old(ks)@, old(ss)@).remove(account(key@)),
{
    let k = to_ascii_lowercase(key);
    match find(ks, &k) {
        Some(i) => {
            proof {
                lemma_table_remove(ks@, ss@, i as int);
            }
            ks.remove(i);
            ss.remove(i);
        },
        None => {
            assert(table(ks@, ss@).remove(k@) =~= table(ks@, ss@));
        },
    }
}

impl RateLimiter {
    #[verifier::type_invariant]
    spec fn consistent(self) -> bool {
        parts_wf(self.keys@, self.slots@)
    }

    /// Tracked accounts and their records.
    pub closed spec fn view(&self) -> Map<Seq<char>, Attempts> {
        table(self.keys@, self.slots@)
    }

    /// The clock reading, in nanoseconds since the limiter was made, that
    /// the latest check used.
    pub closed spec fn clock(&self) -> u128 {
        self.last
    }

    /// A limiter that has seen no attempts.
    pub fn new() -> (r: Self)
        ensures
            r@ == Map::<Seq<char>, Attempts>::empty(),
            r.clock() == 0,
    {
        let keys: Vec<String> = Vec::new();
        let slots: Vec<Attempts> = Vec::new();
        assert(key_views(keys@) =~= Seq::<Seq<char>>::empty());
        let r = RateLimiter { keys, slots, origin: instant_now(), last: 0 };
        assert(r@ =~= Map::<Seq<char>, Attempts>::empty());
        r
    }

    /// Moves the table out, leaving an empty one with the same clock.
    fn take_parts(&mut self) -> (parts: (Vec<String>, Vec<Attempts>))
        ensures
            parts_wf(parts.0@, parts.1@),
            table(parts.0@, parts.1@) == old(self)@,
            final(self).clock() == old(self).clock(),
    {
        proof {
            use_type_invariant(&*self);
        }
        let keys: Vec<String> = Vec::new();
        let slots: Vec<Attempts> = Vec::new();
        assert(key_views(keys@) =~= Seq::<Seq<char>>::empty());
        let mut held = RateLimiter { keys, slots, origin: self.origin, last: self.last };
        std::mem::swap(self, &mut held);
        proof {
            use_type_invariant(&held);
        }
        let RateLimiter { keys, slots, origin: _, last: _ } = held;
        (keys, slots)
    }

    /// Puts a table back in.
    fn put_parts(&mut self, keys: Vec<String>, slots: Vec<Attempts>)
        requires
            parts_wf(keys@, slots@),
        ensures
            final(self)@ == table(keys@, slots@),
            final(self).clock() == old(self).clock(),
    {
        *self = RateLimiter { keys, slots, origin: self.origin, last: self.last };
    }

    /// Records an attempt at clock reading `now` and reports whether it is
    /// allowed to proceed.
    pub fn check_at(&mut self, key: &str, now: u128) -> (allowed: bool)
        ensures
            (final(self)@, allowed) == check_step(old(self)@, key@, now),
            final(self).clock() == old(self).clock(),
    {
        let (mut keys, mut slots) = self.take_parts();
        let allowed = record(&mut keys, &mut slots, key, now);
        self.put_parts(keys, slots);
        allowed
    }

    /// Records an attempt now and reports whether it is allowed to proceed.
    /// The reading used is the later of the clock and the previous check's
    /// reading, so the readings of successive checks never go back.
    pub fn check(&mut self, key: &str) -> (allowed: bool)
        ensures
            old(self).clock() <= final(self).clock(),
            (final(self)@, allowed) == check_step(old(self)@, key@, final(self).clock()),
    {
        let reading = nanos_since(&self.origin);
        let now = if reading > self.last {
            reading
        } else {
            self.last
        };
        let allowed = self.check_at(key, now);
        proof {
            use_type_invariant(&*self);
        }
        self.last = now;
        allowed
    }

    /// Clears the counter after a successful login, so ordinary use never
    /// accumulates toward the limit.
    pub fn reset(&mut self, key: &str)
        ensures
            final(self)@ == old(self)@.remove(account(key@)),
            final(self).clock() == old(self).clock(),
    {
        let (mut keys, mut slots) = self.take_parts();
        forget(&mut keys, &mut slots, key);
        self.put_parts(keys, slots);
    }
}

/// `Instant::now`: a reading of the monotonic clock. Nothing is stated of it.
#[verifier::external_body]
fn instant_now() -> std::time::Instant {
    std::time::Instant::now()
}

/// `Instant::elapsed` since `origin`, in nanoseconds. Nothing is stated of
/// the result: it reads the clock.
#[verifier::external_body]
fn nanos_since(origin: &std::time::Instant) -> u128 {
    origin.elapsed().as_nanos()
}

} // verus!
