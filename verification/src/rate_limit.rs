//! Per-client sliding-window rate limiting of API requests.
use vstd::prelude::*;
use crate::text::{
    chars_of, trim, trim_chars, parse_unsigned, unsigned_value, string_from_chars, str_eq,
    before_first, push_str, push_decimal, decimal,
};
use crate::validation::split_on;

verus! {

broadcast use vstd::string::group_string_axioms;

/// Nanoseconds per second.
pub const NANOS_PER_SEC: u128 = 1_000_000_000;

/// Requests admitted per window when no setting is given.
pub const DEFAULT_MAX_REQUESTS: usize = 120;

/// Window length in seconds when no setting is given.
pub const DEFAULT_WINDOW_SECONDS: u64 = 60;

/// The instants (nanoseconds on a monotonic clock) of the requests recorded for one client.
#[derive(Debug, Clone)]
pub struct ClientHistory {
    pub key: String,
    pub times: Vec<u128>,
}

/// A limiter that admits at most `max_requests` requests per client within any window of
/// `window_seconds` seconds.
#[derive(Debug, Clone)]
pub struct ApiRateLimiter {
    max_requests: usize,
    window_seconds: u64,
    entries: Vec<ClientHistory>,
}

/// The time from `earlier` to `now`, or zero where `now` is not later.
pub open spec fn elapsed(now: u128, earlier: u128) -> int {
    if now >= earlier {
        now - earlier
    } else {
        0
    }
}

/// `h` without its leading instants that lie more than `window` nanoseconds before `now`.
pub open spec fn pruned(h: Seq<u128>, now: u128, window: int) -> Seq<u128>
    decreases h.len(),
{
    if h.len() > 0 && elapsed(now, h[0]) > window {
        pruned(h.drop_first(), now, window)
    } else {
        h
    }
}

/// The whole seconds until the oldest recorded request leaves the window, at least one.
pub open spec fn retry_after(p: Seq<u128>, now: u128, window: int) -> u64 {
    if p.len() > 0 {
        let rem = if window >= elapsed(now, p[0]) {
            window - elapsed(now, p[0])
        } else {
            0
        };
        let secs = rem / (NANOS_PER_SEC as int);
        if secs >= 1 {
            secs as u64
        } else {
            1
        }
    } else {
        1
    }
}

/// What a request at `now` does to a client's history `h`: expired instants are dropped; then the
/// request is refused, with a retry delay, where `max` requests remain, and recorded otherwise.
pub open spec fn register_outcome(h: Seq<u128>, now: u128, window: int, max: nat) -> (
    Seq<u128>,
    Option<u64>,
) {
    let p = pruned(h, now, window);
    if p.len() >= max {
        (p, Some(retry_after(p, now, window)))
    } else {
        (p.push(now), None)
    }
}

/// The recorded instants of the first entry for `key`, or none.
pub open spec fn lookup(entries: Seq<ClientHistory>, key: Seq<char>) -> Seq<u128>
    decreases entries.len(),
{
    if entries.len() == 0 {
        seq![]
    } else if entries[0].key@ == key {
        entries[0].times@
    } else {
        lookup(entries.drop_first(), key)
    }
}

proof fn lemma_lookup_update(s: Seq<ClientHistory>, i: int, e: ClientHistory, k: Seq<char>)
    requires
        0 <= i < s.len(),
        forall|j: int| 0 <= j < i ==> (#[trigger] s[j]).key@ != s[i].key@,
        e.key@ == s[i].key@,
    ensures
        lookup(s.update(i, e), k) == (if k == s[i].key@ {
            e.times@
        } else {
            lookup(s, k)
        }),
    decreases i,
{
    if i == 0 {
        assert(s.update(i, e).drop_first() =~= s.drop_first());
    } else {
        assert(s.update(i, e).drop_first() =~= s.drop_first().update(i - 1, e));
        assert forall|j: int| 0 <= j < i - 1 implies (#[trigger] s.drop_first()[j]).key@
            != s.drop_first()[i - 1].key@ by {
            assert(s.drop_first()[j] == s[j + 1]);
        }
        lemma_lookup_update(s.drop_first(), i - 1, e, k);
        assert(s[0].key@ != s[i].key@);
    }
}

proof fn lemma_lookup_absent(s: Seq<ClientHistory>, k: Seq<char>)
    requires
        forall|j: int| 0 <= j < s.len() ==> (#[trigger] s[j]).key@ != k,
    ensures
        lookup(s, k) == Seq::<u128>::empty(),
    decreases s.len(),
{
    if s.len() > 0 {
        assert forall|j: int| 0 <= j < s.drop_first().len() implies (
        #[trigger] s.drop_first()[j]).key@ != k by {
            assert(s.drop_first()[j] == s[j + 1]);
        }
        lemma_lookup_absent(s.drop_first(), k);
    }
}

proof fn lemma_lookup_at(s: Seq<ClientHistory>, i: int)
    requires
        0 <= i < s.len(),
        forall|j: int| 0 <= j < i ==> (#[trigger] s[j]).key@ != s[i].key@,
    ensures
        lookup(s, s[i].key@) == s[i].times@,
    decreases i,
{
    if i > 0 {
        assert forall|j: int| 0 <= j < i - 1 implies (#[trigger] s.drop_first()[j]).key@
            != s.drop_first()[i - 1].key@ by {
            assert(s.drop_first()[j] == s[j + 1]);
        }
        lemma_lookup_at(s.drop_first(), i - 1);
    }
}

impl ApiRateLimiter {
    /// Requests admitted per client within one window.
    pub closed spec fn max(&self) -> nat {
        self.max_requests as nat
    }

    /// The window length in nanoseconds.
    pub closed spec fn window(&self) -> int {
        self.window_seconds * (NANOS_PER_SEC as int)
    }

    /// The instants of the requests recorded for the client `key`.
    pub closed spec fn history(&self, key: Seq<char>) -> Seq<u128> {
        lookup(self.entries@, key)
    }

    /// The window of every limiter lies between zero and the largest `u64` number of seconds, so
/// the bounds on the time to wait hold for every limiter.
pub proof fn law_window_in_range(l: &ApiRateLimiter)
    ensures
        0 <= l.window() <= (u64::MAX as int) * (NANOS_PER_SEC as int),
{
    assert(l.window_seconds * (NANOS_PER_SEC as int) <= (u64::MAX as int) * (NANOS_PER_SEC as int))
        by (nonlinear_arith)
        requires
            l.window_seconds <= u64::MAX,
    ;
}

/// A limiter with no request recorded.
    pub fn new(max_requests: usize, window_seconds: u64) -> (l: ApiRateLimiter)
        ensures
            l.max() == max_requests,
            l.window() == window_seconds * 1_000_000_000,
            forall|k: Seq<char>| #[trigger] l.history(k) == Seq::<u128>::empty(),
    {
        ApiRateLimiter { max_requests, window_seconds, entries: Vec::new() }
    }

    /// A limiter set up from the texts of the request-count and window settings: each is read as
    /// an unsigned integer and used where it is above zero, else 120 requests and 60 seconds.
    pub fn from_env(max_requests_setting: Option<&str>, window_seconds_setting: Option<&str>) -> (l:
        ApiRateLimiter)
        ensures
            l.max() == configured(max_requests_setting, usize::MAX as nat, 120),
            l.window() == configured(window_seconds_setting, u64::MAX as nat, 60) * 1_000_000_000,
            forall|k: Seq<char>| #[trigger] l.history(k) == Seq::<u128>::empty(),
    {
        let max_requests = read_setting(max_requests_setting, usize::MAX as u64, 120);
        let window_seconds = read_setting(window_seconds_setting, u64::MAX, 60);
        Self::new(max_requests as usize, window_seconds)
    }

    /// Records a request from `client_key` at the instant `now`, unless the client has used up
    /// its requests in the window; then it returns the whole seconds to wait, at least one.
    pub fn register_request(&mut self, client_key: &str, now: u128) -> (r: Option<u64>)
        ensures
            ({
                let (h, res) = register_outcome(
                    old(self).history(client_key@),
                    now,
                    old(self).window(),
                    old(self).max(),
                );
                final(self).history(client_key@) == h && r == res
            }),
            forall|k: Seq<char>|
                k != client_key@ ==> #[trigger] final(self).history(k) == old(self).history(k),
            final(self).max() == old(self).max(),
            final(self).window() == old(self).window(),
            r matches Some(s) ==> 1 <= s && (s == 1 || s <= old(self).window() / (
            NANOS_PER_SEC as int)),
    {
        proof {
            Self::law_window_in_range(old(self));
            law_retry_after_bounds(
                pruned(old(self).history(client_key@), now, old(self).window()),
                now,
                old(self).window(),
            );
        }
        let key = string_from_chars(chars_of(client_key).as_slice());
        let mut idx: usize = 0;
        while idx < self.entries.len()
            invariant
                idx <= self.entries@.len(),
                key@ == client_key@,
                forall|j: int| 0 <= j < idx ==> (#[trigger] self.entries@[j]).key@ != key@,
            ensures
                idx <= self.entries@.len(),
                idx < self.entries@.len() ==> self.entries@[idx as int].key@ == key@,
                forall|j: int| 0 <= j < idx ==> (#[trigger] self.entries@[j]).key@ != key@,
            decreases self.entries@.len() - idx,
        {
            if self.entries[idx].key == key {
                break ;
            }
            idx = idx + 1;
        }
        let ghost before = self.entries@;
        if idx == self.entries.len() {
            proof {
                lemma_lookup_absent(before, key@);
            }
            self.entries.push(ClientHistory { key: string_from_chars(chars_of(client_key).as_slice()), times: Vec::new() });
            proof {
                let s = self.entries@;
                assert forall|j: int| 0 <= j < idx implies (#[trigger] s[j]).key@ != s[idx as int].key@ by {
                    assert(s[j] == before[j]);
                }
                lemma_lookup_at(s, idx as int);
                assert forall|k: Seq<char>| k != client_key@ implies #[trigger] lookup(s, k) == lookup(before, k) by {
                    if exists|j: int| 0 <= j < before.len() && (#[trigger] before[j]).key@ == k {
                        lemma_lookup_same_prefix(before, s, k);
                    } else {
                        lemma_lookup_absent(before, k);
                        assert forall|j: int| 0 <= j < s.len() implies (#[trigger] s[j]).key@ != k by {
                            if j < before.len() {
                                assert(s[j] == before[j]);
                            }
                        }
                        lemma_lookup_absent(s, k);
                    }
                }
            }
        } else {
            proof {
                lemma_lookup_at(before, idx as int);
            }
        }
        let ghost mid = self.entries@;
        proof {
            assert forall|j: int| 0 <= j < idx implies (#[trigger] mid[j]).key@ != mid[idx as int].key@ by {
                if j < before.len() {
                    assert(mid[j] == before[j]);
                }
            }
            lemma_lookup_at(mid, idx as int);
        }
        let mut entry = self.entries.remove(idx);
        assert(entry == mid[idx as int]);
        let ghost key0 = entry.key;
        let window: u128 = (self.window_seconds as u128) * NANOS_PER_SEC;
        let ghost h0 = entry.times@;
        loop
            invariant
                pruned(entry.times@, now, window as int) == pruned(h0, now, window as int),
                entry.key == key0,
            ensures
                entry.key == key0,
                pruned(entry.times@, now, window as int) == pruned(h0, now, window as int),
                pruned(entry.times@, now, window as int) == entry.times@,
            decreases entry.times@.len(),
        {
            if entry.times.len() == 0 {
                break ;
            }
            let front = entry.times[0usize];
            let el: u128 = if now >= front {
                now - front
            } else {
                0
            };
            if el <= window {
                break ;
            }
            let ghost t = entry.times@;
            entry.times.remove(0);
            assert(entry.times@ =~= t.drop_first());
        }
        let ghost p = entry.times@;
        assert(pruned(p, now, window as int) == p);
        let result = if entry.times.len() >= self.max_requests {
            if entry.times.len() == 0 {
                Some(1u64)
            } else {
            let first = entry.times[0usize];
            let el: u128 = if now >= first {
                now - first
            } else {
                0
            };
            let rem: u128 = if window >= el {
                window - el
            } else {
                0
            };
            let secs: u128 = rem / NANOS_PER_SEC;
            assert(secs <= u64::MAX) by (nonlinear_arith)
                requires
                    secs == rem / 1_000_000_000,
                    rem <= window,
                    window == (self.window_seconds as u128) * 1_000_000_000,
                    self.window_seconds <= u64::MAX,
            ;
            if secs >= 1 {
                Some(secs as u64)
            } else {
                Some(1u64)
            }
            }
        } else {
            entry.times.push(now);
            None
        };
        assert(entry.key == key0);
        let ghost e = entry;
        self.entries.insert(idx, entry);
        proof {
            assert(self.entries@ =~= mid.update(idx as int, e));
            assert forall|k: Seq<char>| #[trigger] lookup(mid.update(idx as int, e), k) == (if k == mid[idx as int].key@ {
                e.times@
            } else {
                lookup(mid, k)
            }) by {
                lemma_lookup_update(mid, idx as int, e, k);
            }
        }
        result
    }
}

proof fn lemma_lookup_same_prefix(s: Seq<ClientHistory>, t: Seq<ClientHistory>, k: Seq<char>)
    requires
        s.len() <= t.len(),
        forall|j: int| 0 <= j < s.len() ==> t[j] == s[j],
        exists|j: int| 0 <= j < s.len() && (#[trigger] s[j]).key@ == k,
    ensures
        lookup(t, k) == lookup(s, k),
    decreases s.len(),
{
    if s[0].key@ != k {
        let j = choose|j: int| 0 <= j < s.len() && (#[trigger] s[j]).key@ == k;
        assert(s.drop_first()[j - 1] == s[j]);
        assert forall|i: int| 0 <= i < s.drop_first().len() implies t.drop_first()[i]
            == s.drop_first()[i] by {
            assert(t.drop_first()[i] == t[i + 1]);
        }
        lemma_lookup_same_prefix(s.drop_first(), t.drop_first(), k);
    }
}

/// The value of an optional setting: the unsigned integer it holds where that is above zero and
/// at most `max`, else `default`.
pub open spec fn configured(setting: Option<&str>, max: nat, default: nat) -> nat {
    match setting {
        Some(s) => match unsigned_value(s@) {
            Some(n) => if 0 < n <= max {
                n
            } else {
                default
            },
            None => default,
        },
        None => default,
    }
}

fn read_setting(setting: Option<&str>, max: u64, default: u64) -> (n: u64)
    requires
        default <= max,
    ensures
        n == configured(setting, max as nat, default as nat),
{
    match setting {
        Some(s) => {
            let v = chars_of(s);
            match parse_unsigned(v.as_slice(), max) {
                Some(n) => if n > 0 {
                    n
                } else {
                    default
                },
                None => default,
            }
        },
        None => default,
    }
}

/// The requests of one client replayed from an empty history: the final history and, for each
/// request, whether it was admitted.
pub open spec fn replay(times: Seq<u128>, window: int, max: nat) -> (Seq<u128>, Seq<bool>)
    decreases times.len(),
{
    if times.len() == 0 {
        (seq![], seq![])
    } else {
        let prev = replay(times.drop_last(), window, max);
        let out = register_outcome(prev.0, times.last(), window, max);
        (out.0, prev.1.push(out.1 is None))
    }
}

/// The instants of the admitted requests among the first `k` that lie within `window`
/// nanoseconds before `now`, in order.
pub open spec fn recent(times: Seq<u128>, admitted: Seq<bool>, k: int, now: u128, window: int) -> Seq<
    u128,
>
    decreases k,
{
    if k <= 0 {
        seq![]
    } else {
        let r = recent(times, admitted, k - 1, now, window);
        if admitted[k - 1] && elapsed(now, times[k - 1]) <= window {
            r.push(times[k - 1])
        } else {
            r
        }
    }
}

/// Instants that never go back in time.
pub open spec fn non_decreasing(s: Seq<u128>) -> bool {
    forall|i: int, j: int| 0 <= i <= j < s.len() ==> s[i] <= s[j]
}

/// The predicate of instants within `window` before `now`.
pub open spec fn fresh(now: u128, window: int) -> spec_fn(u128) -> bool {
    |t: u128| elapsed(now, t) <= window
}

proof fn lemma_pruned_is_filter(h: Seq<u128>, now: u128, window: int)
    requires
        non_decreasing(h),
    ensures
        pruned(h, now, window) == h.filter(fresh(now, window)),
    decreases h.len(),
{
    if h.len() > 0 {
        let rest = h.drop_first();
        assert(h =~= seq![h[0]] + rest);
        Seq::filter_distributes_over_add(seq![h[0]], rest, fresh(now, window));
        reveal_with_fuel(Seq::filter, 2);
        assert(seq![h[0]].drop_last() =~= Seq::<u128>::empty());
        if elapsed(now, h[0]) > window {
            assert(seq![h[0]].filter(fresh(now, window)) =~= Seq::<u128>::empty());
            assert forall|i: int, j: int| 0 <= i <= j < rest.len() implies rest[i] <= rest[j] by {
                assert(rest[i] == h[i + 1] && rest[j] == h[j + 1]);
            }
            lemma_pruned_is_filter(rest, now, window);
            assert(seq![h[0]].filter(fresh(now, window)) + rest.filter(fresh(now, window))
                =~= rest.filter(fresh(now, window)));
        } else {
            assert forall|i: int| 0 <= i < h.len() implies fresh(now, window)(#[trigger] h[i]) by {
                assert(h[0] <= h[i]);
            }
            crate::text::lemma_filter_all(h, fresh(now, window));
        }
    }
}

proof fn lemma_recent_bounded(times: Seq<u128>, admitted: Seq<bool>, k: int, now: u128, window: int, bound: u128)
    requires
        k <= times.len(),
        forall|i: int| 0 <= i < k ==> times[i] <= bound,
    ensures
        forall|j: int|
            0 <= j < recent(times, admitted, k, now, window).len() ==> #[trigger] recent(
                times,
                admitted,
                k,
                now,
                window,
            )[j] <= bound,
    decreases k,
{
    if k > 0 {
        lemma_recent_bounded(times, admitted, k - 1, now, window, bound);
        let r = recent(times, admitted, k - 1, now, window);
        if admitted[k - 1] && elapsed(now, times[k - 1]) <= window {
            assert forall|j: int| 0 <= j < r.push(times[k - 1]).len() implies #[trigger] r.push(
                times[k - 1],
            )[j] <= bound by {
                if j < r.len() {
                    assert(r.push(times[k - 1])[j] == r[j]);
                }
            }
        }
    }
}

proof fn lemma_recent_sorted(times: Seq<u128>, admitted: Seq<bool>, k: int, now: u128, window: int)
    requires
        k <= times.len(),
        non_decreasing(times),
    ensures
        non_decreasing(recent(times, admitted, k, now, window)),
    decreases k,
{
    if k > 0 {
        lemma_recent_sorted(times, admitted, k - 1, now, window);
        lemma_recent_bounded(times, admitted, k - 1, now, window, times[k - 1]);
    }
}

proof fn lemma_recent_later(times: Seq<u128>, admitted: Seq<bool>, k: int, now0: u128, now1: u128, window: int)
    requires
        k <= times.len(),
        now0 <= now1,
        forall|i: int| 0 <= i < k ==> times[i] <= now0,
    ensures
        recent(times, admitted, k, now1, window) == recent(times, admitted, k, now0, window).filter(
            fresh(now1, window),
        ),
    decreases k,
{
    reveal_with_fuel(Seq::filter, 1);
    if k > 0 {
        lemma_recent_later(times, admitted, k - 1, now0, now1, window);
        let r0 = recent(times, admitted, k - 1, now0, window);
        if admitted[k - 1] && elapsed(now0, times[k - 1]) <= window {
            assert(r0.push(times[k - 1]).drop_last() =~= r0);
        }
    }
}

proof fn lemma_recent_prefix(t1: Seq<u128>, a1: Seq<bool>, t2: Seq<u128>, a2: Seq<bool>, k: int, now: u128, window: int)
    requires
        k <= t1.len(),
        k <= t2.len(),
        k <= a1.len(),
        k <= a2.len(),
        forall|i: int| 0 <= i < k ==> t1[i] == t2[i] && a1[i] == a2[i],
    ensures
        recent(t1, a1, k, now, window) == recent(t2, a2, k, now, window),
    decreases k,
{
    if k > 0 {
        lemma_recent_prefix(t1, a1, t2, a2, k - 1, now, window);
    }
}

/// The limiter is a sliding-window log. Replaying a client's requests with instants that never go
/// back in time: the history left is exactly the admitted requests within the window of the last
/// one; a request is admitted exactly when fewer than `max` earlier admitted requests lie within
/// the window before it; and so no window ending at a request holds more than `max` admitted ones.
pub proof fn law_sliding_window(times: Seq<u128>, window: int, max: nat)
    requires
        non_decreasing(times),
        window >= 0,
    ensures
        ({
            let (h, admitted) = replay(times, window, max);
            &&& admitted.len() == times.len()
            &&& times.len() > 0 ==> h == recent(times, admitted, times.len() as int, times.last(), window)
            &&& times.len() == 0 ==> h.len() == 0
            &&& forall|k: int|
                0 <= k < times.len() ==> (#[trigger] admitted[k] <==> recent(
                    times,
                    admitted,
                    k,
                    times[k],
                    window,
                ).len() < max)
            &&& forall|k: int|
                0 <= k < times.len() ==> #[trigger] recent(times, admitted, k + 1, times[k], window).len()
                    <= max
        }),
    decreases times.len(),
{
    let n = times.len() as int;
    if n > 0 {
        let ts = times.drop_last();
        assert forall|i: int, j: int| 0 <= i <= j < ts.len() implies ts[i] <= ts[j] by {
            assert(ts[i] == times[i] && ts[j] == times[j]);
        }
        law_sliding_window(ts, window, max);
        let (hp, ap) = replay(ts, window, max);
        let now = times.last();
        let (h, admitted) = replay(times, window, max);
        assert(admitted == ap.push(register_outcome(hp, now, window, max).1 is None));
        assert forall|i: int| 0 <= i < n - 1 implies ts[i] == times[i] && ap[i] == admitted[i] by {}
        // The earlier steps read the same in the longer replay.
        assert forall|k: int| 0 <= k < n - 1 implies (#[trigger] admitted[k] <==> recent(
            times,
            admitted,
            k,
            times[k],
            window,
        ).len() < max) && recent(times, admitted, k + 1, times[k], window).len() <= max by {
            lemma_recent_prefix(times, admitted, ts, ap, k, times[k], window);
            lemma_recent_prefix(times, admitted, ts, ap, k + 1, times[k], window);
            assert(ts[k] == times[k]);
            assert(ap[k] == admitted[k]);
        }
        // The history before the last request, pruned at its instant, is the recent admitted ones.
        let r_before = recent(times, admitted, n - 1, now, window);
        assert(pruned(hp, now, window) == r_before) by {
            if n - 1 > 0 {
                let prev_now = ts.last();
                lemma_recent_prefix(times, admitted, ts, ap, n - 1, prev_now, window);
                lemma_recent_prefix(times, admitted, ts, ap, n - 1, now, window);
                lemma_recent_sorted(ts, ap, n - 1, prev_now, window);
                lemma_pruned_is_filter(hp, now, window);
                assert forall|i: int| 0 <= i < n - 1 implies ts[i] <= prev_now by {
                    assert(ts[i] == times[i] && prev_now == times[n - 2]);
                }
                assert(prev_now <= now);
                lemma_recent_later(ts, ap, n - 1, prev_now, now, window);
            } else {
                assert(hp.len() == 0);
            }
        }
        // The bound held before, so the pruned history holds at most `max`.
        assert(r_before.len() <= max) by {
            if n - 1 > 0 {
                let prev_now = ts.last();
                lemma_recent_prefix(times, admitted, ts, ap, n - 1, prev_now, window);
                assert forall|i: int| 0 <= i < n - 1 implies times[i] <= prev_now by {
                    assert(prev_now == times[n - 2]);
                }
                lemma_recent_later(times, admitted, n - 1, prev_now, now, window);
                recent(times, admitted, n - 1, prev_now, window).lemma_filter_len(fresh(now, window));
                assert(recent(ts, ap, n - 1, ts[n - 2], window).len() <= max);
            }
        }
        assert(elapsed(now, now) == 0);
        assert(times[n - 1] == now);
    }
}

/// A refused request leaves nothing recorded: the history is only pruned.
pub proof fn law_refusal_records_nothing(h: Seq<u128>, now: u128, window: int, max: nat)
    ensures
        register_outcome(h, now, window, max).1 is Some ==> register_outcome(h, now, window, max).0
            == pruned(h, now, window),
        register_outcome(h, now, window, max).1 is None ==> register_outcome(h, now, window, max).0
            == pruned(h, now, window).push(now),
{
}

/// The delay a refused client is told to wait is at least one second and, beyond one second, no
/// longer than the window.
pub proof fn law_retry_after_bounds(p: Seq<u128>, now: u128, window: int)
    requires
        0 <= window <= (u64::MAX as int) * (NANOS_PER_SEC as int),
    ensures
        1 <= retry_after(p, now, window),
        retry_after(p, now, window) == 1 || retry_after(p, now, window) <= window / (
        NANOS_PER_SEC as int),
{
    if p.len() > 0 {
        let rem = if window >= elapsed(now, p[0]) {
            window - elapsed(now, p[0])
        } else {
            0
        };
        assert(rem <= window);
        assert(rem / 1_000_000_000 <= window / 1_000_000_000) by (nonlinear_arith)
            requires
                0 <= rem <= window,
        ;
        assert(window / 1_000_000_000 <= u64::MAX) by (nonlinear_arith)
            requires
                window <= (u64::MAX as int) * 1_000_000_000,
        ;
    }
}

/// Requests that are never counted: pre-flight `OPTIONS` requests and the health check.
pub open spec fn is_exempt(method: Seq<char>, path: Seq<char>) -> bool {
    method == "OPTIONS"@ || path == "/api/v1/health"@
}

/// Whether a request with this HTTP method and path is left out of rate limiting.
pub fn is_rate_limit_exempt(method: &str, path: &str) -> (b: bool)
    ensures
        b == is_exempt(method@, path@),
{
    str_eq(method, "OPTIONS") || str_eq(path, "/api/v1/health")
}

/// The key a client is counted under: the first address of `X-Forwarded-For`, else
/// `X-Real-IP`, each trimmed and used only where not empty, else `unknown`.
pub open spec fn client_key(forwarded_for: Option<Seq<char>>, real_ip: Option<Seq<char>>) -> Seq<
    char,
> {
    let from_forwarded = match forwarded_for {
        Some(f) => trim(split_on(f, ',')[0]),
        None => seq![],
    };
    let from_real = match real_ip {
        Some(r) => trim(r),
        None => seq![],
    };
    if from_forwarded.len() > 0 {
        from_forwarded
    } else if from_real.len() > 0 {
        from_real
    } else {
        "unknown"@
    }
}

/// A client is counted under the trimmed first comma-separated address of `X-Forwarded-For`,
/// whether or not the header holds more than one, where that address is not blank; otherwise under
/// the trimmed `X-Real-IP`, where that is not blank; otherwise under `unknown`.
pub proof fn law_client_key_first_address(
    first: Seq<char>,
    rest: Seq<char>,
    real_ip: Option<Seq<char>>,
)
    requires
        forall|i: int| 0 <= i < first.len() ==> #[trigger] first[i] != ',',
        rest.len() == 0 || rest[0] == ',',
    ensures
        trim(first).len() > 0 ==> client_key(Some(first + rest), real_ip) == trim(first),
        trim(first).len() == 0 && (real_ip matches Some(r) && trim(r).len() > 0) ==> client_key(
            Some(first + rest),
            real_ip,
        ) == trim(real_ip->0),
        trim(first).len() == 0 && !(real_ip matches Some(r) && trim(r).len() > 0) ==> client_key(
            Some(first + rest),
            real_ip,
        ) == "unknown"@,
        client_key(None, real_ip) == client_key(Some(seq![]), real_ip),
{
    crate::text::lemma_split_extend(seq![], first, ',');
    assert(Seq::<char>::empty() + first =~= first);
    assert(seq![Seq::<char>::empty()].update(0, Seq::<char>::empty() + first) =~= seq![first]);
    assert(split_on(first, ',') == seq![first]);
    if rest.len() == 0 {
        assert(first + rest =~= first);
    } else {
        let x = first.push(',');
        assert(x.drop_last() =~= first);
        assert(split_on(x, ',') == seq![first].push(seq![]));
        crate::text::lemma_split_prefix_stable(x, rest.drop_first(), ',');
        assert(x + rest.drop_first() =~= first + rest);
        assert(split_on(first + rest, ',')[0] == split_on(x, ',')[0]);
    }
    assert(split_on(seq![], ',') == seq![Seq::<char>::empty()]);
    assert(trim(Seq::<char>::empty()) =~= Seq::<char>::empty());
}

/// The key a client is counted under, from the `X-Forwarded-For` and `X-Real-IP` header texts
/// (absent where missing or not visible ASCII).
pub fn extract_client_key(forwarded_for: Option<&str>, real_ip: Option<&str>) -> (key: String)
    ensures
        key@ == client_key(
            match forwarded_for {
                Some(f) => Some(f@),
                None => None,
            },
            match real_ip {
                Some(r) => Some(r@),
                None => None,
            },
        ),
{
    if let Some(f) = forwarded_for {
        let v = chars_of(f);
        let first = before_first(v.as_slice(), ',');
        let t = trim_chars(first.as_slice());
        if t.len() > 0 {
            return string_from_chars(t.as_slice());
        }
    }
    if let Some(r) = real_ip {
        let v = chars_of(r);
        let t = trim_chars(v.as_slice());
        if t.len() > 0 {
            return string_from_chars(t.as_slice());
        }
    }
    "unknown".to_string()
}

/// The message sent with a refusal.
pub open spec fn rate_limit_message(retry_after: u64) -> Seq<char> {
    "Too many requests from this client. Retry after "@ + decimal(retry_after as nat)
        + " seconds."@
}

/// The message sent with a refusal that asks to retry after `retry_after` seconds.
pub fn rate_limited_message(retry_after: u64) -> (m: String)
    ensures
        m@ == rate_limit_message(retry_after),
{
    let mut v: Vec<char> = Vec::new();
    push_str(&mut v, "Too many requests from this client. Retry after ");
    push_decimal(&mut v, retry_after);
    push_str(&mut v, " seconds.");
    string_from_chars(v.as_slice())
}

} // verus!
