//! Per-minute API rate limiting: at most `max` requests in any rolling
//! 60-second window. Over the limit the caller gets a typed error (and
//! surfaces "retry shortly"); it never spins. Time is read from a monotonic
//! clock, so wall-clock changes cannot affect it.

use vstd::prelude::*;

use crate::text::owned;

verus! {

/// The default ceiling: 30 requests a minute.
pub const MAX_PER_MIN: usize = 30;

/// The window, in nanoseconds (60 s).
pub const WINDOW_NANOS: u64 = 60_000_000_000;

#[verifier::external_type_specification]
#[verifier::external_body]
pub struct ExInstant(std::time::Instant);

/// `Instant::now()`: a point on the monotonic clock.
#[verifier::external_body]
pub(crate) fn clock_origin() -> std::time::Instant {
    std::time::Instant::now()
}

/// `origin.elapsed()` in nanoseconds (saturating at `u64::MAX`). It depends on
/// when it is called, so nothing is stated of its value.
#[verifier::external_body]
pub(crate) fn nanos_since(origin: &std::time::Instant) -> u64 {
    u64::try_from(origin.elapsed().as_nanos()).unwrap_or(u64::MAX)
}

/// Recorded request times (nanoseconds on the limiter's clock), oldest first,
/// with those a window or more older than `now` dropped from the front.
pub open spec fn pruned(hits: Seq<u64>, now: u64) -> Seq<u64>
    decreases hits.len(),
{
    if hits.len() > 0 && (if now >= hits[0] { now - hits[0] } else { 0 }) >= WINDOW_NANOS {
        pruned(hits.drop_first(), now)
    } else {
        hits
    }
}

/// Whether a request made at `t` has left the window at `now`.
fn expired(t: u64, now: u64) -> (b: bool)
    ensures
        b == ((if now >= t { now - t } else { 0 }) >= WINDOW_NANOS),
{
    let elapsed = if now >= t { now - t } else { 0 };
    elapsed >= WINDOW_NANOS
}

/// A sliding-window request limiter.
pub struct RateLimiter {
    origin: std::time::Instant,
    hits: Vec<u64>,
    max: usize,
}

impl RateLimiter {
    /// The recorded request times, oldest first.
    pub closed spec fn hits(&self) -> Seq<u64> {
        self.hits@
    }

    /// The most requests a window admits.
    pub closed spec fn limit(&self) -> nat {
        self.max as nat
    }

    /// A limiter admitting at most `max` requests per window.
    pub fn new(max: usize) -> (r: Self)
        ensures
            r.hits() == Seq::<u64>::empty(),
            r.limit() == max,
    {
        RateLimiter { origin: clock_origin(), hits: Vec::new(), max }
    }

    /// Record one request made at `now` (nanoseconds on the limiter's clock)
    /// if the window has room; otherwise a typed error. Entries a window old
    /// are dropped first either way.
    pub fn check_at(&mut self, now: u64) -> (r: Result<(), String>)
        ensures
            final(self).limit() == old(self).limit(),
            pruned(old(self).hits(), now).len() >= old(self).limit() ==> (r matches Err(e) && e@
                == "rate limited, retry shortly"@) && final(self).hits() == pruned(old(self).hits(), now),
            pruned(old(self).hits(), now).len() < old(self).limit() ==> r is Ok && final(self).hits()
                == pruned(old(self).hits(), now).push(now),
    {
        let mut start: usize = 0;
        assert(self.hits@.skip(0) =~= self.hits@);
        while start < self.hits.len() && expired(self.hits[start], now)
            invariant
                start <= self.hits@.len(),
                pruned(self.hits@, now) == pruned(self.hits@.skip(start as int), now),
            decreases self.hits.len() - start,
        {
            assert(self.hits@.skip(start as int).drop_first() =~= self.hits@.skip(start + 1));
            start = start + 1;
        }
        let ghost p = pruned(self.hits@, now);
        let mut kept: Vec<u64> = Vec::new();
        let mut i: usize = start;
        assert(self.hits@.skip(start as int) == p) by {
            if start < self.hits@.len() {
                let front = self.hits@[start as int];
                assert(self.hits@.skip(start as int)[0] == front);
            } else {
                assert(self.hits@.skip(start as int) =~= Seq::<u64>::empty());
            }
        }
        while i < self.hits.len()
            invariant
                start <= i <= self.hits@.len(),
                kept@ == self.hits@.subrange(start as int, i as int),
            decreases self.hits.len() - i,
        {
            kept.push(self.hits[i]);
            i = i + 1;
            assert(kept@ =~= self.hits@.subrange(start as int, i as int));
        }
        assert(kept@ =~= self.hits@.skip(start as int));
        self.hits = kept;
        if self.hits.len() >= self.max {
            return Err(owned("rate limited, retry shortly"));
        }
        self.hits.push(now);
        Ok(())
    }

    /// Record one request now, if the window has room. Whatever the clock
    /// reads, the outcome is that of `check_at` at that reading.
    pub fn check(&mut self) -> (r: Result<(), String>)
        ensures
            final(self).limit() == old(self).limit(),
            exists|now: u64|
                {
                    &&& pruned(old(self).hits(), now).len() >= old(self).limit() ==> r is Err
                        && final(self).hits() == pruned(old(self).hits(), now)
                    &&& pruned(old(self).hits(), now).len() < old(self).limit() ==> r is Ok
                        && final(self).hits() == pruned(old(self).hits(), now).push(now)
                },
    {
        let now = nanos_since(&self.origin);
        self.check_at(now)
    }
}

/// Whether the request made at `t` is still inside the window at `now`.
pub open spec fn in_window(t: u64, now: u64) -> bool {
    (if now >= t { now - t } else { 0 }) < WINDOW_NANOS
}

/// For request times recorded in order, no later than `now`, what the limiter
/// keeps is exactly the requests still inside the window: a suffix, with
/// every request before it expired and every request in it live.
pub proof fn lemma_pruned_is_window(hits: Seq<u64>, now: u64)
    requires
        forall|i: int, j: int| 0 <= i < j < hits.len() ==> hits[i] <= hits[j],
        forall|i: int| 0 <= i < hits.len() ==> hits[i] <= now,
    ensures
        exists|s: int|
            0 <= s <= hits.len() && pruned(hits, now) == hits.skip(s) && (forall|i: int|
                0 <= i < s ==> !in_window(#[trigger] hits[i], now)) && (forall|i: int|
                s <= i < hits.len() ==> in_window(#[trigger] hits[i], now)),
    decreases hits.len(),
{
    if hits.len() == 0 {
        assert(hits.skip(0) =~= hits);
    } else if !in_window(hits[0], now) {
        let t = hits.drop_first();
        lemma_pruned_is_window(t, now);
        let s = choose|s: int|
            0 <= s <= t.len() && pruned(t, now) == t.skip(s) && (forall|i: int|
                0 <= i < s ==> !in_window(#[trigger] t[i], now)) && (forall|i: int|
                s <= i < t.len() ==> in_window(#[trigger] t[i], now));
        assert(hits.skip(s + 1) =~= t.skip(s));
        assert forall|i: int| 0 <= i < s + 1 implies !in_window(#[trigger] hits[i], now) by {
            if i > 0 {
                assert(hits[i] == t[i - 1]);
            }
        }
        assert forall|i: int| s + 1 <= i < hits.len() implies in_window(#[trigger] hits[i], now) by {
            assert(hits[i] == t[i - 1]);
        }
    } else {
        assert(hits.skip(0) =~= hits);
        assert forall|i: int| 0 <= i < hits.len() implies in_window(#[trigger] hits[i], now) by {
            assert(hits[0] <= hits[i]);
        }
    }
}

/// Times in the order they were taken, never going back.
pub open spec fn ordered(ts: Seq<u64>) -> bool {
    forall|i: int, j: int| 0 <= i < j < ts.len() ==> ts[i] <= ts[j]
}

/// What a limiter admitting `max` per window holds after a request at each of
/// `times`, checked in turn (what `check_at` leaves, call after call).
pub open spec fn state_after(times: Seq<u64>, max: nat) -> Seq<u64>
    decreases times.len(),
{
    if times.len() == 0 {
        Seq::empty()
    } else {
        let p = pruned(state_after(times.drop_last(), max), times.last());
        if p.len() < max {
            p.push(times.last())
        } else {
            p
        }
    }
}

/// The requests among `times` that such a limiter lets through, in order.
pub open spec fn admitted(times: Seq<u64>, max: nat) -> Seq<u64>
    decreases times.len(),
{
    if times.len() == 0 {
        Seq::empty()
    } else {
        let p = pruned(state_after(times.drop_last(), max), times.last());
        if p.len() < max {
            admitted(times.drop_last(), max).push(times.last())
        } else {
            admitted(times.drop_last(), max)
        }
    }
}

/// How many of `ts` were made in the window that ends at `at`.
pub open spec fn count_in_window(ts: Seq<u64>, at: u64) -> nat
    decreases ts.len(),
{
    if ts.len() == 0 {
        0
    } else {
        count_in_window(ts.drop_last(), at) + if ts.last() <= at && in_window(ts.last(), at) {
            1nat
        } else {
            0nat
        }
    }
}

/// The state is the admitted requests less an expired prefix.
proof fn lemma_state_is_admitted_suffix(times: Seq<u64>, max: nat) -> (k: int)
    requires
        ordered(times),
    ensures
        ordered(admitted(times, max)),
        times.len() > 0 ==> forall|i: int|
            0 <= i < admitted(times, max).len() ==> #[trigger] admitted(times, max)[i] <= times.last(),
        times.len() == 0 ==> admitted(times, max).len() == 0,
        0 <= k <= admitted(times, max).len(),
        state_after(times, max) == admitted(times, max).skip(k),
        forall|i: int| 0 <= i < k ==> !in_window(#[trigger] admitted(times, max)[i], times.last()),
    decreases times.len(),
{
    if times.len() == 0 {
        assert(admitted(times, max).skip(0) =~= state_after(times, max));
        0
    } else {
        let pre = times.drop_last();
        let t = times.last();
        assert forall|i: int, j: int| 0 <= i < j < pre.len() implies pre[i] <= pre[j] by {
            assert(pre[i] == times[i] && pre[j] == times[j]);
        }
        let k0 = lemma_state_is_admitted_suffix(pre, max);
        let a = admitted(pre, max);
        let st = state_after(pre, max);
        if pre.len() > 0 {
            assert(pre.last() == times[times.len() - 2]);
            assert(pre.last() <= t);
        }
        assert forall|i: int| 0 <= i < st.len() implies #[trigger] st[i] <= t by {
            assert(st[i] == a[i + k0]);
        }
        assert(ordered(st)) by {
            assert forall|i: int, j: int| 0 <= i < j < st.len() implies st[i] <= st[j] by {
                assert(st[i] == a[i + k0] && st[j] == a[j + k0]);
            }
        }
        lemma_pruned_is_window(st, t);
        let s = choose|s: int|
            0 <= s <= st.len() && pruned(st, t) == st.skip(s) && (forall|i: int|
                0 <= i < s ==> !in_window(#[trigger] st[i], t)) && (forall|i: int|
                s <= i < st.len() ==> in_window(#[trigger] st[i], t));
        let k = k0 + s;
        let p = pruned(st, t);
        assert(p =~= a.skip(k));
        assert forall|i: int| 0 <= i < k implies !in_window(#[trigger] a[i], t) by {
            if i < k0 {
                assert(!in_window(a[i], pre.last()));
            } else {
                assert(a[i] == st[i - k0]);
            }
        }
        if p.len() < max {
            let a2 = a.push(t);
            assert(admitted(times, max) == a2);
            assert(a2.skip(k) =~= p.push(t));
            assert forall|i: int| 0 <= i < k implies !in_window(#[trigger] a2[i], t) by {
                assert(a2[i] == a[i]);
            }
        }
        k
    }
}

/// A request counted in a window ending later, but no later than the
/// request itself plus the window, also falls in the window ending at `t`.
proof fn lemma_count_shifts_back(ts: Seq<u64>, t: u64, at: u64)
    requires
        t <= at,
        forall|i: int| 0 <= i < ts.len() ==> #[trigger] ts[i] <= t,
    ensures
        count_in_window(ts, at) <= count_in_window(ts, t),
    decreases ts.len(),
{
    if ts.len() > 0 {
        lemma_count_shifts_back(ts.drop_last(), t, at);
    }
}

/// For ordered times no later than `t`, split into an expired prefix of
/// length `k` and a live rest, the live rest is what the window counts.
proof fn lemma_count_is_live_suffix(ts: Seq<u64>, t: u64, k: int)
    requires
        0 <= k <= ts.len(),
        forall|i: int| 0 <= i < ts.len() ==> #[trigger] ts[i] <= t,
        forall|i: int| 0 <= i < k ==> !in_window(#[trigger] ts[i], t),
        forall|i: int| k <= i < ts.len() ==> in_window(#[trigger] ts[i], t),
    ensures
        count_in_window(ts, t) == ts.len() - k,
    decreases ts.len(),
{
    if ts.len() > 0 {
        let n = ts.len() - 1;
        if k <= n {
            lemma_count_is_live_suffix(ts.drop_last(), t, k);
        } else {
            lemma_count_is_live_suffix(ts.drop_last(), t, n);
        }
    }
}

/// The limiter keeps its promise over any run: for requests made at
/// non-decreasing times, the requests it admits never number more than `max`
/// in any window of 60 seconds.
pub proof fn lemma_admits_at_most_max_per_window(times: Seq<u64>, max: nat, at: u64)
    requires
        ordered(times),
    ensures
        count_in_window(admitted(times, max), at) <= max,
    decreases times.len(),
{
    if times.len() > 0 {
        let pre = times.drop_last();
        let t = times.last();
        assert(ordered(pre)) by {
            assert forall|i: int, j: int| 0 <= i < j < pre.len() implies pre[i] <= pre[j] by {
                assert(pre[i] == times[i] && pre[j] == times[j]);
            }
        }
        lemma_admits_at_most_max_per_window(pre, max, at);
        let a = admitted(pre, max);
        let st = state_after(pre, max);
        let p = pruned(st, t);
        if p.len() < max && t <= at && in_window(t, at) {
            let k0 = lemma_state_is_admitted_suffix(pre, max);
            if pre.len() > 0 {
                assert(pre.last() == times[times.len() - 2]);
            }
            assert forall|i: int| 0 <= i < a.len() implies #[trigger] a[i] <= t by {
                if pre.len() > 0 {
                    assert(a[i] <= pre.last());
                }
            }
            lemma_count_shifts_back(a, t, at);
            assert forall|i: int| 0 <= i < st.len() implies #[trigger] st[i] <= t by {
                assert(st[i] == a[i + k0]);
            }
            assert(ordered(st)) by {
                assert forall|i: int, j: int| 0 <= i < j < st.len() implies st[i] <= st[j] by {
                    assert(st[i] == a[i + k0] && st[j] == a[j + k0]);
                }
            }
            lemma_pruned_is_window(st, t);
            let s = choose|s: int|
                0 <= s <= st.len() && pruned(st, t) == st.skip(s) && (forall|i: int|
                    0 <= i < s ==> !in_window(#[trigger] st[i], t)) && (forall|i: int|
                    s <= i < st.len() ==> in_window(#[trigger] st[i], t));
            assert forall|i: int| 0 <= i < k0 + s implies !in_window(#[trigger] a[i], t) by {
                if i < k0 {
                    assert(!in_window(a[i], pre.last()));
                } else {
                    assert(a[i] == st[i - k0]);
                }
            }
            assert forall|i: int| k0 + s <= i < a.len() implies in_window(#[trigger] a[i], t) by {
                assert(a[i] == st[i - k0]);
            }
            lemma_count_is_live_suffix(a, t, k0 + s);
            assert(admitted(times, max).drop_last() =~= a);
        } else if p.len() < max {
            assert(admitted(times, max).drop_last() =~= a);
        }
    }
}

} // verus!
