use vstd::prelude::*;

verus! {

/// Length of the trailing interval, in milliseconds, over which calls are counted.
pub const WINDOW_MS: u64 = 60000;

/// A call made at `t` no longer counts at time `now`.
pub open spec fn expired(t: u64, now: u64) -> bool {
    now as int - t as int >= WINDOW_MS as int
}

/// The window after trimming, from its front, every timestamp that has expired at `now`.
pub open spec fn pruned(w: Seq<u64>, now: u64) -> Seq<u64>
    decreases w.len(),
{
    if w.len() > 0 && expired(w[0], now) {
        pruned(w.drop_first(), now)
    } else {
        w
    }
}

/// One admission check against a window: the trimmed window, with `now`
/// appended when fewer than `limit` calls remain in it, and whether the call
/// was admitted.
pub open spec fn admit_step(w: Seq<u64>, now: u64, limit: nat) -> (Seq<u64>, bool) {
    let p = pruned(w, now);
    if p.len() >= limit {
        (p, false)
    } else {
        (p.push(now), true)
    }
}

/// Per-principal sliding-window call counter.
pub struct RateLimiter {
    limit: usize,
    principals: Vec<String>,
    windows: Vec<Vec<u64>>,
}

impl RateLimiter {
    pub closed spec fn wf(&self) -> bool {
        &&& self.principals.len() == self.windows.len()
        &&& forall|i: int, j: int|
            0 <= i < j < self.principals.len() ==> self.principals[i]@ != self.principals[j]@
    }

    /// Calls admitted per window.
    pub closed spec fn limit(&self) -> nat {
        self.limit as nat
    }

    spec fn slot(&self, p: Seq<char>, i: int) -> bool {
        0 <= i < self.principals.len() && self.principals[i]@ == p
    }

    /// The timestamps currently held for principal `p`; empty for one never seen.
    pub closed spec fn window(&self, p: Seq<char>) -> Seq<u64> {
        if exists|i: int| self.slot(p, i) {
            self.windows[choose|i: int| self.slot(p, i)]@
        } else {
            Seq::empty()
        }
    }

    proof fn lemma_window_at(&self, p: Seq<char>, i: int)
        requires
            self.wf(),
            self.slot(p, i),
        ensures
            self.window(p) == self.windows[i]@,
    {
        let j = choose|j: int| self.slot(p, j);
        assert(self.slot(p, j));
        assert(i == j);
    }

    pub fn new(limit: usize) -> (r: Self)
        ensures
            r.wf(),
            r.limit() == limit,
            forall|p: Seq<char>| r.window(p) == Seq::<u64>::empty(),
    {
        RateLimiter { limit, principals: Vec::new(), windows: Vec::new() }
    }

    pub fn limit_per_window(&self) -> (r: usize)
        ensures
            r == self.limit(),
    {
        self.limit
    }

    /// Index of `principal`'s window, created empty if it has none yet.
    fn slot_of(&mut self, principal: &String) -> (i: usize)
        requires
            old(self).wf(),
        ensures
            final(self).wf(),
            final(self).limit() == old(self).limit(),
            final(self).slot(principal@, i as int),
            forall|p: Seq<char>| final(self).window(p) == old(self).window(p),
    {
        let n = self.principals.len();
        let mut i: usize = 0;
        while i < n
            invariant
                self.wf(),
                n == self.principals.len(),
                0 <= i <= n,
                forall|j: int| 0 <= j < i ==> self.principals[j]@ != principal@,
            decreases n - i,
        {
            if self.principals[i].eq(principal) {
                return i;
            }
            i = i + 1;
        }
        let ghost before = *self;
        self.principals.push(principal.clone());
        self.windows.push(Vec::new());
        proof {
            assert forall|p: Seq<char>| self.window(p) == before.window(p) by {
                if p == principal@ {
                    assert forall|j: int| !before.slot(p, j) by {}
                    self.lemma_window_at(p, n as int);
                    assert(self.windows[n as int]@ =~= Seq::<u64>::empty());
                } else if exists|j: int| before.slot(p, j) {
                    let j = choose|j: int| before.slot(p, j);
                    before.lemma_window_at(p, j);
                    assert(self.slot(p, j));
                    self.lemma_window_at(p, j);
                } else {
                    assert forall|j: int| !self.slot(p, j) by {
                        if 0 <= j < n {
                            assert(!before.slot(p, j));
                        }
                    }
                }
            }
        }
        n
    }

    /// Prunes `principal`'s window at time `now`, then admits the call and
    /// records it if fewer than the limit remain.
    pub fn try_admit(&mut self, principal: &str, now: u64) -> (admitted: bool)
        requires
            old(self).wf(),
        ensures
            final(self).wf(),
            final(self).limit() == old(self).limit(),
            (final(self).window(principal@), admitted) == admit_step(
                old(self).window(principal@),
                now,
                old(self).limit(),
            ),
            forall|q: Seq<char>| q != principal@ ==> final(self).window(q) == old(self).window(q),
    {
        let key = principal.to_owned();
        let i = self.slot_of(&key);
        let ghost mid = *self;
        proof {
            mid.lemma_window_at(principal@, i as int);
        }
        let cur = &self.windows[i];
        let len = cur.len();
        let mut k: usize = 0;
        assert(cur@.subrange(0, len as int) =~= cur@);
        while k < len && cur[k] <= now && now - cur[k] >= WINDOW_MS
            invariant
                len == cur.len(),
                0 <= k <= len,
                pruned(cur@.subrange(k as int, len as int), now) == pruned(cur@, now),
            decreases len - k,
        {
            assert(cur@.subrange(k as int, len as int).drop_first() =~= cur@.subrange(
                k as int + 1,
                len as int,
            ));
            k = k + 1;
        }
        proof {
            if k < len {
                assert(!expired(cur@[k as int], now));
            }
        }
        assert(pruned(cur@, now) == cur@.subrange(k as int, len as int));
        let mut next: Vec<u64> = Vec::new();
        let mut j: usize = k;
        while j < len
            invariant
                len == cur.len(),
                k <= j <= len,
                next@ =~= cur@.subrange(k as int, j as int),
            decreases len - j,
        {
            next.push(cur[j]);
            j = j + 1;
        }
        let admitted = next.len() < self.limit;
        if admitted {
            next.push(now);
        }
        self.windows.set(i, next);
        proof {
            self.lemma_window_at(principal@, i as int);
            assert forall|q: Seq<char>| q != principal@ implies self.window(q) == mid.window(q) by {
                if exists|j: int| mid.slot(q, j) {
                    let j = choose|j: int| mid.slot(q, j);
                    mid.lemma_window_at(q, j);
                    self.lemma_window_at(q, j);
                } else {
                    assert forall|j: int| !self.slot(q, j) by {
                        assert(!mid.slot(q, j));
                    }
                }
            }
        }
        admitted
    }

    /// Number of timestamps held for `principal`.
    pub fn window_len(&self, principal: &str) -> (r: usize)
        requires
            self.wf(),
        ensures
            r == self.window(principal@).len(),
    {
        let key = principal.to_owned();
        let n = self.principals.len();
        let mut i: usize = 0;
        while i < n
            invariant
                self.wf(),
                key@ == principal@,
                n == self.principals.len(),
                0 <= i <= n,
                forall|j: int| 0 <= j < i ==> self.principals[j]@ != principal@,
            decreases n - i,
        {
            if self.principals[i].eq(&key) {
                proof {
                    self.lemma_window_at(principal@, i as int);
                }
                return self.windows[i].len();
            }
            i = i + 1;
        }
        0
    }
}

/// Timestamps in non-decreasing order.
pub open spec fn nondecreasing(s: Seq<u64>) -> bool {
    forall|i: int, j: int| 0 <= i <= j < s.len() ==> s[i] <= s[j]
}

/// Replays calls for one principal, made at `times`, through a fresh window:
/// the window left at the end, and the times of the calls that were admitted.
pub open spec fn replay(times: Seq<u64>, limit: nat) -> (Seq<u64>, Seq<u64>)
    decreases times.len(),
{
    if times.len() == 0 {
        (Seq::empty(), Seq::empty())
    } else {
        let prev = replay(times.drop_last(), limit);
        let step = admit_step(prev.0, times.last(), limit);
        (step.0, if step.1 { prev.1.push(times.last()) } else { prev.1 })
    }
}

/// How many of the calls made at `a` lie in the 60-second lookback that ends at `now`.
pub open spec fn recent_count(a: Seq<u64>, now: u64) -> nat
    decreases a.len(),
{
    if a.len() == 0 {
        0
    } else {
        recent_count(a.drop_last(), now) + if a.last() <= now && !expired(a.last(), now) {
            1nat
        } else {
            0nat
        }
    }
}

proof fn lemma_pruned_len(w: Seq<u64>, now: u64)
    ensures
        pruned(w, now).len() <= w.len(),
        (forall|i: int| 0 <= i < w.len() ==> !expired(w[i], now)) ==> pruned(w, now) == w,
    decreases w.len(),
{
    if w.len() > 0 && expired(w[0], now) {
        lemma_pruned_len(w.drop_first(), now);
    }
}

/// Trimming a sorted window drops exactly the expired timestamps, all of them at its front.
proof fn lemma_pruned_suffix(w: Seq<u64>, now: u64) -> (m: int)
    requires
        nondecreasing(w),
    ensures
        0 <= m <= w.len(),
        pruned(w, now) == w.subrange(m, w.len() as int),
        forall|j: int| 0 <= j < m ==> expired(w[j], now),
        forall|j: int| m <= j < w.len() ==> !expired(w[j], now),
    decreases w.len(),
{
    if w.len() > 0 && expired(w[0], now) {
        let m1 = lemma_pruned_suffix(w.drop_first(), now);
        assert(w.drop_first().subrange(m1, w.len() - 1) =~= w.subrange(m1 + 1, w.len() as int));
        assert forall|j: int| 0 <= j < m1 + 1 implies expired(w[j], now) by {
            if j > 0 {
                assert(w[j] == w.drop_first()[j - 1]);
            }
        }
        assert forall|j: int| m1 + 1 <= j < w.len() implies !expired(w[j], now) by {
            assert(w[j] == w.drop_first()[j - 1]);
        }
        m1 + 1
    } else {
        assert(w.subrange(0, w.len() as int) =~= w);
        assert forall|j: int| 0 <= j < w.len() implies !expired(w[j], now) by {
            assert(w[0] <= w[j]);
        }
        0
    }
}

proof fn lemma_recent_count(a: Seq<u64>, now: u64, k: int)
    requires
        0 <= k <= a.len(),
        forall|j: int| 0 <= j < k ==> expired(a[j], now),
        forall|j: int| k <= j < a.len() ==> a[j] <= now && !expired(a[j], now),
    ensures
        recent_count(a, now) == a.len() - k,
    decreases a.len(),
{
    if a.len() > 0 {
        let b = a.drop_last();
        if k == a.len() {
            lemma_recent_count(b, now, k - 1);
        } else {
            lemma_recent_count(b, now, k);
        }
    }
}

/// Shape of a replay: the window is the suffix of the admitted calls that has
/// not expired at the latest call, and it never holds more than `limit`.
proof fn lemma_replay_shape(times: Seq<u64>, limit: nat) -> (k: int)
    requires
        nondecreasing(times),
    ensures
        ({
            let (w, a) = replay(times, limit);
            let now = times[times.len() - 1];
            &&& 0 <= k <= a.len()
            &&& w == a.subrange(k, a.len() as int)
            &&& forall|j: int| 0 <= j < k ==> expired(a[j], now)
            &&& forall|j: int| k <= j < a.len() ==> !expired(a[j], now)
            &&& forall|j: int| 0 <= j < a.len() ==> a[j] <= now
            &&& nondecreasing(a)
            &&& w.len() <= limit
        }),
    decreases times.len(),
{
    if times.len() == 0 {
        0
    } else {
        let prev_times = times.drop_last();
        assert(nondecreasing(prev_times));
        let k0 = lemma_replay_shape(prev_times, limit);
        let (w, a) = replay(prev_times, limit);
        let now = times.last();
        let before = prev_times[prev_times.len() - 1];
        if prev_times.len() > 0 {
            assert(before <= now);
        }
        assert forall|j: int| 0 <= j < a.len() implies a[j] <= now by {
            if prev_times.len() > 0 {
                assert(a[j] <= before);
            }
        }
        assert(nondecreasing(w));
        let m = lemma_pruned_suffix(w, now);
        let k = k0 + m;
        let p = pruned(w, now);
        assert(p =~= a.subrange(k, a.len() as int));
        assert forall|j: int| 0 <= j < k implies expired(a[j], now) by {
            if j < k0 {
                assert(expired(a[j], before));
            } else {
                assert(a[j] == w[j - k0]);
            }
        }
        assert forall|j: int| k <= j < a.len() implies !expired(a[j], now) by {
            assert(a[j] == w[j - k0]);
        }
        lemma_pruned_len(w, now);
        let step = admit_step(w, now, limit);
        if step.1 {
            let a2 = a.push(now);
            assert(step.0 =~= a2.subrange(k, a2.len() as int));
            assert(a2[a2.len() - 1] == now);
            assert forall|j: int| 0 <= j < a2.len() implies a2[j] <= now by {}
            assert forall|i: int, j: int| 0 <= i <= j < a2.len() implies a2[i] <= a2[j] by {}
        }
        k
    }
}

/// Sliding-window bound: however calls for one principal are spread over time,
/// the 60-second lookback ending at the latest call holds at most `limit`
/// admitted calls.
pub proof fn lemma_sliding_window_bound(times: Seq<u64>, limit: nat)
    requires
        nondecreasing(times),
        times.len() > 0,
    ensures
        recent_count(replay(times, limit).1, times.last()) <= limit,
{
    let k = lemma_replay_shape(times, limit);
    let (w, a) = replay(times, limit);
    lemma_recent_count(a, times.last(), k);
}

/// An admitted call grows the trimmed window by exactly that call; while no
/// held call has expired, trimming removes nothing, so each admission makes
/// the window strictly longer.
pub proof fn lemma_admission_extends_window(w: Seq<u64>, now: u64, limit: nat)
    ensures
        admit_step(w, now, limit).1 ==> admit_step(w, now, limit).0 == pruned(w, now).push(now),
        !admit_step(w, now, limit).1 ==> admit_step(w, now, limit).0 == pruned(w, now),
        (forall|i: int| 0 <= i < w.len() ==> !expired(w[i], now)) ==> pruned(w, now) == w,
        (forall|i: int| 0 <= i < w.len() ==> !expired(w[i], now)) && admit_step(w, now, limit).1
            ==> admit_step(w, now, limit).0.len() == w.len() + 1,
{
    lemma_pruned_len(w, now);
}

/// Once every held call is at least 60 seconds old, the window trims to empty
/// and a new call is admitted, whatever the positive limit.
pub proof fn lemma_idle_window_clears(w: Seq<u64>, now: u64, limit: nat)
    requires
        limit > 0,
        forall|i: int| 0 <= i < w.len() ==> expired(w[i], now),
    ensures
        pruned(w, now) == Seq::<u64>::empty(),
        admit_step(w, now, limit) == (seq![now], true),
    decreases w.len(),
{
    if w.len() > 0 {
        lemma_idle_window_clears(w.drop_first(), now, limit);
    }
    assert(Seq::<u64>::empty().push(now) =~= seq![now]);
}

} // verus!
