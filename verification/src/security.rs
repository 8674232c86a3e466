//! Request guards of the management API: a fixed-window rate limiter and an
//! authentication-failure tracker with a cooldown, both keyed by client.
//!
//! Times are milliseconds on a monotonic clock, read by the caller.
use vstd::prelude::*;
use crate::table::{keep_where, KeepRule, KeyedTable};
use crate::text::string_from_str;

verus! {

pub const AUTH_FAILURE_THRESHOLD: u32 = 5;
pub const AUTH_FAILURE_COOLDOWN_SECONDS: u64 = 60;
pub const RATE_LIMIT_STALE_SECONDS: u64 = 300;
pub const RATE_LIMIT_CLEANUP_INTERVAL_SECONDS: u64 = 30;
pub const AUTH_FAILURE_STALE_SECONDS: u64 = 300;
pub const AUTH_FAILURE_CLEANUP_INTERVAL_SECONDS: u64 = 30;
pub const MAX_TRACKED_KEYS: usize = 8192;
pub const MILLIS_PER_SECOND: u64 = 1000;

pub const AUTH_FAILURE_COOLDOWN_MS: u64 = AUTH_FAILURE_COOLDOWN_SECONDS * MILLIS_PER_SECOND;
pub const RATE_LIMIT_STALE_MS: u64 = RATE_LIMIT_STALE_SECONDS * MILLIS_PER_SECOND;
pub const RATE_LIMIT_CLEANUP_INTERVAL_MS: u64 = RATE_LIMIT_CLEANUP_INTERVAL_SECONDS * MILLIS_PER_SECOND;
pub const AUTH_FAILURE_STALE_MS: u64 = AUTH_FAILURE_STALE_SECONDS * MILLIS_PER_SECOND;
pub const AUTH_FAILURE_CLEANUP_INTERVAL_MS: u64 = AUTH_FAILURE_CLEANUP_INTERVAL_SECONDS * MILLIS_PER_SECOND;

/// Time from `since` to `now`, zero when `now` is earlier (`Instant::duration_since`).
pub open spec fn elapsed(now: u64, since: u64) -> int {
    if now >= since {
        now - since
    } else {
        0
    }
}

pub fn elapsed_ms(now: u64, since: u64) -> (r: u64)
    ensures
        r == elapsed(now, since),
{
    if now >= since {
        now - since
    } else {
        0
    }
}

/// The value under `key`, if any.
pub open spec fn lookup<V>(m: Map<Seq<char>, V>, key: Seq<char>) -> Option<V> {
    if m.contains_key(key) {
        Some(m[key])
    } else {
        None
    }
}

// ---------------------------------------------------------------------------
// Rate limiter
// ---------------------------------------------------------------------------

/// The request count of a key in its current window.
#[derive(Debug, Clone, Copy)]
pub struct RateWindow {
    pub started_at: u64,
    pub last_seen_at: u64,
    pub count: u32,
}

/// Counts requests per key in fixed windows and refuses those beyond a limit.
#[derive(Debug)]
pub struct RateLimiter {
    windows: KeyedTable<RateWindow>,
    last_cleanup_at: u64,
}

pub struct RateLimiterView {
    pub windows: Map<Seq<char>, RateWindow>,
    pub last_cleanup_at: u64,
}

impl View for RateLimiter {
    type V = RateLimiterView;

    closed spec fn view(&self) -> RateLimiterView {
        RateLimiterView { windows: self.windows@, last_cleanup_at: self.last_cleanup_at }
    }
}

/// A window is kept while its key was seen within the stale period.
pub open spec fn rate_fresh(now: u64) -> spec_fn(RateWindow) -> bool {
    |w: RateWindow| elapsed(now, w.last_seen_at) < RATE_LIMIT_STALE_MS
}

/// Stale windows are dropped when the cleanup interval has passed or the
/// table is full; the result is the windows and the time of the last cleanup.
pub open spec fn rate_cleanup(m: Map<Seq<char>, RateWindow>, last: u64, now: u64) -> (Map<Seq<char>, RateWindow>, u64) {
    if elapsed(now, last) < RATE_LIMIT_CLEANUP_INTERVAL_MS && m.len() < MAX_TRACKED_KEYS {
        (m, last)
    } else {
        (keep_where(m, rate_fresh(now)), now)
    }
}

/// The window of a request at `now` and whether it is allowed: a window older
/// than `window` restarts; a full window refuses.
pub open spec fn rate_decision(entry: Option<RateWindow>, limit: u32, window: u64, now: u64) -> (RateWindow, bool) {
    let w = match entry {
        Some(w) => w,
        None => RateWindow { started_at: now, last_seen_at: now, count: 0 },
    };
    let w = if elapsed(now, w.started_at) >= window {
        RateWindow { started_at: now, last_seen_at: w.last_seen_at, count: 0 }
    } else {
        w
    };
    if w.count >= limit {
        (RateWindow { started_at: w.started_at, last_seen_at: now, count: w.count }, false)
    } else {
        (RateWindow { started_at: w.started_at, last_seen_at: now, count: (w.count + 1) as u32 }, true)
    }
}

/// What one call of `is_allowed` for `key` at `now` makes of the limiter
/// `before`: after the cleanup, the key's window takes the decision, the least
/// recently seen window making room when the table is full and the key is new;
/// `r` is the decision.
pub open spec fn request_counted(
    before: RateLimiterView,
    key: Seq<char>,
    limit: u32,
    window: u64,
    now: u64,
    after: RateLimiterView,
    r: bool,
) -> bool {
    let (m1, last1) = rate_cleanup(before.windows, before.last_cleanup_at, now);
    let (w, allowed) = rate_decision(lookup(m1, key), limit, window, now);
    &&& r == allowed
    &&& after.last_cleanup_at == last1
    &&& (m1.contains_key(key) || m1.len() < MAX_TRACKED_KEYS) ==> after.windows == m1.insert(key, w)
    &&& !(m1.contains_key(key) || m1.len() < MAX_TRACKED_KEYS) ==> exists|k: Seq<char>|
        #[trigger] rate_oldest(m1, k) && after.windows == m1.remove(k).insert(key, w)
}

/// `k` holds the least recently seen window.
pub open spec fn rate_oldest(m: Map<Seq<char>, RateWindow>, k: Seq<char>) -> bool {
    m.contains_key(k) && forall|j: Seq<char>| #[trigger] m.contains_key(j) ==> m[k].last_seen_at <= m[j].last_seen_at
}

impl RateLimiter {
    /// At most `MAX_TRACKED_KEYS` keys are tracked.
    pub closed spec fn wf(&self) -> bool {
        self.windows.wf() && self.windows@.len() <= MAX_TRACKED_KEYS
    }

    pub proof fn lemma_wf(&self)
        requires
            self.wf(),
        ensures
            self@.windows.dom().finite(),
            self@.windows.len() <= MAX_TRACKED_KEYS,
    {
        self.windows.lemma_view();
    }

    /// An empty limiter whose last cleanup is `now`.
    pub fn new(now: u64) -> (r: RateLimiter)
        ensures
            r.wf(),
            r@.windows == Map::<Seq<char>, RateWindow>::empty(),
            r@.last_cleanup_at == now,
    {
        RateLimiter { windows: KeyedTable::new(), last_cleanup_at: now }
    }

    /// The number of tracked keys.
    pub fn tracked_keys(&self) -> (r: usize)
        requires
            self.wf(),
        ensures
            r == self@.windows.len(),
    {
        self.windows.len()
    }

    /// Counts a request of `key` at `now` and says whether it is allowed: at most
    /// `limit` requests per `window_ms` milliseconds.
    pub fn is_allowed(&mut self, key: &str, limit: u32, window_ms: u64, now: u64) -> (r: bool)
        requires
            old(self).wf(),
        ensures
            final(self).wf(),
            ({
                let (m1, last1) = rate_cleanup(old(self)@.windows, old(self)@.last_cleanup_at, now);
                let (w, allowed) = rate_decision(lookup(m1, key@), limit, window_ms, now);
                &&& r == allowed
                &&& final(self)@.last_cleanup_at == last1
                &&& (m1.contains_key(key@) || m1.len() < MAX_TRACKED_KEYS) ==> final(self)@.windows == m1.insert(
                    key@,
                    w,
                )
                &&& !(m1.contains_key(key@) || m1.len() < MAX_TRACKED_KEYS) ==> exists|k: Seq<char>|
                    #[trigger] rate_oldest(m1, k) && final(self)@.windows == m1.remove(k).insert(key@, w)
            }),
            request_counted(old(self)@, key@, limit, window_ms, now, final(self)@, r),
    {
        maybe_cleanup_rate_windows(self, now);
        let ghost m1 = self@.windows;
        proof {
            self.lemma_wf();
        }
        if !self.windows.contains_key(key) {
            ensure_rate_capacity(self);
        }
        let ghost m2 = self@.windows;
        proof {
            if !m1.contains_key(key@) && m1.len() >= MAX_TRACKED_KEYS {
                let k = choose|k: Seq<char>| #[trigger] rate_oldest(m1, k) && m2 == m1.remove(k);
                assert(lookup(m2, key@) == lookup(m1, key@));
            }
            self.lemma_wf();
        }
        let entry: Option<RateWindow> = match self.windows.get(key) {
            Some(w) => Some(*w),
            None => None,
        };
        let (w, allowed) = rate_decision_exec(entry, limit, window_ms, now);
        self.windows.insert(string_from_str(key), w);
        allowed
    }
}

fn rate_decision_exec(entry: Option<RateWindow>, limit: u32, window: u64, now: u64) -> (r: (RateWindow, bool))
    ensures
        r == rate_decision(entry, limit, window, now),
{
    let mut w = match entry {
        Some(w) => w,
        None => RateWindow { started_at: now, last_seen_at: now, count: 0 },
    };
    if elapsed_ms(now, w.started_at) >= window {
        w = RateWindow { started_at: now, last_seen_at: w.last_seen_at, count: 0 };
    }
    if w.count >= limit {
        (RateWindow { started_at: w.started_at, last_seen_at: now, count: w.count }, false)
    } else {
        (RateWindow { started_at: w.started_at, last_seen_at: now, count: w.count + 1 }, true)
    }
}

/// Drops stale windows when the cleanup interval has passed or the table is full.
pub fn maybe_cleanup_rate_windows(inner: &mut RateLimiter, now: u64)
    requires
        old(inner).wf(),
    ensures
        final(inner).wf(),
        (final(inner)@.windows, final(inner)@.last_cleanup_at) == rate_cleanup(
            old(inner)@.windows,
            old(inner)@.last_cleanup_at,
            now,
        ),
{
    proof {
        inner.lemma_wf();
        inner.windows.lemma_view();
    }
    if elapsed_ms(now, inner.last_cleanup_at) < RATE_LIMIT_CLEANUP_INTERVAL_MS && inner.windows.len()
        < MAX_TRACKED_KEYS {
        return;
    }
    inner.last_cleanup_at = now;
    let rule = RateFresh { now };
    inner.windows.retain(&rule);
    proof {
        inner.windows.lemma_view();
    }
    assert(keep_where(old(inner)@.windows, |v: RateWindow| rule.keeps(v)) =~= keep_where(old(inner)@.windows, rate_fresh(now)));
}

/// Keeps the rate windows seen within the stale period before `now`.
struct RateFresh {
    now: u64,
}

impl KeepRule<RateWindow> for RateFresh {
    closed spec fn keeps(&self, v: RateWindow) -> bool {
        elapsed(self.now, v.last_seen_at) < RATE_LIMIT_STALE_MS
    }

    fn test(&self, v: &RateWindow) -> (b: bool) {
        elapsed_ms(self.now, v.last_seen_at) < RATE_LIMIT_STALE_MS
    }
}

/// When the table is full, drops the least recently seen window.
pub fn ensure_rate_capacity(inner: &mut RateLimiter)
    requires
        old(inner).wf(),
    ensures
        final(inner).wf(),
        final(inner)@.last_cleanup_at == old(inner)@.last_cleanup_at,
        old(inner)@.windows.len() < MAX_TRACKED_KEYS ==> final(inner)@.windows == old(inner)@.windows,
        old(inner)@.windows.len() >= MAX_TRACKED_KEYS ==> exists|k: Seq<char>|
            #[trigger] rate_oldest(old(inner)@.windows, k) && final(inner)@.windows == old(inner)@.windows.remove(k),
        final(inner)@.windows.len() < MAX_TRACKED_KEYS,
{
    proof {
        inner.lemma_wf();
        inner.windows.lemma_view();
    }
    let n = inner.windows.len();
    if n < MAX_TRACKED_KEYS {
        return;
    }
    let mut best: usize = 0;
    let mut i: usize = 1;
    while i < n
        invariant
            inner.windows.wf(),
            n == inner.windows.spec_len(),
            n >= MAX_TRACKED_KEYS,
            best < n,
            1 <= i <= n,
            forall|j: int| 0 <= j < i ==> inner.windows.entry(best as int).1.last_seen_at <= (#[trigger] inner.windows.entry(j)).1.last_seen_at,
        decreases n - i,
    {
        if inner.windows.value_at(i).last_seen_at < inner.windows.value_at(best).last_seen_at {
            best = i;
        }
        i = i + 1;
    }
    let ghost m0 = inner@.windows;
    let ghost k = inner.windows.entry(best as int).0;
    proof {
        assert forall|j: Seq<char>| #[trigger] m0.contains_key(j) implies m0[k].last_seen_at <= m0[j].last_seen_at by {
            let x = choose|x: int| 0 <= x < inner.windows.spec_len() && #[trigger] inner.windows.entry(x).0 == j;
            assert(m0[j] == inner.windows.entry(x).1);
        }
        assert(rate_oldest(m0, k));
    }
    inner.windows.remove_at(best);
    proof {
        inner.windows.lemma_view();
    }
}

// ---------------------------------------------------------------------------
// Authentication failures
// ---------------------------------------------------------------------------

/// The failure count of a key and the end of its cooldown, if any.
#[derive(Debug, Clone, Copy)]
pub struct AuthFailureWindow {
    pub failures: u32,
    pub cooldown_until: Option<u64>,
    pub last_seen_at: u64,
}

/// Counts authentication failures per key; `AUTH_FAILURE_THRESHOLD` failures
/// in a row start a cooldown of `AUTH_FAILURE_COOLDOWN_SECONDS`.
#[derive(Debug)]
pub struct AuthFailures {
    windows: KeyedTable<AuthFailureWindow>,
    last_cleanup_at: u64,
}

pub struct AuthFailuresView {
    pub windows: Map<Seq<char>, AuthFailureWindow>,
    pub last_cleanup_at: u64,
}

impl View for AuthFailures {
    type V = AuthFailuresView;

    closed spec fn view(&self) -> AuthFailuresView {
        AuthFailuresView { windows: self.windows@, last_cleanup_at: self.last_cleanup_at }
    }
}

/// The cooldown of `w` is still running at `now`.
pub open spec fn cooling(w: AuthFailureWindow, now: u64) -> bool {
    match w.cooldown_until {
        Some(d) => now < d,
        None => false,
    }
}

/// A window is kept while its cooldown runs or its key was seen within the stale period.
pub open spec fn auth_keep(now: u64) -> spec_fn(AuthFailureWindow) -> bool {
    |w: AuthFailureWindow| cooling(w, now) || elapsed(now, w.last_seen_at) < AUTH_FAILURE_STALE_MS
}

pub open spec fn auth_cleanup(m: Map<Seq<char>, AuthFailureWindow>, last: u64, now: u64) -> (
    Map<Seq<char>, AuthFailureWindow>,
    u64,
) {
    if elapsed(now, last) < AUTH_FAILURE_CLEANUP_INTERVAL_MS && m.len() < MAX_TRACKED_KEYS {
        (m, last)
    } else {
        (keep_where(m, auth_keep(now)), now)
    }
}

/// A cooldown check at `now`: the window afterwards (an ended cooldown clears
/// the count) and whether the key is cooling down.
pub open spec fn auth_check(entry: Option<AuthFailureWindow>, now: u64) -> (Option<AuthFailureWindow>, bool) {
    match entry {
        None => (None, false),
        Some(w) => if cooling(w, now) {
            (Some(AuthFailureWindow { failures: w.failures, cooldown_until: w.cooldown_until, last_seen_at: now }), true)
        } else if w.cooldown_until is Some {
            (Some(AuthFailureWindow { failures: 0, cooldown_until: None, last_seen_at: now }), false)
        } else {
            (Some(AuthFailureWindow { failures: w.failures, cooldown_until: None, last_seen_at: now }), false)
        },
    }
}

/// A failure at `now`: the window afterwards and whether the key is (now) cooling down.
pub open spec fn auth_fail(entry: Option<AuthFailureWindow>, now: u64) -> (AuthFailureWindow, bool) {
    let w = match entry {
        Some(w) => w,
        None => AuthFailureWindow { failures: 0, cooldown_until: None, last_seen_at: now },
    };
    if cooling(w, now) {
        (AuthFailureWindow { failures: w.failures, cooldown_until: w.cooldown_until, last_seen_at: now }, true)
    } else {
        let failures: int = if w.cooldown_until is Some {
            1
        } else {
            w.failures + 1
        };
        if failures >= AUTH_FAILURE_THRESHOLD {
            (
                AuthFailureWindow {
                    failures: 0,
                    cooldown_until: Some((now + AUTH_FAILURE_COOLDOWN_MS) as u64),
                    last_seen_at: now,
                },
                true,
            )
        } else {
            (AuthFailureWindow { failures: failures as u32, cooldown_until: None, last_seen_at: now }, false)
        }
    }
}

pub open spec fn auth_oldest(m: Map<Seq<char>, AuthFailureWindow>, k: Seq<char>) -> bool {
    m.contains_key(k) && forall|j: Seq<char>| #[trigger] m.contains_key(j) ==> m[k].last_seen_at <= m[j].last_seen_at
}

/// What recording a failure of `key` at `now` makes of the failure windows
/// `m` last cleaned up at `last`: after the cleanup, the key's window holds the
/// failure; when the table is full and the key is new, the least recently
/// seen window makes room for it.
pub open spec fn failure_recorded(
    m: Map<Seq<char>, AuthFailureWindow>,
    last: u64,
    key: Seq<char>,
    now: u64,
    after: AuthFailuresView,
) -> bool {
    let (m1, last1) = auth_cleanup(m, last, now);
    let w = auth_fail(lookup(m1, key), now).0;
    &&& after.last_cleanup_at == last1
    &&& (m1.contains_key(key) || m1.len() < MAX_TRACKED_KEYS) ==> after.windows == m1.insert(key, w)
    &&& !(m1.contains_key(key) || m1.len() < MAX_TRACKED_KEYS) ==> exists|k: Seq<char>|
        #[trigger] auth_oldest(m1, k) && after.windows == m1.remove(k).insert(key, w)
}

/// Every tracked count is below the threshold.
pub open spec fn counts_below_threshold(m: Map<Seq<char>, AuthFailureWindow>) -> bool {
    forall|k: Seq<char>| #[trigger] m.contains_key(k) ==> m[k].failures < AUTH_FAILURE_THRESHOLD
}

impl AuthFailures {
    /// At most `MAX_TRACKED_KEYS` keys are tracked, each with fewer than
    /// `AUTH_FAILURE_THRESHOLD` counted failures.
    pub closed spec fn wf(&self) -> bool {
        &&& self.windows.wf()
        &&& self.windows@.len() <= MAX_TRACKED_KEYS
        &&& counts_below_threshold(self.windows@)
    }

    pub proof fn lemma_wf(&self)
        requires
            self.wf(),
        ensures
            self@.windows.dom().finite(),
            self@.windows.len() <= MAX_TRACKED_KEYS,
            counts_below_threshold(self@.windows),
    {
        self.windows.lemma_view();
    }

    pub fn new(now: u64) -> (r: AuthFailures)
        ensures
            r.wf(),
            r@.windows == Map::<Seq<char>, AuthFailureWindow>::empty(),
            r@.last_cleanup_at == now,
    {
        AuthFailures { windows: KeyedTable::new(), last_cleanup_at: now }
    }

    pub fn tracked_keys(&self) -> (r: usize)
        requires
            self.wf(),
        ensures
            r == self@.windows.len(),
    {
        self.windows.len()
    }

    /// Whether `key` is cooling down at `now`; an ended cooldown is cleared.
    pub fn is_in_cooldown(&mut self, key: &str, now: u64) -> (r: bool)
        requires
            old(self).wf(),
        ensures
            final(self).wf(),
            ({
                let (m1, last1) = auth_cleanup(old(self)@.windows, old(self)@.last_cleanup_at, now);
                let (w, cooling_down) = auth_check(lookup(m1, key@), now);
                &&& r == cooling_down
                &&& final(self)@.last_cleanup_at == last1
                &&& final(self)@.windows == match w {
                    Some(x) => m1.insert(key@, x),
                    None => m1,
                }
            }),
    {
        maybe_cleanup_auth_windows(self, now);
        let ghost m1 = self@.windows;
        proof {
            self.lemma_wf();
        }
        let entry: Option<AuthFailureWindow> = match self.windows.get(key) {
            Some(w) => Some(*w),
            None => None,
        };
        match entry {
            None => false,
            Some(w) => {
                let (next, cooling_down) = auth_check_exec(w, now);
                self.windows.insert(string_from_str(key), next);
                proof {
                    assert(counts_below_threshold(self@.windows));
                }
                cooling_down
            },
        }
    }

    /// Records a failed authentication of `key` at `now`; says whether the key
    /// is cooling down afterwards.
    pub fn record_failure(&mut self, key: &str, now: u64) -> (r: bool)
        requires
            old(self).wf(),
            now <= u64::MAX - AUTH_FAILURE_COOLDOWN_MS,
        ensures
            final(self).wf(),
            ({
                let (m1, last1) = auth_cleanup(old(self)@.windows, old(self)@.last_cleanup_at, now);
                let (w, cooling_down) = auth_fail(lookup(m1, key@), now);
                &&& r == cooling_down
                &&& final(self)@.last_cleanup_at == last1
                &&& (m1.contains_key(key@) || m1.len() < MAX_TRACKED_KEYS) ==> final(self)@.windows == m1.insert(
                    key@,
                    w,
                )
                &&& !(m1.contains_key(key@) || m1.len() < MAX_TRACKED_KEYS) ==> exists|k: Seq<char>|
                    #[trigger] auth_oldest(m1, k) && final(self)@.windows == m1.remove(k).insert(key@, w)
            }),
            failure_recorded(old(self)@.windows, old(self)@.last_cleanup_at, key@, now, final(self)@),
    {
        maybe_cleanup_auth_windows(self, now);
        let ghost m1 = self@.windows;
        proof {
            self.lemma_wf();
        }
        if !self.windows.contains_key(key) {
            ensure_auth_capacity(self);
        }
        let ghost m2 = self@.windows;
        proof {
            if !m1.contains_key(key@) && m1.len() >= MAX_TRACKED_KEYS {
                let k = choose|k: Seq<char>| #[trigger] auth_oldest(m1, k) && m2 == m1.remove(k);
                assert(lookup(m2, key@) == lookup(m1, key@));
            }
            self.lemma_wf();
        }
        let entry: Option<AuthFailureWindow> = match self.windows.get(key) {
            Some(w) => Some(*w),
            None => None,
        };
        let (w, cooling_down) = auth_fail_exec(entry, now);
        self.windows.insert(string_from_str(key), w);
        proof {
            assert(counts_below_threshold(self@.windows));
        }
        cooling_down
    }

    /// Forgets the failures of `key`.
    pub fn reset(&mut self, key: &str)
        requires
            old(self).wf(),
        ensures
            final(self).wf(),
            final(self)@.windows == old(self)@.windows.remove(key@),
            final(self)@.last_cleanup_at == old(self)@.last_cleanup_at,
    {
        proof {
            self.lemma_wf();
        }
        self.windows.remove(key);
        proof {
            self.windows.lemma_view();
            vstd::set_lib::lemma_len_subset(self@.windows.dom(), old(self)@.windows.dom());
        }
    }

    /// Forgets every key.
    pub fn reset_all(&mut self)
        requires
            old(self).wf(),
        ensures
            final(self).wf(),
            final(self)@.windows == Map::<Seq<char>, AuthFailureWindow>::empty(),
            final(self)@.last_cleanup_at == old(self)@.last_cleanup_at,
    {
        self.windows.clear();
    }
}

fn auth_check_exec(w: AuthFailureWindow, now: u64) -> (r: (AuthFailureWindow, bool))
    ensures
        auth_check(Some(w), now) == (Some(r.0), r.1),
{
    match w.cooldown_until {
        Some(deadline) => {
            if now < deadline {
                (AuthFailureWindow { failures: w.failures, cooldown_until: w.cooldown_until, last_seen_at: now }, true)
            } else {
                (AuthFailureWindow { failures: 0, cooldown_until: None, last_seen_at: now }, false)
            }
        },
        None => (AuthFailureWindow { failures: w.failures, cooldown_until: None, last_seen_at: now }, false),
    }
}

fn auth_fail_exec(entry: Option<AuthFailureWindow>, now: u64) -> (r: (AuthFailureWindow, bool))
    requires
        entry matches Some(w) ==> w.failures < AUTH_FAILURE_THRESHOLD,
        now <= u64::MAX - AUTH_FAILURE_COOLDOWN_MS,
    ensures
        r == auth_fail(entry, now),
        r.0.failures < AUTH_FAILURE_THRESHOLD,
{
    let mut w = match entry {
        Some(w) => w,
        None => AuthFailureWindow { failures: 0, cooldown_until: None, last_seen_at: now },
    };
    w.last_seen_at = now;
    if let Some(deadline) = w.cooldown_until {
        if now < deadline {
            return (w, true);
        }
        w.cooldown_until = None;
        w.failures = 0;
    }
    w.failures = w.failures + 1;
    if w.failures >= AUTH_FAILURE_THRESHOLD {
        w.failures = 0;
        w.cooldown_until = Some(now + AUTH_FAILURE_COOLDOWN_MS);
        return (w, true);
    }
    (w, false)
}

/// Drops windows whose cooldown has ended and whose key is stale, when the
/// cleanup interval has passed or the table is full.
pub fn maybe_cleanup_auth_windows(inner: &mut AuthFailures, now: u64)
    requires
        old(inner).wf(),
    ensures
        final(inner).wf(),
        (final(inner)@.windows, final(inner)@.last_cleanup_at) == auth_cleanup(
            old(inner)@.windows,
            old(inner)@.last_cleanup_at,
            now,
        ),
{
    proof {
        inner.lemma_wf();
        inner.windows.lemma_view();
    }
    if elapsed_ms(now, inner.last_cleanup_at) < AUTH_FAILURE_CLEANUP_INTERVAL_MS && inner.windows.len()
        < MAX_TRACKED_KEYS {
        return;
    }
    inner.last_cleanup_at = now;
    let ghost before = inner@.windows;
    let rule = AuthKeep { now };
    inner.windows.retain(&rule);
    proof {
        inner.windows.lemma_view();
    }
    assert(keep_where(before, |v: AuthFailureWindow| rule.keeps(v)) =~= keep_where(before, auth_keep(now)));
    proof {
        assert(counts_below_threshold(before));
        assert forall|k: Seq<char>| #[trigger] inner@.windows.contains_key(k) implies inner@.windows[k].failures
            < AUTH_FAILURE_THRESHOLD by {
            assert(before.contains_key(k));
        }
    }
}

/// Keeps the failure windows that are cooling down or were seen within the
/// stale period before `now`.
struct AuthKeep {
    now: u64,
}

impl KeepRule<AuthFailureWindow> for AuthKeep {
    closed spec fn keeps(&self, v: AuthFailureWindow) -> bool {
        cooling(v, self.now) || elapsed(self.now, v.last_seen_at) < AUTH_FAILURE_STALE_MS
    }

    fn test(&self, v: &AuthFailureWindow) -> (b: bool) {
        let active = match v.cooldown_until {
            Some(deadline) => self.now < deadline,
            None => false,
        };
        active || elapsed_ms(self.now, v.last_seen_at) < AUTH_FAILURE_STALE_MS
    }
}

/// When the table is full, drops the least recently seen window.
pub fn ensure_auth_capacity(inner: &mut AuthFailures)
    requires
        old(inner).wf(),
    ensures
        final(inner).wf(),
        final(inner)@.last_cleanup_at == old(inner)@.last_cleanup_at,
        old(inner)@.windows.len() < MAX_TRACKED_KEYS ==> final(inner)@.windows == old(inner)@.windows,
        old(inner)@.windows.len() >= MAX_TRACKED_KEYS ==> exists|k: Seq<char>|
            #[trigger] auth_oldest(old(inner)@.windows, k) && final(inner)@.windows == old(inner)@.windows.remove(k),
        final(inner)@.windows.len() < MAX_TRACKED_KEYS,
{
    proof {
        inner.lemma_wf();
        inner.windows.lemma_view();
    }
    let n = inner.windows.len();
    if n < MAX_TRACKED_KEYS {
        return;
    }
    let mut best: usize = 0;
    let mut i: usize = 1;
    while i < n
        invariant
            inner.windows.wf(),
            n == inner.windows.spec_len(),
            n >= MAX_TRACKED_KEYS,
            best < n,
            1 <= i <= n,
            forall|j: int| 0 <= j < i ==> inner.windows.entry(best as int).1.last_seen_at <= (#[trigger] inner.windows.entry(j)).1.last_seen_at,
        decreases n - i,
    {
        if inner.windows.value_at(i).last_seen_at < inner.windows.value_at(best).last_seen_at {
            best = i;
        }
        i = i + 1;
    }
    let ghost m0 = inner@.windows;
    let ghost k = inner.windows.entry(best as int).0;
    proof {
        assert forall|j: Seq<char>| #[trigger] m0.contains_key(j) implies m0[k].last_seen_at <= m0[j].last_seen_at by {
            let x = choose|x: int| 0 <= x < inner.windows.spec_len() && #[trigger] inner.windows.entry(x).0 == j;
            assert(m0[j] == inner.windows.entry(x).1);
        }
        assert(auth_oldest(m0, k));
    }
    inner.windows.remove_at(best);
    proof {
        inner.windows.lemma_view();
        assert forall|j: Seq<char>| #[trigger] inner@.windows.contains_key(j) implies inner@.windows[j].failures
            < AUTH_FAILURE_THRESHOLD by {
            assert(m0.contains_key(j));
        }
    }
}

// ---------------------------------------------------------------------------
// Laws
// ---------------------------------------------------------------------------

/// The window after a run of requests at `times` and how many were allowed.
pub open spec fn rate_run(w: RateWindow, limit: u32, window: u64, times: Seq<u64>) -> (RateWindow, nat)
    decreases times.len(),
{
    if times.len() == 0 {
        (w, 0)
    } else {
        let (w1, n1) = rate_run(w, limit, window, times.drop_last());
        let (w2, allowed) = rate_decision(Some(w1), limit, window, times.last());
        (w2, if allowed { n1 + 1 } else { n1 })
    }
}

/// Within one window, a key is allowed at most `limit` requests: every request
/// of the run falls inside the window, which neither restarts nor loses a count.
pub proof fn lemma_rate_limit_per_window(w: RateWindow, limit: u32, window: u64, times: Seq<u64>)
    requires
        w.count <= limit,
        forall|i: int| 0 <= i < times.len() ==> w.started_at <= #[trigger] times[i] && times[i] - w.started_at < window,
    ensures
        rate_run(w, limit, window, times).1 + w.count <= limit,
        rate_run(w, limit, window, times).0.started_at == w.started_at,
        rate_run(w, limit, window, times).0.count == w.count + rate_run(w, limit, window, times).1,
    decreases times.len(),
{
    if times.len() > 0 {
        let d = times.drop_last();
        assert forall|i: int| 0 <= i < d.len() implies w.started_at <= #[trigger] d[i] && d[i] - w.started_at < window by {
            assert(d[i] == times[i]);
        }
        lemma_rate_limit_per_window(w, limit, window, d);
        assert(times.last() == times[times.len() - 1]);
    }
}

/// Repeated calls of `is_allowed` for one key follow `rate_run`: when, before
/// a call at `now`, the key's window is the one a run over `times` leaves and
/// was seen recently enough not to be dropped, then after the call the key's
/// window is the one the run over `times` followed by `now` leaves, and the
/// call is allowed exactly when that longer run allows one more request.
pub proof fn lemma_is_allowed_extends_run(
    before: RateLimiterView,
    key: Seq<char>,
    limit: u32,
    window: u64,
    now: u64,
    after: RateLimiterView,
    r: bool,
    w0: RateWindow,
    times: Seq<u64>,
)
    requires
        before.windows.contains_key(key),
        before.windows[key] == rate_run(w0, limit, window, times).0,
        elapsed(now, before.windows[key].last_seen_at) < RATE_LIMIT_STALE_MS,
        request_counted(before, key, limit, window, now, after, r),
    ensures
        after.windows.contains_key(key),
        after.windows[key] == rate_run(w0, limit, window, times.push(now)).0,
        rate_run(w0, limit, window, times.push(now)).1 == rate_run(w0, limit, window, times).1 + if r {
            1nat
        } else {
            0nat
        },
{
    let m1 = rate_cleanup(before.windows, before.last_cleanup_at, now).0;
    assert(m1.contains_key(key) && m1[key] == before.windows[key]);
    assert(times.push(now).drop_last() =~= times);
    assert(times.push(now).last() == now);
}

/// A window that is current, recently seen and full refuses the next request.
pub proof fn lemma_full_window_refuses(
    m: Map<Seq<char>, RateWindow>,
    last: u64,
    key: Seq<char>,
    limit: u32,
    window: u64,
    now: u64,
)
    requires
        m.contains_key(key),
        m[key].count >= limit,
        elapsed(now, m[key].started_at) < window,
        elapsed(now, m[key].last_seen_at) < RATE_LIMIT_STALE_MS,
    ensures
        rate_decision(lookup(rate_cleanup(m, last, now).0, key), limit, window, now).1 == false,
{
    let m1 = rate_cleanup(m, last, now).0;
    assert(m1.contains_key(key) && m1[key] == m[key]);
}

/// The first request of an unknown key is allowed whenever the limit is positive.
pub proof fn lemma_new_key_allowed(limit: u32, window: u64, now: u64)
    requires
        limit > 0,
    ensures
        rate_decision(None, limit, window, now).1,
        rate_decision(None, limit, window, now).0.count == 1,
{
}

/// The window after a run of failures at `times` and the answers given.
pub open spec fn auth_fail_run(entry: Option<AuthFailureWindow>, times: Seq<u64>) -> (Option<AuthFailureWindow>, Seq<bool>)
    decreases times.len(),
{
    if times.len() == 0 {
        (entry, Seq::empty())
    } else {
        let (e1, answers) = auth_fail_run(entry, times.drop_last());
        let (w, cooling_down) = auth_fail(e1, times.last());
        (Some(w), answers.push(cooling_down))
    }
}

/// `AUTH_FAILURE_THRESHOLD` failures of a fresh key lock it out: the first four
/// are answered "not cooling down", the fifth starts a cooldown of
/// `AUTH_FAILURE_COOLDOWN_SECONDS` from its time and resets the count.
pub proof fn lemma_threshold_failures_lock(times: Seq<u64>)
    requires
        times.len() == AUTH_FAILURE_THRESHOLD,
        forall|i: int| 0 <= i < times.len() ==> #[trigger] times[i] <= u64::MAX - AUTH_FAILURE_COOLDOWN_MS,
    ensures
        auth_fail_run(None, times).1 == seq![false, false, false, false, true],
        auth_fail_run(None, times).0 == Some(
            AuthFailureWindow {
                failures: 0,
                cooldown_until: Some((times[4] + AUTH_FAILURE_COOLDOWN_MS) as u64),
                last_seen_at: times[4],
            },
        ),
{
    assert(times.take(0).len() == 0);
    assert(times.take(1).drop_last() =~= times.take(0));
    assert(times.take(2).drop_last() =~= times.take(1));
    assert(times.take(3).drop_last() =~= times.take(2));
    assert(times.take(4).drop_last() =~= times.take(3));
    assert(times.drop_last() =~= times.take(4));
    let r0 = auth_fail_run(None, times.take(0));
    let r1 = auth_fail_run(None, times.take(1));
    let r2 = auth_fail_run(None, times.take(2));
    let r3 = auth_fail_run(None, times.take(3));
    let r4 = auth_fail_run(None, times.take(4));
    assert(r1.0 == Some(AuthFailureWindow { failures: 1, cooldown_until: None, last_seen_at: times[0] }));
    assert(r2.0 == Some(AuthFailureWindow { failures: 2, cooldown_until: None, last_seen_at: times[1] }));
    assert(r3.0 == Some(AuthFailureWindow { failures: 3, cooldown_until: None, last_seen_at: times[2] }));
    assert(r4.0 == Some(AuthFailureWindow { failures: 4, cooldown_until: None, last_seen_at: times[3] }));
    assert(r4.1 =~= seq![false, false, false, false]);
    assert(auth_fail_run(None, times).1 =~= seq![false, false, false, false, true]);
}

/// A key whose cooldown is running is refused by both the check and a further
/// failure, and the failure does not extend the cooldown.
pub proof fn lemma_cooling_key_refused(m: Map<Seq<char>, AuthFailureWindow>, last: u64, key: Seq<char>, now: u64)
    requires
        m.contains_key(key),
        cooling(m[key], now),
    ensures
        auth_check(lookup(auth_cleanup(m, last, now).0, key), now).1,
        auth_fail(lookup(auth_cleanup(m, last, now).0, key), now).1,
        auth_fail(lookup(auth_cleanup(m, last, now).0, key), now).0.cooldown_until == m[key].cooldown_until,
{
    let m1 = auth_cleanup(m, last, now).0;
    assert(m1.contains_key(key) && m1[key] == m[key]);
}

/// A key whose failures started a cooldown until `d` is reported cooling down
/// by every check before `d` (each check keeps the cooldown as it is) and by
/// none from `d` on, when its count starts over.
pub proof fn lemma_cooldown_answers(w: AuthFailureWindow, d: u64, now: u64)
    requires
        w.cooldown_until == Some(d),
    ensures
        auth_check(Some(w), now).1 == (now < d),
        now < d ==> auth_check(Some(w), now).0 == Some(
            AuthFailureWindow { failures: w.failures, cooldown_until: Some(d), last_seen_at: now },
        ),
        d <= now ==> auth_check(Some(w), now).0 == Some(
            AuthFailureWindow { failures: 0, cooldown_until: None, last_seen_at: now },
        ),
{
}

/// Once its cooldown has ended, a key is no longer cooling down and its count starts over.
pub proof fn lemma_cooldown_ends(w: AuthFailureWindow, now: u64)
    requires
        w.cooldown_until matches Some(d) && d <= now,
    ensures
        auth_check(Some(w), now) == (Some(AuthFailureWindow { failures: 0, cooldown_until: None, last_seen_at: now }), false),
{
}

/// A failure counted for one client leaves the window of every other client as
/// the cleanup left it (unless the table was full, when the least recently seen
/// client makes room), and the cleanup never drops a client that is cooling down.
pub proof fn lemma_failures_of_others_are_kept(
    m: Map<Seq<char>, AuthFailureWindow>,
    last: u64,
    key: Seq<char>,
    other: Seq<char>,
    now: u64,
)
    requires
        other != key,
    ensures
        ({
            let m1 = auth_cleanup(m, last, now).0;
            let w = auth_fail(lookup(m1, key), now).0;
            (m1.contains_key(key) || m1.len() < MAX_TRACKED_KEYS) ==> lookup(m1.insert(key, w), other) == lookup(
                m1,
                other,
            )
        }),
        m.contains_key(other) && cooling(m[other], now) ==> lookup(auth_cleanup(m, last, now).0, other) == Some(
            m[other],
        ),
{
}

/// After `reset`, a key is not cooling down.
pub proof fn lemma_reset_forgets(m: Map<Seq<char>, AuthFailureWindow>, last: u64, key: Seq<char>, now: u64)
    ensures
        auth_check(lookup(auth_cleanup(m.remove(key), last, now).0, key), now).1 == false,
{
    let m1 = auth_cleanup(m.remove(key), last, now).0;
    assert(!m1.contains_key(key));
}

} // verus!
