//! Server-side state and request gates: accepted host names, cached
//! subscription information, events, and the rate-limit and authentication
//! decisions taken for each request.
use vstd::prelude::*;
use crate::clock::now_rfc3339;
use crate::error::CoreError;
use crate::security::{
    auth_check, auth_cleanup, auth_fail, elapsed, lookup, rate_cleanup, rate_decision, AuthFailures, RateLimiter,
};
use crate::table::KeyedTable;
use crate::text::{chars_eq_str, chars_of, decimal, decimal_exec, has_prefix, starts_with_str, string_from_str, string_of};
use crate::uri::{concat, opt_str_view};
use crate::web::{
    extract_profile_id_from_path, extract_query_param, is_profile_read_endpoint, parse_bearer_token, spec_bearer_token,
    spec_profile_id, spec_profile_read, spec_query_param, sview,
};

verus! {

pub const MANAGEMENT_RATE_LIMIT_PER_SECOND: u32 = 30;
pub const SUBSCRIPTION_RATE_LIMIT_PER_SECOND: u32 = 10;
pub const PROFILE_CACHE_TTL_SECONDS: u64 = 60;
pub const MAX_PLUGIN_UPLOAD_BYTES: usize = 10485760;
/// The window of the request rate limits: one second.
pub const RATE_LIMIT_WINDOW_MS: u64 = 1000;

// ---------------------------------------------------------------------------
// Host names
// ---------------------------------------------------------------------------

/// The `Host` values the server answers: the loopback names, bare or with the
/// listening port.
pub open spec fn allowed_hosts(port: u16) -> Set<Seq<char>> {
    set![
        "127.0.0.1"@,
        "localhost"@,
        "[::1]"@,
        "127.0.0.1:"@ + decimal(port as nat),
        "localhost:"@ + decimal(port as nat),
        "[::1]:"@ + decimal(port as nat),
    ]
}

/// The accepted `Host` header values.
#[derive(Debug, Clone)]
pub struct HostValidationState {
    allowed_hosts: Vec<String>,
}

impl View for HostValidationState {
    type V = Set<Seq<char>>;

    closed spec fn view(&self) -> Set<Seq<char>> {
        self.allowed_hosts@.map_values(|h: String| h@).to_set()
    }
}

impl HostValidationState {
    pub fn new(port: u16) -> (r: HostValidationState)
        ensures
            r@ == allowed_hosts(port),
    {
        let digits = decimal_exec(port as u64);
        let port_text = string_of(digits.as_slice());
        let mut hosts: Vec<String> = Vec::new();
        let names: [&str; 3] = ["127.0.0.1", "localhost", "[::1]"];
        let mut i: usize = 0;
        while i < 3
            invariant
                i <= 3,
                port_text@ == decimal(port as nat),
                names@ == seq!["127.0.0.1", "localhost", "[::1]"],
                hosts@.len() == 2 * i,
                forall|k: int|
                    0 <= k < i ==> hosts@[2 * k]@ == names@[k]@ && hosts@[2 * k + 1]@ == names@[k]@ + ":"@ + decimal(
                        port as nat,
                    ),
            decreases 3 - i,
        {
            hosts.push(string_from_str(names[i]));
            let with_colon = concat(names[i], ":");
            hosts.push(concat(with_colon.as_str(), port_text.as_str()));
            i = i + 1;
        }
        let r = HostValidationState { allowed_hosts: hosts };
        proof {
            let s = hosts@.map_values(|h: String| h@);
            assert(s =~= seq![
                "127.0.0.1"@,
                "127.0.0.1"@ + ":"@ + decimal(port as nat),
                "localhost"@,
                "localhost"@ + ":"@ + decimal(port as nat),
                "[::1]"@,
                "[::1]"@ + ":"@ + decimal(port as nat),
            ]);
            reveal_strlit(":");
            reveal_strlit("127.0.0.1");
            reveal_strlit("127.0.0.1:");
            reveal_strlit("localhost");
            reveal_strlit("localhost:");
            reveal_strlit("[::1]");
            reveal_strlit("[::1]:");
            assert("127.0.0.1"@ + ":"@ =~= "127.0.0.1:"@);
            assert("localhost"@ + ":"@ =~= "localhost:"@);
            assert("[::1]"@ + ":"@ =~= "[::1]:"@);
            assert(s.to_set() =~= allowed_hosts(port)) by {
                assert forall|x: Seq<char>| s.to_set().contains(x) <==> allowed_hosts(port).contains(x) by {
                    if allowed_hosts(port).contains(x) {
                        if x == "127.0.0.1"@ { assert(s[0] == x); }
                        if x == "127.0.0.1:"@ + decimal(port as nat) { assert(s[1] == x); }
                        if x == "localhost"@ { assert(s[2] == x); }
                        if x == "localhost:"@ + decimal(port as nat) { assert(s[3] == x); }
                        if x == "[::1]"@ { assert(s[4] == x); }
                        if x == "[::1]:"@ + decimal(port as nat) { assert(s[5] == x); }
                    }
                }
            }
        }
        r
    }

    /// Whether a (normalised) `Host` header value is accepted.
    pub fn is_allowed(&self, host_header: &str) -> (r: bool)
        ensures
            r == self@.contains(host_header@),
    {
        let ghost s = self.allowed_hosts@.map_values(|h: String| h@);
        let mut i: usize = 0;
        while i < self.allowed_hosts.len()
            invariant
                i <= self.allowed_hosts@.len(),
                s == self.allowed_hosts@.map_values(|h: String| h@),
                forall|k: int| 0 <= k < i ==> s[k] != host_header@,
            decreases self.allowed_hosts.len() - i,
        {
            let c = chars_of(self.allowed_hosts[i].as_str());
            if chars_eq_str(c.as_slice(), host_header) {
                assert(s[i as int] == host_header@);
                return true;
            }
            i = i + 1;
        }
        assert(!s.contains(host_header@));
        false
    }
}

// ---------------------------------------------------------------------------
// Subscription information per source
// ---------------------------------------------------------------------------

/// The last `subscription-userinfo` header of each source.
#[derive(Debug)]
pub struct SourceUserinfoCache {
    inner: KeyedTable<String>,
}

/// The cache after `set`: the value stored, or the source forgotten.
pub open spec fn userinfo_set(m: Map<Seq<char>, Seq<char>>, source_id: Seq<char>, userinfo: Option<Seq<char>>) -> Map<
    Seq<char>,
    Seq<char>,
> {
    match userinfo {
        Some(v) => m.insert(source_id, v),
        None => m.remove(source_id),
    }
}

impl View for SourceUserinfoCache {
    type V = Map<Seq<char>, Seq<char>>;

    closed spec fn view(&self) -> Map<Seq<char>, Seq<char>> {
        self.inner@.map_values(|s: String| s@)
    }
}

impl SourceUserinfoCache {
    pub closed spec fn wf(&self) -> bool {
        self.inner.wf()
    }

    pub fn new() -> (r: SourceUserinfoCache)
        ensures
            r.wf(),
            r@ == Map::<Seq<char>, Seq<char>>::empty(),
    {
        let r = SourceUserinfoCache { inner: KeyedTable::new() };
        assert(r@ =~= Map::<Seq<char>, Seq<char>>::empty());
        r
    }

    /// Stores the information of a source, or forgets it when there is none.
    pub fn set(&mut self, source_id: &str, userinfo: Option<String>)
        requires
            old(self).wf(),
        ensures
            final(self).wf(),
            final(self)@ == userinfo_set(old(self)@, source_id@, opt_str_view(userinfo)),
    {
        match userinfo {
            Some(value) => {
                let ghost v = value@;
                self.inner.insert(string_from_str(source_id), value);
                assert(self@ =~= old(self)@.insert(source_id@, v));
            },
            None => {
                self.inner.remove(source_id);
                assert(self@ =~= old(self)@.remove(source_id@));
            },
        }
    }

    pub fn get(&self, source_id: &str) -> (r: Option<String>)
        requires
            self.wf(),
        ensures
            opt_str_view(r) == lookup(self@, source_id@),
    {
        match self.inner.get(source_id) {
            Some(v) => Some(v.clone()),
            None => None,
        }
    }
}

/// What `get` returns after `set` is what was set; other sources keep theirs.
pub proof fn lemma_userinfo_read_after_write(
    m: Map<Seq<char>, Seq<char>>,
    source_id: Seq<char>,
    userinfo: Option<Seq<char>>,
    other: Seq<char>,
)
    ensures
        lookup(userinfo_set(m, source_id, userinfo), source_id) == userinfo,
        other != source_id ==> lookup(userinfo_set(m, source_id, userinfo), other) == lookup(m, other),
{
}

// ---------------------------------------------------------------------------
// Exported profiles
// ---------------------------------------------------------------------------

/// What a profile's cached export was built from, kept for a time-to-live
/// after it was stored; times are milliseconds on a monotonic clock.
#[derive(Debug)]
pub struct ProfileCache<E> {
    inner: KeyedTable<(E, u64)>,
}

impl<E> View for ProfileCache<E> {
    type V = Map<Seq<char>, (E, u64)>;

    closed spec fn view(&self) -> Map<Seq<char>, (E, u64)> {
        self.inner@
    }
}

/// The cached value of `profile_id`, if it was stored at most `ttl_ms` ago.
pub open spec fn fresh_value<E>(m: Map<Seq<char>, (E, u64)>, profile_id: Seq<char>, ttl_ms: u64, now: u64) -> Option<E> {
    match lookup(m, profile_id) {
        Some((v, at)) => if elapsed(now, at) <= ttl_ms {
            Some(v)
        } else {
            None
        },
        None => None,
    }
}

/// The cache after a lookup: a stale entry is dropped.
pub open spec fn after_lookup<E>(m: Map<Seq<char>, (E, u64)>, profile_id: Seq<char>, ttl_ms: u64, now: u64) -> Map<
    Seq<char>,
    (E, u64),
> {
    match lookup(m, profile_id) {
        Some((v, at)) => if elapsed(now, at) <= ttl_ms {
            m
        } else {
            m.remove(profile_id)
        },
        None => m,
    }
}

impl<E: Clone> ProfileCache<E> {
    pub closed spec fn wf(&self) -> bool {
        self.inner.wf()
    }

    pub fn new() -> (r: ProfileCache<E>)
        ensures
            r.wf(),
            r@ == Map::<Seq<char>, (E, u64)>::empty(),
    {
        ProfileCache { inner: KeyedTable::new() }
    }

    /// A copy of the value cached for `profile_id` if it is still fresh at
    /// `now`; a stale value is dropped.
    pub fn get_fresh(&mut self, profile_id: &str, ttl_ms: u64, now: u64) -> (r: Option<E>)
        requires
            old(self).wf(),
        ensures
            final(self).wf(),
            final(self)@ == after_lookup(old(self)@, profile_id@, ttl_ms, now),
            r is Some <==> fresh_value(old(self)@, profile_id@, ttl_ms, now) is Some,
            r matches Some(x) ==> cloned(fresh_value(old(self)@, profile_id@, ttl_ms, now)->0, x),
    {
        let fresh = match self.inner.get(profile_id) {
            Some(entry) => Some(crate::security::elapsed_ms(now, entry.1) <= ttl_ms),
            None => None,
        };
        match fresh {
            Some(true) => match self.inner.get(profile_id) {
                Some(entry) => Some(entry.0.clone()),
                None => None,
            },
            Some(false) => {
                self.inner.remove(profile_id);
                None
            },
            None => None,
        }
    }

    /// Stores the value of `profile_id`, cached at `now`.
    pub fn insert(&mut self, profile_id: &str, value: E, now: u64)
        requires
            old(self).wf(),
        ensures
            final(self).wf(),
            final(self)@ == old(self)@.insert(profile_id@, (value, now)),
    {
        self.inner.insert(string_from_str(profile_id), (value, now));
    }

    /// Forgets the value of `profile_id`.
    pub fn invalidate(&mut self, profile_id: &str)
        requires
            old(self).wf(),
        ensures
            final(self).wf(),
            final(self)@ == old(self)@.remove(profile_id@),
    {
        self.inner.remove(profile_id);
    }

    /// Forgets the values of all the given profiles.
    pub fn invalidate_many(&mut self, profile_ids: &Vec<String>)
        requires
            old(self).wf(),
        ensures
            final(self).wf(),
            final(self)@ == old(self)@.remove_keys(crate::uri::strings_view(profile_ids@).to_set()),
    {
        let ghost ids = crate::uri::strings_view(profile_ids@);
        let mut i: usize = 0;
        while i < profile_ids.len()
            invariant
                i <= profile_ids@.len(),
                ids == crate::uri::strings_view(profile_ids@),
                self.wf(),
                self@ == old(self)@.remove_keys(ids.take(i as int).to_set()),
            decreases profile_ids.len() - i,
        {
            let ghost before = self@;
            self.inner.remove(profile_ids[i].as_str());
            proof {
                assert(ids.take(i + 1) =~= ids.take(i as int).push(ids[i as int]));
                ids.take(i as int).lemma_push_to_set_commute(ids[i as int]);
                assert(self@ =~= old(self)@.remove_keys(ids.take(i + 1).to_set()));
            }
            i = i + 1;
        }
        assert(ids.take(ids.len() as int) =~= ids);
    }
}

/// A value read back within its time-to-live is the value stored; stored
/// values of other profiles are unaffected; an invalidated profile reads nothing.
pub proof fn lemma_profile_cache_read_after_write<E>(
    m: Map<Seq<char>, (E, u64)>,
    profile_id: Seq<char>,
    value: E,
    stored_at: u64,
    other: Seq<char>,
    ttl_ms: u64,
    now: u64,
)
    ensures
        elapsed(now, stored_at) <= ttl_ms ==> fresh_value(m.insert(profile_id, (value, stored_at)), profile_id, ttl_ms, now)
            == Some(value),
        elapsed(now, stored_at) > ttl_ms ==> fresh_value(m.insert(profile_id, (value, stored_at)), profile_id, ttl_ms, now)
            is None,
        other != profile_id ==> fresh_value(m.insert(profile_id, (value, stored_at)), other, ttl_ms, now)
            == fresh_value(m, other, ttl_ms, now),
        fresh_value(m.remove(profile_id), profile_id, ttl_ms, now) is None,
{
}

// ---------------------------------------------------------------------------
// Events and results
// ---------------------------------------------------------------------------

/// A notification pushed to the clients of the event stream.
#[derive(Debug, Clone)]
pub struct ApiEvent {
    pub event: String,
    pub message: String,
    pub source_id: Option<String>,
    pub timestamp: String,
}

/// The timestamp used when the clock cannot be formatted.
pub const EPOCH_TIMESTAMP: &'static str = "1970-01-01T00:00:00Z";

/// An event stamped with the formatted clock, or the epoch when formatting failed.
pub fn api_event_at(event: &str, message: String, source_id: Option<String>, timestamp: Result<String, CoreError>) -> (r: ApiEvent)
    ensures
        r.event@ == event@,
        r.message == message,
        r.source_id == source_id,
        timestamp matches Ok(t) ==> r.timestamp == t,
        timestamp is Err ==> r.timestamp@ == EPOCH_TIMESTAMP@,
{
    ApiEvent {
        event: string_from_str(event),
        message,
        source_id,
        timestamp: match timestamp {
            Ok(t) => t,
            Err(_) => string_from_str(EPOCH_TIMESTAMP),
        },
    }
}

/// An event stamped with the current time.
pub fn build_api_event(event: &str, message: String, source_id: Option<String>) -> (r: ApiEvent)
    ensures
        r.event@ == event@,
        r.message == message,
        r.source_id == source_id,
{
    api_event_at(event, message, source_id, now_rfc3339())
}

/// The outcome of refreshing a source.
#[derive(Debug, Clone, PartialEq, Eq)]
pub struct SourceRefreshResult {
    pub refresh_job_id: String,
    pub source_id: String,
    pub node_count: usize,
    pub subscription_userinfo: Option<String>,
}

// ---------------------------------------------------------------------------
// Rate limiting
// ---------------------------------------------------------------------------

/// How a request is rate limited.
#[derive(Debug, PartialEq)]
pub enum RateLimitPlan {
    /// Not limited (health checks, preflight requests, pages).
    Skip,
    /// Counted under `key`, at most `limit` per second.
    Limit { key: String, limit: u32 },
}

/// Profile exports are counted per export token (`__missing__` without one),
/// at `SUBSCRIPTION_RATE_LIMIT_PER_SECOND`; other API calls per client, at
/// `MANAGEMENT_RATE_LIMIT_PER_SECOND`; the rest is not limited.
pub open spec fn spec_rate_plan(path: Seq<char>, is_options: bool, is_get: bool, query: Option<Seq<char>>, source_key: Seq<char>) -> Option<
    (Seq<char>, u32),
> {
    if path == "/health"@ || is_options {
        None
    } else if spec_profile_read(is_get, path) {
        Some(
            (
                "profile-read:"@ + match spec_query_param(query, "token"@) {
                    Some(t) => t,
                    None => "__missing__"@,
                },
                SUBSCRIPTION_RATE_LIMIT_PER_SECOND,
            ),
        )
    } else if has_prefix(path, "/api/"@) {
        Some(("management:"@ + source_key, MANAGEMENT_RATE_LIMIT_PER_SECOND))
    } else {
        None
    }
}

pub fn rate_limit_plan(path: &str, is_options: bool, is_get: bool, query: Option<&str>, source_key: &str) -> (r: RateLimitPlan)
    ensures
        match spec_rate_plan(path@, is_options, is_get, sview(query), source_key@) {
            None => r is Skip,
            Some((k, l)) => r matches RateLimitPlan::Limit { key, limit } && key@ == k && limit == l,
        },
{
    let c = chars_of(path);
    if chars_eq_str(c.as_slice(), "/health") || is_options {
        return RateLimitPlan::Skip;
    }
    if is_profile_read_endpoint(is_get, path) {
        let token = match extract_query_param(query, "token") {
            Some(t) => t,
            None => string_from_str("__missing__"),
        };
        return RateLimitPlan::Limit {
            key: concat("profile-read:", token.as_str()),
            limit: SUBSCRIPTION_RATE_LIMIT_PER_SECOND,
        };
    }
    if starts_with_str(c.as_slice(), "/api/") {
        return RateLimitPlan::Limit {
            key: concat("management:", source_key),
            limit: MANAGEMENT_RATE_LIMIT_PER_SECOND,
        };
    }
    RateLimitPlan::Skip
}

/// Whether a request may proceed under the rate limits, counting it at `now`.
pub fn rate_limit_gate(
    limiter: &mut RateLimiter,
    path: &str,
    is_options: bool,
    is_get: bool,
    query: Option<&str>,
    source_key: &str,
    now: u64,
) -> (r: bool)
    requires
        old(limiter).wf(),
    ensures
        final(limiter).wf(),
        match spec_rate_plan(path@, is_options, is_get, sview(query), source_key@) {
            None => r && final(limiter)@ == old(limiter)@,
            Some((k, l)) => r == rate_decision(
                lookup(rate_cleanup(old(limiter)@.windows, old(limiter)@.last_cleanup_at, now).0, k),
                l,
                RATE_LIMIT_WINDOW_MS,
                now,
            ).1,
        },
{
    match rate_limit_plan(path, is_options, is_get, query, source_key) {
        RateLimitPlan::Skip => true,
        RateLimitPlan::Limit { key, limit } => limiter.is_allowed(key.as_str(), limit, RATE_LIMIT_WINDOW_MS, now),
    }
}

// ---------------------------------------------------------------------------
// Authentication
// ---------------------------------------------------------------------------

/// Where an API request stands in authentication.
#[derive(Debug, PartialEq)]
pub enum AuthGate {
    /// Let the request through.
    Pass,
    /// Refuse: too many failures, cooling down.
    CoolingDown,
    /// Refuse: not authorised.
    Unauthorized,
    /// Ask the store whether `token` is a valid export token of the profile,
    /// then call `admin_auth_finish`.
    CheckExportToken { profile_id: String, token: String },
}

/// Requests outside the API, health checks and preflight requests need no token.
pub open spec fn auth_exempt(path: Seq<char>, is_options: bool) -> bool {
    path == "/health"@ || is_options || !has_prefix(path, "/api/"@)
}

/// The bearer token matches the administrator token.
pub open spec fn admin_matches(authorization: Option<Seq<char>>, admin_token: Option<Seq<char>>) -> bool {
    match (authorization, admin_token) {
        (Some(a), Some(t)) => spec_bearer_token(a) == Some(t),
        _ => false,
    }
}

/// The export token a profile read offers, with the profile it names.
pub open spec fn export_token_request(is_get: bool, path: Seq<char>, query: Option<Seq<char>>) -> Option<(Seq<char>, Seq<char>)> {
    if spec_profile_read(is_get, path) {
        match (spec_profile_id(path), spec_query_param(query, "token"@)) {
            (Some(id), Some(t)) => Some((id, t)),
            _ => None,
        }
    } else {
        None
    }
}

/// The failure windows after a cooldown check of `key`.
pub open spec fn checked_windows(m: Map<Seq<char>, crate::security::AuthFailureWindow>, last: u64, key: Seq<char>, now: u64) -> Map<
    Seq<char>,
    crate::security::AuthFailureWindow,
> {
    let (m1, _) = auth_cleanup(m, last, now);
    match auth_check(lookup(m1, key), now).0 {
        Some(x) => m1.insert(key, x),
        None => m1,
    }
}

/// The first step of authenticating an API request from client `source_key`:
/// exempt requests pass; a client cooling down is refused; the administrator
/// token passes and clears the client's failures; a profile read with an
/// export token asks for it to be checked; anything else counts as a failure.
pub fn admin_auth_begin(
    failures: &mut AuthFailures,
    path: &str,
    is_options: bool,
    is_get: bool,
    query: Option<&str>,
    source_key: &str,
    authorization: Option<&str>,
    admin_token: Option<&str>,
    now: u64,
) -> (r: AuthGate)
    requires
        old(failures).wf(),
        now <= u64::MAX - crate::security::AUTH_FAILURE_COOLDOWN_MS,
    ensures
        final(failures).wf(),
        auth_exempt(path@, is_options) ==> r is Pass && final(failures)@ == old(failures)@,
        !auth_exempt(path@, is_options) ==> ({
            let (m1, last1) = auth_cleanup(old(failures)@.windows, old(failures)@.last_cleanup_at, now);
            let cooling = auth_check(lookup(m1, source_key@), now).1;
            let w1 = checked_windows(old(failures)@.windows, old(failures)@.last_cleanup_at, source_key@, now);
            &&& cooling ==> r is CoolingDown && final(failures)@.windows == w1
            &&& !cooling && admin_matches(sview(authorization), sview(admin_token)) ==> r is Pass
                && final(failures)@.windows == w1.remove(source_key@)
            &&& !cooling && !admin_matches(sview(authorization), sview(admin_token)) && export_token_request(
                is_get,
                path@,
                sview(query),
            ) is Some ==> (r matches AuthGate::CheckExportToken { profile_id, token } && export_token_request(
                is_get,
                path@,
                sview(query),
            ) == Some((profile_id@, token@)) && final(failures)@.windows == w1)
            &&& !cooling && !admin_matches(sview(authorization), sview(admin_token)) && export_token_request(
                is_get,
                path@,
                sview(query),
            ) is None ==> (r is CoolingDown || r is Unauthorized) && (r is CoolingDown <==> auth_fail(
                lookup(auth_cleanup(w1, last1, now).0, source_key@),
                now,
            ).1) && crate::security::failure_recorded(w1, last1, source_key@, now, final(failures)@)
        }),
{
    let c = chars_of(path);
    if chars_eq_str(c.as_slice(), "/health") || is_options || !starts_with_str(c.as_slice(), "/api/") {
        return AuthGate::Pass;
    }
    if failures.is_in_cooldown(source_key, now) {
        return AuthGate::CoolingDown;
    }
    let admin_ok = match (authorization, admin_token) {
        (Some(a), Some(t)) => match parse_bearer_token(a) {
            Some(token) => {
                let tc = chars_of(token.as_str());
                chars_eq_str(tc.as_slice(), t)
            },
            None => false,
        },
        _ => false,
    };
    if admin_ok {
        failures.reset(source_key);
        return AuthGate::Pass;
    }
    if is_profile_read_endpoint(is_get, path) {
        if let Some(profile_id) = extract_profile_id_from_path(path) {
            if let Some(token) = extract_query_param(query, "token") {
                return AuthGate::CheckExportToken { profile_id, token };
            }
        }
    }
    if failures.record_failure(source_key, now) {
        AuthGate::CoolingDown
    } else {
        AuthGate::Unauthorized
    }
}

/// The second step, once the store has said whether the export token is valid:
/// a valid token passes and clears the client's failures; otherwise the
/// failure is counted.
pub fn admin_auth_finish(failures: &mut AuthFailures, source_key: &str, export_token_valid: bool, now: u64) -> (r: AuthGate)
    requires
        old(failures).wf(),
        now <= u64::MAX - crate::security::AUTH_FAILURE_COOLDOWN_MS,
    ensures
        final(failures).wf(),
        export_token_valid ==> r is Pass && final(failures)@.windows == old(failures)@.windows.remove(source_key@),
        !export_token_valid ==> (r is CoolingDown || r is Unauthorized) && (r is CoolingDown <==> auth_fail(
            lookup(auth_cleanup(old(failures)@.windows, old(failures)@.last_cleanup_at, now).0, source_key@),
            now,
        ).1) && crate::security::failure_recorded(
            old(failures)@.windows,
            old(failures)@.last_cleanup_at,
            source_key@,
            now,
            final(failures)@,
        ),
{
    if export_token_valid {
        failures.reset(source_key);
        return AuthGate::Pass;
    }
    if failures.record_failure(source_key, now) {
        AuthGate::CoolingDown
    } else {
        AuthGate::Unauthorized
    }
}

// ---------------------------------------------------------------------------
// Refresh logs and status
// ---------------------------------------------------------------------------

pub const DEFAULT_LOG_LIMIT: usize = 20;
pub const MAX_LOG_LIMIT: usize = 200;

/// Which store query lists the refresh jobs.
#[derive(Debug, PartialEq, Eq, Clone, Copy, Structural)]
pub enum LogsQueryKind {
    /// The latest jobs with a status (no source filter, first page).
    RecentByStatus,
    /// The latest jobs (no filter, first page).
    Recent,
    /// Any filter or page.
    Filtered,
}

/// A validated listing of refresh logs.
#[derive(Debug)]
pub struct LogsPlan {
    pub limit: usize,
    pub offset: usize,
    pub status: Option<String>,
    pub source_id: Option<String>,
    pub kind: LogsQueryKind,
}

/// A trimmed, non-empty filter value.
pub open spec fn filter_value(v: Option<Seq<char>>) -> Option<Seq<char>> {
    match v {
        Some(s) => if crate::text::trim(s).len() > 0 {
            Some(crate::text::trim(s))
        } else {
            None
        },
        None => None,
    }
}

pub open spec fn known_status(s: Seq<char>) -> bool {
    s == "running"@ || s == "success"@ || s == "failed"@
}

fn filter_value_exec(v: Option<&str>) -> (r: Option<String>)
    ensures
        opt_str_view(r) == filter_value(sview(v)),
{
    match v {
        Some(s) => {
            let c = chars_of(s);
            let t = crate::text::trim_chars(c.as_slice());
            if t.len() > 0 {
                Some(string_of(t.as_slice()))
            } else {
                None
            }
        },
        None => None,
    }
}

/// Validates a listing request: `limit` (default 20) within 1..=200, `offset`
/// (default 0), a known `status` if any; and chooses the query.
pub fn plan_logs_query(limit: Option<usize>, offset: Option<usize>, status: Option<&str>, source_id: Option<&str>) -> (r: Result<LogsPlan, String>)
    ensures
        ({
            let l = match limit {
                Some(x) => x,
                None => DEFAULT_LOG_LIMIT,
            };
            let st = filter_value(sview(status));
            &&& r is Ok <==> (1 <= l <= MAX_LOG_LIMIT && (st matches Some(x) ==> known_status(x)))
            &&& r matches Ok(p) ==> p.limit == l && p.offset == (match offset {
                Some(o) => o,
                None => 0,
            }) && opt_str_view(p.status) == st && opt_str_view(p.source_id) == filter_value(sview(source_id)) && (
            p.kind == if p.source_id is None && p.offset == 0 && p.status is Some {
                LogsQueryKind::RecentByStatus
            } else if p.source_id is None && p.offset == 0 {
                LogsQueryKind::Recent
            } else {
                LogsQueryKind::Filtered
            })
            &&& r matches Err(m) ==> m@ == if !(1 <= l <= MAX_LOG_LIMIT) {
                "limit 必须在 1..=200 之间"@
            } else {
                "status 仅支持 running/success/failed"@
            }
        }),
{
    let limit = match limit {
        Some(l) => l,
        None => DEFAULT_LOG_LIMIT,
    };
    if limit == 0 || limit > MAX_LOG_LIMIT {
        return Err(string_from_str("limit 必须在 1..=200 之间"));
    }
    let offset = match offset {
        Some(o) => o,
        None => 0,
    };
    let status = filter_value_exec(status);
    if let Some(s) = &status {
        let c = chars_of(s.as_str());
        if !(chars_eq_str(c.as_slice(), "running") || chars_eq_str(c.as_slice(), "success") || chars_eq_str(
            c.as_slice(),
            "failed",
        )) {
            return Err(string_from_str("status 仅支持 running/success/failed"));
        }
    }
    let source_id = filter_value_exec(source_id);
    let kind = if source_id.is_none() && offset == 0 && status.is_some() {
        LogsQueryKind::RecentByStatus
    } else if source_id.is_none() && offset == 0 {
        LogsQueryKind::Recent
    } else {
        LogsQueryKind::Filtered
    };
    Ok(LogsPlan { limit, offset, status, source_id, kind })
}

/// The name listed with a refresh log: that of the source with the log's
/// source id (the last such entry of `sources`, given as `(id, name)` pairs).
pub open spec fn spec_source_name(sources: Seq<(Seq<char>, Seq<char>)>, id: Seq<char>) -> Option<Seq<char>>
    decreases sources.len(),
{
    if sources.len() == 0 {
        None
    } else if sources.last().0 == id {
        Some(sources.last().1)
    } else {
        spec_source_name(sources.drop_last(), id)
    }
}

pub fn log_source_name(sources: &Vec<(String, String)>, source_id: &str) -> (r: Option<String>)
    ensures
        opt_str_view(r) == spec_source_name(crate::codec::pairs_view(sources@), source_id@),
{
    let ghost pv = crate::codec::pairs_view(sources@);
    let mut i: usize = sources.len();
    assert(pv.take(pv.len() as int) =~= pv);
    while i > 0
        invariant
            i <= sources@.len(),
            pv == crate::codec::pairs_view(sources@),
            pv.len() == sources@.len(),
            spec_source_name(pv, source_id@) == spec_source_name(pv.take(i as int), source_id@),
        decreases i,
    {
        assert(pv.take(i as int).last() == (sources@[i - 1].0@, sources@[i - 1].1@));
        assert(pv.take(i as int).drop_last() =~= pv.take(i - 1));
        let c = chars_of(sources[i - 1].0.as_str());
        if chars_eq_str(c.as_slice(), source_id) {
            return Some(string_from_str(sources[i - 1].1.as_str()));
        }
        i = i - 1;
    }
    None
}

/// Whether more logs follow the page: `offset + limit` (saturating) is below the total.
pub fn logs_has_more(offset: usize, limit: usize, total: usize) -> (r: bool)
    ensures
        r == (if offset + limit > usize::MAX {
            usize::MAX as int
        } else {
            offset + limit
        } < total),
{
    offset.saturating_add(limit) < total
}

/// The number of sources not `disabled`.
pub open spec fn active_count(statuses: Seq<Seq<char>>) -> nat
    decreases statuses.len(),
{
    if statuses.len() == 0 {
        0
    } else {
        active_count(statuses.drop_last()) + if statuses.last() == "disabled"@ {
            0nat
        } else {
            1nat
        }
    }
}

pub fn count_active_sources(statuses: &Vec<String>) -> (r: usize)
    ensures
        r == active_count(crate::uri::strings_view(statuses@)),
{
    let ghost sv = crate::uri::strings_view(statuses@);
    let mut n: usize = 0;
    let mut i: usize = 0;
    while i < statuses.len()
        invariant
            i <= statuses@.len(),
            sv == crate::uri::strings_view(statuses@),
            n == active_count(sv.take(i as int)),
            n <= i,
        decreases statuses.len() - i,
    {
        proof {
            assert(sv.take(i + 1).drop_last() =~= sv.take(i as int));
            assert(sv.take(i + 1).last() == statuses@[i as int]@);
        }
        let c = chars_of(statuses[i].as_str());
        if !chars_eq_str(c.as_slice(), "disabled") {
            n = n + 1;
        }
        i = i + 1;
    }
    assert(sv.take(sv.len() as int) =~= sv);
    n
}

/// The sum of the counts, saturating at `usize::MAX`.
pub open spec fn saturating_total(counts: Seq<usize>) -> int
    decreases counts.len(),
{
    if counts.len() == 0 {
        0
    } else {
        let t = saturating_total(counts.drop_last()) + counts.last();
        if t > usize::MAX {
            usize::MAX as int
        } else {
            t
        }
    }
}

pub fn total_node_count(counts: &Vec<usize>) -> (r: usize)
    ensures
        r == saturating_total(counts@),
{
    let mut total: usize = 0;
    let mut i: usize = 0;
    while i < counts.len()
        invariant
            i <= counts@.len(),
            total == saturating_total(counts@.take(i as int)),
        decreases counts.len() - i,
    {
        proof {
            assert(counts@.take(i + 1).drop_last() =~= counts@.take(i as int));
        }
        total = total.saturating_add(counts[i]);
        i = i + 1;
    }
    assert(counts@.take(counts@.len() as int) =~= counts@);
    total
}

// ---------------------------------------------------------------------------
// Error replies
// ---------------------------------------------------------------------------

/// The answer to a failed API request: the HTTP status, the error code, the
/// message shown, and whether the client may retry.
#[derive(Debug)]
pub struct ErrorReply {
    pub status: u16,
    pub code: String,
    pub message: String,
    pub retryable: bool,
}

fn reply(status: u16, code: &str, message: &str, retryable: bool) -> (r: ErrorReply)
    ensures
        r.status == status && r.code@ == code@ && r.message@ == message@ && r.retryable == retryable,
{
    ErrorReply { status, code: string_from_str(code), message: string_from_str(message), retryable }
}

/// 500 `E_INTERNAL` "Internal server error", retryable; nothing of the cause is shown.
pub fn internal_error_response() -> (r: ErrorReply)
    ensures
        r.status == 500 && r.code@ == "E_INTERNAL"@ && r.message@ == "Internal server error"@ && r.retryable,
{
    reply(500, "E_INTERNAL", "Internal server error", true)
}

/// 401 `E_AUTH` "Unauthorized".
pub fn unauthorized_error_response() -> (r: ErrorReply)
    ensures
        r.status == 401 && r.code@ == "E_AUTH"@ && r.message@ == "Unauthorized"@ && !r.retryable,
{
    reply(401, "E_AUTH", "Unauthorized", false)
}

/// 404 `E_NOT_FOUND` with the message.
pub fn not_found_error_response(message: &str) -> (r: ErrorReply)
    ensures
        r.status == 404 && r.code@ == "E_NOT_FOUND"@ && r.message@ == message@ && !r.retryable,
{
    reply(404, "E_NOT_FOUND", message, false)
}

/// 400 `E_CONFIG_INVALID` with the message.
pub fn config_error_response(message: &str) -> (r: ErrorReply)
    ensures
        r.status == 400 && r.code@ == "E_CONFIG_INVALID"@ && r.message@ == message@ && !r.retryable,
{
    reply(400, "E_CONFIG_INVALID", message, false)
}

/// The status, the message and the retry flag of a library error's reply:
/// configuration and parse errors are 400, a failed download 502 (retryable),
/// a script failure 400 (retryable); a clock failure is an internal error
/// whose cause is not shown.
pub open spec fn core_error_reply(e: CoreError) -> (u16, Seq<char>, bool) {
    match e {
        CoreError::ConfigInvalid(m) => (400, m@, false),
        CoreError::SubscriptionParse(m) => (400, m@, false),
        CoreError::SubscriptionFetch(m) => (502, m@, true),
        CoreError::ScriptRuntime(m) => (400, m@, true),
        CoreError::TimeFormat(_) => (500, "Internal server error"@, true),
    }
}

/// The reply to a library error, `code` being the error's code; an internal
/// error is answered with `E_INTERNAL` whatever its code.
pub fn core_error_to_response(error: &CoreError, code: &str) -> (r: ErrorReply)
    ensures
        (r.status, r.message@, r.retryable) == core_error_reply(*error),
        r.code@ == if error is TimeFormat {
            "E_INTERNAL"@
        } else {
            code@
        },
{
    match error {
        CoreError::ConfigInvalid(m) => reply(400, code, m.as_str(), false),
        CoreError::SubscriptionParse(m) => reply(400, code, m.as_str(), false),
        CoreError::SubscriptionFetch(m) => reply(502, code, m.as_str(), true),
        CoreError::ScriptRuntime(m) => reply(400, code, m.as_str(), true),
        CoreError::TimeFormat(_) => internal_error_response(),
    }
}

} // verus!
