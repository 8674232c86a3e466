use subforge_core::error::CoreError;
use subforge_core::security::{
    elapsed_ms, ensure_auth_capacity, ensure_rate_capacity, maybe_cleanup_auth_windows, maybe_cleanup_rate_windows,
    AuthFailures, RateLimiter, AUTH_FAILURE_COOLDOWN_MS, MAX_TRACKED_KEYS,
};
use subforge_core::server::{
    config_error_response, core_error_to_response, internal_error_response, not_found_error_response,
    unauthorized_error_response,
    admin_auth_begin, admin_auth_finish, api_event_at, build_api_event, count_active_sources, log_source_name, logs_has_more,
    plan_logs_query, rate_limit_gate, rate_limit_plan, total_node_count, AuthGate, HostValidationState,
    LogsQueryKind, ProfileCache, RateLimitPlan, SourceUserinfoCache, EPOCH_TIMESTAMP, MANAGEMENT_RATE_LIMIT_PER_SECOND,
    SUBSCRIPTION_RATE_LIMIT_PER_SECOND,
};

const T0: u64 = 1_000_000;

fn begin(failures: &mut AuthFailures, key: &str, authorization: Option<&str>, now: u64) -> AuthGate {
    admin_auth_begin(
        failures,
        "/api/plugins",
        false,
        true,
        None,
        key,
        authorization,
        Some("test-admin-token"),
        now,
    )
}

#[test]
fn elapsed_time_never_goes_negative() {
    assert_eq!(elapsed_ms(10, 4), 6);
    assert_eq!(elapsed_ms(4, 10), 0);
}

#[test]
fn rate_limiter_allows_the_limit_per_window() {
    let mut limiter = RateLimiter::new(T0);
    for _ in 0..3 {
        assert!(limiter.is_allowed("k", 3, 1000, T0 + 10));
    }
    assert!(!limiter.is_allowed("k", 3, 1000, T0 + 20));
    assert!(!limiter.is_allowed("k", 3, 1000, T0 + 999));
    assert!(limiter.is_allowed("other", 3, 1000, T0 + 30));
    assert!(limiter.is_allowed("k", 3, 1000, T0 + 1010));
    assert_eq!(limiter.tracked_keys(), 2);
}

#[test]
fn rate_limiter_drops_stale_windows_on_cleanup() {
    let mut limiter = RateLimiter::new(T0);
    assert!(limiter.is_allowed("old", 1, 1000, T0));
    assert!(limiter.is_allowed("fresh", 1, 1000, T0 + 299_000));
    maybe_cleanup_rate_windows(&mut limiter, T0 + 301_000);
    assert_eq!(limiter.tracked_keys(), 2);
    maybe_cleanup_rate_windows(&mut limiter, T0 + 329_001);
    assert_eq!(limiter.tracked_keys(), 1);
    assert!(!limiter.is_allowed("fresh", 1, 1_000_000, T0 + 329_500));
}

#[test]
fn rate_limiter_never_tracks_more_than_the_cap() {
    let mut limiter = RateLimiter::new(T0);
    for i in 0..(MAX_TRACKED_KEYS + 5) {
        assert!(limiter.is_allowed(&format!("key-{i}"), 1, 1000, T0 + 1));
    }
    assert_eq!(limiter.tracked_keys(), MAX_TRACKED_KEYS);
    ensure_rate_capacity(&mut limiter);
    assert!(limiter.tracked_keys() < MAX_TRACKED_KEYS);
}

#[test]
fn five_failures_start_a_cooldown() {
    let mut failures = AuthFailures::new(T0);
    for i in 0..4 {
        assert!(!failures.record_failure("k", T0 + i));
        assert!(!failures.is_in_cooldown("k", T0 + i));
    }
    assert!(failures.record_failure("k", T0 + 4));
    assert!(failures.is_in_cooldown("k", T0 + 5));
    assert!(failures.record_failure("k", T0 + 6));
    assert!(!failures.is_in_cooldown("other", T0 + 6));
    assert!(failures.is_in_cooldown("k", T0 + 4 + AUTH_FAILURE_COOLDOWN_MS - 1));
    assert!(!failures.is_in_cooldown("k", T0 + 4 + AUTH_FAILURE_COOLDOWN_MS));
    assert!(!failures.record_failure("k", T0 + 4 + AUTH_FAILURE_COOLDOWN_MS + 1));
}

#[test]
fn reset_forgets_failures() {
    let mut failures = AuthFailures::new(T0);
    for i in 0..4 {
        failures.record_failure("k", T0 + i);
    }
    failures.reset("k");
    for i in 0..4 {
        assert!(!failures.record_failure("k", T0 + 10 + i));
    }
    failures.reset_all();
    assert_eq!(failures.tracked_keys(), 0);
}

#[test]
fn auth_failure_windows_are_cleaned() {
    let mut failures = AuthFailures::new(T0);
    failures.record_failure("old", T0);
    failures.record_failure("new", T0 + 299_000);
    maybe_cleanup_auth_windows(&mut failures, T0 + 301_000);
    assert_eq!(failures.tracked_keys(), 2);
    maybe_cleanup_auth_windows(&mut failures, T0 + 329_001);
    assert_eq!(failures.tracked_keys(), 1);
    ensure_auth_capacity(&mut failures);
    assert_eq!(failures.tracked_keys(), 1);
}

#[test]
fn hosts_are_the_loopback_names() {
    let hosts = HostValidationState::new(18118);
    for host in ["127.0.0.1", "127.0.0.1:18118", "localhost", "localhost:18118", "[::1]", "[::1]:18118"] {
        assert!(hosts.is_allowed(host));
    }
    assert!(!hosts.is_allowed("evil.com"));
    assert!(!hosts.is_allowed("127.0.0.1:8080"));
    assert!(!hosts.is_allowed(""));
}

#[test]
fn userinfo_cache_reads_what_was_written() {
    let mut cache = SourceUserinfoCache::new();
    cache.set("a", Some("upload=1".to_string()));
    cache.set("b", Some("upload=2".to_string()));
    assert_eq!(cache.get("a"), Some("upload=1".to_string()));
    cache.set("a", Some("upload=3".to_string()));
    assert_eq!(cache.get("a"), Some("upload=3".to_string()));
    cache.set("a", None);
    assert_eq!(cache.get("a"), None);
    assert_eq!(cache.get("b"), Some("upload=2".to_string()));
}

#[test]
fn events_fall_back_to_the_epoch() {
    let event = api_event_at(
        "source.refreshed",
        "ok".to_string(),
        Some("s1".to_string()),
        Err(CoreError::TimeFormat("x".to_string())),
    );
    assert_eq!(event.timestamp, EPOCH_TIMESTAMP);
    assert_eq!(event.event, "source.refreshed");
    let event = api_event_at("e", "m".to_string(), None, Ok("2026-01-01T00:00:00Z".to_string()));
    assert_eq!(event.timestamp, "2026-01-01T00:00:00Z");
    let live = build_api_event("e", "m".to_string(), None);
    assert!(live.timestamp.ends_with('Z'));
    assert_eq!(live.source_id, None);
}

#[test]
fn rate_limit_plans() {
    assert_eq!(rate_limit_plan("/health", false, true, None, "peer:x"), RateLimitPlan::Skip);
    assert_eq!(rate_limit_plan("/api/plugins", true, false, None, "peer:x"), RateLimitPlan::Skip);
    assert_eq!(rate_limit_plan("/index.html", false, true, None, "peer:x"), RateLimitPlan::Skip);
    assert_eq!(
        rate_limit_plan("/api/profiles/p1/clash", false, true, Some("token=t1"), "peer:x"),
        RateLimitPlan::Limit { key: "profile-read:t1".to_string(), limit: SUBSCRIPTION_RATE_LIMIT_PER_SECOND }
    );
    assert_eq!(
        rate_limit_plan("/api/profiles/p1/raw", false, true, None, "peer:x"),
        RateLimitPlan::Limit { key: "profile-read:__missing__".to_string(), limit: SUBSCRIPTION_RATE_LIMIT_PER_SECOND }
    );
    assert_eq!(
        rate_limit_plan("/api/plugins", false, true, None, "peer:x"),
        RateLimitPlan::Limit { key: "management:peer:x".to_string(), limit: MANAGEMENT_RATE_LIMIT_PER_SECOND }
    );
}

#[test]
fn management_rate_limit_isolated_by_client() {
    let mut limiter = RateLimiter::new(T0);
    for _ in 0..MANAGEMENT_RATE_LIMIT_PER_SECOND {
        assert!(rate_limit_gate(&mut limiter, "/api/plugins", false, true, None, "peer:203.0.113.20:40000", T0));
    }
    assert!(!rate_limit_gate(&mut limiter, "/api/plugins", false, true, None, "peer:203.0.113.20:40000", T0));
    assert!(rate_limit_gate(&mut limiter, "/api/plugins", false, true, None, "peer:203.0.113.21:40000", T0));
    assert!(rate_limit_gate(&mut limiter, "/health", false, true, None, "peer:203.0.113.20:40000", T0));
    assert!(rate_limit_gate(&mut limiter, "/api/plugins", false, true, None, "peer:203.0.113.20:40000", T0 + 1000));
}

#[test]
fn wrong_tokens_lock_the_client_out_after_five_attempts() {
    let mut failures = AuthFailures::new(T0);
    for i in 0..4 {
        assert_eq!(begin(&mut failures, "peer:a", Some("Bearer wrong-token"), T0 + i), AuthGate::Unauthorized);
    }
    assert_eq!(begin(&mut failures, "peer:a", Some("Bearer wrong-token"), T0 + 4), AuthGate::CoolingDown);
    assert_eq!(begin(&mut failures, "peer:a", Some("Bearer test-admin-token"), T0 + 5), AuthGate::CoolingDown);
    assert_eq!(begin(&mut failures, "peer:b", Some("Bearer wrong-token"), T0 + 6), AuthGate::Unauthorized);
    assert_eq!(begin(&mut failures, "peer:a", None, T0 + 4 + AUTH_FAILURE_COOLDOWN_MS), AuthGate::Unauthorized);
}

#[test]
fn admin_token_passes_and_clears_failures() {
    let mut failures = AuthFailures::new(T0);
    for i in 0..4 {
        begin(&mut failures, "peer:a", Some("Bearer nope"), T0 + i);
    }
    assert_eq!(begin(&mut failures, "peer:a", Some("Bearer test-admin-token"), T0 + 5), AuthGate::Pass);
    assert_eq!(begin(&mut failures, "peer:a", Some("Bearer nope"), T0 + 6), AuthGate::Unauthorized);
}

#[test]
fn exempt_requests_pass_without_a_token() {
    let mut failures = AuthFailures::new(T0);
    for (path, is_options) in [("/health", false), ("/api/plugins", true), ("/", false)] {
        let gate = admin_auth_begin(&mut failures, path, is_options, true, None, "peer:a", None, None, T0);
        assert_eq!(gate, AuthGate::Pass);
    }
    assert_eq!(failures.tracked_keys(), 0);
}

#[test]
fn export_tokens_are_checked_by_the_store() {
    let mut failures = AuthFailures::new(T0);
    let gate = admin_auth_begin(
        &mut failures,
        "/api/profiles/p1/clash",
        false,
        true,
        Some("token=export-1"),
        "peer:a",
        None,
        Some("admin"),
        T0,
    );
    assert_eq!(
        gate,
        AuthGate::CheckExportToken { profile_id: "p1".to_string(), token: "export-1".to_string() }
    );
    assert_eq!(admin_auth_finish(&mut failures, "peer:a", true, T0), AuthGate::Pass);
    assert_eq!(admin_auth_finish(&mut failures, "peer:a", false, T0), AuthGate::Unauthorized);
}

#[test]
fn log_queries_are_validated() {
    let plan = plan_logs_query(None, None, None, None).unwrap();
    assert_eq!((plan.limit, plan.offset, plan.kind), (20, 0, LogsQueryKind::Recent));
    let plan = plan_logs_query(Some(5), None, Some(" success "), None).unwrap();
    assert_eq!(plan.status.as_deref(), Some("success"));
    assert_eq!(plan.kind, LogsQueryKind::RecentByStatus);
    let plan = plan_logs_query(Some(5), Some(10), None, Some("s1")).unwrap();
    assert_eq!(plan.kind, LogsQueryKind::Filtered);
    assert_eq!(plan.source_id.as_deref(), Some("s1"));
    let plan = plan_logs_query(Some(200), None, Some("  "), Some("  ")).unwrap();
    assert_eq!((plan.status, plan.source_id, plan.kind), (None, None, LogsQueryKind::Recent));
    assert_eq!(plan_logs_query(Some(0), None, None, None).unwrap_err(), "limit 必须在 1..=200 之间");
    assert_eq!(plan_logs_query(Some(201), None, Some("done"), None).unwrap_err(), "limit 必须在 1..=200 之间");
    assert_eq!(plan_logs_query(None, None, Some("done"), None).unwrap_err(), "status 仅支持 running/success/failed");
    assert!(logs_has_more(0, 20, 21));
    assert!(!logs_has_more(0, 20, 20));
    assert!(!logs_has_more(usize::MAX, 20, usize::MAX));
}

#[test]
fn logs_list_the_source_name() {
    let sources = vec![
        ("s1".to_string(), "First".to_string()),
        ("s2".to_string(), "Second".to_string()),
        ("s1".to_string(), "Renamed".to_string()),
    ];
    assert_eq!(log_source_name(&sources, "s1").as_deref(), Some("Renamed"));
    assert_eq!(log_source_name(&sources, "s2").as_deref(), Some("Second"));
    assert_eq!(log_source_name(&sources, "s3"), None);
}

#[test]
fn counts_of_sources_and_nodes() {
    let statuses = vec!["active".to_string(), "disabled".to_string(), "error".to_string()];
    assert_eq!(count_active_sources(&statuses), 2);
    assert_eq!(total_node_count(&vec![3, 4, 5]), 12);
    assert_eq!(total_node_count(&vec![usize::MAX, 1]), usize::MAX);
    assert_eq!(total_node_count(&Vec::new()), 0);
}

#[test]
fn profile_cache_serves_fresh_entries_only() {
    let mut cache: ProfileCache<String> = ProfileCache::new();
    cache.insert("p1", "export-1".to_string(), T0);
    cache.insert("p2", "export-2".to_string(), T0);
    assert_eq!(cache.get_fresh("p1", 60_000, T0 + 60_000), Some("export-1".to_string()));
    assert_eq!(cache.get_fresh("p1", 60_000, T0 + 60_001), None);
    assert_eq!(cache.get_fresh("p1", 60_000, T0), None);
    cache.insert("p1", "export-3".to_string(), T0 + 70_000);
    assert_eq!(cache.get_fresh("p1", 60_000, T0 + 70_001), Some("export-3".to_string()));
    cache.invalidate("p1");
    assert_eq!(cache.get_fresh("p1", 60_000, T0 + 70_001), None);
    assert_eq!(cache.get_fresh("p2", 60_000, T0 + 1), Some("export-2".to_string()));
    cache.invalidate_many(&vec!["p2".to_string(), "p3".to_string()]);
    assert_eq!(cache.get_fresh("p2", 60_000, T0 + 1), None);
}

#[test]
fn refused_requests_lock_the_client_out() {
    let mut failures = AuthFailures::new(T0);
    for i in 0..4 {
        assert_eq!(begin(&mut failures, "peer:a", None, T0 + i), AuthGate::Unauthorized);
    }
    assert_eq!(begin(&mut failures, "peer:a", Some("Bearer wrong"), T0 + 4), AuthGate::CoolingDown);
    assert_eq!(begin(&mut failures, "peer:a", Some("Bearer test-admin-token"), T0 + 5), AuthGate::CoolingDown);
    assert_eq!(begin(&mut failures, "peer:b", Some("Bearer test-admin-token"), T0 + 5), AuthGate::Pass);
    let after = T0 + 4 + AUTH_FAILURE_COOLDOWN_MS;
    assert_eq!(begin(&mut failures, "peer:a", Some("Bearer test-admin-token"), after), AuthGate::Pass);
}

#[test]
fn error_replies() {
    let r = core_error_to_response(&CoreError::SubscriptionFetch("upstream 503".to_string()), "E_SUBSCRIPTION_FETCH");
    assert_eq!((r.status, r.code.as_str(), r.message.as_str(), r.retryable), (502, "E_SUBSCRIPTION_FETCH", "upstream 503", true));
    let r = core_error_to_response(&CoreError::ConfigInvalid("bad".to_string()), "E_CONFIG_INVALID");
    assert_eq!((r.status, r.code.as_str(), r.message.as_str(), r.retryable), (400, "E_CONFIG_INVALID", "bad", false));
    let r = core_error_to_response(&CoreError::ScriptRuntime("boom".to_string()), "E_SCRIPT_RUNTIME");
    assert_eq!((r.status, r.retryable), (400, true));
    let r = core_error_to_response(&CoreError::TimeFormat("detail".to_string()), "E_TIME");
    assert_eq!((r.status, r.code.as_str(), r.message.as_str(), r.retryable), (500, "E_INTERNAL", "Internal server error", true));
    let r = internal_error_response();
    assert_eq!((r.status, r.code.as_str()), (500, "E_INTERNAL"));
    let r = unauthorized_error_response();
    assert_eq!((r.status, r.code.as_str(), r.message.as_str(), r.retryable), (401, "E_AUTH", "Unauthorized", false));
    let r = not_found_error_response("Profile 不存在");
    assert_eq!((r.status, r.code.as_str(), r.message.as_str()), (404, "E_NOT_FOUND", "Profile 不存在"));
    let r = config_error_response("x");
    assert_eq!((r.status, r.code.as_str()), (400, "E_CONFIG_INVALID"));
}
