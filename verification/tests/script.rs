use subforge_core::error::CoreError;
use subforge_core::json::{JsonNumber, JsonValue};
use subforge_core::refresh::{plugin_scope, refresh_job_id, refresh_success, static_source_request};
use subforge_core::script::{
    apply_state_update, build_context, entrypoint_name, finish_script_stage, first_script_stage, format_script_error, parse_fetch_payload, parse_persisted_state,
    parse_stage_payload, parse_state_update, parse_subscription, resolve_stage_error_message, should_run_login,
    script_context, stage_name, state_json_after, ScriptAction, ScriptStage, ScriptSubscription, StateUpdate,
};

fn json(text: &str) -> JsonValue {
    parse_persisted_state(Some(text)).expect("valid JSON").expect("not blank")
}

fn runtime_message(result: Result<StateUpdate, CoreError>) -> String {
    match result {
        Err(CoreError::ScriptRuntime(message)) => message,
        other => panic!("expected a script runtime error, got {other:?}"),
    }
}

#[test]
fn structured_login_errors_are_described() {
    let payload = json(r#"{"ok":false,"error":{"code":"E_LOGIN_FAILED","message":"账号或密码错误","retryable":false}}"#);
    let message = runtime_message(parse_stage_payload("login", &payload));
    assert_eq!(message, "login 失败：E_LOGIN_FAILED: 账号或密码错误 (retryable=false)");
    assert!(message.contains("login 失败"));
    assert!(message.contains("E_LOGIN_FAILED"));
    assert!(message.contains("账号或密码错误"));
    assert!(message.contains("retryable=false"));
}

#[test]
fn script_error_shapes() {
    assert_eq!(format_script_error(&JsonValue::String("  boom ".to_string())), Some("boom".to_string()));
    assert_eq!(format_script_error(&JsonValue::String("  ".to_string())), None);
    assert_eq!(format_script_error(&json(r#"{"code":"E1"}"#)), Some("E1".to_string()));
    assert_eq!(format_script_error(&json(r#"{"code":"E1","retryable":true}"#)), Some("E1".to_string()));
    assert_eq!(format_script_error(&json(r#"{"message":"m","retryable":true}"#)), Some("m (retryable=true)".to_string()));
    assert_eq!(format_script_error(&json(r#"{"message":"m"}"#)), Some("m".to_string()));
    assert_eq!(format_script_error(&json(r#"{"detail":1}"#)), Some(r#"{"detail":1}"#.to_string()));
    assert_eq!(format_script_error(&json(r#"{}"#)), None);
    assert_eq!(format_script_error(&JsonValue::Bool(true)), Some("true".to_string()));
    assert_eq!(format_script_error(&JsonValue::Number(JsonNumber::NegInt(-3))), Some("-3".to_string()));
    assert_eq!(
        format_script_error(&JsonValue::Array(vec![JsonValue::String("a".to_string())])),
        Some(r#"["a"]"#.to_string())
    );
    assert_eq!(format_script_error(&JsonValue::Null), None);
    assert_eq!(resolve_stage_error_message(None), "脚本返回失败且未提供 error");
    assert_eq!(resolve_stage_error_message(Some(&JsonValue::Null)), "脚本返回失败且未提供 error");
}

#[test]
fn stage_payloads() {
    assert!(matches!(parse_stage_payload("login", &json(r#"{"ok":true}"#)), Ok(StateUpdate::Keep)));
    match parse_stage_payload("refresh", &json(r#"{"ok":true,"state":{"session":"s"}}"#)) {
        Ok(StateUpdate::Replace(Some(state))) => assert_eq!(state.get("session"), Some(&JsonValue::String("s".to_string()))),
        other => panic!("unexpected {other:?}"),
    }
    assert!(matches!(parse_stage_payload("refresh", &json(r#"{"ok":true,"state":null}"#)), Ok(StateUpdate::Replace(None))));
    assert_eq!(
        runtime_message(parse_stage_payload("refresh", &json(r#"{"ok":true,"state":1}"#))),
        "state 必须是对象或 null"
    );
    assert_eq!(runtime_message(parse_stage_payload("login", &JsonValue::Null)), "login 返回值必须是对象");
    assert_eq!(runtime_message(parse_stage_payload("login", &json(r#"{"ok":"yes"}"#))), "login 返回值缺少布尔字段 ok");
    assert_eq!(
        runtime_message(parse_stage_payload("refresh", &json(r#"{"ok":false}"#))),
        "refresh 失败：脚本返回失败且未提供 error"
    );
    assert!(matches!(parse_state_update(&json(r#"{"other":1}"#)), Ok(StateUpdate::Keep)));
}

#[test]
fn fetch_payloads() {
    let (update, subscription) =
        parse_fetch_payload(&json(r#"{"ok":true,"subscription":{"url":" https://e.com/s "},"state":{"n":1}}"#)).unwrap();
    assert_eq!(subscription, ScriptSubscription::Url("https://e.com/s".to_string()));
    assert!(matches!(update, StateUpdate::Replace(Some(_))));
    let (_, subscription) = parse_fetch_payload(&json(r#"{"ok":true,"subscription":{"content":"trojan://a@b:1"}}"#)).unwrap();
    assert_eq!(subscription, ScriptSubscription::Content("trojan://a@b:1".to_string()));
    assert!(parse_fetch_payload(&json(r#"{"ok":true,"subscription":{"url":"a","content":"b"}}"#)).is_err());
    assert!(parse_fetch_payload(&json(r#"{"ok":true,"subscription":{"url":" "}}"#)).is_err());
    assert!(parse_fetch_payload(&json(r#"{"ok":true}"#)).is_err());
    assert!(matches!(
        parse_fetch_payload(&json(r#"{"ok":false,"error":"denied"}"#)),
        Err(CoreError::ScriptRuntime(message)) if message == "fetch 失败：denied"
    ));
    assert!(parse_subscription(Some(&JsonValue::String("x".to_string()))).is_err());
    assert!(parse_subscription(None).is_err());
}

#[test]
fn state_is_replaced_kept_and_persisted() {
    let mut state = None;
    assert!(should_run_login(&state, true));
    assert!(!should_run_login(&state, false));
    let update = StateUpdate::Replace(Some(json(r#"{"counter":1}"#)));
    assert_eq!(state_json_after(&Some(json(r#"{"counter":1}"#)), &update), Some(Some(r#"{"counter":1}"#.to_string())));
    apply_state_update(&mut state, update);
    assert!(!should_run_login(&state, true));
    assert_eq!(state_json_after(&state, &StateUpdate::Keep), None);
    apply_state_update(&mut state, StateUpdate::Keep);
    assert!(state.is_some());
    apply_state_update(&mut state, StateUpdate::Replace(None));
    assert!(state.is_none());
    assert_eq!(state_json_after(&state, &StateUpdate::Replace(None)), Some(None));
}

#[test]
fn persisted_state_must_be_an_object() {
    assert!(parse_persisted_state(None).unwrap().is_none());
    assert!(parse_persisted_state(Some("   ")).unwrap().is_none());
    assert!(parse_persisted_state(Some("null")).unwrap().is_none());
    assert!(parse_persisted_state(Some(r#" {"a":[1,2]} "#)).unwrap().is_some());
    assert!(matches!(parse_persisted_state(Some("[1]")), Err(CoreError::ConfigInvalid(_))));
    assert!(matches!(parse_persisted_state(Some("{broken")), Err(CoreError::ConfigInvalid(_))));
}

#[test]
fn entrypoints_must_not_be_blank() {
    assert_eq!(entrypoint_name(" scripts/login.lua ", "login").unwrap(), "scripts/login.lua");
    assert!(matches!(
        entrypoint_name("  ", "fetch"),
        Err(CoreError::ScriptRuntime(message)) if message == "fetch 入口路径不能为空"
    ));
}

#[test]
fn refresh_reports() {
    assert_eq!(plugin_scope("vendor.example.secure-static"), "plugin:vendor.example.secure-static");
    assert_eq!(refresh_job_id(1_700_000_000_123_456_789), "refresh-job-1700000000123456789");
    assert_eq!(refresh_job_id(0), "refresh-job-0");
    assert_eq!(refresh_job_id(-42), "refresh-job--42");
    assert_eq!(refresh_job_id(i128::MIN), format!("refresh-job-{}", i128::MIN));
    assert_eq!(refresh_job_id(i128::MAX), format!("refresh-job-{}", i128::MAX));
    let (result, stored) = refresh_success("job-1".to_string(), "src", 3, Some("upload=1".to_string())).unwrap();
    assert_eq!(result.node_count, 3);
    assert_eq!(result.source_id, "src");
    assert_eq!(result.refresh_job_id, "job-1");
    assert_eq!(result.subscription_userinfo.as_deref(), Some("upload=1"));
    assert_eq!(stored, 3);
}

#[test]
fn static_sources_need_a_url() {
    let (url, agent) = static_source_request(&json(r#"{"url":"https://e.com/s","user_agent":"UA/1"}"#)).unwrap();
    assert_eq!(url, "https://e.com/s");
    assert_eq!(agent.as_deref(), Some("UA/1"));
    let (_, agent) = static_source_request(&json(r#"{"url":"u","user_agent":3}"#)).unwrap();
    assert_eq!(agent, None);
    assert!(matches!(static_source_request(&json(r#"{"url":1}"#)), Err(CoreError::ConfigInvalid(_))));
}

#[test]
fn script_runs_login_only_without_state() {
    assert_eq!(first_script_stage(&None, true, true), ScriptStage::Login);
    assert_eq!(first_script_stage(&Some(json(r#"{"s":1}"#)), true, true), ScriptStage::Refresh);
    assert_eq!(first_script_stage(&None, false, true), ScriptStage::Refresh);
    assert_eq!(first_script_stage(&None, false, false), ScriptStage::Fetch);
    assert_eq!(stage_name(ScriptStage::Refresh), "refresh");
}

#[test]
fn script_pipeline_persists_state_between_stages() {
    let mut state = None;
    let (stored, action) = finish_script_stage(
        ScriptStage::Login,
        &json(r#"{"ok":true,"state":{"session":"session-alpha","counter":1}}"#),
        &mut state,
        true,
    )
    .unwrap();
    assert_eq!(stored, Some(Some(r#"{"counter":1,"session":"session-alpha"}"#.to_string())));
    assert!(matches!(action, ScriptAction::Run(ScriptStage::Refresh)));

    let (stored, action) = finish_script_stage(ScriptStage::Refresh, &json(r#"{"ok":true}"#), &mut state, true).unwrap();
    assert_eq!(stored, None);
    assert!(matches!(action, ScriptAction::Run(ScriptStage::Fetch)));
    assert_eq!(state.as_ref().and_then(|s| s.get("session")), Some(&JsonValue::String("session-alpha".to_string())));

    let (stored, action) = finish_script_stage(
        ScriptStage::Fetch,
        &json(r#"{"ok":true,"subscription":{"content":"trojan://pw@h:1"},"state":{"stage":"fetch"}}"#),
        &mut state,
        true,
    )
    .unwrap();
    assert_eq!(stored, Some(Some(r#"{"stage":"fetch"}"#.to_string())));
    match action {
        ScriptAction::Finish(subscription) => {
            assert_eq!(subscription, ScriptSubscription::Content("trojan://pw@h:1".to_string()))
        }
        other => panic!("unexpected {other:?}"),
    }
}

#[test]
fn failed_login_keeps_the_state_and_stops() {
    let mut state = None;
    let result = finish_script_stage(
        ScriptStage::Login,
        &json(r#"{"ok":false,"error":{"code":"E_LOGIN_FAILED","message":"账号或密码错误","retryable":false}}"#),
        &mut state,
        false,
    );
    match result {
        Err(CoreError::ScriptRuntime(message)) => assert!(message.contains("E_LOGIN_FAILED")),
        other => panic!("unexpected {other:?}"),
    }
    assert!(state.is_none());
    let (_, action) = finish_script_stage(ScriptStage::Login, &json(r#"{"ok":true}"#), &mut state, false).unwrap();
    assert!(matches!(action, ScriptAction::Run(ScriptStage::Fetch)));
}

#[test]
fn stage_context_lists_its_keys_in_order() {
    let context = script_context("source-1", "vendor.plugin", "manual", true, "2024-01-01T00:00:00Z");
    assert_eq!(
        context,
        json(r#"{"has_state":true,"now":"2024-01-01T00:00:00Z","plugin_id":"vendor.plugin","source_id":"source-1","trigger_type":"manual"}"#)
    );
    match build_context("s", "p", "scheduled", false).unwrap() {
        JsonValue::Object(entries) => {
            let keys: Vec<&str> = entries.iter().map(|(k, _)| k.as_str()).collect();
            assert_eq!(keys, vec!["has_state", "now", "plugin_id", "source_id", "trigger_type"]);
            assert_eq!(entries[0].1, JsonValue::Bool(false));
            assert_eq!(entries[4].1, JsonValue::String("scheduled".to_string()));
        },
        other => panic!("unexpected {other:?}"),
    }
}
