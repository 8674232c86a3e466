//! The results of the stages of a script plugin (`login`, `refresh`, `fetch`)
//! and the script state kept between runs.
use vstd::prelude::*;
use crate::clock::now_rfc3339;
use crate::error::CoreError;
use crate::json::{copy_json, json_to_text, parse_json, spec_json_error, spec_json_parse, spec_json_text, view_get, JsonValue, JsonView};
use crate::text::{chars_eq_str, chars_of, string_from_str, string_of, trim, trim_chars};
use crate::uri::{concat, opt_str_view};

verus! {

/// What a stage asks to do with the script state.
#[derive(Debug)]
pub enum StateUpdate {
    /// Leave the state as it is.
    Keep,
    /// Replace it (`None` clears it).
    Replace(Option<JsonValue>),
}

pub enum StateUpdateView {
    Keep,
    Replace(Option<JsonView>),
}

pub open spec fn opt_json_view(v: Option<JsonValue>) -> Option<JsonView> {
    match v {
        Some(x) => Some(x@),
        None => None,
    }
}

impl View for StateUpdate {
    type V = StateUpdateView;

    open spec fn view(&self) -> StateUpdateView {
        match self {
            StateUpdate::Keep => StateUpdateView::Keep,
            StateUpdate::Replace(v) => StateUpdateView::Replace(opt_json_view(*v)),
        }
    }
}

/// Where the subscription of a `fetch` stage comes from.
#[derive(Debug, PartialEq)]
pub enum ScriptSubscription {
    /// An address to download.
    Url(String),
    /// The subscription text itself.
    Content(String),
}

fn runtime_error(message: &str) -> (e: CoreError)
    ensures
        e matches CoreError::ScriptRuntime(m) && m@ == message@,
{
    CoreError::ScriptRuntime(string_from_str(message))
}

/// The `state` member: absent keeps the state, `null` clears it, an object
/// replaces it; anything else is an error (`None`).
pub open spec fn spec_state_update(object: JsonView) -> Option<StateUpdateView> {
    match view_get(object, "state"@) {
        None => Some(StateUpdateView::Keep),
        Some(JsonView::Null) => Some(StateUpdateView::Replace(None)),
        Some(JsonView::Object(entries)) => Some(StateUpdateView::Replace(Some(JsonView::Object(entries)))),
        Some(_) => None,
    }
}

pub fn parse_state_update(object: &JsonValue) -> (r: Result<StateUpdate, CoreError>)
    ensures
        r matches Ok(u) ==> spec_state_update(object@) == Some(u@),
        r is Err ==> spec_state_update(object@) is None,
        r matches Err(e) ==> (e matches CoreError::ScriptRuntime(m) && m@ == "state 必须是对象或 null"@),
{
    match object.get("state") {
        None => Ok(StateUpdate::Keep),
        Some(value) => {
            if value.is_null() {
                Ok(StateUpdate::Replace(None))
            } else if value.is_object() {
                Ok(StateUpdate::Replace(Some(copy_json(value))))
            } else {
                Err(runtime_error("state 必须是对象或 null"))
            }
        },
    }
}

/// A member read as a trimmed non-empty string.
pub open spec fn str_member(o: JsonView, key: Seq<char>) -> Option<Seq<char>> {
    match view_get(o, key) {
        Some(JsonView::Str(s)) => if trim(s).len() > 0 {
            Some(trim(s))
        } else {
            None
        },
        _ => None,
    }
}

pub open spec fn bool_text(b: bool) -> Seq<char> {
    if b {
        "true"@
    } else {
        "false"@
    }
}

/// The message of a failed stage's `error`: a trimmed string; for an object,
/// `code`, `message` and `retryable` as far as present (else the object as
/// JSON, unless empty); a list, boolean or number as JSON; nothing otherwise.
pub open spec fn spec_script_error(v: JsonView) -> Option<Seq<char>> {
    match v {
        JsonView::Str(s) => if trim(s).len() > 0 {
            Some(trim(s))
        } else {
            None
        },
        JsonView::Object(_) => {
            let retryable = match view_get(v, "retryable"@) {
                Some(JsonView::Bool(b)) => Some(b),
                _ => None,
            };
            match (str_member(v, "code"@), str_member(v, "message"@)) {
                (Some(c), Some(m)) => match retryable {
                    Some(b) => Some(c + ": "@ + m + " (retryable="@ + bool_text(b) + ")"@),
                    None => Some(c + ": "@ + m),
                },
                (Some(c), None) => Some(c),
                (None, Some(m)) => match retryable {
                    Some(b) => Some(m + " (retryable="@ + bool_text(b) + ")"@),
                    None => Some(m),
                },
                (None, None) => if spec_json_text(v) == "{}"@ {
                    None
                } else {
                    Some(spec_json_text(v))
                },
            }
        },
        JsonView::Array(_) => Some(spec_json_text(v)),
        JsonView::Bool(_) => Some(spec_json_text(v)),
        JsonView::Number(_) => Some(spec_json_text(v)),
        JsonView::Null => None,
    }
}

fn str_member_exec(o: &JsonValue, key: &str) -> (r: Option<String>)
    ensures
        opt_str_view(r) == str_member(o@, key@),
{
    match o.get(key) {
        Some(JsonValue::String(s)) => {
            let c = chars_of(s.as_str());
            let t = trim_chars(c.as_slice());
            if t.len() > 0 {
                Some(string_of(t.as_slice()))
            } else {
                None
            }
        },
        _ => None,
    }
}

fn bool_text_exec(b: bool) -> (r: &'static str)
    ensures
        r@ == bool_text(b),
{
    if b {
        "true"
    } else {
        "false"
    }
}

/// Describes the `error` a failed stage returned.
pub fn format_script_error(value: &JsonValue) -> (r: Option<String>)
    ensures
        opt_str_view(r) == spec_script_error(value@),
{
    match value {
        JsonValue::String(raw) => {
            let c = chars_of(raw.as_str());
            let t = trim_chars(c.as_slice());
            if t.len() > 0 {
                Some(string_of(t.as_slice()))
            } else {
                None
            }
        },
        JsonValue::Object(_) => {
            let code = str_member_exec(value, "code");
            let message = str_member_exec(value, "message");
            let retryable = match value.get("retryable") {
                Some(JsonValue::Bool(b)) => Some(*b),
                _ => None,
            };
            match (code, message) {
                (Some(c), Some(m)) => {
                    let head = concat(c.as_str(), ": ");
                    let body = concat(head.as_str(), m.as_str());
                    match retryable {
                        Some(b) => {
                            let a = concat(body.as_str(), " (retryable=");
                            let a = concat(a.as_str(), bool_text_exec(b));
                            Some(concat(a.as_str(), ")"))
                        },
                        None => Some(body),
                    }
                },
                (Some(c), None) => Some(c),
                (None, Some(m)) => match retryable {
                    Some(b) => {
                        let a = concat(m.as_str(), " (retryable=");
                        let a = concat(a.as_str(), bool_text_exec(b));
                        Some(concat(a.as_str(), ")"))
                    },
                    None => Some(m),
                },
                (None, None) => {
                    let text = json_to_text(value);
                    let c = chars_of(text.as_str());
                    if chars_eq_str(c.as_slice(), "{}") {
                        None
                    } else {
                        Some(text)
                    }
                },
            }
        },
        JsonValue::Array(_) | JsonValue::Bool(_) | JsonValue::Number(_) => Some(json_to_text(value)),
        JsonValue::Null => None,
    }
}

/// The message of a failed stage, with a fallback when it gave none.
pub open spec fn spec_stage_error_message(raw_error: Option<JsonView>) -> Seq<char> {
    match raw_error {
        Some(v) => match spec_script_error(v) {
            Some(m) => m,
            None => "脚本返回失败且未提供 error"@,
        },
        None => "脚本返回失败且未提供 error"@,
    }
}

pub fn resolve_stage_error_message(raw_error: Option<&JsonValue>) -> (r: String)
    ensures
        r@ == spec_stage_error_message(crate::singbox::jopt(raw_error)),
{
    let formatted = match raw_error {
        Some(v) => format_script_error(v),
        None => None,
    };
    match formatted {
        Some(m) => m,
        None => string_from_str("脚本返回失败且未提供 error"),
    }
}

/// Where a `fetch` stage's subscription comes from: exactly one of a
/// non-blank `url` and a non-blank `content`.
pub open spec fn spec_subscription(raw: Option<JsonView>) -> Option<(bool, Seq<char>)> {
    match raw {
        Some(JsonView::Object(entries)) => {
            let o = JsonView::Object(entries);
            match (str_member(o, "url"@), str_member(o, "content"@)) {
                (Some(u), None) => Some((true, u)),
                (None, Some(c)) => Some((false, c)),
                _ => None,
            }
        },
        _ => None,
    }
}

pub open spec fn subscription_view(s: ScriptSubscription) -> (bool, Seq<char>) {
    match s {
        ScriptSubscription::Url(u) => (true, u@),
        ScriptSubscription::Content(c) => (false, c@),
    }
}

/// Why a `fetch` stage's subscription is refused.
pub open spec fn spec_subscription_failure(raw: Option<JsonView>) -> Seq<char> {
    match raw {
        Some(JsonView::Object(entries)) => {
            let o = JsonView::Object(entries);
            if str_member(o, "url"@) is Some {
                "fetch.subscription 不能同时包含 url 和 content"@
            } else {
                "fetch.subscription 必须提供非空 url 或 content"@
            }
        },
        _ => "fetch.subscription 必须是对象"@,
    }
}

pub fn parse_subscription(raw: Option<&JsonValue>) -> (r: Result<ScriptSubscription, CoreError>)
    ensures
        r matches Ok(s) ==> spec_subscription(crate::singbox::jopt(raw)) == Some(subscription_view(s)),
        r is Err ==> spec_subscription(crate::singbox::jopt(raw)) is None,
        r matches Err(e) ==> (e matches CoreError::ScriptRuntime(m) && m@ == spec_subscription_failure(
            crate::singbox::jopt(raw),
        )),
{
    let object = match raw {
        Some(v) => if v.is_object() {
            v
        } else {
            return Err(runtime_error("fetch.subscription 必须是对象"));
        },
        None => return Err(runtime_error("fetch.subscription 必须是对象")),
    };
    let url = str_member_exec(object, "url");
    let content = str_member_exec(object, "content");
    match (url, content) {
        (Some(u), None) => Ok(ScriptSubscription::Url(u)),
        (None, Some(c)) => Ok(ScriptSubscription::Content(c)),
        (Some(_), Some(_)) => Err(runtime_error("fetch.subscription 不能同时包含 url 和 content")),
        (None, None) => Err(runtime_error("fetch.subscription 必须提供非空 url 或 content")),
    }
}

/// A stage succeeded: its payload is an object with `ok: true`.
pub open spec fn stage_ok(payload: JsonView) -> bool {
    payload is Object && view_get(payload, "ok"@) == Some(JsonView::Bool(true))
}

/// Reads what a `login` or `refresh` stage returned: the state update when
/// the stage succeeded.
/// Why a stage's result stops the run: not an object, no boolean `ok`, a
/// reported failure, or an unusable `state`.
pub open spec fn spec_stage_failure(stage: Seq<char>, payload: JsonView) -> Seq<char> {
    if !(payload is Object) {
        stage + " 返回值必须是对象"@
    } else {
        match view_get(payload, "ok"@) {
            Some(JsonView::Bool(true)) => "state 必须是对象或 null"@,
            Some(JsonView::Bool(false)) => stage + " 失败："@ + spec_stage_error_message(view_get(payload, "error"@)),
            _ => stage + " 返回值缺少布尔字段 ok"@,
        }
    }
}

/// Why the `fetch` stage's result stops the run; its subscription is read
/// before its state.
pub open spec fn spec_fetch_failure(payload: JsonView) -> Seq<char> {
    if stage_ok(payload) && spec_subscription(view_get(payload, "subscription"@)) is None {
        spec_subscription_failure(view_get(payload, "subscription"@))
    } else {
        spec_stage_failure("fetch"@, payload)
    }
}

pub fn parse_stage_payload(stage_name: &str, payload: &JsonValue) -> (r: Result<StateUpdate, CoreError>)
    ensures
        r matches Ok(u) ==> stage_ok(payload@) && spec_state_update(payload@) == Some(u@),
        r is Err ==> !stage_ok(payload@) || spec_state_update(payload@) is None,
        r matches Err(e) ==> (e matches CoreError::ScriptRuntime(m) && m@ == spec_stage_failure(stage_name@, payload@)),
{
    if !payload.is_object() {
        return Err(CoreError::ScriptRuntime(concat(stage_name, " 返回值必须是对象")));
    }
    let ok = match payload.get("ok") {
        Some(JsonValue::Bool(b)) => *b,
        _ => return Err(CoreError::ScriptRuntime(concat(stage_name, " 返回值缺少布尔字段 ok"))),
    };
    if !ok {
        let message = resolve_stage_error_message(payload.get("error"));
        let head = concat(stage_name, " 失败：");
        return Err(CoreError::ScriptRuntime(concat(head.as_str(), message.as_str())));
    }
    parse_state_update(payload)
}

/// Reads what the `fetch` stage returned: the subscription, then the state update.
pub fn parse_fetch_payload(payload: &JsonValue) -> (r: Result<(StateUpdate, ScriptSubscription), CoreError>)
    ensures
        r matches Ok((u, s)) ==> stage_ok(payload@) && spec_subscription(view_get(payload@, "subscription"@)) == Some(
            subscription_view(s),
        ) && spec_state_update(payload@) == Some(u@),
        r is Err ==> !stage_ok(payload@) || spec_subscription(view_get(payload@, "subscription"@)) is None
            || spec_state_update(payload@) is None,
        r matches Err(e) ==> (e matches CoreError::ScriptRuntime(m) && m@ == spec_fetch_failure(payload@)),
{
    if !payload.is_object() {
        return Err(CoreError::ScriptRuntime(concat("fetch", " 返回值必须是对象")));
    }
    let ok = match payload.get("ok") {
        Some(JsonValue::Bool(b)) => *b,
        _ => return Err(CoreError::ScriptRuntime(concat("fetch", " 返回值缺少布尔字段 ok"))),
    };
    if !ok {
        let message = resolve_stage_error_message(payload.get("error"));
        let head = concat("fetch", " 失败：");
        return Err(CoreError::ScriptRuntime(concat(head.as_str(), message.as_str())));
    }
    let subscription = match parse_subscription(payload.get("subscription")) {
        Ok(s) => s,
        Err(e) => return Err(e),
    };
    match parse_state_update(payload) {
        Ok(u) => Ok((u, subscription)),
        Err(e) => Err(e),
    }
}

/// Applies a stage's state update.
pub fn apply_state_update(state: &mut Option<JsonValue>, update: StateUpdate)
    ensures
        opt_json_view(*final(state)) == match update@ {
            StateUpdateView::Keep => opt_json_view(*old(state)),
            StateUpdateView::Replace(next) => next,
        },
{
    match update {
        StateUpdate::Keep => {},
        StateUpdate::Replace(next) => {
            *state = next;
        },
    }
}

/// The `state_json` to store after an update: nothing to store for `Keep`;
/// otherwise the state printed as JSON, or cleared.
pub fn state_json_after(state: &Option<JsonValue>, update: &StateUpdate) -> (r: Option<Option<String>>)
    ensures
        update is Keep ==> r is None,
        !(update is Keep) ==> (r matches Some(j) && opt_str_view(j) == match state {
            Some(v) => Some(spec_json_text(v@)),
            None => None,
        }),
{
    match update {
        StateUpdate::Keep => None,
        StateUpdate::Replace(_) => Some(
            match state {
                Some(v) => Some(json_to_text(v)),
                None => None,
            },
        ),
    }
}

// ---------------------------------------------------------------------------
// The order of a script run
// ---------------------------------------------------------------------------

/// The stages of a script plugin.
#[derive(Debug, Clone, Copy, PartialEq, Eq, Structural)]
pub enum ScriptStage {
    Login,
    Refresh,
    Fetch,
}

/// What a script run does next.
#[derive(Debug)]
pub enum ScriptAction {
    /// Run the entry point of a stage with the current state.
    Run(ScriptStage),
    /// The stages are over; load this subscription.
    Finish(ScriptSubscription),
}

/// The first stage: `login` when there is no state and the plugin has one,
/// else `refresh` when the plugin has one, else `fetch`.
pub open spec fn spec_first_stage(has_state: bool, has_login: bool, has_refresh: bool) -> ScriptStage {
    if !has_state && has_login {
        ScriptStage::Login
    } else if has_refresh {
        ScriptStage::Refresh
    } else {
        ScriptStage::Fetch
    }
}

/// The stage after `login` or `refresh`: `refresh` follows `login` when the
/// plugin has one; `fetch` comes last.
pub open spec fn spec_next_stage(stage: ScriptStage, has_refresh: bool) -> ScriptStage {
    match stage {
        ScriptStage::Login => if has_refresh {
            ScriptStage::Refresh
        } else {
            ScriptStage::Fetch
        },
        _ => ScriptStage::Fetch,
    }
}

pub fn first_script_stage(state: &Option<JsonValue>, has_login: bool, has_refresh: bool) -> (r: ScriptStage)
    ensures
        r == spec_first_stage(state is Some, has_login, has_refresh),
{
    if should_run_login(state, has_login) {
        ScriptStage::Login
    } else if has_refresh {
        ScriptStage::Refresh
    } else {
        ScriptStage::Fetch
    }
}

/// The name a stage is reported under.
pub open spec fn stage_text(stage: ScriptStage) -> Seq<char> {
    match stage {
        ScriptStage::Login => "login"@,
        ScriptStage::Refresh => "refresh"@,
        ScriptStage::Fetch => "fetch"@,
    }
}

pub fn stage_name(stage: ScriptStage) -> (r: &'static str)
    ensures
        r@ == stage_text(stage),
{
    match stage {
        ScriptStage::Login => "login",
        ScriptStage::Refresh => "refresh",
        ScriptStage::Fetch => "fetch",
    }
}

/// The state after a stage's update.
pub open spec fn updated_state(state: Option<JsonView>, update: StateUpdateView) -> Option<JsonView> {
    match update {
        StateUpdateView::Keep => state,
        StateUpdateView::Replace(next) => next,
    }
}

/// Takes what a stage returned: the state is updated, the `state_json` to
/// store is given (`None`: nothing to store), and so is the next action. A
/// stage that failed or returned something unusable stops the run with a
/// script error and leaves the state as it was.
pub fn finish_script_stage(stage: ScriptStage, payload: &JsonValue, state: &mut Option<JsonValue>, has_refresh: bool) -> (r:
    Result<(Option<Option<String>>, ScriptAction), CoreError>)
    ensures
        stage != ScriptStage::Fetch ==> (r is Ok <==> stage_ok(payload@) && spec_state_update(payload@) is Some),
        stage == ScriptStage::Fetch ==> (r is Ok <==> stage_ok(payload@) && spec_subscription(
            view_get(payload@, "subscription"@),
        ) is Some && spec_state_update(payload@) is Some),
        r is Err ==> *final(state) == *old(state),
        r matches Err(e) ==> (e matches CoreError::ScriptRuntime(m) && m@ == if stage == ScriptStage::Fetch {
            spec_fetch_failure(payload@)
        } else {
            spec_stage_failure(stage_text(stage), payload@)
        }),
        r matches Ok((stored, action)) ==> {
            let update = spec_state_update(payload@)->0;
            &&& opt_json_view(*final(state)) == updated_state(opt_json_view(*old(state)), update)
            &&& update is Keep ==> stored is None
            &&& !(update is Keep) ==> (stored matches Some(j) && opt_str_view(j) == match *final(state) {
                Some(v) => Some(spec_json_text(v@)),
                None => None,
            })
            &&& stage == ScriptStage::Fetch ==> (action matches ScriptAction::Finish(sub) && spec_subscription(
                view_get(payload@, "subscription"@),
            ) == Some(subscription_view(sub)))
            &&& stage != ScriptStage::Fetch ==> action == ScriptAction::Run(spec_next_stage(stage, has_refresh))
        },
{
    let (update, action) = match stage {
        ScriptStage::Fetch => match parse_fetch_payload(payload) {
            Ok((u, sub)) => (u, ScriptAction::Finish(sub)),
            Err(e) => return Err(e),
        },
        _ => match parse_stage_payload(stage_name(stage), payload) {
            Ok(u) => {
                let next = if stage == ScriptStage::Login && has_refresh {
                    ScriptStage::Refresh
                } else {
                    ScriptStage::Fetch
                };
                (u, ScriptAction::Run(next))
            },
            Err(e) => return Err(e),
        },
    };
    let stored = match &update {
        StateUpdate::Keep => None,
        StateUpdate::Replace(_) => Some(()),
    };
    apply_state_update(state, update);
    let stored = match stored {
        None => None,
        Some(()) => Some(
            match state {
                Some(v) => Some(json_to_text(v)),
                None => None,
            },
        ),
    };
    Ok((stored, action))
}

/// The stored script state: blank means none, `null` means none, an object is
/// the state; other text is an error.
pub open spec fn spec_persisted_state(raw: Option<Seq<char>>) -> Option<Option<JsonView>> {
    match raw {
        None => Some(None),
        Some(r) => if trim(r).len() == 0 {
            Some(None)
        } else {
            match spec_json_parse(trim(r)) {
                None => None,
                Some(JsonView::Null) => Some(None),
                Some(JsonView::Object(e)) => Some(Some(JsonView::Object(e))),
                Some(_) => None,
            }
        },
    }
}

/// The message for stored script state that is refused.
pub open spec fn spec_persisted_state_error(raw: Option<Seq<char>>) -> Seq<char> {
    match raw {
        Some(r) => match spec_json_parse(trim(r)) {
            None => "state_json 反序列化失败："@ + spec_json_error(trim(r)),
            Some(_) => "state_json 必须是 JSON 对象"@,
        },
        None => Seq::empty(),
    }
}

pub fn parse_persisted_state(raw: Option<&str>) -> (r: Result<Option<JsonValue>, CoreError>)
    ensures
        r matches Ok(s) ==> spec_persisted_state(crate::web::sview(raw)) == Some(opt_json_view(s)),
        r is Err ==> spec_persisted_state(crate::web::sview(raw)) is None,
        r matches Err(e) ==> (e matches CoreError::ConfigInvalid(m) && m@ == spec_persisted_state_error(
            crate::web::sview(raw),
        )),
{
    let text = match raw {
        Some(t) => t,
        None => return Ok(None),
    };
    let c = chars_of(text);
    let t = trim_chars(c.as_slice());
    if t.len() == 0 {
        return Ok(None);
    }
    let trimmed = string_of(t.as_slice());
    let parsed = match parse_json(trimmed.as_str()) {
        Ok(v) => v,
        Err(m) => return Err(CoreError::ConfigInvalid(concat("state_json 反序列化失败：", m.as_str()))),
    };
    if parsed.is_null() {
        return Ok(None);
    }
    if !parsed.is_object() {
        return Err(CoreError::ConfigInvalid(string_from_str("state_json 必须是 JSON 对象")));
    }
    Ok(Some(parsed))
}

/// Whether the `login` stage runs: only without a state, when the plugin has one.
pub fn should_run_login(state: &Option<JsonValue>, has_login_entry: bool) -> (r: bool)
    ensures
        r == (state is None && has_login_entry),
{
    state.is_none() && has_login_entry
}

/// A stage entry point, trimmed; blank is an error.
pub fn entrypoint_name(entrypoint: &str, stage_name: &str) -> (r: Result<String, CoreError>)
    ensures
        r matches Ok(s) ==> s@ == trim(entrypoint@) && s@.len() > 0,
        r is Err <==> trim(entrypoint@).len() == 0,
        r matches Err(e) ==> (e matches CoreError::ScriptRuntime(m) && m@ == stage_name@ + " 入口路径不能为空"@),
{
    let c = chars_of(entrypoint);
    let t = trim_chars(c.as_slice());
    if t.len() == 0 {
        return Err(CoreError::ScriptRuntime(concat(stage_name, " 入口路径不能为空")));
    }
    Ok(string_of(t.as_slice()))
}

/// The context a stage is called with: an object of `has_state`, `now`,
/// `plugin_id`, `source_id` and `trigger_type`, in the order of its keys.
pub open spec fn context_view(
    source_id: Seq<char>,
    plugin_id: Seq<char>,
    trigger_type: Seq<char>,
    has_state: bool,
    now: Seq<char>,
) -> JsonView {
    JsonView::Object(
        seq![
            ("has_state"@, JsonView::Bool(has_state)),
            ("now"@, JsonView::Str(now)),
            ("plugin_id"@, JsonView::Str(plugin_id)),
            ("source_id"@, JsonView::Str(source_id)),
            ("trigger_type"@, JsonView::Str(trigger_type)),
        ],
    )
}

/// The context of a stage at the time `now`.
pub fn script_context(source_id: &str, plugin_id: &str, trigger_type: &str, has_state: bool, now: &str) -> (r: JsonValue)
    ensures
        r@ == context_view(source_id@, plugin_id@, trigger_type@, has_state, now@),
{
    let mut entries: Vec<(String, JsonValue)> = Vec::new();
    entries.push((string_from_str("has_state"), JsonValue::Bool(has_state)));
    entries.push((string_from_str("now"), JsonValue::String(string_from_str(now))));
    entries.push((string_from_str("plugin_id"), JsonValue::String(string_from_str(plugin_id))));
    entries.push((string_from_str("source_id"), JsonValue::String(string_from_str(source_id))));
    entries.push((string_from_str("trigger_type"), JsonValue::String(string_from_str(trigger_type))));
    proof {
        crate::json::lemma_entry_views(entries@);
    }
    let r = JsonValue::Object(entries);
    assert(crate::json::entry_views(entries@) =~= seq![
        ("has_state"@, JsonView::Bool(has_state)),
        ("now"@, JsonView::Str(now@)),
        ("plugin_id"@, JsonView::Str(plugin_id@)),
        ("source_id"@, JsonView::Str(source_id@)),
        ("trigger_type"@, JsonView::Str(trigger_type@)),
    ]);
    r
}

/// The context of a stage now; only reading the clock can fail.
pub fn build_context(source_id: &str, plugin_id: &str, trigger_type: &str, has_state: bool) -> (r: Result<JsonValue, CoreError>)
    ensures
        r matches Ok(v) ==> exists|now: Seq<char>|
            crate::clock::rfc3339_utc_text(now) && v@ == #[trigger] context_view(source_id@, plugin_id@, trigger_type@, has_state, now),
        r matches Err(e) ==> e is TimeFormat,
{
    let now = match now_rfc3339() {
        Ok(t) => t,
        Err(e) => return Err(e),
    };
    Ok(script_context(source_id, plugin_id, trigger_type, has_state, now.as_str()))
}

} // verus!
