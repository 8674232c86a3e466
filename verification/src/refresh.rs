//! The decisions around refreshing a source: what a static source is fetched
//! with, and what a finished refresh reports.
use vstd::prelude::*;
use crate::error::CoreError;
use crate::json::{view_get, JsonValue, JsonView};
use crate::server::SourceRefreshResult;
use crate::text::{decimal, signed_decimal, signed_decimal_exec, string_from_str, string_of};
use crate::uri::{concat, opt_str_view};

verus! {

/// The settings scope of a plugin's secrets: `plugin:{id}`.
pub fn plugin_scope(plugin_id: &str) -> (r: String)
    ensures
        r@ == "plugin:"@ + plugin_id@,
{
    concat("plugin:", plugin_id)
}

/// The `url` and `user_agent` members of a static source's configuration;
/// `None` for a missing or non-string member.
pub open spec fn spec_static_request(config: JsonView) -> Option<(Seq<char>, Option<Seq<char>>)> {
    match view_get(config, "url"@) {
        Some(JsonView::Str(url)) => Some(
            (
                url,
                match view_get(config, "user_agent"@) {
                    Some(JsonView::Str(ua)) => Some(ua),
                    _ => None,
                },
            ),
        ),
        _ => None,
    }
}

/// What a static source is fetched with: its `url` (required) and optional `user_agent`.
pub fn static_source_request(config: &JsonValue) -> (r: Result<(String, Option<String>), CoreError>)
    ensures
        r matches Ok((u, a)) ==> spec_static_request(config@) == Some((u@, opt_str_view(a))),
        r is Err ==> spec_static_request(config@) is None,
        r matches Err(e) ==> (e matches CoreError::ConfigInvalid(m) && m@ == "来源配置缺少 url 字段"@),
{
    let url = match config.get("url") {
        Some(JsonValue::String(u)) => u.clone(),
        _ => return Err(CoreError::ConfigInvalid(string_from_str("来源配置缺少 url 字段"))),
    };
    let user_agent = match config.get("user_agent") {
        Some(JsonValue::String(a)) => Some(a.clone()),
        _ => None,
    };
    Ok((url, user_agent))
}

/// The identifier of a refresh job started at `nanos` (Unix time, nanoseconds).
pub open spec fn spec_refresh_job_id(nanos: i128) -> Seq<char> {
    "refresh-job-"@ + signed_decimal(nanos as int)
}

pub fn refresh_job_id(nanos: i128) -> (r: String)
    ensures
        r@ == spec_refresh_job_id(nanos),
{
    let digits = signed_decimal_exec(nanos);
    concat("refresh-job-", digits.as_str())
}

/// The report of a successful refresh and the node count stored with the job;
/// a count beyond `i64` cannot be stored.
pub fn refresh_success(
    refresh_job_id: String,
    source_id: &str,
    node_count: usize,
    subscription_userinfo: Option<String>,
) -> (r: Result<(SourceRefreshResult, i64), CoreError>)
    ensures
        r is Ok <==> node_count <= i64::MAX,
        r matches Ok((res, stored)) ==> res.refresh_job_id == refresh_job_id && res.source_id@ == source_id@
            && res.node_count == node_count && res.subscription_userinfo == subscription_userinfo && stored
            == node_count,
        r matches Err(e) ==> (e matches CoreError::ConfigInvalid(m) && m@ == "节点数量超过 i64 上限"@),
{
    if node_count as u64 > 9223372036854775807u64 {
        return Err(CoreError::ConfigInvalid(string_from_str("节点数量超过 i64 上限")));
    }
    let stored = node_count as i64;
    Ok(
        (
            SourceRefreshResult {
                refresh_job_id,
                source_id: string_from_str(source_id),
                node_count,
                subscription_userinfo,
            },
            stored,
        ),
    )
}

} // verus!
