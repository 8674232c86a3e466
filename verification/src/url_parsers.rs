//! Parsers for the URL-shaped proxy URIs: `vless://`, `trojan://` and `hysteria2://`.
use vstd::prelude::*;
use crate::codec::{pairs_view, parse_url, spec_url_error, spec_url_parse, UrlParts, UrlPartsView};
use crate::error::{parse_failure, CoreError};
use crate::uri::concat;
use crate::json::{JsonValue, JsonView};
use crate::node::{build_proxy_node, spec_build_node, NodeExtra, NodeView, ProxyNode, ProxyProtocol, ProxyTransport, TlsConfig, TlsView};
use crate::text::{chars_eq_str, chars_of, string_from_str};
use crate::uri::{
    decode_percent_encoded, insert_optional_alpn, insert_optional_bool, insert_optional_string,
    insert_transport_host, map_transport, opt_str_view, put_bool, put_hosts, put_list, put_str, query_bool, query_value,
    spec_decode_percent, spec_map_transport, spec_query_bool, spec_query_value, spec_split_csv,
};

verus! {

/// The trimmed, non-empty value of the first query parameter named by `keys`.
pub open spec fn qv(parts: UrlPartsView, keys: Seq<&str>) -> Option<Seq<char>> {
    spec_query_value(pairs_view_of(parts), keys)
}

pub open spec fn qb(parts: UrlPartsView, keys: Seq<&str>) -> Option<bool> {
    spec_query_bool(pairs_view_of(parts), keys)
}

pub open spec fn pairs_view_of(parts: UrlPartsView) -> Seq<(Seq<char>, Seq<char>)> {
    parts.query_pairs
}

/// The raw value of the first query parameter named exactly `key`.
pub open spec fn first_exact(pairs: Seq<(Seq<char>, Seq<char>)>, key: Seq<char>) -> Option<Seq<char>>
    decreases pairs.len(),
{
    if pairs.len() == 0 {
        None
    } else if pairs[0].0 == key {
        Some(pairs[0].1)
    } else {
        first_exact(pairs.drop_first(), key)
    }
}

/// The node name: the percent-decoded fragment, or `default` when it is missing or empty.
pub open spec fn url_name(parts: UrlPartsView, default: Seq<char>) -> Seq<char> {
    match parts.fragment {
        Some(f) => if f.len() > 0 {
            spec_decode_percent(f)
        } else {
            spec_decode_percent(default)
        },
        None => spec_decode_percent(default),
    }
}

/// The transport named by the first `type` query parameter.
pub open spec fn url_transport(parts: UrlPartsView) -> ProxyTransport {
    spec_map_transport(first_exact(parts.query_pairs, "type"@))
}

pub open spec fn csv_opt(v: Option<Seq<char>>) -> Option<Seq<Seq<char>>> {
    match v {
        Some(x) => Some(spec_split_csv(x)),
        None => None,
    }
}

pub open spec fn put_host_opt(m: Map<Seq<char>, JsonView>, host: Option<Seq<char>>, transport: ProxyTransport) -> Map<
    Seq<char>,
    JsonView,
> {
    match host {
        Some(h) => put_hosts(m, spec_split_csv(h), transport),
        None => m,
    }
}

/// `extra` with `key` set to the user name of the URL, if it is not empty.
pub open spec fn put_user(m: Map<Seq<char>, JsonView>, key: Seq<char>, parts: UrlPartsView) -> Map<
    Seq<char>,
    JsonView,
> {
    if parts.username.len() > 0 {
        m.insert(key, JsonView::Str(parts.username))
    } else {
        m
    }
}

/// The message a URL-shaped URI parser gives for a line it refuses: the
/// `invalid` prefix followed by the `url` crate's error, or the message for a
/// missing host or a missing port.
pub open spec fn url_uri_error(line: Seq<char>, invalid: Seq<char>, no_host: Seq<char>, no_port: Seq<char>) -> Seq<char> {
    match spec_url_parse(line) {
        None => invalid + spec_url_error(line),
        Some(parts) => if parts.host is None {
            no_host
        } else {
            no_port
        },
    }
}

fn url_error(prefix: &str, detail: &str) -> (e: CoreError)
    ensures
        parse_failure(e, prefix@ + detail@),
{
    CoreError::SubscriptionParse(concat(prefix, detail))
}

fn url_node_name(parts: &UrlParts, default: &str) -> (r: String)
    ensures
        r@ == url_name(parts@, default@),
{
    match &parts.fragment {
        Some(f) => {
            if !f.as_str().is_empty() {
                decode_percent_encoded(f.as_str())
            } else {
                decode_percent_encoded(default)
            }
        },
        None => decode_percent_encoded(default),
    }
}

fn first_exact_exec(pairs: &[(String, String)], key: &str) -> (r: Option<String>)
    ensures
        r matches Some(v) ==> first_exact(pairs_view(pairs@), key@) == Some(v@),
        r is None ==> first_exact(pairs_view(pairs@), key@) is None,
{
    let ghost pv = pairs_view(pairs@);
    let mut i: usize = 0;
    assert(pv.skip(0) =~= pv);
    while i < pairs.len()
        invariant
            i <= pairs@.len(),
            pv == pairs_view(pairs@),
            first_exact(pv, key@) == first_exact(pv.skip(i as int), key@),
        decreases pairs.len() - i,
    {
        proof {
            assert(pv.skip(i as int).drop_first() =~= pv.skip(i + 1));
            assert(pv.skip(i as int)[0] == (pairs@[i as int].0@, pairs@[i as int].1@));
        }
        let k = chars_of(pairs[i].0.as_str());
        if chars_eq_str(k.as_slice(), key) {
            return Some(pairs[i].1.clone());
        }
        i = i + 1;
    }
    None
}

fn url_transport_exec(parts: &UrlParts) -> (r: ProxyTransport)
    ensures
        r == url_transport(parts@),
{
    match first_exact_exec(parts.query_pairs.as_slice(), "type") {
        Some(t) => map_transport(Some(t.as_str())),
        None => map_transport(None),
    }
}

fn insert_username(extra: &mut NodeExtra, key: &str, parts: &UrlParts)
    ensures
        final(extra)@ == put_user(old(extra)@, key@, parts@),
{
    if !parts.username.as_str().is_empty() {
        extra.insert(string_from_str(key), JsonValue::String(parts.username.clone()));
    }
}

// ---------------------------------------------------------------------------
// vless://
// ---------------------------------------------------------------------------

pub open spec fn vless_extra(parts: UrlPartsView, transport: ProxyTransport) -> Map<Seq<char>, JsonView> {
    let m = put_user(Map::empty(), "uuid"@, parts);
    let m = put_str(m, "security"@, qv(parts, seq!["security"]));
    let m = put_str(m, "flow"@, qv(parts, seq!["flow"]));
    let m = put_str(m, "service_name"@, qv(parts, seq!["serviceName", "service_name"]));
    let m = put_str(m, "grpc_service_name"@, qv(parts, seq!["grpc_service_name"]));
    let m = put_str(m, "client_fingerprint"@, qv(parts, seq!["fp", "fingerprint"]));
    let m = put_bool(m, "skip_cert_verify"@, qb(parts, seq!["allowInsecure", "allow_insecure", "insecure"]));
    let m = put_list(m, "alpn"@, csv_opt(qv(parts, seq!["alpn", "alpns"])));
    let m = put_host_opt(m, qv(parts, seq!["host"]), transport);
    put_str(m, "path"@, qv(parts, seq!["path"]))
}

/// TLS is on for `security=tls`, `reality` or `xtls`.
pub open spec fn vless_tls_on(security: Option<Seq<char>>) -> bool {
    match security {
        Some(s) => s == "tls"@ || s == "reality"@ || s == "xtls"@,
        None => false,
    }
}

/// The node a `vless://` URL denotes, when it has a host and a port.
pub open spec fn spec_vless(parts: UrlPartsView, source_id: Seq<char>, updated_at: Seq<char>) -> Option<NodeView> {
    match (parts.host, parts.port) {
        (Some(server), Some(port)) => {
            let transport = url_transport(parts);
            Some(spec_build_node(
                source_id,
                url_name(parts, "vless"@),
                ProxyProtocol::Vless,
                server,
                port,
                transport,
                TlsView {
                    enabled: vless_tls_on(qv(parts, seq!["security"])),
                    server_name: qv(parts, seq!["sni", "peer", "servername"]),
                },
                vless_extra(parts, transport),
                updated_at,
            ))
        },
        _ => None,
    }
}

pub open spec fn spec_parse_vless(line: Seq<char>, source_id: Seq<char>, updated_at: Seq<char>) -> Option<NodeView> {
    match spec_url_parse(line) {
        Some(parts) => spec_vless(parts, source_id, updated_at),
        None => None,
    }
}

fn is_tls_security(security: &Option<String>) -> (r: bool)
    ensures
        r == vless_tls_on(opt_str_view(*security)),
{
    match security {
        Some(s) => {
            let c = chars_of(s.as_str());
            chars_eq_str(c.as_slice(), "tls") || chars_eq_str(c.as_slice(), "reality") || chars_eq_str(c.as_slice(), "xtls")
        },
        None => false,
    }
}

/// Parses a `vless://uuid@host:port?params#name` URI.
/// The node a parsed `vless://` URL denotes (see `spec_vless`); a URL without a
/// host or a port is refused with the message naming what is missing.
pub fn vless_node_from_parts(parts: &UrlParts, source_id: &str, updated_at: &str) -> (r: Result<ProxyNode, CoreError>)
    ensures
        r matches Ok(n) ==> spec_vless(parts@, source_id@, updated_at@) == Some(n@),
        r is Err ==> spec_vless(parts@, source_id@, updated_at@) is None,
        r matches Err(e) ==> parse_failure(e, if parts@.host is None {
            "vless URI 缺少 host"@
        } else {
            "vless URI 缺少端口"@
        }),
{
    let server = match &parts.host {
        Some(h) => h.clone(),
        None => return Err(CoreError::SubscriptionParse(string_from_str("vless URI 缺少 host"))),
    };
    let port = match parts.port {
        Some(p) => p,
        None => return Err(CoreError::SubscriptionParse(string_from_str("vless URI 缺少端口"))),
    };
    let name = url_node_name(parts, "vless");
    let transport = url_transport_exec(parts);
    let pairs = parts.query_pairs.as_slice();
    let k_security: &[&str] = &["security"];
    let k_sni: &[&str] = &["sni", "peer", "servername"];
    let k_flow: &[&str] = &["flow"];
    let k_service: &[&str] = &["serviceName", "service_name"];
    let k_grpc: &[&str] = &["grpc_service_name"];
    let k_fp: &[&str] = &["fp", "fingerprint"];
    let k_insecure: &[&str] = &["allowInsecure", "allow_insecure", "insecure"];
    let k_alpn: &[&str] = &["alpn", "alpns"];
    let k_host: &[&str] = &["host"];
    let k_path: &[&str] = &["path"];
    assert(k_security@ == seq!["security"]);
    assert(k_sni@ == seq!["sni", "peer", "servername"]);
    assert(k_flow@ == seq!["flow"]);
    assert(k_service@ == seq!["serviceName", "service_name"]);
    assert(k_grpc@ == seq!["grpc_service_name"]);
    assert(k_fp@ == seq!["fp", "fingerprint"]);
    assert(k_insecure@ == seq!["allowInsecure", "allow_insecure", "insecure"]);
    assert(k_alpn@ == seq!["alpn", "alpns"]);
    assert(k_host@ == seq!["host"]);
    assert(k_path@ == seq!["path"]);
    let security = query_value(pairs, k_security);
    let sni = query_value(pairs, k_sni);

    let mut extra = NodeExtra::new();
    insert_username(&mut extra, "uuid", parts);
    insert_optional_string(&mut extra, "security", query_value(pairs, k_security));
    insert_optional_string(&mut extra, "flow", query_value(pairs, k_flow));
    insert_optional_string(&mut extra, "service_name", query_value(pairs, k_service));
    insert_optional_string(&mut extra, "grpc_service_name", query_value(pairs, k_grpc));
    insert_optional_string(&mut extra, "client_fingerprint", query_value(pairs, k_fp));
    insert_optional_bool(&mut extra, "skip_cert_verify", query_bool(pairs, k_insecure));
    insert_optional_alpn(&mut extra, query_value(pairs, k_alpn));
    insert_transport_host(&mut extra, query_value(pairs, k_host), transport);
    insert_optional_string(&mut extra, "path", query_value(pairs, k_path));

    let tls = TlsConfig { enabled: is_tls_security(&security), server_name: sni };
    assert(name@ == url_name(parts@, "vless"@));
    assert(transport == url_transport(parts@));
    assert(opt_str_view(security) == qv(parts@, seq!["security"]));
    assert(tls@.enabled == vless_tls_on(qv(parts@, seq!["security"])));
    assert(tls@.server_name == qv(parts@, seq!["sni", "peer", "servername"]));
    assert(extra@ == vless_extra(parts@, transport));
    Ok(build_proxy_node(source_id, name, ProxyProtocol::Vless, server, port, transport, tls, extra, updated_at))
}

pub fn parse_vless_uri(line: &str, source_id: &str, updated_at: &str) -> (r: Result<ProxyNode, CoreError>)
    ensures
        r matches Ok(n) ==> spec_parse_vless(line@, source_id@, updated_at@) == Some(n@),
        r is Err ==> spec_parse_vless(line@, source_id@, updated_at@) is None,
        r matches Err(e) ==> parse_failure(
            e,
            url_uri_error(line@, "vless URI 非法："@, "vless URI 缺少 host"@, "vless URI 缺少端口"@),
        ),
{
    let parts = match parse_url(line) {
        Ok(p) => p,
        Err(m) => return Err(url_error("vless URI 非法：", m.as_str())),
    };
    vless_node_from_parts(&parts, source_id, updated_at)
}

// ---------------------------------------------------------------------------
// trojan://
// ---------------------------------------------------------------------------

pub open spec fn trojan_extra(parts: UrlPartsView, transport: ProxyTransport) -> Map<Seq<char>, JsonView> {
    let m = put_user(Map::empty(), "password"@, parts);
    let m = put_str(m, "client_fingerprint"@, qv(parts, seq!["fp", "fingerprint"]));
    let m = put_bool(m, "skip_cert_verify"@, qb(parts, seq!["allowInsecure", "allow_insecure", "insecure"]));
    let m = put_list(m, "alpn"@, csv_opt(qv(parts, seq!["alpn", "alpns"])));
    let m = put_host_opt(m, qv(parts, seq!["host"]), transport);
    let m = put_str(m, "path"@, qv(parts, seq!["path"]));
    let m = put_str(m, "service_name"@, qv(parts, seq!["serviceName", "service_name"]));
    put_str(m, "grpc_service_name"@, qv(parts, seq!["grpc_service_name"]))
}

/// The node a `trojan://` URL denotes, when it has a host and a port: TLS is always on.
pub open spec fn spec_trojan(parts: UrlPartsView, source_id: Seq<char>, updated_at: Seq<char>) -> Option<NodeView> {
    match (parts.host, parts.port) {
        (Some(server), Some(port)) => {
            let transport = url_transport(parts);
            Some(spec_build_node(
                source_id,
                url_name(parts, "trojan"@),
                ProxyProtocol::Trojan,
                server,
                port,
                transport,
                TlsView { enabled: true, server_name: qv(parts, seq!["sni", "peer", "servername"]) },
                trojan_extra(parts, transport),
                updated_at,
            ))
        },
        _ => None,
    }
}

pub open spec fn spec_parse_trojan(line: Seq<char>, source_id: Seq<char>, updated_at: Seq<char>) -> Option<NodeView> {
    match spec_url_parse(line) {
        Some(parts) => spec_trojan(parts, source_id, updated_at),
        None => None,
    }
}

/// Parses a `trojan://password@host:port?params#name` URI.
/// The node a parsed `trojan://` URL denotes (see `spec_trojan`); a URL without a
/// host or a port is refused with the message naming what is missing.
pub fn trojan_node_from_parts(parts: &UrlParts, source_id: &str, updated_at: &str) -> (r: Result<ProxyNode, CoreError>)
    ensures
        r matches Ok(n) ==> spec_trojan(parts@, source_id@, updated_at@) == Some(n@),
        r is Err ==> spec_trojan(parts@, source_id@, updated_at@) is None,
        r matches Err(e) ==> parse_failure(e, if parts@.host is None {
            "trojan URI 缺少 host"@
        } else {
            "trojan URI 缺少端口"@
        }),
{
    let server = match &parts.host {
        Some(h) => h.clone(),
        None => return Err(CoreError::SubscriptionParse(string_from_str("trojan URI 缺少 host"))),
    };
    let port = match parts.port {
        Some(p) => p,
        None => return Err(CoreError::SubscriptionParse(string_from_str("trojan URI 缺少端口"))),
    };
    let name = url_node_name(parts, "trojan");
    let transport = url_transport_exec(parts);
    let pairs = parts.query_pairs.as_slice();
    let k_sni: &[&str] = &["sni", "peer", "servername"];
    let k_fp: &[&str] = &["fp", "fingerprint"];
    let k_insecure: &[&str] = &["allowInsecure", "allow_insecure", "insecure"];
    let k_alpn: &[&str] = &["alpn", "alpns"];
    let k_host: &[&str] = &["host"];
    let k_path: &[&str] = &["path"];
    let k_service: &[&str] = &["serviceName", "service_name"];
    let k_grpc: &[&str] = &["grpc_service_name"];
    assert(k_sni@ == seq!["sni", "peer", "servername"]);
    assert(k_fp@ == seq!["fp", "fingerprint"]);
    assert(k_insecure@ == seq!["allowInsecure", "allow_insecure", "insecure"]);
    assert(k_alpn@ == seq!["alpn", "alpns"]);
    assert(k_host@ == seq!["host"]);
    assert(k_path@ == seq!["path"]);
    assert(k_service@ == seq!["serviceName", "service_name"]);
    assert(k_grpc@ == seq!["grpc_service_name"]);
    let sni = query_value(pairs, k_sni);

    let mut extra = NodeExtra::new();
    insert_username(&mut extra, "password", parts);
    insert_optional_string(&mut extra, "client_fingerprint", query_value(pairs, k_fp));
    insert_optional_bool(&mut extra, "skip_cert_verify", query_bool(pairs, k_insecure));
    insert_optional_alpn(&mut extra, query_value(pairs, k_alpn));
    insert_transport_host(&mut extra, query_value(pairs, k_host), transport);
    insert_optional_string(&mut extra, "path", query_value(pairs, k_path));
    insert_optional_string(&mut extra, "service_name", query_value(pairs, k_service));
    insert_optional_string(&mut extra, "grpc_service_name", query_value(pairs, k_grpc));

    let tls = TlsConfig { enabled: true, server_name: sni };
    Ok(build_proxy_node(source_id, name, ProxyProtocol::Trojan, server, port, transport, tls, extra, updated_at))
}

pub fn parse_trojan_uri(line: &str, source_id: &str, updated_at: &str) -> (r: Result<ProxyNode, CoreError>)
    ensures
        r matches Ok(n) ==> spec_parse_trojan(line@, source_id@, updated_at@) == Some(n@),
        r is Err ==> spec_parse_trojan(line@, source_id@, updated_at@) is None,
        r matches Err(e) ==> parse_failure(
            e,
            url_uri_error(line@, "trojan URI 非法："@, "trojan URI 缺少 host"@, "trojan URI 缺少端口"@),
        ),
{
    let parts = match parse_url(line) {
        Ok(p) => p,
        Err(m) => return Err(url_error("trojan URI 非法：", m.as_str())),
    };
    trojan_node_from_parts(&parts, source_id, updated_at)
}

// ---------------------------------------------------------------------------
// hysteria2://
// ---------------------------------------------------------------------------

pub open spec fn hysteria2_extra(parts: UrlPartsView) -> Map<Seq<char>, JsonView> {
    let m = put_user(Map::empty(), "password"@, parts);
    let m = put_user(m, "auth"@, parts);
    let m = put_str(m, "obfs"@, qv(parts, seq!["obfs"]));
    let m = put_str(m, "obfs_password"@, qv(parts, seq!["obfs-password", "obfs_password"]));
    let m = put_bool(m, "skip_cert_verify"@, qb(parts, seq!["insecure", "allowInsecure", "allow_insecure"]));
    put_list(m, "alpn"@, csv_opt(qv(parts, seq!["alpn", "alpns"])))
}

/// The node a `hysteria2://` URL denotes: QUIC with TLS on.
pub open spec fn spec_hysteria2(parts: UrlPartsView, source_id: Seq<char>, updated_at: Seq<char>) -> Option<NodeView> {
    match (parts.host, parts.port) {
        (Some(server), Some(port)) => Some(spec_build_node(
            source_id,
            url_name(parts, "hysteria2"@),
            ProxyProtocol::Hysteria2,
            server,
            port,
            ProxyTransport::Quic,
            TlsView { enabled: true, server_name: qv(parts, seq!["sni", "peer", "servername"]) },
            hysteria2_extra(parts),
            updated_at,
        )),
        _ => None,
    }
}

pub open spec fn spec_parse_hysteria2(line: Seq<char>, source_id: Seq<char>, updated_at: Seq<char>) -> Option<NodeView> {
    match spec_url_parse(line) {
        Some(parts) => spec_hysteria2(parts, source_id, updated_at),
        None => None,
    }
}

/// Parses a `hysteria2://auth@host:port?params#name` URI.
/// The node a parsed `hysteria2://` URL denotes (see `spec_hysteria2`); a URL without a
/// host or a port is refused with the message naming what is missing.
pub fn hysteria2_node_from_parts(parts: &UrlParts, source_id: &str, updated_at: &str) -> (r: Result<ProxyNode, CoreError>)
    ensures
        r matches Ok(n) ==> spec_hysteria2(parts@, source_id@, updated_at@) == Some(n@),
        r is Err ==> spec_hysteria2(parts@, source_id@, updated_at@) is None,
        r matches Err(e) ==> parse_failure(e, if parts@.host is None {
            "hysteria2 URI 缺少 host"@
        } else {
            "hysteria2 URI 缺少端口"@
        }),
{
    let server = match &parts.host {
        Some(h) => h.clone(),
        None => return Err(CoreError::SubscriptionParse(string_from_str("hysteria2 URI 缺少 host"))),
    };
    let port = match parts.port {
        Some(p) => p,
        None => return Err(CoreError::SubscriptionParse(string_from_str("hysteria2 URI 缺少端口"))),
    };
    let name = url_node_name(parts, "hysteria2");
    let pairs = parts.query_pairs.as_slice();
    let k_obfs: &[&str] = &["obfs"];
    let k_obfs_password: &[&str] = &["obfs-password", "obfs_password"];
    let k_insecure: &[&str] = &["insecure", "allowInsecure", "allow_insecure"];
    let k_alpn: &[&str] = &["alpn", "alpns"];
    let k_sni: &[&str] = &["sni", "peer", "servername"];
    assert(k_obfs@ == seq!["obfs"]);
    assert(k_obfs_password@ == seq!["obfs-password", "obfs_password"]);
    assert(k_insecure@ == seq!["insecure", "allowInsecure", "allow_insecure"]);
    assert(k_alpn@ == seq!["alpn", "alpns"]);
    assert(k_sni@ == seq!["sni", "peer", "servername"]);

    let mut extra = NodeExtra::new();
    insert_username(&mut extra, "password", parts);
    insert_username(&mut extra, "auth", parts);
    insert_optional_string(&mut extra, "obfs", query_value(pairs, k_obfs));
    insert_optional_string(&mut extra, "obfs_password", query_value(pairs, k_obfs_password));
    insert_optional_bool(&mut extra, "skip_cert_verify", query_bool(pairs, k_insecure));
    insert_optional_alpn(&mut extra, query_value(pairs, k_alpn));

    let tls = TlsConfig { enabled: true, server_name: query_value(pairs, k_sni) };
    Ok(build_proxy_node(
        source_id,
        name,
        ProxyProtocol::Hysteria2,
        server,
        port,
        ProxyTransport::Quic,
        tls,
        extra,
        updated_at,
    ))
}

pub fn parse_hysteria2_uri(line: &str, source_id: &str, updated_at: &str) -> (r: Result<ProxyNode, CoreError>)
    ensures
        r matches Ok(n) ==> spec_parse_hysteria2(line@, source_id@, updated_at@) == Some(n@),
        r is Err ==> spec_parse_hysteria2(line@, source_id@, updated_at@) is None,
        r matches Err(e) ==> parse_failure(
            e,
            url_uri_error(line@, "hysteria2 URI 非法："@, "hysteria2 URI 缺少 host"@, "hysteria2 URI 缺少端口"@),
        ),
{
    let parts = match parse_url(line) {
        Ok(p) => p,
        Err(m) => return Err(url_error("hysteria2 URI 非法：", m.as_str())),
    };
    hysteria2_node_from_parts(&parts, source_id, updated_at)
}

} // verus!
