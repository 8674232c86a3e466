use std::io::Write;

use subforge_core::clash::{parse_clash_proxy, ClashProxy};
use subforge_core::config::{
    check_config_keys, is_scalar_json, masked_config, stored_typed_value, stringify_secret_value, SECRET_PLACEHOLDER,
};
use subforge_core::error::CoreError;
use subforge_core::fetch::{build_request_headers, decode_response_body, subscription_body_text};
use subforge_core::json::{JsonNumber, JsonValue};
use subforge_core::node::NodeExtra;
use subforge_core::node::ProxyProtocol;
use subforge_core::singbox::{parse_singbox_node, parse_singbox_outbounds_at, validate_required_fields};
use subforge_core::subscription::{parse_proxy_uri_line, parse_ss_uri};
use subforge_core::uri::parse_host_port;
use subforge_core::codec::UrlParts;
use subforge_core::node::ProxyTransport;
use subforge_core::url_parsers::{
    hysteria2_node_from_parts, parse_hysteria2_uri, parse_trojan_uri, parse_vless_uri, trojan_node_from_parts,
    vless_node_from_parts,
};
use subforge_core::vmess::parse_vmess_uri;

fn parse_message<T: std::fmt::Debug>(result: Result<T, CoreError>) -> String {
    match result {
        Err(CoreError::SubscriptionParse(m)) => m,
        other => panic!("unexpected {other:?}"),
    }
}

fn config_message<T: std::fmt::Debug>(result: Result<T, CoreError>) -> String {
    match result {
        Err(CoreError::ConfigInvalid(m)) => m,
        other => panic!("unexpected {other:?}"),
    }
}

fn text(value: &str) -> JsonValue {
    JsonValue::String(value.to_string())
}

fn object(entries: Vec<(&str, JsonValue)>) -> JsonValue {
    JsonValue::Object(entries.into_iter().map(|(k, v)| (k.to_string(), v)).collect())
}

fn strings(items: &[&str]) -> Vec<String> {
    items.iter().map(|s| s.to_string()).collect()
}

#[test]
fn host_port_errors_carry_the_integer_error() {
    assert_eq!(parse_host_port("example.com:443").unwrap(), ("example.com".to_string(), 443));
    assert_eq!(parse_host_port("example.com:+443").unwrap(), ("example.com".to_string(), 443));
    assert_eq!(parse_message(parse_host_port("example.com:abc")), "端口非法：invalid digit found in string");
    assert_eq!(parse_message(parse_host_port("example.com:99999")), "端口非法：number too large to fit in target type");
    assert_eq!(parse_message(parse_host_port("example.com:")), "端口非法：cannot parse integer from empty string");
    assert_eq!(parse_message(parse_host_port("example.com:+")), "端口非法：invalid digit found in string");
    assert_eq!(parse_message(parse_host_port("example.com")), "host:port 解析失败：example.com");
    assert_eq!(parse_message(parse_host_port("[::1")), "host 非法：[::1");
    assert_eq!(parse_message(parse_host_port("[::1]443")), "端口缺失：[::1]443");
    assert_eq!(parse_message(parse_host_port("[::1]:x")), "端口非法：invalid digit found in string");
}

#[test]
fn ss_errors_name_the_missing_part() {
    assert_eq!(parse_message(parse_ss_uri("ss://!!!", "s", "t")), "ss URI 缺少 @server:port");
    // Base64 of "method:password" without an `@host:port`.
    assert_eq!(parse_message(parse_ss_uri("ss://bWV0aG9kOnBhc3N3b3Jk", "s", "t")), "ss URI 凭证无法解析");
    assert_eq!(parse_message(parse_ss_uri("ss://no_colon!@host:1", "s", "t")), "ss URI 凭证必须为 method:password");
    assert_eq!(
        parse_message(parse_ss_uri("ss://a:b@host:99999", "s", "t")),
        "端口非法：number too large to fit in target type"
    );
}

#[test]
fn url_uri_errors() {
    assert_eq!(parse_message(parse_vless_uri("vless://uuid@example.com", "s", "t")), "vless URI 缺少端口");
    assert_eq!(parse_message(parse_trojan_uri("trojan://pw@example.com", "s", "t")), "trojan URI 缺少端口");
    assert_eq!(parse_message(parse_hysteria2_uri("hysteria2://pw@example.com", "s", "t")), "hysteria2 URI 缺少端口");
    assert_eq!(
        parse_message(parse_vless_uri("vless://uuid@example.com:99999", "s", "t")),
        "vless URI 非法：invalid port number"
    );
    assert_eq!(parse_message(parse_trojan_uri("not a url", "s", "t")), "trojan URI 非法：relative URL without a base");
    assert_eq!(parse_message(parse_proxy_uri_line("http://example.com", "s", "t")), "不支持的 URI 协议：http://example.com");
}

#[test]
fn vmess_errors() {
    assert_eq!(parse_message(parse_vmess_uri("vmess://%%%", "s", "t")), "vmess URI Base64 解码失败");
    // Base64 of "not json".
    assert!(parse_message(parse_vmess_uri("vmess://bm90IGpzb24=", "s", "t")).starts_with("vmess JSON 非法："));
    // Base64 of `{"port":443}` and of `{"add":"h"}`.
    assert_eq!(parse_message(parse_vmess_uri("vmess://eyJwb3J0Ijo0NDN9", "s", "t")), "vmess 缺少 add");
    assert_eq!(parse_message(parse_vmess_uri("vmess://eyJhZGQiOiJoIn0=", "s", "t")), "vmess 缺少有效 port");
}

#[test]
fn singbox_errors_name_the_field_and_node() {
    let mut extra = NodeExtra::new();
    extra.insert("cipher".to_string(), text("aes-128-gcm"));
    assert_eq!(
        parse_message(validate_required_fields(ProxyProtocol::Ss, &extra, "n1")),
        "sing-box 节点缺少必要字段：password (n1)"
    );
    assert!(validate_required_fields(ProxyProtocol::Trojan, &NodeExtra::new(), "x").is_err());
    assert_eq!(parse_message(parse_singbox_node(&text("x"), "s", "t")), "sing-box outbound 结构非法");
    assert_eq!(parse_message(parse_singbox_node(&object(vec![]), "s", "t")), "sing-box 节点缺少必要字段：type");
    let no_port = object(vec![("type", text("trojan")), ("tag", text("a")), ("server", text("h"))]);
    assert_eq!(parse_message(parse_singbox_node(&no_port, "s", "t")), "sing-box 节点缺少必要字段：server_port");
    let no_password = object(vec![
        ("type", text("trojan")),
        ("tag", text("a")),
        ("server", text("h")),
        ("server_port", JsonValue::Number(JsonNumber::PosInt(443))),
    ]);
    assert_eq!(parse_message(parse_singbox_node(&no_password, "s", "t")), "sing-box 节点缺少必要字段：password (a)");
    let list = vec![object(vec![("type", text("selector"))]), no_password, text("x")];
    assert_eq!(parse_message(parse_singbox_outbounds_at(&list, "s", "t")), "sing-box 节点缺少必要字段：password (a)");
}

fn clash(name: &str, proxy_type: &str, server: &str) -> ClashProxy {
    ClashProxy {
        name: name.to_string(),
        proxy_type: proxy_type.to_string(),
        server: server.to_string(),
        port: 443,
        cipher: None,
        password: None,
        uuid: None,
        alter_id: None,
        tls: None,
        sni: None,
        servername: None,
        network: None,
        flow: None,
        skip_cert_verify: None,
        client_fingerprint: None,
        ws_opts: None,
        grpc_opts: None,
        h2_opts: None,
        alpn: None,
        obfs: None,
        obfs_password: None,
        congestion_controller: None,
        udp_relay_mode: None,
    }
}

#[test]
fn clash_errors() {
    assert_eq!(parse_message(parse_clash_proxy(&clash("a", "http", "h"), "s", "t")), "不支持的 Clash 节点类型：http");
    assert_eq!(parse_message(parse_clash_proxy(&clash(" ", "trojan", "h"), "s", "t")), "Clash 节点缺少必要字段：name");
    assert_eq!(parse_message(parse_clash_proxy(&clash("a", "trojan", ""), "s", "t")), "Clash 节点缺少必要字段：server");
    assert_eq!(
        parse_message(parse_clash_proxy(&clash(" node ", "tuic", "h"), "s", "t")),
        "Clash 节点缺少必要字段：uuid (node)"
    );
}

fn gzip(bytes: &[u8]) -> Vec<u8> {
    let mut encoder = flate2::write::GzEncoder::new(Vec::new(), flate2::Compression::default());
    encoder.write_all(bytes).unwrap();
    encoder.finish().unwrap()
}

#[test]
fn body_errors() {
    assert!(decode_response_body(vec![0xff, 0xff, 0xff], Some("gzip, br")).unwrap_err().starts_with("br 解压失败："));
    assert!(decode_response_body(b"not gzip".to_vec(), Some("gzip, identity")).unwrap_err().starts_with("gzip 解压失败："));
    match subscription_body_text(vec![b'a', 0xff], None) {
        Err(CoreError::SubscriptionParse(m)) => {
            assert_eq!(m, "订阅内容不是 UTF-8：invalid utf-8 sequence of 1 bytes from index 1")
        },
        other => panic!("unexpected {other:?}"),
    }
    let big = gzip(&vec![b'a'; 10 * 1024 * 1024 + 5]);
    match subscription_body_text(big, Some("gzip")) {
        Err(CoreError::SubscriptionFetch(m)) => {
            assert_eq!(m, "上游响应体过大：10485765 bytes（限制 10485760 bytes）")
        },
        other => panic!("unexpected {other:?}"),
    }
}

fn pairs(items: &[(&str, &str)]) -> Vec<(String, String)> {
    items.iter().map(|(k, v)| (k.to_string(), v.to_string())).collect()
}

#[test]
fn request_header_errors_name_the_header() {
    let bad_default = pairs(&[("Accept", "*/*"), ("Bad Name", "x")]);
    assert_eq!(
        config_message(build_request_headers(&bad_default, None, None)),
        "传输层默认 Header 名非法（Bad Name）：invalid HTTP header name"
    );
    let bad_value = pairs(&[("X-Token", "a\nb")]);
    assert_eq!(
        config_message(build_request_headers(&pairs(&[]), None, Some(&bad_value))),
        "请求 Header 值非法（X-Token）：failed to parse header value"
    );
    assert_eq!(
        config_message(build_request_headers(&pairs(&[]), Some("a\u{7f}b"), None)),
        "user_agent 非法：failed to parse header value"
    );
}

#[test]
fn secret_values_are_stored_as_text() {
    assert_eq!(stringify_secret_value("k", "string", &text("v")).unwrap(), Some("v".to_string()));
    assert_eq!(
        stringify_secret_value("k", "integer", &JsonValue::Number(JsonNumber::NegInt(-42))).unwrap(),
        Some("-42".to_string())
    );
    assert_eq!(
        stringify_secret_value("k", "number", &JsonValue::Number(JsonNumber::PosInt(7))).unwrap(),
        Some("7".to_string())
    );
    assert_eq!(
        stringify_secret_value("k", "number", &JsonValue::Number(JsonNumber::Float("1.5".to_string()))).unwrap(),
        None
    );
    assert_eq!(stringify_secret_value("k", "boolean", &JsonValue::Bool(false)).unwrap(), Some("false".to_string()));
    assert_eq!(config_message(stringify_secret_value("k", "string", &JsonValue::Bool(true))), "字段 k 必须是 string");
    assert_eq!(config_message(stringify_secret_value("k", "integer", &text("1"))), "字段 k 必须是 number/integer");
    assert_eq!(config_message(stringify_secret_value("k", "boolean", &text("true"))), "字段 k 必须是 boolean");
    assert_eq!(config_message(stringify_secret_value("k", "object", &text("x"))), "字段 k 包含不支持类型：object");
}

#[test]
fn stored_texts_are_read_back() {
    assert_eq!(stored_typed_value("k", "integer", "12").unwrap(), Some(JsonValue::Number(JsonNumber::PosInt(12))));
    assert_eq!(stored_typed_value("k", "string", "plain text").unwrap(), Some(text("plain text")));
    assert_eq!(stored_typed_value("k", "string", "\"quoted\"").unwrap(), Some(text("quoted")));
    assert_eq!(stored_typed_value("k", "number", "abc").unwrap(), None);
    assert_eq!(stored_typed_value("k", "integer", "-0012").unwrap(), Some(JsonValue::Number(JsonNumber::NegInt(-12))));
    assert_eq!(
        stored_typed_value("k", "integer", "+7").unwrap(),
        Some(JsonValue::Number(JsonNumber::PosInt(7)))
    );
    assert_eq!(
        config_message(stored_typed_value("k", "integer", "12a")),
        "字段 k integer 解析失败：invalid digit found in string"
    );
    assert_eq!(
        config_message(stored_typed_value("k", "integer", "-99999999999999999999x")),
        "字段 k integer 解析失败：number too small to fit in target type"
    );
    assert_eq!(
        config_message(stored_typed_value("k", "integer", "99999999999999999999x")),
        "字段 k integer 解析失败：number too large to fit in target type"
    );
    assert_eq!(
        config_message(stored_typed_value("k", "boolean", "yes")),
        "字段 k boolean 解析失败：provided string was not `true` or `false`"
    );
    assert_eq!(config_message(stored_typed_value("k", "array", "x")), "字段 k 包含不支持类型：array");
}

#[test]
fn configuration_keys_are_checked_against_the_schema() {
    let required = strings(&["url"]);
    let properties = strings(&["token", "url"]);
    assert!(check_config_keys(&required, &properties, None, &strings(&["token", "url"])).is_ok());
    assert_eq!(config_message(check_config_keys(&required, &properties, None, &strings(&["token"]))), "缺少必填字段：url");
    assert_eq!(
        config_message(check_config_keys(&required, &properties, Some(false), &strings(&["extra", "url"]))),
        "字段未在 schema 中定义：extra"
    );
    assert!(check_config_keys(&required, &properties, Some(true), &strings(&["extra", "url"])).is_ok());
}

#[test]
fn secrets_are_masked_and_scalars_recognised() {
    let normalized = vec![("token".to_string(), text("abc")), ("url".to_string(), text("https://e"))];
    let masked = masked_config(&strings(&["token", "missing"]), &normalized);
    assert_eq!(masked, vec![("token".to_string(), text(SECRET_PLACEHOLDER)), ("url".to_string(), text("https://e"))]);
    assert_eq!(SECRET_PLACEHOLDER, "••••••");
    assert!(is_scalar_json(&text("x")));
    assert!(is_scalar_json(&JsonValue::Bool(true)));
    assert!(!is_scalar_json(&JsonValue::Null));
    assert!(!is_scalar_json(&JsonValue::Array(vec![])));
}

#[test]
fn current_time_is_rfc3339_utc() {
    let now = subforge_core::clock::now_rfc3339().unwrap();
    let bytes = now.as_bytes();
    assert!(now.len() >= 20 && now.len() <= 30, "{now}");
    assert_eq!((bytes[4], bytes[7], bytes[10], bytes[13], bytes[16]), (b'-', b'-', b'T', b':', b':'));
    assert!(now.ends_with('Z'));
    for i in [0, 1, 2, 3, 5, 6, 8, 9, 11, 12, 14, 15, 17, 18] {
        assert!(bytes[i].is_ascii_digit(), "{now}");
    }
    if now.len() > 20 {
        assert_eq!(bytes[19], b'.');
        assert!(now[20..now.len() - 1].bytes().all(|b| b.is_ascii_digit()));
    }
}

fn url_parts(host: Option<&str>, port: Option<u16>, pairs: &[(&str, &str)]) -> UrlParts {
    UrlParts {
        host: host.map(str::to_string),
        port,
        username: "user-1".to_string(),
        fragment: Some("My%20Node".to_string()),
        query: Some("q".to_string()),
        query_pairs: pairs.iter().map(|(k, v)| (k.to_string(), v.to_string())).collect(),
    }
}

#[test]
fn nodes_are_built_from_parsed_urls() {
    let pairs = [("type", "ws"), ("security", "reality"), ("sni", "s.example"), ("path", "/ws"), ("host", "a.example,b.example")];
    let vless = vless_node_from_parts(&url_parts(Some("example.com"), Some(8443), &pairs), "src", "t").unwrap();
    assert_eq!((vless.name.as_str(), vless.server.as_str(), vless.port), ("My Node", "example.com", 8443));
    assert_eq!(vless.transport, ProxyTransport::Ws);
    assert!(vless.tls.enabled);
    assert_eq!(vless.tls.server_name.as_deref(), Some("s.example"));
    assert_eq!(vless.extra.get("uuid"), Some(&text("user-1")));
    assert_eq!(vless.extra.get("path"), Some(&text("/ws")));
    assert_eq!(vless.extra.get("host"), Some(&text("a.example")));

    let trojan = trojan_node_from_parts(&url_parts(Some("example.com"), Some(443), &[("type", "grpc")]), "src", "t").unwrap();
    assert_eq!(trojan.protocol, ProxyProtocol::Trojan);
    assert_eq!(trojan.transport, ProxyTransport::Grpc);
    assert!(trojan.tls.enabled);
    assert_eq!(trojan.extra.get("password"), Some(&text("user-1")));

    let hy2 = hysteria2_node_from_parts(&url_parts(Some("example.com"), Some(443), &[("obfs", "salamander")]), "src", "t").unwrap();
    assert_eq!(hy2.transport, ProxyTransport::Quic);
    assert_eq!(hy2.extra.get("auth"), Some(&text("user-1")));
    assert_eq!(hy2.extra.get("obfs"), Some(&text("salamander")));

    assert_eq!(parse_message(vless_node_from_parts(&url_parts(None, Some(1), &[]), "s", "t")), "vless URI 缺少 host");
    assert_eq!(parse_message(trojan_node_from_parts(&url_parts(Some("h"), None, &[]), "s", "t")), "trojan URI 缺少端口");
}
