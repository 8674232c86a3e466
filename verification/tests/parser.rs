use base64::engine::general_purpose::STANDARD as BASE64_STANDARD;
use base64::Engine as _;
use subforge_core::error::CoreError;
use subforge_core::json::JsonValue;
use subforge_core::node::{ProxyNode, ProxyProtocol, ProxyTransport};
use subforge_core::subscription::{
    looks_like_uri_list, normalize_subscription_payload, parse_payload_at, parse_proxy_uri_line, parse_ss_uri,
    SubscriptionParser, UriListParser,
};
use subforge_core::url_parsers::{parse_hysteria2_uri, parse_trojan_uri, parse_vless_uri};
use subforge_core::vmess::{parse_vmess_uri, try_decode_base64_text};

fn text(value: &str) -> JsonValue {
    JsonValue::String(value.to_string())
}

fn string_list(values: &[&str]) -> JsonValue {
    JsonValue::Array(values.iter().map(|v| text(v)).collect())
}

#[test]
fn lib_uri_list_parser_handles_invalid_protocol_lines_without_failing() {
    let parser = UriListParser;
    let payload = "not-uri\nvmess://invalid\nss://invalid\nvless://missing-port";
    let nodes = parser.parse("source-invalid", payload).expect("解析过程应不中断");

    assert!(nodes.is_empty());
}

#[test]
fn parser_uri_list_parser_handles_invalid_protocol_lines_without_failing() {
    let parser = UriListParser;
    let payload = "not-uri\nvmess://invalid\nss://invalid\nvless://missing-port";
    let nodes = parser.parse("source-invalid", payload).expect("解析过程应不中断");

    assert!(nodes.is_empty());
}

#[test]
fn uri_list_parser_decodes_percent_encoded_node_names() {
    let parser = UriListParser;
    let vmess_payload = BASE64_STANDARD.encode(
        r#"{"v":"2","ps":"%E6%97%A5%E6%9C%AC-%E4%B8%9C%E4%BA%AC","add":"example.com","port":"443","id":"11111111-1111-1111-1111-111111111111","aid":"0","net":"tcp","type":"none","host":"","path":"","tls":"tls"}"#,
    );
    let payload = format!(
        "ss://YWVzLTI1Ni1nY206cGFzc3dvcmQ=@example.com:443#%E9%A6%99%E6%B8%AF-01\n\
vless://11111111-1111-1111-1111-111111111111@example.com:443?type=tcp#%E7%BE%8E%E5%9B%BD-02\n\
trojan://password@example.com:443#%E5%8F%B0%E6%B9%BE-03\n\
vmess://{vmess_payload}"
    );
    let nodes = parser
        .parse("source-name-decode", &payload)
        .expect("解析 percent-encoded 名称应成功");

    assert_eq!(nodes.len(), 4);
    let names = nodes.into_iter().map(|node| node.name).collect::<Vec<_>>();
    assert!(names.contains(&"香港-01".to_string()));
    assert!(names.contains(&"美国-02".to_string()));
    assert!(names.contains(&"台湾-03".to_string()));
    assert!(names.contains(&"日本-东京".to_string()));
}

#[test]
fn uri_list_parser_preserves_transport_tls_and_runtime_fields() {
    let parser = UriListParser;
    let vmess_payload = BASE64_STANDARD.encode(
        r#"{"v":"2","ps":"vmess-node","add":"vmess.example.com","port":"443","id":"aaaaaaaa-aaaa-aaaa-aaaa-aaaaaaaaaaaa","aid":"2","net":"ws","host":"edge.vmess.example.com","path":"/vmess","tls":"tls","sni":"sni.vmess.example.com","scy":"auto","fp":"chrome","alpn":"h2,http/1.1","allowInsecure":"1"}"#,
    );
    let payload = format!(
        "vmess://{vmess_payload}\n\
vless://bbbbbbbb-bbbb-bbbb-bbbb-bbbbbbbbbbbb@vless.example.com:443?type=grpc&security=tls&sni=sni.vless.example.com&serviceName=vless-grpc&alpn=h2%2Chttp%2F1.1&fp=chrome&allowInsecure=1&flow=xtls-rprx-vision#vless-node\n\
trojan://trojan-pass@trojan.example.com:443?type=ws&sni=sni.trojan.example.com&host=edge.trojan.example.com&path=%2Ftrojan&alpn=h2%2Chttp%2F1.1&allowInsecure=true#trojan-node"
    );

    let nodes = parser
        .parse("source-runtime-fields", &payload)
        .expect("解析带完整参数的节点应成功");
    assert_eq!(nodes.len(), 3);

    let vmess = nodes
        .iter()
        .find(|node| node.protocol == ProxyProtocol::Vmess)
        .expect("应包含 vmess 节点");
    assert_eq!(vmess.transport, ProxyTransport::Ws);
    assert!(vmess.tls.enabled);
    assert_eq!(vmess.tls.server_name.as_deref(), Some("sni.vmess.example.com"));
    assert_eq!(vmess.extra.get("host"), Some(&text("edge.vmess.example.com")));
    assert_eq!(vmess.extra.get("path"), Some(&text("/vmess")));
    assert_eq!(vmess.extra.get("skip_cert_verify"), Some(&JsonValue::Bool(true)));
    assert_eq!(vmess.extra.get("alpn"), Some(&string_list(&["h2", "http/1.1"])));

    let vless = nodes
        .iter()
        .find(|node| node.protocol == ProxyProtocol::Vless)
        .expect("应包含 vless 节点");
    assert_eq!(vless.transport, ProxyTransport::Grpc);
    assert!(vless.tls.enabled);
    assert_eq!(vless.tls.server_name.as_deref(), Some("sni.vless.example.com"));
    assert_eq!(vless.extra.get("service_name"), Some(&text("vless-grpc")));
    assert_eq!(vless.extra.get("flow"), Some(&text("xtls-rprx-vision")));
    assert_eq!(vless.extra.get("skip_cert_verify"), Some(&JsonValue::Bool(true)));

    let trojan = nodes
        .iter()
        .find(|node| node.protocol == ProxyProtocol::Trojan)
        .expect("应包含 trojan 节点");
    assert_eq!(trojan.transport, ProxyTransport::Ws);
    assert!(trojan.tls.enabled);
    assert_eq!(trojan.tls.server_name.as_deref(), Some("sni.trojan.example.com"));
    assert_eq!(trojan.extra.get("host"), Some(&text("edge.trojan.example.com")));
    assert_eq!(trojan.extra.get("path"), Some(&text("/trojan")));
    assert_eq!(trojan.extra.get("password"), Some(&text("trojan-pass")));
}

#[test]
fn base64_payload_is_decoded_before_parsing() {
    let list = "ss://YWVzLTI1Ni1nY206cGFzc3dvcmQ=@example.com:443#a\ntrojan://pw@example.com:443#b\n";
    let encoded = BASE64_STANDARD.encode(list);
    let normalized = normalize_subscription_payload(&format!("  {encoded}\n"));
    assert_eq!(normalized, list.trim());

    let nodes = parse_payload_at("src", &encoded, "2026-01-01T00:00:00Z");
    assert_eq!(nodes.len(), 2);
    assert_eq!(nodes[0].protocol, ProxyProtocol::Ss);
    assert_eq!(nodes[1].protocol, ProxyProtocol::Trojan);
    assert_eq!(nodes[0].updated_at, "2026-01-01T00:00:00Z");
    assert_eq!(nodes[0].source_id, "src");
}

#[test]
fn comments_and_blank_lines_are_skipped() {
    let payload = "# comment\n\n   \r\ntrojan://pw@example.com:443#one\r\n#trojan://pw@example.com:443#two";
    let nodes = parse_payload_at("src", payload, "t");
    assert_eq!(nodes.len(), 1);
    assert_eq!(nodes[0].name, "one");
}

#[test]
fn normalize_keeps_text_that_is_not_base64_of_a_list() {
    assert_eq!(normalize_subscription_payload("   "), "");
    assert_eq!(normalize_subscription_payload("  hello world \n"), "hello world");
    let encoded = BASE64_STANDARD.encode("just text");
    assert_eq!(normalize_subscription_payload(&encoded), encoded);
}

#[test]
fn looks_like_uri_list_names_the_four_schemes() {
    assert!(looks_like_uri_list("x ss://y"));
    assert!(looks_like_uri_list("vmess://abc"));
    assert!(looks_like_uri_list("vless://abc"));
    assert!(looks_like_uri_list("trojan://abc"));
    assert!(!looks_like_uri_list("hysteria2://abc"));
    assert!(!looks_like_uri_list("http://example.com"));
}

#[test]
fn try_decode_base64_text_accepts_each_alphabet() {
    assert_eq!(try_decode_base64_text("aGVsbG8="), Some("hello".to_string()));
    assert_eq!(try_decode_base64_text("aGVsbG8"), Some("hello".to_string()));
    assert_eq!(try_decode_base64_text("  aGVsbG8=  "), None);
    assert_eq!(try_decode_base64_text("Pz8_"), Some("???".to_string()));
    assert_eq!(try_decode_base64_text(""), Some(String::new()));
    assert_eq!(try_decode_base64_text("/w=="), None);
    assert_eq!(try_decode_base64_text("!!!"), None);
}

#[test]
fn ss_uri_with_base64_credential_is_parsed() {
    let node = parse_ss_uri("ss://YWVzLTI1Ni1nY206cGFzc3dvcmQ=@example.com:8388#My%20Node", "src", "t").unwrap();
    assert_eq!(node.protocol, ProxyProtocol::Ss);
    assert_eq!(node.name, "My Node");
    assert_eq!(node.server, "example.com");
    assert_eq!(node.port, 8388);
    assert_eq!(node.transport, ProxyTransport::Tcp);
    assert!(!node.tls.enabled);
    assert_eq!(node.extra.get("cipher"), Some(&text("aes-256-gcm")));
    assert_eq!(node.extra.get("password"), Some(&text("password")));
    assert!(node.id.starts_with("node-"));
    assert_eq!(node.id.len(), 21);
}

#[test]
fn ss_uri_with_plain_credential_and_ipv6_host() {
    let node = parse_ss_uri("ss://chacha20-ietf-poly1305:secret@[2001:db8::1]:443", "src", "t").unwrap();
    assert_eq!(node.server, "2001:db8::1");
    assert_eq!(node.port, 443);
    assert_eq!(node.extra.get("cipher"), Some(&text("chacha20-ietf-poly1305")));
    assert_eq!(node.extra.get("password"), Some(&text("secret")));
}

#[test]
fn ss_uri_errors_are_parse_errors() {
    assert!(matches!(parse_ss_uri("ss://invalid", "s", "t"), Err(CoreError::SubscriptionParse(_))));
    assert!(matches!(parse_ss_uri("ss://bm9jb2xvbg==@host:1", "s", "t"), Err(CoreError::SubscriptionParse(_))));
    assert!(matches!(parse_ss_uri("ss://a:b@host:99999", "s", "t"), Err(CoreError::SubscriptionParse(_))));
}

#[test]
fn node_identifier_is_stable_and_tracks_identity() {
    let a = parse_ss_uri("ss://a:b@host:1#n", "src", "t1").unwrap();
    let b = parse_ss_uri("ss://a:b@host:1#n", "src", "t2").unwrap();
    let c = parse_ss_uri("ss://a:b@host:2#n", "src", "t1").unwrap();
    let d = parse_ss_uri("ss://a:b@host:1#n", "other", "t1").unwrap();
    assert_eq!(a.id, b.id);
    assert_ne!(a.id, c.id);
    assert_ne!(a.id, d.id);
}

#[test]
fn vless_uri_defaults_and_h2_hosts() {
    let node = parse_vless_uri(
        "vless://uuid-1@example.com:8443?type=h2&host=a.example.com,%20b.example.com&security=reality",
        "src",
        "t",
    )
    .unwrap();
    assert_eq!(node.name, "vless");
    assert_eq!(node.transport, ProxyTransport::H2);
    assert!(node.tls.enabled);
    assert_eq!(node.tls.server_name, None);
    assert_eq!(node.extra.get("uuid"), Some(&text("uuid-1")));
    assert_eq!(node.extra.get("security"), Some(&text("reality")));
    assert_eq!(node.extra.get("host"), Some(&string_list(&["a.example.com", "b.example.com"])));

    let plain = parse_vless_uri("vless://u@example.com:80?security=none", "src", "t").unwrap();
    assert!(!plain.tls.enabled);
    assert_eq!(plain.transport, ProxyTransport::Tcp);
    assert!(parse_vless_uri("vless://missing-port", "src", "t").is_err());
}

#[test]
fn trojan_uri_enables_tls_and_keeps_fields() {
    let node = parse_trojan_uri("trojan://pw@example.com:443?peer=sni.example.com&insecure=no#T", "src", "t").unwrap();
    assert_eq!(node.protocol, ProxyProtocol::Trojan);
    assert!(node.tls.enabled);
    assert_eq!(node.tls.server_name.as_deref(), Some("sni.example.com"));
    assert_eq!(node.extra.get("skip_cert_verify"), Some(&JsonValue::Bool(false)));
    assert_eq!(node.name, "T");
}

#[test]
fn hysteria2_uri_is_quic_with_tls() {
    let node = parse_hysteria2_uri(
        "hysteria2://secret@example.com:8443?sni=h.example.com&obfs=salamander&obfs-password=x&insecure=1#H",
        "src",
        "t",
    )
    .unwrap();
    assert_eq!(node.protocol, ProxyProtocol::Hysteria2);
    assert_eq!(node.transport, ProxyTransport::Quic);
    assert!(node.tls.enabled);
    assert_eq!(node.tls.server_name.as_deref(), Some("h.example.com"));
    assert_eq!(node.extra.get("password"), Some(&text("secret")));
    assert_eq!(node.extra.get("auth"), Some(&text("secret")));
    assert_eq!(node.extra.get("obfs"), Some(&text("salamander")));
    assert_eq!(node.extra.get("obfs_password"), Some(&text("x")));
    assert_eq!(node.extra.get("skip_cert_verify"), Some(&JsonValue::Bool(true)));
    assert_eq!(node.name, "H");
}

#[test]
fn vmess_uri_reads_numeric_fields_and_h2_hosts() {
    let payload = BASE64_STANDARD.encode(
        r#"{"add":"v.example.com","port":8080,"id":"id-1","aid":4,"net":"h2","host":["a.example.com","b.example.com, c.example.com"],"tls":"none","allowInsecure":0}"#,
    );
    let node = parse_vmess_uri(&format!("vmess://{payload}"), "src", "t").unwrap();
    assert_eq!(node.name, "vmess");
    assert_eq!(node.port, 8080);
    assert_eq!(node.transport, ProxyTransport::H2);
    assert!(!node.tls.enabled);
    assert_eq!(node.tls.server_name, None);
    assert_eq!(node.extra.get("uuid"), Some(&text("id-1")));
    assert_eq!(node.extra.get("alter_id"), Some(&JsonValue::Number(subforge_core::json::JsonNumber::PosInt(4))));
    assert_eq!(node.extra.get("skip_cert_verify"), Some(&JsonValue::Bool(false)));
    assert_eq!(
        node.extra.get("host"),
        Some(&string_list(&["a.example.com", "b.example.com", "c.example.com"]))
    );
}

#[test]
fn vmess_uri_errors() {
    assert!(matches!(parse_vmess_uri("vmess://invalid", "s", "t"), Err(CoreError::SubscriptionParse(_))));
    let no_add = BASE64_STANDARD.encode(r#"{"port":"1"}"#);
    assert!(parse_vmess_uri(&format!("vmess://{no_add}"), "s", "t").is_err());
    let bad_port = BASE64_STANDARD.encode(r#"{"add":"h","port":"70000"}"#);
    assert!(parse_vmess_uri(&format!("vmess://{bad_port}"), "s", "t").is_err());
}

#[test]
fn unsupported_scheme_is_a_parse_error() {
    let result: Result<ProxyNode, CoreError> = parse_proxy_uri_line("http://example.com", "s", "t");
    assert!(matches!(result, Err(CoreError::SubscriptionParse(_))));
    assert!(parse_proxy_uri_line("hysteria2://a@b:1", "s", "t").is_err());
}

#[test]
fn lines_are_parsed_independently_and_stamped() {
    let first = "trojan://a@h1.example.com:443#one\nnot-a-uri";
    let second = "ss://YWVzLTI1Ni1nY206cGFzc3dvcmQ=@h2.example.com:443#two";
    let both = parse_payload_at("src", &format!("{first}\n{second}"), "t0");
    let a = parse_payload_at("src", first, "t0");
    let b = parse_payload_at("src", second, "t0");
    let names = |nodes: &Vec<ProxyNode>| nodes.iter().map(|n| n.name.clone()).collect::<Vec<_>>();
    let mut joined = names(&a);
    joined.extend(names(&b));
    assert_eq!(names(&both), joined);
    assert!(both.iter().all(|n| n.source_id == "src" && n.updated_at == "t0" && n.tags.is_empty() && n.region.is_none()));
}

#[test]
fn base64_list_with_invalid_lines_keeps_the_valid_nodes() {
    let vmess = BASE64_STANDARD.encode(r#"{"ps":"v","add":"vmess.example.com","port":443,"id":"u"}"#);
    let list = format!(
        "ss://YWVzLTI1Ni1nY206cGFzc3dvcmQ=@example.com:443#a\n\
# a comment\n\
\n\
not-uri\n\
vmess://{vmess}\n\
vless://missing-port\n\
trojan://pw@example.com:443#b\n"
    );
    let nodes = UriListParser.parse("source-fixture", &BASE64_STANDARD.encode(&list)).unwrap();
    let protocols: Vec<ProxyProtocol> = nodes.iter().map(|node| node.protocol).collect();
    assert_eq!(protocols, vec![ProxyProtocol::Ss, ProxyProtocol::Vmess, ProxyProtocol::Trojan]);
    let plain = UriListParser.parse("source-fixture", &list).unwrap();
    assert_eq!(plain.len(), 3);
    assert_eq!(plain[1].server, nodes[1].server);
}
