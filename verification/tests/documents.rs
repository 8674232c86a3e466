use subforge_core::clash::{
    clash_base_config, clash_proxies, looks_like_clash_payload, parse_clash_nodes, parse_clash_proxy,
    parse_clash_root, require_non_empty, ClashGrpcOptions, ClashH2Options, ClashProxy, ClashWsOptions,
};
use subforge_core::error::CoreError;
use subforge_core::json::{JsonNumber, JsonValue};
use subforge_core::node::{ProxyProtocol, ProxyTransport};
use subforge_core::singbox::{
    is_singbox_group_outbound, parse_singbox_node, parse_singbox_outbounds_at, parse_singbox_payload,
    parse_singbox_tls, resolve_transport,
};
use subforge_core::script::parse_persisted_state;
use subforge_core::yaml::{yaml_map_get, yaml_map_get_any, YamlValue};

fn json(text: &str) -> JsonValue {
    parse_persisted_state(Some(text)).expect("valid JSON").expect("not blank")
}

fn text(value: &str) -> JsonValue {
    JsonValue::String(value.to_string())
}

fn proxy(name: &str, proxy_type: &str, server: &str, port: u16) -> ClashProxy {
    ClashProxy {
        name: name.to_string(),
        proxy_type: proxy_type.to_string(),
        server: server.to_string(),
        port,
        cipher: None,
        password: None,
        uuid: None,
        alter_id: None,
        tls: None,
        sni: None,
        servername: None,
        network: None,
        flow: None,
        skip_cert_verify: None,
        client_fingerprint: None,
        ws_opts: None,
        grpc_opts: None,
        h2_opts: None,
        alpn: None,
        obfs: None,
        obfs_password: None,
        congestion_controller: None,
        udp_relay_mode: None,
    }
}

#[test]
fn clash_vmess_proxy_with_ws_options() {
    let mut p = proxy(" hk-01 ", " VMess ", " vmess.example.com ", 443);
    p.uuid = Some(" uuid-1 ".to_string());
    p.alter_id = Some(0);
    p.network = Some(" ws ".to_string());
    p.sni = Some("sni.example.com".to_string());
    p.alpn = Some(vec![" h2 ".to_string(), "".to_string()]);
    p.ws_opts = Some(ClashWsOptions {
        path: Some("/ws".to_string()),
        headers: Some(vec![("host".to_string(), " edge.example.com ".to_string())]),
    });
    let node = parse_clash_proxy(&p, "src", "t").unwrap();
    assert_eq!(node.protocol, ProxyProtocol::Vmess);
    assert_eq!(node.name, "hk-01");
    assert_eq!(node.server, "vmess.example.com");
    assert_eq!(node.transport, ProxyTransport::Ws);
    assert!(node.tls.enabled);
    assert_eq!(node.tls.server_name.as_deref(), Some("sni.example.com"));
    assert_eq!(node.extra.get("uuid"), Some(&text("uuid-1")));
    assert_eq!(node.extra.get("alter_id"), Some(&JsonValue::Number(JsonNumber::PosInt(0))));
    assert_eq!(node.extra.get("alpn"), Some(&JsonValue::Array(vec![text("h2")])));
    assert_eq!(node.extra.get("path"), Some(&text("/ws")));
    assert_eq!(node.extra.get("host"), Some(&text("edge.example.com")));
}

#[test]
fn clash_ss_and_quic_proxies() {
    let mut ss = proxy("ss", "ss", "1.2.3.4", 8388);
    ss.cipher = Some("aes-128-gcm".to_string());
    ss.password = Some("pw".to_string());
    let node = parse_clash_proxy(&ss, "src", "t").unwrap();
    assert!(!node.tls.enabled);
    assert_eq!(node.transport, ProxyTransport::Tcp);

    let mut tuic = proxy("t", "tuic", "h", 1);
    tuic.uuid = Some("u".to_string());
    tuic.password = Some("p".to_string());
    tuic.network = Some("ws".to_string());
    tuic.tls = Some(false);
    tuic.servername = Some("a".to_string());
    tuic.sni = Some("b".to_string());
    tuic.congestion_controller = Some("bbr".to_string());
    let node = parse_clash_proxy(&tuic, "src", "t").unwrap();
    assert_eq!(node.transport, ProxyTransport::Quic);
    assert!(!node.tls.enabled);
    assert_eq!(node.tls.server_name.as_deref(), Some("a"));
    assert_eq!(node.extra.get("congestion_control"), Some(&text("bbr")));

    let mut h2 = proxy("h", "vless", "h", 1);
    h2.uuid = Some("u".to_string());
    h2.network = Some("h2".to_string());
    h2.h2_opts = Some(ClashH2Options { host: Some(vec!["a".to_string(), " ".to_string()]), path: Some("/p".to_string()) });
    h2.grpc_opts = Some(ClashGrpcOptions { grpc_service_name: Some("svc".to_string()) });
    let node = parse_clash_proxy(&h2, "src", "t").unwrap();
    assert_eq!(node.transport, ProxyTransport::H2);
    assert_eq!(node.extra.get("host"), Some(&JsonValue::Array(vec![text("a")])));
    assert_eq!(node.extra.get("grpc_service_name"), Some(&text("svc")));
}

#[test]
fn clash_proxy_errors() {
    assert!(matches!(parse_clash_proxy(&proxy("a", "http", "h", 1), "s", "t"), Err(CoreError::SubscriptionParse(_))));
    assert!(matches!(parse_clash_proxy(&proxy(" ", "trojan", "h", 1), "s", "t"), Err(CoreError::SubscriptionParse(_))));
    let mut missing = proxy("a", "ss", "h", 1);
    missing.cipher = Some("aes-128-gcm".to_string());
    missing.password = Some("   ".to_string());
    assert!(matches!(parse_clash_proxy(&missing, "s", "t"), Err(CoreError::SubscriptionParse(_))));
    assert_eq!(require_non_empty(" x ".to_string(), "name"), Ok("x".to_string()));
    assert!(require_non_empty("  ".to_string(), "name").is_err());
}

#[test]
fn clash_nodes_skip_entries_that_fail() {
    let mut good = proxy("good", "trojan", "h", 443);
    good.password = Some("pw".to_string());
    let items = vec![Ok(good), Err("bad structure".to_string()), Ok(proxy("bad", "trojan", "h", 1))];
    let nodes = parse_clash_nodes(&items, "src", "t");
    assert_eq!(nodes.len(), 1);
    assert_eq!(nodes[0].name, "good");
}

#[test]
fn clash_documents_and_base_configuration() {
    let payload = "port: 7890\nmode: rule\nproxies:\n  - {name: a, type: ss}\nrules: [MATCH,DIRECT]\n";
    let root = parse_clash_root(payload).expect("a Clash document");
    let entries = root.as_mapping().unwrap();
    assert!(looks_like_clash_payload(entries));
    assert_eq!(yaml_map_get(entries, "mode"), Some(&YamlValue::String("rule".to_string())));
    assert!(yaml_map_get_any(entries, &["missing", "port"]).is_some());
    assert_eq!(clash_proxies(&root).map(|items| items.len()), Some(1));
    assert_eq!(clash_base_config(&root).unwrap(), Some("port: 7890\nmode: rule\n".to_string()));

    let only_nodes = parse_clash_root("proxies: []\n").unwrap();
    assert_eq!(clash_base_config(&only_nodes).unwrap(), None);

    assert!(parse_clash_root("port: 7890\n").is_none());
    assert!(parse_clash_root("[1, 2]").is_none());
    assert!(parse_clash_root("key: [unclosed").is_none());
}

#[test]
fn singbox_tls_and_transport() {
    let tls = parse_singbox_tls(Some(&json(r#"{"server_name":" sni "}"#)));
    assert!(tls.enabled);
    assert_eq!(tls.server_name.as_deref(), Some("sni"));
    let tls = parse_singbox_tls(Some(&json(r#"{"enabled":"no"}"#)));
    assert!(!tls.enabled);
    assert!(!parse_singbox_tls(None).enabled);
    assert_eq!(resolve_transport(ProxyProtocol::Vmess, Some(&json(r#"{"type":"http"}"#))), ProxyTransport::H2);
    assert_eq!(resolve_transport(ProxyProtocol::Vless, Some(&json(r#"{"type":" grpc "}"#))), ProxyTransport::Grpc);
    assert_eq!(resolve_transport(ProxyProtocol::Tuic, Some(&json(r#"{"type":"ws"}"#))), ProxyTransport::Quic);
    assert_eq!(resolve_transport(ProxyProtocol::Trojan, None), ProxyTransport::Tcp);
}

#[test]
fn singbox_nodes() {
    let vmess = json(
        r#"{"type":"vmess","tag":"v1","server":"v.example.com","server_port":"443","uuid":"u1","alter_id":0,
            "transport":{"type":"ws","path":"/ws","headers":{"Host":"h.example.com"},"max_early_data":2048},
            "tls":{"enabled":true,"server_name":"sni","insecure":1,"alpn":"h2"}}"#,
    );
    let node = parse_singbox_node(&vmess, "src", "t").unwrap().unwrap();
    assert_eq!(node.protocol, ProxyProtocol::Vmess);
    assert_eq!(node.port, 443);
    assert_eq!(node.transport, ProxyTransport::Ws);
    assert_eq!(node.extra.get("cipher"), Some(&text("auto")));
    assert_eq!(node.extra.get("host"), Some(&text("h.example.com")));
    assert_eq!(node.extra.get("max_early_data"), Some(&JsonValue::Number(JsonNumber::PosInt(2048))));
    assert_eq!(node.extra.get("skip_cert_verify"), Some(&JsonValue::Bool(true)));
    assert_eq!(node.extra.get("alpn"), Some(&JsonValue::Array(vec![text("h2")])));

    let hy2 = json(
        r#"{"type":"hysteria2","tag":"h","server":"s","server_port":8443,"password":"p","obfs":{"type":"salamander","password":"o"}}"#,
    );
    let node = parse_singbox_node(&hy2, "src", "t").unwrap().unwrap();
    assert_eq!(node.transport, ProxyTransport::Quic);
    assert!(!node.tls.enabled);
    assert_eq!(node.extra.get("obfs"), Some(&text("salamander")));
    assert_eq!(node.extra.get("obfs_password"), Some(&text("o")));

    assert!(parse_singbox_node(&json(r#"{"type":"direct","tag":"d"}"#), "s", "t").unwrap().is_none());
    assert!(parse_singbox_node(&json(r#"{"type":"selector","tag":"g"}"#), "s", "t").unwrap().is_none());
    assert!(matches!(
        parse_singbox_node(&json(r#"{"type":"trojan","tag":"t","server":"s","server_port":70000,"password":"p"}"#), "s", "t"),
        Err(CoreError::SubscriptionParse(_))
    ));
    assert!(matches!(
        parse_singbox_node(&json(r#"{"type":"vless","tag":"t","server":"s","server_port":1}"#), "s", "t"),
        Err(CoreError::SubscriptionParse(_))
    ));
    assert!(parse_singbox_node(&JsonValue::Null, "s", "t").is_err());
    assert!(is_singbox_group_outbound(&json(r#"{"type":" urltest "}"#)));
    assert!(!is_singbox_group_outbound(&json(r#"{"type":"vmess"}"#)));
}

#[test]
fn singbox_outbound_lists() {
    let groups_only = vec![json(r#"{"type":"selector","tag":"g"}"#)];
    let nodes = parse_singbox_outbounds_at(&groups_only, "s", "t").unwrap().unwrap();
    assert!(nodes.is_empty());
    let nothing = vec![json(r#"{"type":"direct","tag":"d"}"#)];
    assert!(parse_singbox_outbounds_at(&nothing, "s", "t").unwrap().is_none());

    let payload = r#"{"outbounds":[{"type":"selector","tag":"g"},{"type":"trojan","tag":"t","server":"s","server_port":443,"password":"p"}]}"#;
    let parsed = parse_singbox_payload("src", payload).unwrap().unwrap();
    assert_eq!(parsed.nodes.len(), 1);
    assert_eq!(parsed.nodes[0].protocol, ProxyProtocol::Trojan);
    assert!(parse_singbox_payload("src", "not json").unwrap().is_none());
    assert!(parse_singbox_payload("src", r#"{"outbounds":{}}"#).unwrap().is_none());
    assert!(parse_singbox_payload("src", r#"{"outbounds":[{"type":"vless","tag":"x","server":"s","server_port":1}]}"#).is_err());
}
