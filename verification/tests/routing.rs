use subforge_core::json::{JsonNumber, JsonValue};
use subforge_core::routing::{
    json_string_values, parse_clash_routing_template_ir, parse_interval_seconds, parse_port_rule,
    parse_routing_template_ir, parse_singbox_group, parse_singbox_rules, push_unique_rule, resolve_singbox_rule_target,
    singbox_template_would_panic, source_routing_template_key, RoutingTemplateSourceKernel,
};
use subforge_core::script::parse_persisted_state;

fn json(text: &str) -> JsonValue {
    parse_persisted_state(Some(text)).expect("valid JSON").expect("not blank")
}

fn s(value: &str) -> JsonValue {
    JsonValue::String(value.to_string())
}

#[test]
fn template_key_names_the_source() {
    assert_eq!(source_routing_template_key("src-1"), "source.src-1.clash_routing_template");
}

#[test]
fn clash_template_groups_and_rules() {
    let payload = r#"
proxies: []
proxy-groups:
  - name: " Proxy "
    type: select
    proxies: [ "HK", " ", "JP", 3 ]
    url: "  "
  - name: Auto
    type: url-test
    url: http://www.gstatic.com/generate_204
    interval: 300
    tolerance: 50
    include-all: true
    use: [ provider-a ]
    filter: "(?i)hk"
    exclude_filter: "expire"
  - name: ""
    type: select
  - just-a-string
  - name: Bad Interval
    type: fallback
    interval: -5
    tolerance: 70000
    use: []
rules:
  - "DOMAIN-SUFFIX,google.com,Proxy"
  - "  "
  - 12
  - " MATCH,DIRECT "
"#;
    let ir = parse_clash_routing_template_ir(payload).expect("groups present");
    assert_eq!(ir.source_kernel, RoutingTemplateSourceKernel::Clash);
    assert_eq!(ir.groups.len(), 3);

    let proxy = &ir.groups[0];
    assert_eq!(proxy.name, "Proxy");
    assert_eq!(proxy.group_type, "select");
    assert_eq!(proxy.proxies, vec!["HK".to_string(), "JP".to_string()]);
    assert_eq!(proxy.url, None);
    assert!(!proxy.include_all);
    assert!(!proxy.use_provider);

    let auto = &ir.groups[1];
    assert_eq!(auto.url.as_deref(), Some("http://www.gstatic.com/generate_204"));
    assert_eq!(auto.interval, Some(300));
    assert_eq!(auto.tolerance, Some(50));
    assert!(auto.include_all);
    assert!(auto.use_provider);
    assert_eq!(auto.filter.as_deref(), Some("(?i)hk"));
    assert_eq!(auto.exclude_filter.as_deref(), Some("expire"));

    let bad = &ir.groups[2];
    assert_eq!(bad.interval, None);
    assert_eq!(bad.tolerance, None);
    assert!(!bad.use_provider);

    assert_eq!(ir.rules, vec!["DOMAIN-SUFFIX,google.com,Proxy".to_string(), "MATCH,DIRECT".to_string()]);
}

#[test]
fn clash_template_needs_a_group() {
    assert!(parse_clash_routing_template_ir("proxy-groups: []\nrules: [a]").is_none());
    assert!(parse_clash_routing_template_ir("rules: [a]").is_none());
    assert!(parse_clash_routing_template_ir("- a\n- b").is_none());
    assert!(parse_clash_routing_template_ir(": : :").is_none());
}

#[test]
fn interval_texts_take_units() {
    assert_eq!(parse_interval_seconds(Some(&JsonValue::Number(JsonNumber::PosInt(300)))), Some(300));
    assert_eq!(parse_interval_seconds(Some(&JsonValue::Number(JsonNumber::PosInt(5_000_000_000)))), None);
    assert_eq!(parse_interval_seconds(Some(&s("120"))), Some(120));
    assert_eq!(parse_interval_seconds(Some(&s(" 30s "))), Some(30));
    assert_eq!(parse_interval_seconds(Some(&s("5m"))), Some(300));
    assert_eq!(parse_interval_seconds(Some(&s("2H"))), Some(7200));
    assert_eq!(parse_interval_seconds(Some(&s("3 m"))), Some(180));
    assert_eq!(parse_interval_seconds(Some(&s("5x"))), None);
    assert_eq!(parse_interval_seconds(Some(&s("99999999h"))), None);
    assert_eq!(parse_interval_seconds(Some(&s("   "))), None);
    assert_eq!(parse_interval_seconds(Some(&JsonValue::Bool(true))), None);
    assert_eq!(parse_interval_seconds(None), None);
}

#[test]
fn port_rules_and_string_values() {
    assert_eq!(parse_port_rule(Some(&JsonValue::Number(JsonNumber::PosInt(443)))), Some("443".to_string()));
    assert_eq!(parse_port_rule(Some(&s(" 80:90 "))), Some("80:90".to_string()));
    assert_eq!(parse_port_rule(Some(&s(" "))), None);
    assert_eq!(parse_port_rule(None), None);
    assert_eq!(json_string_values(Some(&s(" a "))), vec!["a".to_string()]);
    assert_eq!(
        json_string_values(Some(&JsonValue::Array(vec![s("x"), s(" "), JsonValue::Null, s(" y ")]))),
        vec!["x".to_string(), "y".to_string()]
    );
    assert!(json_string_values(Some(&JsonValue::Null)).is_empty());
}

#[test]
fn push_unique_rule_skips_duplicates() {
    let mut rules = vec!["A".to_string()];
    push_unique_rule(&mut rules, "B".to_string());
    push_unique_rule(&mut rules, "A".to_string());
    push_unique_rule(&mut rules, "B".to_string());
    assert_eq!(rules, vec!["A".to_string(), "B".to_string()]);
}

#[test]
fn singbox_groups() {
    let group = parse_singbox_group(&json(
        r#"{"type":"urltest","tag":" Auto ","outbounds":["a"," ",1,"b"],"url":"http://t","interval":"1m","tolerance":50}"#,
    ))
    .expect("urltest is a group");
    assert_eq!(group.name, "Auto");
    assert_eq!(group.group_type, "url-test");
    assert_eq!(group.proxies, vec!["a".to_string(), "b".to_string()]);
    assert_eq!(group.interval, Some(60));
    assert_eq!(group.tolerance, Some(50));
    assert!(!group.include_all);

    let selector = parse_singbox_group(&json(r#"{"type":"selector","tag":"Sel"}"#)).unwrap();
    assert_eq!(selector.group_type, "select");
    assert!(selector.proxies.is_empty());

    assert!(parse_singbox_group(&json(r#"{"type":"vmess","tag":"node"}"#)).is_none());
    assert!(parse_singbox_group(&json(r#"{"type":"selector","tag":"  "}"#)).is_none());
    assert!(parse_singbox_group(&JsonValue::Array(vec![s("selector")])).is_none());
}

#[test]
fn singbox_rule_targets() {
    assert_eq!(resolve_singbox_rule_target(&json(r#"{"outbound":" proxy "}"#)), Some("proxy".to_string()));
    assert_eq!(resolve_singbox_rule_target(&json(r#"{"outbound":"","outbounds":["a","b"]}"#)), Some("a".to_string()));
    assert_eq!(resolve_singbox_rule_target(&json(r#"{"outbounds":[" "]}"#)), None);
    assert_eq!(resolve_singbox_rule_target(&json(r#"{}"#)), None);
}

#[test]
fn singbox_rules_are_converted_without_duplicates() {
    let route = json(
        r#"{
        "rules": [
            {"domain": ["a.com", "b.com"], "domain_suffix": "c.com", "outbound": "Proxy"},
            {"domain_keyword": ["x"], "ip_cidr": ["10.0.0.0/8"], "geoip": "cn", "geosite": ["cn"], "network": "udp", "port": 53, "outbound": "DIRECT"},
            {"domain": "a.com", "outbound": "Proxy"},
            {"domain": "ignored.com"},
            "not-a-rule"
        ],
        "final": " Proxy "
    }"#,
    );
    let rules = parse_singbox_rules(Some(&route));
    assert_eq!(
        rules,
        vec![
            "DOMAIN,a.com,Proxy",
            "DOMAIN,b.com,Proxy",
            "DOMAIN-SUFFIX,c.com,Proxy",
            "DOMAIN-KEYWORD,x,DIRECT",
            "IP-CIDR,10.0.0.0/8,DIRECT",
            "GEOIP,cn,DIRECT",
            "GEOSITE,cn,DIRECT",
            "NETWORK,udp,DIRECT",
            "DST-PORT,53,DIRECT",
            "MATCH,Proxy",
        ]
        .into_iter()
        .map(String::from)
        .collect::<Vec<_>>()
    );
    assert!(parse_singbox_rules(None).is_empty());
    assert!(parse_singbox_rules(Some(&JsonValue::Null)).is_empty());
}

#[test]
fn routing_template_falls_back_to_singbox() {
    let payload = r#"{"outbounds":[{"type":"selector","tag":"Proxy","outbounds":["n1"]},{"type":"vmess","tag":"n1"}],"route":{"final":"Proxy"}}"#;
    let ir = parse_routing_template_ir(payload).expect("sing-box template");
    assert_eq!(ir.source_kernel, RoutingTemplateSourceKernel::SingBox);
    assert_eq!(ir.groups.len(), 1);
    assert_eq!(ir.groups[0].name, "Proxy");
    assert_eq!(ir.rules, vec!["MATCH,Proxy".to_string()]);

    let clash = parse_routing_template_ir("proxy-groups:\n  - {name: P, type: select}\n").unwrap();
    assert_eq!(clash.source_kernel, RoutingTemplateSourceKernel::Clash);
    assert!(parse_routing_template_ir("trojan://pw@h:1").is_none());
    assert!(parse_routing_template_ir(r#"{"outbounds":[{"type":"vmess","tag":"n"}]}"#).is_none());
}

#[test]
fn interval_that_would_split_a_character_is_reported() {
    let root = json(r#"{"outbounds":[{"type":"selector","tag":"P","interval":"5分"}]}"#);
    assert!(singbox_template_would_panic(&root));
    let fine = json(r#"{"outbounds":[{"type":"selector","tag":"P","interval":"5m"}]}"#);
    assert!(!singbox_template_would_panic(&fine));
    assert!(parse_routing_template_ir(r#"{"outbounds":[{"type":"selector","tag":"P","interval":"5分"}]}"#).is_none());
}
