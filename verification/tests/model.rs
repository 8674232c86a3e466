use subforge_core::json::{copy_json, number_to_string, JsonNumber, JsonValue};
use subforge_core::order::{latest_refresh_at, sort_texts, text_le_str};
use subforge_core::table::KeyedTable;
use subforge_core::text::{decimal_exec, parse_unsigned_exec, split_char_exec, trim_chars};
use subforge_core::uri::{
    decode_percent_encoded, hex_value, map_transport, parse_flag, parse_host_port, query_bool, query_value,
    split_csv_values, split_fragment,
};
use std::hash::{Hash, Hasher};
use subforge_core::node::{build_proxy_node_id, ProxyProtocol, ProxyTransport};
use subforge_core::vmess::{value_to_bool, value_to_string, value_to_u64};
use subforge_core::yaml::{copy_yaml, YamlNumber, YamlValue};

fn strings(items: &[&str]) -> Vec<String> {
    items.iter().map(|s| s.to_string()).collect()
}

#[test]
fn texts_sort_by_code_point() {
    let sorted = sort_texts(strings(&["b", "a", "B", "ab", "", "é", "a"]));
    assert_eq!(sorted, strings(&["", "B", "a", "a", "ab", "b", "é"]));
    assert!(text_le_str("abc", "abd"));
    assert!(text_le_str("ab", "abc"));
    assert!(!text_le_str("b", "abc"));
    assert!(text_le_str("x", "x"));
}

#[test]
fn latest_refresh_time() {
    let times = strings(&["2026-01-01T00:00:00Z", "2026-03-01T00:00:00Z", "2026-02-01T00:00:00Z"]);
    assert_eq!(latest_refresh_at(&times), Some("2026-03-01T00:00:00Z".to_string()));
    assert_eq!(latest_refresh_at(&Vec::new()), None);
}

#[test]
fn keyed_table_behaves_as_a_map() {
    let mut table: KeyedTable<u32> = KeyedTable::new();
    table.insert("a".to_string(), 1);
    table.insert("b".to_string(), 2);
    table.insert("a".to_string(), 3);
    assert_eq!(table.len(), 2);
    assert_eq!(table.get("a"), Some(&3));
    assert!(table.contains_key("b"));
    table.remove("a");
    assert_eq!(table.get("a"), None);
    assert_eq!(table.len(), 1);
    table.clear();
    assert_eq!(table.len(), 0);
}

#[test]
fn percent_decoding_and_fragments() {
    assert_eq!(decode_percent_encoded("a%20b"), "a b");
    assert_eq!(decode_percent_encoded("%E9%A6%99"), "香");
    assert_eq!(decode_percent_encoded("100%"), "100%");
    assert_eq!(decode_percent_encoded("%zz%4"), "%zz%4");
    assert_eq!(decode_percent_encoded("%4a"), "J");
    assert_eq!(decode_percent_encoded("%FF"), "\u{FFFD}");
    assert_eq!(decode_percent_encoded("x%41"), "xA");
    assert_eq!(hex_value(b'7'), 7);
    assert_eq!(hex_value(b'c'), 12);
    assert_eq!(hex_value(b'C'), 12);
    assert_eq!(hex_value(b'g'), 0);
    assert_eq!(split_fragment("host:1#My%20Node"), ("host:1".to_string(), Some("My Node".to_string())));
    assert_eq!(split_fragment("host:1"), ("host:1".to_string(), None));
}

#[test]
fn host_and_port() {
    assert_eq!(parse_host_port("example.com:443").unwrap(), ("example.com".to_string(), 443));
    assert_eq!(parse_host_port("[::1]:8080").unwrap(), ("::1".to_string(), 8080));
    assert_eq!(parse_host_port("a:b:1").unwrap(), ("a:b".to_string(), 1));
    assert!(parse_host_port("example.com").is_err());
    assert!(parse_host_port("[::1]").is_err());
    assert!(parse_host_port("[::1:80").is_err());
    assert!(parse_host_port("h:65536").is_err());
    assert!(parse_host_port("h:-1").is_err());
}

#[test]
fn query_helpers() {
    let pairs = vec![
        ("SNI".to_string(), " a ".to_string()),
        ("alpn".to_string(), "h2, ,http/1.1".to_string()),
        ("insecure".to_string(), "YES".to_string()),
        ("empty".to_string(), "  ".to_string()),
    ];
    assert_eq!(query_value(&pairs, &["peer", "sni"]), Some("a".to_string()));
    assert_eq!(query_value(&pairs, &["empty"]), None);
    assert_eq!(query_value(&pairs, &["missing"]), None);
    assert_eq!(query_bool(&pairs, &["insecure"]), Some(true));
    assert_eq!(query_bool(&pairs, &["sni"]), None);
    assert_eq!(parse_flag("No"), Some(false));
    assert_eq!(parse_flag("1"), Some(true));
    assert_eq!(parse_flag("maybe"), None);
    assert_eq!(split_csv_values("h2, ,http/1.1,"), strings(&["h2", "http/1.1"]));
    assert_eq!(map_transport(Some("grpc")), ProxyTransport::Grpc);
    assert_eq!(map_transport(Some("quic")), ProxyTransport::Quic);
    assert_eq!(map_transport(Some("WS")), ProxyTransport::Tcp);
    assert_eq!(map_transport(None), ProxyTransport::Tcp);
}

#[test]
fn loose_json_readers() {
    assert_eq!(value_to_string(&JsonValue::String(" x ".to_string())), Some("x".to_string()));
    assert_eq!(value_to_string(&JsonValue::Number(JsonNumber::PosInt(7))), Some("7".to_string()));
    assert_eq!(value_to_string(&JsonValue::Bool(false)), Some("false".to_string()));
    assert_eq!(value_to_string(&JsonValue::Null), None);
    assert_eq!(value_to_u64(&JsonValue::String(" 12 ".to_string())), Some(12));
    assert_eq!(value_to_u64(&JsonValue::Number(JsonNumber::NegInt(-1))), None);
    assert_eq!(value_to_bool(&JsonValue::Number(JsonNumber::PosInt(2))), Some(true));
    assert_eq!(value_to_bool(&JsonValue::String("0".to_string())), Some(false));
    assert_eq!(number_to_string(&JsonNumber::NegInt(-42)), "-42");
    assert_eq!(number_to_string(&JsonNumber::Float("1.5".to_string())), "1.5");
}

#[test]
fn documents_copy_exactly() {
    let doc = JsonValue::Object(vec![
        ("a".to_string(), JsonValue::Array(vec![JsonValue::Null, JsonValue::Bool(true)])),
        ("b".to_string(), JsonValue::Number(JsonNumber::Float("0.5".to_string()))),
    ]);
    assert_eq!(copy_json(&doc), doc);
    assert_eq!(doc.get("b").and_then(|v| v.as_u64()), None);
    assert_eq!(doc.get("a").and_then(|v| v.as_array()).map(|v| v.len()), Some(2));
    let yaml = YamlValue::Tagged(
        "!tag".to_string(),
        Box::new(YamlValue::Mapping(vec![(YamlValue::String("k".to_string()), YamlValue::Number(YamlNumber::NegInt(-1)))])),
    );
    assert_eq!(copy_yaml(&yaml), yaml);
    assert_eq!(yaml.untagged().as_mapping().map(|m| m.len()), Some(1));
    assert_eq!(YamlValue::Number(YamlNumber::PosInt(5)).as_i64(), Some(5));
    assert_eq!(YamlValue::Number(YamlNumber::PosInt(u64::MAX)).as_i64(), None);
}

#[test]
fn text_helpers() {
    let chars: Vec<char> = "  a b  ".chars().collect();
    assert_eq!(trim_chars(&chars), vec!['a', ' ', 'b']);
    let parts = split_char_exec(&"a,,b".chars().collect::<Vec<_>>(), ',');
    assert_eq!(parts, vec![vec!['a'], vec![], vec!['b']]);
    assert_eq!(parse_unsigned_exec(&"+42".chars().collect::<Vec<_>>(), 100), Some(42));
    assert_eq!(parse_unsigned_exec(&"101".chars().collect::<Vec<_>>(), 100), None);
    assert_eq!(parse_unsigned_exec(&"".chars().collect::<Vec<_>>(), 100), None);
    assert_eq!(decimal_exec(1024), vec!['1', '0', '2', '4']);
    assert_eq!(decimal_exec(0), vec!['0']);
}

fn expected_id(protocol: ProxyProtocol, credential: Option<&str>) -> String {
    let mut hasher = std::collections::hash_map::DefaultHasher::new();
    "src".hash(&mut hasher);
    protocol.hash(&mut hasher);
    "example.com".hash(&mut hasher);
    443u16.hash(&mut hasher);
    "node a".hash(&mut hasher);
    if let Some(value) = credential {
        value.hash(&mut hasher);
    }
    format!("node-{:016x}", hasher.finish())
}

#[test]
fn node_ids_hash_the_identity() {
    for protocol in [ProxyProtocol::Ss, ProxyProtocol::Trojan, ProxyProtocol::AnyTls] {
        for credential in [None, Some("\"secret\"")] {
            let id = build_proxy_node_id("src", protocol, "example.com", 443, "node a", credential);
            assert_eq!(id, expected_id(protocol, credential));
            assert_eq!(id.len(), 21);
        }
    }
    assert_ne!(
        build_proxy_node_id("src", ProxyProtocol::Ss, "example.com", 443, "node a", None),
        build_proxy_node_id("src", ProxyProtocol::Vmess, "example.com", 443, "node a", None)
    );
}
