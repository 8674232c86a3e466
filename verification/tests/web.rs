use subforge_core::web::{
    build_attachment_filename, build_subscription_headers, encode_header_value, extract_profile_id_from_path, extract_query_param,
    is_profile_read_endpoint, nibble_to_hex, normalize_host, normalize_source_value, normalize_zip_entry_path,
    origin_raw_value, parse_bearer_token, parse_forwarded_for, pick_source_origin, profile_interval_setting_key,
    resolve_profile_update_interval_hours, sanitize_filename_component, source_key, SourceKeyOrigin, ZipPathError,
};

#[test]
fn bearer_tokens_are_trimmed_and_required() {
    assert_eq!(parse_bearer_token("Bearer abc"), Some("abc".to_string()));
    assert_eq!(parse_bearer_token("  Bearer   abc  "), Some("abc".to_string()));
    assert_eq!(parse_bearer_token("Bearer    "), None);
    assert_eq!(parse_bearer_token("bearer abc"), None);
    assert_eq!(parse_bearer_token("Basic abc"), None);
}

#[test]
fn query_parameters_are_found_by_exact_name() {
    assert_eq!(extract_query_param(Some("a=1&token=xyz&b=2"), "token"), Some("xyz".to_string()));
    assert_eq!(extract_query_param(Some("token=&token=second"), "token"), Some("second".to_string()));
    assert_eq!(extract_query_param(Some("token=a=b"), "token"), Some("a=b".to_string()));
    assert_eq!(extract_query_param(Some("Token=x"), "token"), None);
    assert_eq!(extract_query_param(Some("token"), "token"), None);
    assert_eq!(extract_query_param(None, "token"), None);
}

#[test]
fn profile_paths() {
    assert_eq!(extract_profile_id_from_path("/api/profiles/p1/raw"), Some("p1".to_string()));
    assert_eq!(extract_profile_id_from_path("/api/profiles/p1"), Some("p1".to_string()));
    assert_eq!(extract_profile_id_from_path("/api/profiles/"), None);
    assert_eq!(extract_profile_id_from_path("/api/sources/p1"), None);
    assert!(is_profile_read_endpoint(true, "/api/profiles/p1/clash"));
    assert!(is_profile_read_endpoint(true, "/api/profiles/p1/sing-box"));
    assert!(is_profile_read_endpoint(true, "/api/profiles/p1/base64"));
    assert!(is_profile_read_endpoint(true, "/api/profiles/p1/raw"));
    assert!(!is_profile_read_endpoint(false, "/api/profiles/p1/raw"));
    assert!(!is_profile_read_endpoint(true, "/api/profiles/p1/other"));
    assert!(!is_profile_read_endpoint(true, "/api/profiles/p1/raw/extra"));
}

#[test]
fn hosts_are_trimmed_and_lowercased() {
    assert_eq!(normalize_host("  LocalHost:18118 "), "localhost:18118");
}

#[test]
fn forwarded_header_gives_the_first_for_address() {
    assert_eq!(parse_forwarded_for("for=198.51.100.13"), Some("198.51.100.13".to_string()));
    assert_eq!(parse_forwarded_for("proto=https; for=\"[2001:db8::1]:80\""), Some("[2001:db8::1]:80".to_string()));
    assert_eq!(parse_forwarded_for("for=;by=x, for=10.0.0.1"), Some("10.0.0.1".to_string()));
    assert_eq!(parse_forwarded_for("proto=https"), None);
}

#[test]
fn source_values_are_normalised() {
    assert_eq!(normalize_source_value("   ", None), "unknown");
    assert_eq!(normalize_source_value(" 198.51.100.10:40000 ", Some("198.51.100.10".to_string())), "198.51.100.10");
    assert_eq!(normalize_source_value(" client-a ", None), "client-a");
    let long = "x".repeat(200);
    assert_eq!(normalize_source_value(&long, None), "x".repeat(128));
}

#[test]
fn the_peer_address_wins_over_headers() {
    let honest = pick_source_origin(
        None,
        Some("198.51.100.10"),
        None,
        None,
        Some("198.51.100.10:40000"),
        None,
    );
    let spoofed = pick_source_origin(
        Some("other-client"),
        Some("198.51.100.11"),
        Some("198.51.100.12"),
        Some("for=198.51.100.13"),
        Some("198.51.100.10:40000"),
        None,
    );
    assert_eq!(honest, SourceKeyOrigin::Peer("198.51.100.10:40000".to_string()));
    assert_eq!(origin_raw_value(&honest), None);
    let a = source_key(honest, None);
    let b = source_key(spoofed, None);
    assert_eq!(a, "peer:198.51.100.10:40000");
    assert_eq!(a, b);

    let other_peer = source_key(
        pick_source_origin(None, None, None, None, Some("198.51.100.11:40000"), None),
        None,
    );
    assert_ne!(a, other_peer);
}

#[test]
fn headers_name_the_client_without_a_peer() {
    let client = pick_source_origin(Some(" c1 "), Some("1.2.3.4"), None, None, None, Some("agent"));
    assert_eq!(origin_raw_value(&client), Some(&" c1 ".to_string()));
    assert_eq!(source_key(client, None), "client:c1");

    let xff = pick_source_origin(None, Some("203.0.113.5, 10.0.0.1"), None, None, None, None);
    assert_eq!(xff, SourceKeyOrigin::ForwardedFor("203.0.113.5".to_string()));
    assert_eq!(source_key(xff, None), "xff:203.0.113.5");

    let xri = pick_source_origin(None, None, Some("203.0.113.6:5000"), None, None, None);
    assert_eq!(source_key(xri, Some("203.0.113.6".to_string())), "xri:203.0.113.6");

    let fwd = pick_source_origin(None, None, None, Some("for=203.0.113.7"), None, None);
    assert_eq!(source_key(fwd, None), "fwd:203.0.113.7");

    let ua = pick_source_origin(None, None, None, Some("proto=http"), None, Some("curl/8"));
    assert_eq!(source_key(ua, None), "ua:curl/8");

    let unknown = pick_source_origin(None, None, None, None, None, None);
    assert_eq!(unknown, SourceKeyOrigin::Unknown);
    assert_eq!(source_key(unknown, None), "unknown");
}

#[test]
fn attachment_file_names() {
    assert_eq!(sanitize_filename_component("__My Profile!__"), "My_Profile");
    assert_eq!(sanitize_filename_component("订阅"), "");
    assert_eq!(build_attachment_filename("My Profile", "p1", "yaml"), "My_Profile.yaml");
    assert_eq!(build_attachment_filename("订阅", "id-01", "json"), "id-01.json");
    assert_eq!(build_attachment_filename("???", "###", "txt"), "profile.txt");
}

#[test]
fn header_values_are_escaped_only_when_needed() {
    assert_eq!(encode_header_value("   "), "subforge");
    assert_eq!(encode_header_value(" upload=1; download=2 "), "upload=1; download=2");
    assert_eq!(encode_header_value("中文"), "中文");
    assert_eq!(encode_header_value("line1\nline2"), "line1%0Aline2");
    assert_eq!(encode_header_value("a\u{7f}b=c"), "a%7Fb%3Dc");
    assert_eq!(nibble_to_hex(0), '0');
    assert_eq!(nibble_to_hex(9), '9');
    assert_eq!(nibble_to_hex(10), 'A');
    assert_eq!(nibble_to_hex(15), 'F');
}

#[test]
fn update_interval_prefers_the_profile_setting() {
    assert_eq!(profile_interval_setting_key("p1"), "profile.p1.update_interval_hours");
    assert_eq!(resolve_profile_update_interval_hours(Some(" 6 "), Some("12")), 6);
    assert_eq!(resolve_profile_update_interval_hours(Some("0"), Some("12")), 12);
    assert_eq!(resolve_profile_update_interval_hours(Some("abc"), Some("+3")), 3);
    assert_eq!(resolve_profile_update_interval_hours(None, None), 24);
    assert_eq!(resolve_profile_update_interval_hours(Some("-1"), Some("0")), 24);
}

#[test]
fn zip_entry_paths() {
    assert_eq!(normalize_zip_entry_path("plugin/plugin.json"), Ok("plugin/plugin.json".to_string()));
    assert_eq!(normalize_zip_entry_path("builtin-static\\plugin.json"), Ok("builtin-static/plugin.json".to_string()));
    assert_eq!(normalize_zip_entry_path("./a//b/./c/"), Ok("a/b/c".to_string()));
    assert_eq!(normalize_zip_entry_path("../evil.txt"), Err(ZipPathError::ParentDir));
    assert_eq!(normalize_zip_entry_path("a/../../evil.txt"), Err(ZipPathError::ParentDir));
    assert_eq!(normalize_zip_entry_path("/etc/passwd"), Err(ZipPathError::OutsideRoot));
    assert_eq!(normalize_zip_entry_path("\\windows\\x"), Err(ZipPathError::OutsideRoot));
    assert_eq!(normalize_zip_entry_path("./"), Err(ZipPathError::OutsideRoot));
    assert_eq!(normalize_zip_entry_path(""), Err(ZipPathError::OutsideRoot));
    assert!(ZipPathError::ParentDir.message().contains("路径非法"));
    assert!(ZipPathError::OutsideRoot.message().contains("路径非法"));
}

fn pair(name: &str, value: &str) -> (String, String) {
    (name.to_string(), value.to_string())
}

#[test]
fn exported_profile_headers() {
    let headers = build_subscription_headers("我的 Profile", "p-1", "yaml", 12, 1, Some(" upload=1; download=2 ")).unwrap();
    assert_eq!(
        headers,
        vec![
            pair("content-disposition", "attachment; filename=\"Profile.yaml\""),
            pair("profile-title", "我的 Profile"),
            pair("profile-update-interval", "12"),
            pair("subscription-userinfo", "upload=1; download=2"),
        ]
    );
    let headers = build_subscription_headers("x", "p", "json", 24, 2, Some("u")).unwrap();
    assert_eq!(headers.len(), 3);
    let headers = build_subscription_headers("x", "p", "txt", 24, 1, None).unwrap();
    assert_eq!(headers.len(), 3);
    assert!(build_subscription_headers("x", "p", "y\u{1}", 24, 1, None).is_none());
}

#[test]
fn encoded_header_values_are_always_accepted() {
    for raw in ["", "  ", "plain", "中文", "a\nb", "\u{7f}\u{0}x", "tab\tinside", "é\r\n"] {
        let encoded = encode_header_value(raw);
        assert!(reqwest::header::HeaderValue::from_str(&encoded).is_ok(), "{raw:?} -> {encoded:?}");
    }
}
