use std::collections::BTreeMap;
use std::io::Write;

use subforge_core::error::CoreError;
use subforge_core::fetch::{
    build_request_headers, check_response_headers, decode_response_body, is_sensitive_header, is_sensitive_query_key, next_fetch_step,
    prepare_subscription_url, redact_url_for_log, retry_backoff, sanitize_reqwest_error, subscription_body_text, subscription_userinfo,
    validate_content_type, FetchStep, DURATION_MAX_NANOS,
};
use subforge_core::order::redact_headers_for_log;
use subforge_core::text::replace_text;

const MS: u128 = 1_000_000;

fn gzip(bytes: &[u8]) -> Vec<u8> {
    let mut encoder = flate2::write::GzEncoder::new(Vec::new(), flate2::Compression::default());
    encoder.write_all(bytes).unwrap();
    encoder.finish().unwrap()
}

fn zlib(bytes: &[u8]) -> Vec<u8> {
    let mut encoder = flate2::write::ZlibEncoder::new(Vec::new(), flate2::Compression::default());
    encoder.write_all(bytes).unwrap();
    encoder.finish().unwrap()
}

fn raw_deflate(bytes: &[u8]) -> Vec<u8> {
    let mut encoder = flate2::write::DeflateEncoder::new(Vec::new(), flate2::Compression::default());
    encoder.write_all(bytes).unwrap();
    encoder.finish().unwrap()
}

fn brotli(bytes: &[u8]) -> Vec<u8> {
    let mut out = Vec::new();
    {
        let mut writer = brotli::CompressorWriter::new(&mut out, 4096, 5, 22);
        writer.write_all(bytes).unwrap();
    }
    out
}

#[test]
fn request_log_redacts_sensitive_headers() {
    let headers = vec![
        ("authorization".to_string(), Some("Bearer sensitive-token".to_string())),
        ("cookie".to_string(), Some("sid=secret-cookie".to_string())),
        ("accept".to_string(), Some("text/plain".to_string())),
    ];

    let redacted = redact_headers_for_log(&headers);
    assert!(redacted.contains("authorization=***"));
    assert!(redacted.contains("cookie=***"));
    assert!(redacted.contains("accept=text/plain"));
    assert!(!redacted.contains("sensitive-token"));
    assert!(!redacted.contains("secret-cookie"));
}

#[test]
fn request_log_redacts_sensitive_query_parameters() {
    let url = reqwest::Url::parse("https://example.com/subscription?token=abc123&password=pwd&region=sg")
        .expect("构建测试 URL 失败");
    let redacted = redact_url_for_log(url.as_str()).expect("URL 应可解析");
    let parsed = reqwest::Url::parse(&redacted).expect("脱敏后的 URL 应可解析");
    let query = parsed
        .query_pairs()
        .map(|(key, value)| (key.to_string(), value.to_string()))
        .collect::<BTreeMap<_, _>>();

    assert_eq!(query.get("token"), Some(&"***".to_string()));
    assert_eq!(query.get("password"), Some(&"***".to_string()));
    assert_eq!(query.get("region"), Some(&"sg".to_string()));
    assert!(!redacted.contains("abc123"));
    assert!(!redacted.contains("pwd"));
}

#[test]
fn redacted_headers_are_sorted_and_bracketed() {
    let headers = vec![
        ("X-Api-Key".to_string(), Some("k".to_string())),
        ("Accept".to_string(), Some("*/*".to_string())),
        ("x-binary".to_string(), None),
    ];
    assert_eq!(redact_headers_for_log(&headers), "[accept=*/*, x-api-key=***, x-binary=<non-utf8>]");
    assert_eq!(redact_headers_for_log(&Vec::new()), "[]");
}

#[test]
fn redacted_url_keeps_urls_without_query_and_order_of_pairs() {
    assert_eq!(redact_url_for_log("https://example.com/path").as_deref(), Some("https://example.com/path"));
    assert_eq!(redact_url_for_log("HTTPS://Example.com").as_deref(), Some("https://example.com/"));
    assert_eq!(
        redact_url_for_log("https://example.com/s?b=1&API_KEY=x&a=2").as_deref(),
        Some("https://example.com/s?b=1&API_KEY=***&a=2")
    );
    assert_eq!(redact_url_for_log("not a url"), None);
}

#[test]
fn sensitive_names_ignore_case() {
    assert!(is_sensitive_query_key("Token"));
    assert!(is_sensitive_query_key("APIKEY"));
    assert!(!is_sensitive_query_key("region"));
    assert!(is_sensitive_header("Proxy-Authorization"));
    assert!(is_sensitive_header("x-access-token"));
    assert!(!is_sensitive_header("user-agent"));
}

#[test]
fn retry_backoff_doubles_up_to_sixteen_times() {
    assert_eq!(retry_backoff(500 * MS, 1), 500 * MS);
    assert_eq!(retry_backoff(500 * MS, 2), 1000 * MS);
    assert_eq!(retry_backoff(500 * MS, 3), 2000 * MS);
    assert_eq!(retry_backoff(500 * MS, 0), 500 * MS);
    assert_eq!(retry_backoff(0, 1), 100 * MS);
    assert_eq!(retry_backoff(0, 4), 800 * MS);
    assert_eq!(retry_backoff(1, 17), 65536);
    assert_eq!(retry_backoff(1, 100), 65536);
    assert_eq!(retry_backoff(DURATION_MAX_NANOS, 2), DURATION_MAX_NANOS);
}

#[test]
fn backoff_never_shrinks_with_more_retries() {
    let mut previous = 0;
    for attempt in 0..40 {
        let current = retry_backoff(300 * MS, attempt);
        assert!(current >= previous);
        previous = current;
    }
}

#[test]
fn fetch_steps_follow_status_and_budget() {
    assert!(matches!(next_fetch_step(200, 0, 2, true, 500 * MS), FetchStep::Accept));
    assert!(matches!(next_fetch_step(204, 5, 2, false, 0), FetchStep::Accept));
    match next_fetch_step(429, 0, 2, true, 500 * MS) {
        FetchStep::Retry { attempt, delay_nanos } => {
            assert_eq!(attempt, 1);
            assert_eq!(delay_nanos, 500 * MS);
        }
        _ => panic!("429 should be retried"),
    }
    match next_fetch_step(503, 1, 2, true, 500 * MS) {
        FetchStep::Retry { attempt, delay_nanos } => {
            assert_eq!(attempt, 2);
            assert_eq!(delay_nanos, 1000 * MS);
        }
        _ => panic!("503 should be retried"),
    }
    match next_fetch_step(429, 2, 2, true, 500 * MS) {
        FetchStep::Fail(CoreError::SubscriptionFetch(message)) => assert!(message.contains("429")),
        _ => panic!("retries are exhausted"),
    }
    assert!(matches!(next_fetch_step(404, 0, 2, false, 0), FetchStep::Fail(CoreError::SubscriptionFetch(_))));
}

#[test]
fn content_type_checks() {
    assert!(validate_content_type(None).is_ok());
    assert!(validate_content_type(Some("text/plain; charset=utf-8")).is_ok());
    assert!(validate_content_type(Some("Application/JSON")).is_ok());
    assert!(validate_content_type(Some("application/octet-stream")).is_ok());
    assert!(matches!(validate_content_type(Some("image/png")), Err(CoreError::SubscriptionFetch(_))));
    assert!(check_response_headers(Some("text/plain"), Some(10 * 1024 * 1024)).is_ok());
    assert!(matches!(
        check_response_headers(Some("text/plain"), Some(10 * 1024 * 1024 + 1)),
        Err(CoreError::SubscriptionFetch(_))
    ));
    assert!(check_response_headers(Some("image/png"), None).is_err());
}

#[test]
fn userinfo_header_is_trimmed() {
    assert_eq!(
        subscription_userinfo(Some("  upload=1; download=2; total=3; expire=1735689600 ")),
        Some("upload=1; download=2; total=3; expire=1735689600".to_string())
    );
    assert_eq!(subscription_userinfo(Some("   ")), None);
    assert_eq!(subscription_userinfo(None), None);
}

#[test]
fn bodies_are_decoded_by_content_encoding() {
    let text = b"trojan://pw@example.com:443#node".to_vec();
    assert_eq!(decode_response_body(gzip(&text), Some("gzip")).unwrap(), text);
    assert_eq!(decode_response_body(gzip(&text), Some(" X-GZIP ")).unwrap(), text);
    assert_eq!(decode_response_body(brotli(&text), Some("br")).unwrap(), text);
    assert_eq!(decode_response_body(zlib(&text), Some("deflate")).unwrap(), text);
    assert_eq!(decode_response_body(raw_deflate(&text), Some("deflate")).unwrap(), text);
    assert_eq!(decode_response_body(text.clone(), Some("identity")).unwrap(), text);
    assert_eq!(decode_response_body(text.clone(), None).unwrap(), text);
    assert_eq!(decode_response_body(text.clone(), Some("  ")).unwrap(), text);
    assert_eq!(decode_response_body(text.clone(), Some("unknown")).unwrap(), text);
    assert_eq!(decode_response_body(brotli(&gzip(&text)), Some("gzip, br")).unwrap(), text);
}

#[test]
fn broken_bodies_name_the_failed_coding() {
    let error = decode_response_body(b"not gzip".to_vec(), Some("gzip")).unwrap_err();
    assert!(error.starts_with("gzip 解压失败："));
    let error = decode_response_body(vec![0xff, 0xff, 0xff], Some("br")).unwrap_err();
    assert!(error.starts_with("br 解压失败："));
}

#[test]
fn subscription_body_text_errors() {
    assert_eq!(subscription_body_text(gzip(b"hello"), Some("gzip")).unwrap(), "hello");
    assert!(matches!(subscription_body_text(vec![0xff, 0xfe], None), Err(CoreError::SubscriptionParse(_))));
    assert!(matches!(
        subscription_body_text(b"broken".to_vec(), Some("gzip")),
        Err(CoreError::SubscriptionFetch(_))
    ));
    let big = vec![b'a'; 10 * 1024 * 1024 + 1];
    assert!(matches!(subscription_body_text(big, None), Err(CoreError::SubscriptionFetch(_))));
}

#[test]
fn subscription_url_must_not_be_blank() {
    assert_eq!(prepare_subscription_url("  https://example.com/sub ").unwrap(), "https://example.com/sub");
    assert!(matches!(prepare_subscription_url("   "), Err(CoreError::ConfigInvalid(_))));
}

fn pairs(items: &[(&str, &str)]) -> Vec<(String, String)> {
    items.iter().map(|(k, v)| (k.to_string(), v.to_string())).collect()
}

#[test]
fn request_headers_merge_defaults_extras_and_user_agent() {
    let defaults = pairs(&[("Accept", "*/*"), ("User-Agent", "Default/1"), ("Accept-Language", "en")]);
    let extras = pairs(&[("accept", "text/plain"), ("X-Token", "t")]);
    let headers = build_request_headers(&defaults, Some("  SubForge-Test/0.1 "), Some(&extras)).unwrap();
    assert_eq!(headers.len(), 4);
    assert_eq!(headers.get("accept"), Some(&"text/plain".to_string()));
    assert_eq!(headers.get("user-agent"), Some(&"SubForge-Test/0.1".to_string()));
    assert_eq!(headers.get("accept-language"), Some(&"en".to_string()));
    assert_eq!(headers.get("x-token"), Some(&"t".to_string()));
    assert_eq!(headers.get("Accept"), None);

    let headers = build_request_headers(&defaults, Some("   "), None).unwrap();
    assert_eq!(headers.get("user-agent"), Some(&"Default/1".to_string()));
}

#[test]
fn request_headers_refuse_bad_names_and_values() {
    let bad_name = pairs(&[("Bad Name", "v")]);
    match build_request_headers(&bad_name, None, None) {
        Err(CoreError::ConfigInvalid(message)) => {
            assert_eq!(message, "传输层默认 Header 名非法（Bad Name）：invalid HTTP header name")
        }
        other => panic!("unexpected {other:?}"),
    }
    let bad_value = pairs(&[("X-Ok", "line\nbreak")]);
    match build_request_headers(&Vec::new(), None, Some(&bad_value)) {
        Err(CoreError::ConfigInvalid(message)) => {
            assert_eq!(message, "请求 Header 值非法（X-Ok）：failed to parse header value")
        }
        other => panic!("unexpected {other:?}"),
    }
    match build_request_headers(&Vec::new(), Some("a\u{7f}b"), None) {
        Err(CoreError::ConfigInvalid(message)) => assert_eq!(message, "user_agent 非法：failed to parse header value"),
        other => panic!("unexpected {other:?}"),
    }
    assert!(build_request_headers(&pairs(&[("", "v")]), None, None).is_err());
    assert!(build_request_headers(&pairs(&[("名", "v")]), None, None).is_err());
}

#[test]
fn request_errors_do_not_log_secrets() {
    let url = "https://example.com/sub?token=abc123&region=sg";
    let message = format!("error sending request for url ({url}): connection refused; retried {url}");
    assert_eq!(
        sanitize_reqwest_error(&message, url),
        "error sending request for url (https://example.com/sub?token=***&region=sg): connection refused; retried https://example.com/sub?token=***&region=sg"
    );
    assert_eq!(sanitize_reqwest_error("timed out", url), "timed out");
    assert_eq!(sanitize_reqwest_error("not a url here", "not a url"), "not a url here");
}

#[test]
fn replacing_text() {
    assert_eq!(replace_text("aaa", "aa", "b"), "ba");
    assert_eq!(replace_text("abc", "", "-"), "-a-b-c-");
    assert_eq!(replace_text("", "", "-"), "-");
    assert_eq!(replace_text("abc", "x", "y"), "abc");
    assert_eq!(replace_text("日本日本", "本", "x"), "日x日x");
}
