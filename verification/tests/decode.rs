use github_stats_fetcher::json::decode_counts;

#[test]
fn decodes_valid_body_ignoring_other_fields() {
    let body = r#"{"id": 1296269, "name": "Hello-World", "owner": {"login": "octocat", "id": 1, "site_admin": false}, "private": false, "topics": ["octocat", "api"], "open_issues_count": 42, "stargazers_count": 1500, "score": 1.0, "description": null, "fork": true}"#;
    assert_eq!(decode_counts(body.as_bytes()), Some((1500, 42)));
}

#[test]
fn decodes_minimal_body() {
    let body = r#"{"stargazers_count": 0, "open_issues_count": 0}"#;
    assert_eq!(decode_counts(body.as_bytes()), Some((0, 0)));
}

#[test]
fn decodes_with_surrounding_whitespace() {
    let body = " \t\r\n{ \"stargazers_count\" : 3 , \"open_issues_count\" : 7 } \n";
    assert_eq!(decode_counts(body.as_bytes()), Some((3, 7)));
}

#[test]
fn decodes_escaped_key() {
    let body = r#"{"\u006fpen_issues_count": 7, "stargazers_count": 1}"#;
    assert_eq!(decode_counts(body.as_bytes()), Some((1, 7)));
}

#[test]
fn decodes_largest_value() {
    let body = r#"{"stargazers_count": 18446744073709551615, "open_issues_count": 0}"#;
    assert_eq!(decode_counts(body.as_bytes()), Some((18446744073709551615, 0)));
}

#[test]
fn rejects_missing_field() {
    let body = r#"{"stargazers_count": 10}"#;
    assert_eq!(decode_counts(body.as_bytes()), None);
}

#[test]
fn rejects_missing_both_fields() {
    let body = r#"{"message": "Not Found"}"#;
    assert_eq!(decode_counts(body.as_bytes()), None);
}

#[test]
fn rejects_string_value() {
    let body = r#"{"stargazers_count": "10", "open_issues_count": 1}"#;
    assert_eq!(decode_counts(body.as_bytes()), None);
}

#[test]
fn rejects_fractional_value() {
    let body = r#"{"stargazers_count": 1.5, "open_issues_count": 1}"#;
    assert_eq!(decode_counts(body.as_bytes()), None);
}

#[test]
fn rejects_exponent_value() {
    let body = r#"{"stargazers_count": 1e2, "open_issues_count": 1}"#;
    assert_eq!(decode_counts(body.as_bytes()), None);
}

#[test]
fn rejects_negative_value() {
    let body = r#"{"stargazers_count": -1, "open_issues_count": 1}"#;
    assert_eq!(decode_counts(body.as_bytes()), None);
}

#[test]
fn rejects_overflowing_value() {
    let body = r#"{"stargazers_count": 18446744073709551616, "open_issues_count": 1}"#;
    assert_eq!(decode_counts(body.as_bytes()), None);
}

#[test]
fn rejects_duplicate_required_key() {
    let body = r#"{"stargazers_count": 1, "stargazers_count": 2, "open_issues_count": 3}"#;
    assert_eq!(decode_counts(body.as_bytes()), None);
}

#[test]
fn ignores_duplicate_other_key() {
    let body = r#"{"x": 1, "x": 2, "stargazers_count": 1, "open_issues_count": 3}"#;
    assert_eq!(decode_counts(body.as_bytes()), Some((1, 3)));
}

#[test]
fn rejects_leading_zero() {
    let body = r#"{"stargazers_count": 042, "open_issues_count": 1}"#;
    assert_eq!(decode_counts(body.as_bytes()), None);
}

#[test]
fn rejects_trailing_garbage() {
    let body = r#"{"stargazers_count": 1, "open_issues_count": 1} x"#;
    assert_eq!(decode_counts(body.as_bytes()), None);
}

#[test]
fn rejects_unterminated_object() {
    let body = r#"{"stargazers_count": 1, "open_issues_count": 1"#;
    assert_eq!(decode_counts(body.as_bytes()), None);
}

#[test]
fn rejects_non_object_document() {
    assert_eq!(decode_counts(b"42"), None);
    assert_eq!(decode_counts(b"[1, 2]"), None);
    assert_eq!(decode_counts(b"null"), None);
    assert_eq!(decode_counts(b"\"stargazers_count\""), None);
}

#[test]
fn rejects_empty_input() {
    assert_eq!(decode_counts(b""), None);
    assert_eq!(decode_counts(b"   "), None);
    assert_eq!(decode_counts(b"{}"), None);
}

#[test]
fn rejects_malformed_json() {
    assert_eq!(decode_counts(b"{\"stargazers_count\": }"), None);
    assert_eq!(decode_counts(b"{stargazers_count: 1}"), None);
    assert_eq!(decode_counts(b"{\"a\": 1,}"), None);
}

#[test]
fn decodes_nested_structures_in_ignored_fields() {
    let body = r#"{"owner": {"nested": {"deep": [1, [2, {"x": "y\n\u00e9\ud83d\ude00e"}]]}}, "stargazers_count": 5, "open_issues_count": 6, "license": {"key": "mit"}}"#;
    assert_eq!(decode_counts(body.as_bytes()), Some((5, 6)));
}

#[test]
fn handles_string_escapes_in_ignored_fields() {
    let body = r#"{"a": "x\"y\\z\/ \b\f\n\r\t", "stargazers_count": 1, "open_issues_count": 2}"#;
    assert_eq!(decode_counts(body.as_bytes()), Some((1, 2)));
}

#[test]
fn rejects_bad_escapes() {
    let unknown = r#"{"a": "\q", "stargazers_count": 1, "open_issues_count": 2}"#;
    assert_eq!(decode_counts(unknown.as_bytes()), None);
    let lone_high = r#"{"a": "\ud800", "stargazers_count": 1, "open_issues_count": 2}"#;
    assert_eq!(decode_counts(lone_high.as_bytes()), None);
    let lone_low = r#"{"a": "\udc00x", "stargazers_count": 1, "open_issues_count": 2}"#;
    assert_eq!(decode_counts(lone_low.as_bytes()), None);
}

#[test]
fn rejects_raw_control_character_in_string() {
    let body = b"{\"a\": \"x\x01\", \"stargazers_count\": 1, \"open_issues_count\": 2}";
    assert_eq!(decode_counts(body), None);
}

#[test]
fn key_text_as_value_is_not_a_key() {
    let body = r#"{"a": "stargazers_count", "stargazers_count": 1, "open_issues_count": 2}"#;
    assert_eq!(decode_counts(body.as_bytes()), Some((1, 2)));
}

#[test]
fn rejects_unquoted_colon_or_missing_separator() {
    let no_colon = r#"{"stargazers_count" 1, "open_issues_count": 2}"#;
    assert_eq!(decode_counts(no_colon.as_bytes()), None);
    let no_comma = r#"{"stargazers_count": 1 "open_issues_count": 2}"#;
    assert_eq!(decode_counts(no_comma.as_bytes()), None);
}

#[test]
fn accepts_raw_utf8_in_strings() {
    let mut body: Vec<u8> = Vec::new();
    body.extend_from_slice(b"{\"a\": \"");
    body.extend_from_slice(&[0xc3, 0xa9, 0xe2, 0x82, 0xac, 0xf0, 0x9f, 0x98, 0x80]);
    body.extend_from_slice(b"\", \"stargazers_count\": 1, \"open_issues_count\": 2}");
    assert_eq!(decode_counts(&body), Some((1, 2)));
}

#[test]
fn rejects_invalid_utf8_in_strings() {
    let cases: Vec<Vec<u8>> = vec![
        vec![0xff],
        vec![0x80],
        vec![0xc0, 0xaf],
        vec![0xed, 0xa0, 0x80],
        vec![0xe2, 0x82],
        vec![0xc3, 0x28],
    ];
    for bad in cases {
        let mut body: Vec<u8> = Vec::new();
        body.extend_from_slice(b"{\"a\": \"x");
        body.extend_from_slice(&bad);
        body.extend_from_slice(b"\", \"stargazers_count\": 1, \"open_issues_count\": 2}");
        assert_eq!(decode_counts(&body), None);
    }
}

#[test]
fn depth_limit_on_nested_containers() {
    let deep_ok = format!(
        "{{\"a\": {}0{}, \"stargazers_count\": 1, \"open_issues_count\": 2}}",
        "[".repeat(127),
        "]".repeat(127)
    );
    assert_eq!(decode_counts(deep_ok.as_bytes()), Some((1, 2)));
    let too_deep = format!(
        "{{\"a\": {}0{}, \"stargazers_count\": 1, \"open_issues_count\": 2}}",
        "[".repeat(128),
        "]".repeat(128)
    );
    assert_eq!(decode_counts(too_deep.as_bytes()), None);
}
