use baegun_core::mistral::{
    decode_api_error_message, extract_json_object, is_retryable_status, next_retry,
    parse_generated_metadata, truncate_chars,
};

#[test]
fn parses_generated_metadata_json() {
    let metadata = parse_generated_metadata(
        r#"```json
{"title":"Generated Title","author":"Generated Author","language":"en","publisher":null,"description":"Short description","subjects":["fiction","history"]}
```"#,
    )
    .expect("generated metadata should parse");

    assert_eq!(metadata.title.as_deref(), Some("Generated Title"));
    assert_eq!(metadata.author.as_deref(), Some("Generated Author"));
    assert_eq!(metadata.description.as_deref(), Some("Short description"));
    assert_eq!(metadata.subjects, vec!["fiction", "history"]);
}

#[test]
fn generated_metadata_limits_subjects_and_drops_null() {
    let metadata = parse_generated_metadata(
        r#"{"title":"null","author":["A", "unknown", "B"],"subjects":"a;b,c,d,e,f,g,h,i,j"}"#,
    )
    .expect("generated metadata should parse");
    assert_eq!(metadata.title, None);
    assert_eq!(metadata.author.as_deref(), Some("A, B"));
    assert_eq!(metadata.subjects.len(), 8);
    assert!(parse_generated_metadata("no json here").unwrap().title.is_none());
    assert!(parse_generated_metadata("{not json}").is_err());
}

#[test]
fn json_object_is_cut_from_surrounding_text() {
    assert_eq!(extract_json_object("x {\"a\":1} y").as_deref(), Some("{\"a\":1}"));
    assert_eq!(extract_json_object("} {"), None);
}

#[test]
fn api_error_messages_prefer_json_fields() {
    assert_eq!(decode_api_error_message("{\"message\":\"bad\"}"), "bad");
    assert_eq!(decode_api_error_message("{\"message\":\" \",\"error\":{\"message\":\"worse\"}}"), "worse");
    assert_eq!(decode_api_error_message("  plain  "), "plain");
}

#[test]
fn truncation_respects_character_boundaries() {
    assert_eq!(truncate_chars("abcdef", 4), "abcd");
    assert_eq!(truncate_chars("ab\u{e9}d", 3), "ab");
    assert_eq!(truncate_chars("abc", 3), "abc");
}

#[test]
fn retries_double_the_wait_until_the_last_attempt() {
    assert!(is_retryable_status(429));
    assert!(is_retryable_status(503));
    assert!(!is_retryable_status(404));
    assert_eq!(next_retry(1, 800, true), Some((800, 1600)));
    assert_eq!(next_retry(3, 3200, true), Some((3200, 6400)));
    assert_eq!(next_retry(4, 6400, true), None);
    assert_eq!(next_retry(1, 800, false), None);
    assert_eq!(next_retry(1, u64::MAX, true), Some((u64::MAX, u64::MAX)));
}
