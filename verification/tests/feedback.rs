use kanji_etymology::feedback::{
    build_issue_body, build_issue_labels, build_issue_payload, build_issue_title,
    is_allowed_origin, is_rate_limited, rate_limit_key, validate_feedback, ErrorBody,
    FeedbackRequest, ValidationError, MAX_SUGGESTION_LEN, MIN_SUGGESTION_LEN,
    RATE_LIMIT_PER_HOUR,
};

fn valid_request() -> FeedbackRequest {
    FeedbackRequest {
        kanji: "学".to_string(),
        current_explanation_hash: "abc123".to_string(),
        suggestion: "이 설명에는 오류가 있습니다. 자세히 설명하면...".to_string(),
        contact: Some("test@example.com".to_string()),
        turnstile_token: "token".to_string(),
        website: None,
    }
}

#[test]
fn validate_feedback_accepts_valid_request() {
    assert!(validate_feedback(&valid_request()).is_ok());
}

#[test]
fn validate_feedback_rejects_filled_honeypot() {
    let mut req = valid_request();
    req.website = Some("http://spam.example".to_string());
    assert_eq!(validate_feedback(&req), Err(ValidationError::Honeypot));
}

#[test]
fn validate_feedback_accepts_blank_honeypot() {
    let mut req = valid_request();
    req.website = Some("   ".to_string());
    assert!(validate_feedback(&req).is_ok());
}

#[test]
fn validate_feedback_rejects_short_suggestion() {
    let mut req = valid_request();
    req.suggestion = "짧음".to_string();
    assert_eq!(validate_feedback(&req), Err(ValidationError::SuggestionTooShort));
}

#[test]
fn validate_feedback_accepts_min_length_suggestion() {
    let mut req = valid_request();
    req.suggestion = "가".repeat(MIN_SUGGESTION_LEN);
    assert!(validate_feedback(&req).is_ok());
}

#[test]
fn validate_feedback_rejects_too_long_suggestion() {
    let mut req = valid_request();
    req.suggestion = "가".repeat(MAX_SUGGESTION_LEN + 1);
    assert_eq!(validate_feedback(&req), Err(ValidationError::SuggestionTooLong));
}

#[test]
fn validate_feedback_accepts_max_length_suggestion() {
    let mut req = valid_request();
    req.suggestion = "가".repeat(MAX_SUGGESTION_LEN);
    assert!(validate_feedback(&req).is_ok());
}

#[test]
fn validate_feedback_rejects_multi_char_kanji() {
    let mut req = valid_request();
    req.kanji = "学生".to_string();
    assert_eq!(validate_feedback(&req), Err(ValidationError::InvalidKanji));
}

#[test]
fn validate_feedback_rejects_empty_kanji() {
    let mut req = valid_request();
    req.kanji = String::new();
    assert_eq!(validate_feedback(&req), Err(ValidationError::InvalidKanji));
}

#[test]
fn validation_error_messages_are_korean_and_non_empty() {
    for err in [
        ValidationError::Honeypot,
        ValidationError::SuggestionTooShort,
        ValidationError::SuggestionTooLong,
        ValidationError::InvalidKanji,
    ] {
        assert!(!err.message().is_empty());
        assert_eq!(err.status_code(), 400);
    }
}

#[test]
fn validation_messages_are_exact() {
    assert_eq!(ValidationError::Honeypot.message(), "요청을 처리할 수 없습니다.");
    assert_eq!(ValidationError::SuggestionTooShort.message(), "제안 내용은 최소 10자 이상 입력해 주세요.");
    assert_eq!(ValidationError::SuggestionTooLong.message(), "제안 내용은 4000자를 초과할 수 없습니다.");
    assert_eq!(ValidationError::InvalidKanji.message(), "kanji 필드는 정확히 한 글자여야 합니다.");
}

#[test]
fn honeypot_is_checked_before_length() {
    let mut req = valid_request();
    req.website = Some("x".to_string());
    req.suggestion = "짧음".to_string();
    assert_eq!(validate_feedback(&req), Err(ValidationError::Honeypot));
}

#[test]
fn is_allowed_origin_matches_exact_single_origin() {
    assert!(is_allowed_origin("https://example.github.io", "https://example.github.io"));
}

#[test]
fn is_allowed_origin_rejects_mismatch() {
    assert!(!is_allowed_origin("https://example.github.io", "https://evil.example"));
}

#[test]
fn is_allowed_origin_supports_comma_separated_list() {
    let allowed = "https://a.example, https://b.example";
    assert!(is_allowed_origin(allowed, "https://a.example"));
    assert!(is_allowed_origin(allowed, "https://b.example"));
    assert!(!is_allowed_origin(allowed, "https://c.example"));
}

#[test]
fn is_allowed_origin_rejects_empty_config() {
    assert!(!is_allowed_origin("", "https://example.github.io"));
}

#[test]
fn is_allowed_origin_never_matches_an_empty_entry() {
    assert!(!is_allowed_origin("https://a.example,,", ""));
}

#[test]
fn build_issue_title_truncates_to_40_chars() {
    let long_suggestion = "가".repeat(100);
    let title = build_issue_title("学", &long_suggestion);
    assert!(title.starts_with("[제보] 学 — "));
    let suffix: String = title.chars().skip("[제보] 学 — ".chars().count()).collect();
    assert_eq!(suffix.chars().count(), 40);
}

#[test]
fn build_issue_title_keeps_short_suggestion_intact() {
    let title = build_issue_title("学", "짧은 제안");
    assert_eq!(title, "[제보] 学 — 짧은 제안");
}

#[test]
fn build_issue_body_includes_all_fields() {
    let req = valid_request();
    let body = build_issue_body(&req);
    assert!(body.contains(&req.kanji));
    assert!(body.contains(&req.current_explanation_hash));
    assert!(body.contains(&req.suggestion));
    assert!(body.contains("test@example.com"));
}

#[test]
fn build_issue_body_exact_layout() {
    let req = valid_request();
    assert_eq!(
        build_issue_body(&req),
        "## 한자\n学\n\n## 기존 설명 해시\n`abc123`\n\n## 제안 내용\n이 설명에는 오류가 있습니다. 자세히 설명하면...\n\n## 연락처\ntest@example.com\n"
    );
}

#[test]
fn build_issue_body_shows_placeholder_when_no_contact() {
    let mut req = valid_request();
    req.contact = None;
    let body = build_issue_body(&req);
    assert!(body.contains("(제공 안 함)"));
}

#[test]
fn build_issue_body_treats_blank_contact_as_missing() {
    let mut req = valid_request();
    req.contact = Some("   ".to_string());
    let body = build_issue_body(&req);
    assert!(body.contains("(제공 안 함)"));
}

#[test]
fn build_issue_labels_includes_kanji_label() {
    let labels = build_issue_labels("学");
    assert_eq!(labels, vec!["feedback", "from-web", "kanji:学"]);
}

#[test]
fn build_issue_payload_matches_individual_builders() {
    let req = valid_request();
    let payload = build_issue_payload(&req);
    assert_eq!(payload.title, build_issue_title(&req.kanji, &req.suggestion));
    assert_eq!(payload.body, build_issue_body(&req));
    assert_eq!(payload.labels, build_issue_labels(&req.kanji));
}

#[test]
fn rate_limit_key_is_namespaced_by_ip() {
    assert_eq!(rate_limit_key("1.2.3.4"), "ratelimit:1.2.3.4");
    assert_ne!(rate_limit_key("1.2.3.4"), rate_limit_key("5.6.7.8"));
}

#[test]
fn is_rate_limited_allows_up_to_limit() {
    for count in 0..RATE_LIMIT_PER_HOUR {
        assert!(!is_rate_limited(count), "count={count} should be allowed");
    }
}

#[test]
fn is_rate_limited_blocks_at_and_above_limit() {
    assert!(is_rate_limited(RATE_LIMIT_PER_HOUR));
    assert!(is_rate_limited(RATE_LIMIT_PER_HOUR + 1));
}

#[test]
fn is_rate_limited_at_the_largest_count() {
    assert!(is_rate_limited(u32::MAX));
}

#[test]
fn error_body_holds_message() {
    assert_eq!(ErrorBody::new("허용되지 않은 출처입니다.").error, "허용되지 않은 출처입니다.");
}
