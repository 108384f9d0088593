use kanji_etymology::feedback::{ErrorBody, FeedbackRequest, SuccessBody};
use kanji_etymology::feedback_flow::{
    cors_headers, preflight_headers, step, FeedbackAction, FeedbackEvent, FeedbackState, ReplyBody,
};

const ORIGIN: &str = "https://whitekr.github.io";

fn request() -> FeedbackRequest {
    FeedbackRequest {
        kanji: "学".to_string(),
        current_explanation_hash: "abc123".to_string(),
        suggestion: "이 설명에는 오류가 있습니다. 자세히 설명하면...".to_string(),
        contact: None,
        turnstile_token: "token".to_string(),
        website: None,
    }
}

fn arrive(origin: Option<&str>) -> (FeedbackState, FeedbackAction) {
    step(
        FeedbackState::Received,
        FeedbackEvent::Arrived {
            allowed_origins: ORIGIN.to_string(),
            origin: origin.map(|s| s.to_string()),
            ip: Some("1.2.3.4".to_string()),
        },
    )
}

fn error(status: u16, message: &str) -> FeedbackAction {
    FeedbackAction::Reply { status, body: ReplyBody::Error(ErrorBody { error: message.to_string() }) }
}

#[test]
fn foreign_origin_is_refused() {
    let (s, a) = arrive(Some("https://evil.example"));
    assert_eq!(s, FeedbackState::Finished);
    assert_eq!(a, error(403, "허용되지 않은 출처입니다."));
    let (_, a) = arrive(None);
    assert_eq!(a, error(403, "허용되지 않은 출처입니다."));
}

#[test]
fn whole_successful_run() {
    let (s, a) = arrive(Some(ORIGIN));
    assert_eq!(a, FeedbackAction::ParseBody);
    let (s, a) = step(s, FeedbackEvent::BodyParsed(Some(request())));
    assert_eq!(a, FeedbackAction::VerifyCaptcha { token: "token".to_string(), ip: "1.2.3.4".to_string() });
    let (s, a) = step(s, FeedbackEvent::CaptchaVerified(Some(true)));
    assert_eq!(a, FeedbackAction::ReadCount { key: "ratelimit:1.2.3.4".to_string() });
    let (s, a) = step(s, FeedbackEvent::CountRead(Some("2".to_string())));
    assert_eq!(
        a,
        FeedbackAction::StoreCount { key: "ratelimit:1.2.3.4".to_string(), count: 3, ttl_seconds: 3600 }
    );
    let (s, a) = step(s, FeedbackEvent::CountStored);
    match a {
        FeedbackAction::CreateIssue(p) => {
            assert!(p.title.starts_with("[제보] 学 — "));
            assert!(p.body.contains("(제공 안 함)"));
        }
        other => panic!("expected issue creation, got {other:?}"),
    }
    let (s, a) = step(s, FeedbackEvent::IssueCreated(Some(42)));
    assert_eq!(s, FeedbackState::Finished);
    assert_eq!(a, FeedbackAction::Reply { status: 200, body: ReplyBody::Success(SuccessBody { issue_number: 42 }) });
}

#[test]
fn refusals_along_the_way() {
    let (s, _) = arrive(Some(ORIGIN));
    let (_, a) = step(s.clone(), FeedbackEvent::BodyParsed(None));
    assert_eq!(a, error(400, "요청 본문을 파싱할 수 없습니다."));
    let mut bot = request();
    bot.website = Some("spam".to_string());
    let (_, a) = step(s.clone(), FeedbackEvent::BodyParsed(Some(bot)));
    assert_eq!(a, error(400, "요청을 처리할 수 없습니다."));
    let (s2, _) = step(s, FeedbackEvent::BodyParsed(Some(request())));
    let (_, a) = step(s2.clone(), FeedbackEvent::CaptchaVerified(Some(false)));
    assert_eq!(a, error(403, "캡차 인증에 실패했습니다."));
    let (_, a) = step(s2.clone(), FeedbackEvent::CaptchaVerified(None));
    assert_eq!(a, error(502, "캡차 검증 서버에 연결할 수 없습니다."));
    let (s3, _) = step(s2, FeedbackEvent::CaptchaVerified(Some(true)));
    let (_, a) = step(s3.clone(), FeedbackEvent::CountRead(Some("5".to_string())));
    assert_eq!(a, error(429, "요청이 너무 많습니다. 잠시 후 다시 시도해 주세요."));
    let (_, a) = step(s3, FeedbackEvent::CountRead(Some("garbage".to_string())));
    assert!(matches!(a, FeedbackAction::StoreCount { count: 1, .. }));
}

#[test]
fn issue_failure_is_bad_gateway() {
    let (_, a) = step(FeedbackState::CreatingIssue, FeedbackEvent::IssueCreated(None));
    assert_eq!(a, error(502, "GitHub Issue 생성에 실패했습니다."));
}

#[test]
fn cors_headers_only_echo_allowed_origin() {
    let hs = cors_headers(ORIGIN, Some(ORIGIN));
    assert_eq!(hs[0], ("Access-Control-Allow-Origin".to_string(), ORIGIN.to_string()));
    assert_eq!(hs[1], ("Vary".to_string(), "Origin".to_string()));
    assert_eq!(hs.len(), 4);
    let hs = cors_headers(ORIGIN, Some("https://evil.example"));
    assert_eq!(
        hs,
        vec![
            ("Access-Control-Allow-Methods".to_string(), "POST, OPTIONS".to_string()),
            ("Access-Control-Allow-Headers".to_string(), "Content-Type".to_string()),
        ]
    );
}

#[test]
fn preflight_adds_max_age() {
    let hs = preflight_headers(ORIGIN, Some(ORIGIN));
    assert_eq!(hs.len(), 5);
    assert_eq!(hs[4], ("Access-Control-Max-Age".to_string(), "86400".to_string()));
}
