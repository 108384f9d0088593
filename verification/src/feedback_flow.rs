//! The decisions of the feedback worker's `POST /feedback` handler, as a state
//! machine: the worker performs each action (parse the body, verify the
//! captcha, read or store the rate-limit counter, create the issue, reply) and
//! hands back what came of it. The order is: origin check, body parsing,
//! validation, captcha, rate limit, GitHub issue.

use vstd::prelude::*;

use crate::feedback::{
    build_issue_payload, is_allowed_origin, origin_allowed, rate_limit_key, validate_feedback,
    validation_spec, ErrorBody, FeedbackRequest, GithubIssuePayload, SuccessBody,
    RATE_LIMIT_PER_HOUR, RATE_LIMIT_TTL_SECONDS,
};
use crate::text::parse_bounded;

verus! {

/// The reply the worker sends.
#[derive(Debug, Clone, PartialEq, Eq)]
pub enum ReplyBody {
    Success(SuccessBody),
    Error(ErrorBody),
}

/// Where the handler stands.
#[derive(Debug, Clone, PartialEq, Eq)]
pub enum FeedbackState {
    /// Nothing done yet.
    Received,
    /// The origin is allowed; the body is being parsed.
    ParsingBody { ip: String },
    /// The body is valid; the captcha token is being verified.
    VerifyingCaptcha { request: FeedbackRequest, ip: String },
    /// The captcha passed; the IP's counter is being read.
    CountingRequests { request: FeedbackRequest, key: String },
    /// The counter is being raised.
    StoringCount { request: FeedbackRequest },
    /// The issue is being created.
    CreatingIssue,
    /// A reply has been chosen.
    Finished,
}

/// What came of the last action.
#[derive(Debug, Clone, PartialEq, Eq)]
pub enum FeedbackEvent {
    /// The request arrived, with the configured allowed origins, its `Origin`
    /// header and its `CF-Connecting-IP` header.
    Arrived { allowed_origins: String, origin: Option<String>, ip: Option<String> },
    /// The body was parsed (`None`: it was not valid JSON of the right shape).
    BodyParsed(Option<FeedbackRequest>),
    /// The captcha verdict (`None`: the verification service could not be reached).
    CaptchaVerified(Option<bool>),
    /// The counter's stored text, if any.
    CountRead(Option<String>),
    /// The raised counter was stored.
    CountStored,
    /// The created issue's number (`None`: creation failed).
    IssueCreated(Option<u64>),
}

/// What the worker is to do next.
#[derive(Debug, Clone, PartialEq, Eq)]
pub enum FeedbackAction {
    ParseBody,
    VerifyCaptcha { token: String, ip: String },
    ReadCount { key: String },
    StoreCount { key: String, count: u32, ttl_seconds: u64 },
    CreateIssue(GithubIssuePayload),
    Reply { status: u16, body: ReplyBody },
}

/// An event that the handler can receive in a state.
pub open spec fn event_fits(s: FeedbackState, e: FeedbackEvent) -> bool {
    match s {
        FeedbackState::Received => e is Arrived,
        FeedbackState::ParsingBody { .. } => e is BodyParsed,
        FeedbackState::VerifyingCaptcha { .. } => e is CaptchaVerified,
        FeedbackState::CountingRequests { .. } => e is CountRead,
        FeedbackState::StoringCount { .. } => e is CountStored,
        FeedbackState::CreatingIssue => e is IssueCreated,
        FeedbackState::Finished => false,
    }
}

/// A reply with an error message.
pub open spec fn is_error_reply(a: FeedbackAction, status: u16, message: Seq<char>) -> bool {
    a matches FeedbackAction::Reply { status: st, body: ReplyBody::Error(b) } && st == status
        && b.error@ == message
}

/// The counter as stored: its text parsed as a `u32`, or 0 when absent or unreadable.
pub open spec fn stored_count(raw: Option<String>) -> nat {
    match raw {
        Some(t) => match crate::text::parse_unsigned(t@) {
            Some(v) => if v <= u32::MAX {
                v
            } else {
                0
            },
            None => 0,
        },
        None => 0,
    }
}

fn error_reply(status: u16, message: &str) -> (a: FeedbackAction)
    ensures
        is_error_reply(a, status, message@),
{
    FeedbackAction::Reply { status, body: ReplyBody::Error(ErrorBody::new(message)) }
}

/// Every request a state carries has passed validation: the handler only
/// moves past body parsing with a valid request, and keeps that request.
pub open spec fn carries_valid_request(s: FeedbackState) -> bool {
    match s {
        FeedbackState::VerifyingCaptcha { request, .. } => validation_spec(request) == Ok::<(), crate::feedback::ValidationError>(()),
        FeedbackState::CountingRequests { request, .. } => validation_spec(request) == Ok::<(), crate::feedback::ValidationError>(()),
        FeedbackState::StoringCount { request } => validation_spec(request) == Ok::<(), crate::feedback::ValidationError>(()),
        _ => true,
    }
}

/// One step of the handler: from the state and what came of the last action to
/// the next state and action.
pub fn step(state: FeedbackState, event: FeedbackEvent) -> (r: (FeedbackState, FeedbackAction))
    requires
        event_fits(state, event),
    ensures
        carries_valid_request(state) ==> carries_valid_request(r.0),
        r.1 is CreateIssue ==> state is StoringCount,
        match (state, event) {
            (FeedbackState::Received, FeedbackEvent::Arrived { allowed_origins, origin, ip }) => {
                let allowed = origin matches Some(o) && origin_allowed(allowed_origins@, o@);
                &&& !allowed ==> r.0 == FeedbackState::Finished && is_error_reply(r.1, 403, "허용되지 않은 출처입니다."@)
                &&& allowed ==> (r.0 matches FeedbackState::ParsingBody { ip: i } && i@ == (match ip {
                    Some(x) => x@,
                    None => "unknown"@,
                })) && r.1 == FeedbackAction::ParseBody
            },
            (FeedbackState::ParsingBody { ip }, FeedbackEvent::BodyParsed(body)) => match body {
                None => r.0 == FeedbackState::Finished && is_error_reply(r.1, 400, "요청 본문을 파싱할 수 없습니다."@),
                Some(req) => match validation_spec(req) {
                    Err(e) => r.0 == FeedbackState::Finished && is_error_reply(r.1, 400, crate::feedback::validation_message(e)),
                    Ok(()) => r.0 == (FeedbackState::VerifyingCaptcha { request: req, ip: ip }) && (r.1 matches FeedbackAction::VerifyCaptcha { token, ip: i } && token@ == req.turnstile_token@ && i@ == ip@),
                },
            },
            (FeedbackState::VerifyingCaptcha { request, ip }, FeedbackEvent::CaptchaVerified(v)) => match v {
                Some(true) => (r.0 matches FeedbackState::CountingRequests { request: rq, key } && rq == request && key@ == "ratelimit:"@ + ip@) && (r.1 matches FeedbackAction::ReadCount { key } && key@ == "ratelimit:"@ + ip@),
                Some(false) => r.0 == FeedbackState::Finished && is_error_reply(r.1, 403, "캡차 인증에 실패했습니다."@),
                None => r.0 == FeedbackState::Finished && is_error_reply(r.1, 502, "캡차 검증 서버에 연결할 수 없습니다."@),
            },
            (FeedbackState::CountingRequests { request, key }, FeedbackEvent::CountRead(raw)) => {
                let count = stored_count(raw);
                &&& count >= RATE_LIMIT_PER_HOUR ==> r.0 == FeedbackState::Finished && is_error_reply(r.1, 429, "요청이 너무 많습니다. 잠시 후 다시 시도해 주세요."@)
                &&& count < RATE_LIMIT_PER_HOUR ==> r.0 == (FeedbackState::StoringCount { request: request }) && (r.1 matches FeedbackAction::StoreCount { key: k, count: c, ttl_seconds } && k == key && c == count + 1 && ttl_seconds == RATE_LIMIT_TTL_SECONDS)
            },
            (FeedbackState::StoringCount { request }, FeedbackEvent::CountStored) => r.0 == FeedbackState::CreatingIssue && (r.1 matches FeedbackAction::CreateIssue(p) && p.title@ == "[제보] "@ + request.kanji@ + " — "@ + (if request.suggestion@.len() <= 40 {
                request.suggestion@
            } else {
                request.suggestion@.take(40)
            }) && p.body@ == "## 한자\n"@ + request.kanji@ + "\n\n## 기존 설명 해시\n`"@ + request.current_explanation_hash@
                + "`\n\n## 제안 내용\n"@ + request.suggestion@ + "\n\n## 연락처\n"@ + crate::feedback::contact_shown(request.contact)
                + "\n"@ && p.labels.deep_view() == seq!["feedback"@, "from-web"@, "kanji:"@ + request.kanji@]),
            (FeedbackState::CreatingIssue, FeedbackEvent::IssueCreated(n)) => r.0 == FeedbackState::Finished && match n {
                Some(num) => r.1 == (FeedbackAction::Reply { status: 200, body: ReplyBody::Success(SuccessBody { issue_number: num }) }),
                None => is_error_reply(r.1, 502, "GitHub Issue 생성에 실패했습니다."@),
            },
            _ => false,
        },
{
    match state {
        FeedbackState::Received => match event {
            FeedbackEvent::Arrived { allowed_origins, origin, ip } => {
                let allowed = match &origin {
                    Some(o) => is_allowed_origin(allowed_origins.as_str(), o.as_str()),
                    None => false,
                };
                if !allowed {
                    return (FeedbackState::Finished, error_reply(403, "허용되지 않은 출처입니다."));
                }
                let ip = match ip {
                    Some(x) => x,
                    None => String::from_str("unknown"),
                };
                (FeedbackState::ParsingBody { ip }, FeedbackAction::ParseBody)
            },
            _ => (FeedbackState::Finished, error_reply(500, "")),
        },
        FeedbackState::ParsingBody { ip } => match event {
            FeedbackEvent::BodyParsed(body) => match body {
                None => (FeedbackState::Finished, error_reply(400, "요청 본문을 파싱할 수 없습니다.")),
                Some(req) => match validate_feedback(&req) {
                    Err(e) => (FeedbackState::Finished, error_reply(e.status_code(), e.message())),
                    Ok(()) => {
                        let token = req.turnstile_token.clone();
                        let i = ip.clone();
                        (FeedbackState::VerifyingCaptcha { request: req, ip }, FeedbackAction::VerifyCaptcha { token, ip: i })
                    },
                },
            },
            _ => (FeedbackState::Finished, error_reply(500, "")),
        },
        FeedbackState::VerifyingCaptcha { request, ip } => match event {
            FeedbackEvent::CaptchaVerified(v) => match v {
                Some(true) => {
                    let key = rate_limit_key(ip.as_str());
                    let k2 = key.clone();
                    (FeedbackState::CountingRequests { request, key }, FeedbackAction::ReadCount { key: k2 })
                },
                Some(false) => (FeedbackState::Finished, error_reply(403, "캡차 인증에 실패했습니다.")),
                None => (FeedbackState::Finished, error_reply(502, "캡차 검증 서버에 연결할 수 없습니다.")),
            },
            _ => (FeedbackState::Finished, error_reply(500, "")),
        },
        FeedbackState::CountingRequests { request, key } => match event {
            FeedbackEvent::CountRead(raw) => {
                let count: u32 = match &raw {
                    Some(t) => match parse_bounded(t.as_str(), 0xffff_ffff) {
                        Some(v) => v as u32,
                        None => 0,
                    },
                    None => 0,
                };
                if count >= RATE_LIMIT_PER_HOUR {
                    (FeedbackState::Finished, error_reply(429, "요청이 너무 많습니다. 잠시 후 다시 시도해 주세요."))
                } else {
                    (FeedbackState::StoringCount { request }, FeedbackAction::StoreCount { key, count: count + 1, ttl_seconds: RATE_LIMIT_TTL_SECONDS })
                }
            },
            _ => (FeedbackState::Finished, error_reply(500, "")),
        },
        FeedbackState::StoringCount { request } => match event {
            FeedbackEvent::CountStored => {
                let payload = build_issue_payload(&request);
                (FeedbackState::CreatingIssue, FeedbackAction::CreateIssue(payload))
            },
            _ => (FeedbackState::Finished, error_reply(500, "")),
        },
        FeedbackState::CreatingIssue => match event {
            FeedbackEvent::IssueCreated(n) => match n {
                Some(num) => (FeedbackState::Finished, FeedbackAction::Reply { status: 200, body: ReplyBody::Success(SuccessBody { issue_number: num }) }),
                None => (FeedbackState::Finished, error_reply(502, "GitHub Issue 생성에 실패했습니다.")),
            },
            _ => (FeedbackState::Finished, error_reply(500, "")),
        },
        FeedbackState::Finished => (FeedbackState::Finished, error_reply(500, "")),
    }
}

// ── CORS ───────────────────────────────────────────────────────────

/// The CORS headers of a reply: `Access-Control-Allow-Origin` (and
/// `Vary: Origin`) only when the request's origin is allowed, then the allowed
/// methods and headers.
pub open spec fn cors_headers_spec(allowed_origins: Seq<char>, origin: Option<Seq<char>>) -> Seq<(Seq<char>, Seq<char>)> {
    let common = seq![
        ("Access-Control-Allow-Methods"@, "POST, OPTIONS"@),
        ("Access-Control-Allow-Headers"@, "Content-Type"@),
    ];
    match origin {
        Some(o) => if origin_allowed(allowed_origins, o) {
            seq![("Access-Control-Allow-Origin"@, o), ("Vary"@, "Origin"@)] + common
        } else {
            common
        },
        None => common,
    }
}

fn header(name: &str, value: &str) -> (h: (String, String))
    ensures
        h.0@ == name@,
        h.1@ == value@,
{
    (String::from_str(name), String::from_str(value))
}

/// The CORS headers to set on a reply (see [`cors_headers_spec`]).
pub fn cors_headers(allowed_origins: &str, origin: Option<&str>) -> (hs: Vec<(String, String)>)
    ensures
        hs@.map_values(|h: (String, String)| (h.0@, h.1@)) == cors_headers_spec(
            allowed_origins@,
            match origin {
                Some(o) => Some(o@),
                None => None,
            },
        ),
{
    let mut hs: Vec<(String, String)> = Vec::new();
    if let Some(o) = origin {
        if is_allowed_origin(allowed_origins, o) {
            hs.push(header("Access-Control-Allow-Origin", o));
            hs.push(header("Vary", "Origin"));
        }
    }
    hs.push(header("Access-Control-Allow-Methods", "POST, OPTIONS"));
    hs.push(header("Access-Control-Allow-Headers", "Content-Type"));
    proof {
        let v = hs@.map_values(|h: (String, String)| (h.0@, h.1@));
        assert(v =~= cors_headers_spec(allowed_origins@, match origin { Some(o) => Some(o@), None => None }));
    }
    hs
}

/// The status of the reply to a CORS preflight (`OPTIONS /feedback`).
pub const PREFLIGHT_STATUS: u16 = 204;

/// The headers of the reply to a CORS preflight: the CORS headers, then how
/// long (in seconds) the browser may cache the answer.
pub fn preflight_headers(allowed_origins: &str, origin: Option<&str>) -> (hs: Vec<(String, String)>)
    ensures
        hs@.map_values(|h: (String, String)| (h.0@, h.1@)) == cors_headers_spec(
            allowed_origins@,
            match origin {
                Some(o) => Some(o@),
                None => None,
            },
        ).push(("Access-Control-Max-Age"@, "86400"@)),
{
    let mut hs = cors_headers(allowed_origins, origin);
    let ghost before = hs@;
    hs.push(header("Access-Control-Max-Age", "86400"));
    assert(hs@.map_values(|h: (String, String)| (h.0@, h.1@)) == before.map_values(
        |h: (String, String)| (h.0@, h.1@),
    ).push(("Access-Control-Max-Age"@, "86400"@)));
    hs
}

} // verus!
