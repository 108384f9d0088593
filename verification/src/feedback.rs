//! Request logic of the feedback proxy: validating a correction suggestion,
//! checking the caller's origin, shaping the GitHub issue, and the hourly rate
//! limit per IP. The worker's request handling itself is the state machine in
//! [`crate::feedback_flow`].

use vstd::prelude::*;

use crate::text::{chars_of, chars_eq, string_of, trim_chars, trim_seq, trimmed};

verus! {

/// Minimum length of a suggestion, in characters.
pub const MIN_SUGGESTION_LEN: usize = 10;

/// Maximum length of a suggestion, in characters.
pub const MAX_SUGGESTION_LEN: usize = 4000;

/// Requests allowed per IP per hour.
pub const RATE_LIMIT_PER_HOUR: u32 = 5;

/// Lifetime of a rate-limit counter, in seconds.
pub const RATE_LIMIT_TTL_SECONDS: u64 = 3600;

/// Body of `POST /feedback`.
#[derive(Debug, Clone, PartialEq, Eq)]
pub struct FeedbackRequest {
    pub kanji: String,
    pub current_explanation_hash: String,
    pub suggestion: String,
    pub contact: Option<String>,
    pub turnstile_token: String,
    /// Honeypot field: invisible to people, so a value in it marks a bot.
    pub website: Option<String>,
}

/// Why a request body was rejected.
#[derive(Debug, Clone, Copy, PartialEq, Eq, Structural)]
pub enum ValidationError {
    Honeypot,
    SuggestionTooShort,
    SuggestionTooLong,
    InvalidKanji,
}

/// The Korean message for each rejection.
pub open spec fn validation_message(e: ValidationError) -> Seq<char> {
    match e {
        ValidationError::Honeypot => "요청을 처리할 수 없습니다."@,
        ValidationError::SuggestionTooShort => "제안 내용은 최소 10자 이상 입력해 주세요."@,
        ValidationError::SuggestionTooLong => "제안 내용은 4000자를 초과할 수 없습니다."@,
        ValidationError::InvalidKanji => "kanji 필드는 정확히 한 글자여야 합니다."@,
    }
}

impl ValidationError {
    /// The Korean message shown to the user.
    pub fn message(self) -> (m: &'static str)
        ensures
            m@ == validation_message(self),
    {
        match self {
            // A bot is not told why it failed.
            ValidationError::Honeypot => "요청을 처리할 수 없습니다.",
            ValidationError::SuggestionTooShort => "제안 내용은 최소 10자 이상 입력해 주세요.",
            ValidationError::SuggestionTooLong => "제안 내용은 4000자를 초과할 수 없습니다.",
            ValidationError::InvalidKanji => "kanji 필드는 정확히 한 글자여야 합니다.",
        }
    }

    /// The HTTP status answered for this error.
    pub fn status_code(self) -> (s: u16)
        ensures
            s == 400,
    {
        400
    }
}

/// The verdict on a request body: the honeypot must be blank, the suggestion
/// must be 10 to 4000 characters long, and the kanji exactly one character.
pub open spec fn validation_spec(req: FeedbackRequest) -> Result<(), ValidationError> {
    if req.website matches Some(w) && trim_seq(w@).len() > 0 {
        Err(ValidationError::Honeypot)
    } else if req.suggestion@.len() < MIN_SUGGESTION_LEN {
        Err(ValidationError::SuggestionTooShort)
    } else if req.suggestion@.len() > MAX_SUGGESTION_LEN {
        Err(ValidationError::SuggestionTooLong)
    } else if req.kanji@.len() != 1 {
        Err(ValidationError::InvalidKanji)
    } else {
        Ok(())
    }
}

/// Checks honeypot, suggestion length and kanji form, before the captcha, the
/// rate limit and the GitHub call.
pub fn validate_feedback(req: &FeedbackRequest) -> (r: Result<(), ValidationError>)
    ensures
        r == validation_spec(*req),
{
    if let Some(website) = &req.website {
        let w = trimmed(website.as_str());
        if w.len() > 0 {
            return Err(ValidationError::Honeypot);
        }
    }
    let suggestion_len = chars_of(req.suggestion.as_str()).len();
    if suggestion_len < MIN_SUGGESTION_LEN {
        return Err(ValidationError::SuggestionTooShort);
    }
    if suggestion_len > MAX_SUGGESTION_LEN {
        return Err(ValidationError::SuggestionTooLong);
    }
    if chars_of(req.kanji.as_str()).len() != 1 {
        return Err(ValidationError::InvalidKanji);
    }
    Ok(())
}

// ── allowed origins ────────────────────────────────────────────────

/// The comma-separated pieces of `s` (empty pieces included).
pub open spec fn comma_pieces(s: Seq<char>) -> Seq<Seq<char>>
    decreases s.len(),
{
    if s.len() == 0 {
        seq![Seq::empty()]
    } else {
        let p = comma_pieces(s.drop_last());
        if s.last() == ',' {
            p.push(Seq::empty())
        } else {
            p.update(p.len() - 1, p.last().push(s.last()))
        }
    }
}

/// `origin` is one of the non-empty, trimmed entries of the comma-separated list.
pub open spec fn origin_allowed(allowed_origins: Seq<char>, origin: Seq<char>) -> bool {
    exists|i: int|
        0 <= i < comma_pieces(allowed_origins).len() && #[trigger] trim_seq(
            comma_pieces(allowed_origins)[i],
        ) == origin && origin.len() > 0
}

/// `a[i..j]` is one entry of a comma-separated list: a run without commas,
/// bounded by commas or the ends of the list.
pub open spec fn entry_at(a: Seq<char>, i: int, j: int) -> bool {
    &&& 0 <= i <= j <= a.len()
    &&& forall|x: int| i <= x < j ==> #[trigger] a[x] != ','
    &&& (i == 0 || a[i - 1] == ',')
    &&& (j == a.len() || a[j] == ',')
}

proof fn lemma_comma_pieces_nonempty(s: Seq<char>)
    ensures
        comma_pieces(s).len() >= 1,
    decreases s.len(),
{
    if s.len() > 0 {
        lemma_comma_pieces_nonempty(s.drop_last());
    }
}

proof fn lemma_last_comma_piece(s: Seq<char>, i: int)
    requires
        0 <= i <= s.len(),
        i == 0 || s[i - 1] == ',',
        forall|x: int| i <= x < s.len() ==> #[trigger] s[x] != ',',
    ensures
        comma_pieces(s).last() == s.subrange(i, s.len() as int),
    decreases s.len(),
{
    if s.len() > i {
        let p = s.drop_last();
        assert forall|x: int| i <= x < p.len() implies #[trigger] p[x] != ',' by {
            assert(p[x] == s[x]);
        }
        if i > 0 {
            assert(p[i - 1] == s[i - 1]);
        }
        lemma_last_comma_piece(p, i);
        lemma_comma_pieces_nonempty(p);
        assert(s.subrange(i, s.len() as int) == p.subrange(i, p.len() as int).push(s.last()));
    } else if s.len() > 0 {
        lemma_comma_pieces_nonempty(s.drop_last());
        assert(s.subrange(i, s.len() as int) == Seq::<char>::empty());
    } else {
        assert(s.subrange(i, s.len() as int) == Seq::<char>::empty());
    }
}

proof fn lemma_comma_pieces_grow(t: Seq<char>, n: int, m: int)
    requires
        0 <= n <= m <= t.len(),
    ensures
        comma_pieces(t.take(n)).len() <= comma_pieces(t.take(m)).len(),
        forall|x: int|
            0 <= x < comma_pieces(t.take(n)).len() - 1 ==> #[trigger] comma_pieces(t.take(m))[x]
                == comma_pieces(t.take(n))[x],
    decreases m - n,
{
    if m > n {
        lemma_comma_pieces_grow(t, n, m - 1);
        assert(t.take(m).drop_last() == t.take(m - 1));
        lemma_comma_pieces_nonempty(t.take(m - 1));
    }
}

/// Every entry of the comma-separated list, trimmed, is an allowed origin when
/// it is not blank.
pub proof fn lemma_listed_origin_allowed(allowed_origins: Seq<char>, i: int, j: int)
    requires
        entry_at(allowed_origins, i, j),
        trim_seq(allowed_origins.subrange(i, j)).len() > 0,
    ensures
        origin_allowed(allowed_origins, trim_seq(allowed_origins.subrange(i, j))),
{
    let t = allowed_origins;
    let w = t.subrange(i, j);
    let s = t.take(j);
    assert forall|x: int| i <= x < s.len() implies #[trigger] s[x] != ',' by {
        assert(s[x] == t[x]);
    }
    if i > 0 {
        assert(s[i - 1] == t[i - 1]);
    }
    lemma_last_comma_piece(s, i);
    assert(s.subrange(i, s.len() as int) == w);
    lemma_comma_pieces_nonempty(s);
    let k = comma_pieces(s).len() - 1;
    if j == t.len() {
        assert(s == t);
    } else {
        assert(t.take(j + 1).drop_last() == s);
        assert(t.take(j + 1).last() == t[j]);
        assert(comma_pieces(t.take(j + 1)) == comma_pieces(s).push(Seq::<char>::empty()));
        lemma_comma_pieces_grow(t, j + 1, t.len() as int);
        assert(t.take(t.len() as int) == t);
    }
    assert(comma_pieces(t)[k] == w);
}

fn piece_matches(piece: &Vec<char>, origin: &Vec<char>) -> (r: bool)
    ensures
        r == (trim_seq(piece@) == origin@ && origin@.len() > 0),
{
    let t = trim_chars(piece);
    t.len() > 0 && chars_eq(&t, origin)
}

/// Whether the request's `Origin` is in the configured `ALLOWED_ORIGIN` list
/// (one origin, or several separated by commas).
pub fn is_allowed_origin(allowed_origins: &str, origin: &str) -> (r: bool)
    ensures
        r == origin_allowed(allowed_origins@, origin@),
{
    let a = chars_of(allowed_origins);
    let o = chars_of(origin);
    let mut cur: Vec<char> = Vec::new();
    let ghost mut done: Seq<Seq<char>> = Seq::empty();
    let mut found = false;
    let mut i: usize = 0;
    while i < a.len()
        invariant
            i <= a@.len(),
            comma_pieces(a@.take(i as int)) == done.push(cur@),
            found == exists|t: int| 0 <= t < done.len() && #[trigger] trim_seq(done[t]) == o@ && o@.len() > 0,
        decreases a@.len() - i,
    {
        let c = a[i];
        proof {
            assert(a@.take(i + 1).drop_last() == a@.take(i as int));
            assert(a@.take(i + 1).last() == c);
        }
        if c == ',' {
            let m = piece_matches(&cur, &o);
            proof {
                let nd = done.push(cur@);
                assert(found || m <==> exists|t: int| 0 <= t < nd.len() && #[trigger] trim_seq(nd[t]) == o@ && o@.len() > 0) by {
                    if m {
                        assert(nd[done.len() as int] == cur@);
                    }
                    if exists|t: int| 0 <= t < nd.len() && #[trigger] trim_seq(nd[t]) == o@ && o@.len() > 0 {
                        let t = choose|t: int| 0 <= t < nd.len() && #[trigger] trim_seq(nd[t]) == o@ && o@.len() > 0;
                        if t < done.len() {
                            assert(nd[t] == done[t]);
                        }
                    }
                    if found {
                        let t = choose|t: int| 0 <= t < done.len() && #[trigger] trim_seq(done[t]) == o@ && o@.len() > 0;
                        assert(nd[t] == done[t]);
                    }
                }
                done = nd;
            }
            found = found || m;
            cur = Vec::new();
        } else {
            let ghost before = cur@;
            cur.push(c);
            proof {
                assert(done.push(before).update(done.len() as int, cur@) == done.push(cur@));
            }
        }
        i += 1;
    }
    assert(a@.take(a@.len() as int) == a@);
    let m = piece_matches(&cur, &o);
    proof {
        let nd = done.push(cur@);
        assert(nd == comma_pieces(allowed_origins@));
        if m {
            assert(nd[done.len() as int] == cur@);
        }
        if exists|t: int| 0 <= t < nd.len() && #[trigger] trim_seq(nd[t]) == o@ && o@.len() > 0 {
            let t = choose|t: int| 0 <= t < nd.len() && #[trigger] trim_seq(nd[t]) == o@ && o@.len() > 0;
            if t < done.len() {
                assert(nd[t] == done[t]);
            }
        }
        if found {
            let t = choose|t: int| 0 <= t < done.len() && #[trigger] trim_seq(done[t]) == o@ && o@.len() > 0;
            assert(nd[t] == done[t]);
        }
    }
    found || m
}

// ── the GitHub issue ───────────────────────────────────────────────

/// Issue title: `[제보] {kanji} — {first 40 characters of the suggestion}`.
pub fn build_issue_title(kanji: &str, suggestion: &str) -> (t: String)
    ensures
        t@ == "[제보] "@ + kanji@ + " — "@ + (if suggestion@.len() <= 40 {
            suggestion@
        } else {
            suggestion@.take(40)
        }),
{
    let s = chars_of(suggestion);
    let end = if s.len() <= 40 { s.len() } else { 40 };
    let truncated = crate::text::slice_chars(&s, 0, end);
    proof {
        if s@.len() <= 40 {
            assert(s@.subrange(0, end as int) == s@);
        }
    }
    let mut t = String::from_str("[제보] ");
    t.append(kanji);
    t.append(" — ");
    t.append(string_of(&truncated).as_str());
    t
}

/// What the body shows as contact: the trimmed contact if it is not blank,
/// else "(제공 안 함)".
pub open spec fn contact_shown(contact: Option<String>) -> Seq<char> {
    match contact {
        Some(c) => if trim_seq(c@).len() > 0 {
            trim_seq(c@)
        } else {
            "(제공 안 함)"@
        },
        None => "(제공 안 함)"@,
    }
}

/// Issue body (Markdown) with the kanji, the hash of the explanation the user
/// saw, the suggestion and the contact.
pub fn build_issue_body(req: &FeedbackRequest) -> (b: String)
    ensures
        b@ == "## 한자\n"@ + req.kanji@ + "\n\n## 기존 설명 해시\n`"@ + req.current_explanation_hash@
            + "`\n\n## 제안 내용\n"@ + req.suggestion@ + "\n\n## 연락처\n"@ + contact_shown(req.contact)
            + "\n"@,
{
    let contact: String = match &req.contact {
        Some(c) => {
            let t = trimmed(c.as_str());
            if t.len() > 0 {
                string_of(&t)
            } else {
                String::from_str("(제공 안 함)")
            }
        },
        None => String::from_str("(제공 안 함)"),
    };
    let mut b = String::from_str("## 한자\n");
    b.append(req.kanji.as_str());
    b.append("\n\n## 기존 설명 해시\n`");
    b.append(req.current_explanation_hash.as_str());
    b.append("`\n\n## 제안 내용\n");
    b.append(req.suggestion.as_str());
    b.append("\n\n## 연락처\n");
    b.append(contact.as_str());
    b.append("\n");
    b
}

/// Issue labels: `feedback`, `from-web` and `kanji:{kanji}`.
pub fn build_issue_labels(kanji: &str) -> (labels: Vec<String>)
    ensures
        labels.deep_view() == seq!["feedback"@, "from-web"@, "kanji:"@ + kanji@],
{
    let mut labels: Vec<String> = Vec::new();
    labels.push(String::from_str("feedback"));
    labels.push(String::from_str("from-web"));
    let mut k = String::from_str("kanji:");
    k.append(kanji);
    labels.push(k);
    labels
}

/// Body of the GitHub Issues API `POST /repos/{repo}/issues` request.
#[derive(Debug, Clone, PartialEq, Eq)]
pub struct GithubIssuePayload {
    pub title: String,
    pub body: String,
    pub labels: Vec<String>,
}

/// The issue payload for a request: title, body and labels as the builders above make them.
pub fn build_issue_payload(req: &FeedbackRequest) -> (p: GithubIssuePayload)
    ensures
        p.title@ == "[제보] "@ + req.kanji@ + " — "@ + (if req.suggestion@.len() <= 40 {
            req.suggestion@
        } else {
            req.suggestion@.take(40)
        }),
        p.body@ == "## 한자\n"@ + req.kanji@ + "\n\n## 기존 설명 해시\n`"@ + req.current_explanation_hash@
            + "`\n\n## 제안 내용\n"@ + req.suggestion@ + "\n\n## 연락처\n"@ + contact_shown(req.contact)
            + "\n"@,
        p.labels.deep_view() == seq!["feedback"@, "from-web"@, "kanji:"@ + req.kanji@],
{
    GithubIssuePayload {
        title: build_issue_title(req.kanji.as_str(), req.suggestion.as_str()),
        body: build_issue_body(req),
        labels: build_issue_labels(req.kanji.as_str()),
    }
}

/// The part of a GitHub Issues API response that is used.
#[derive(Debug, Clone)]
pub struct GithubIssueResponse {
    pub number: u64,
}

/// Cloudflare Turnstile `siteverify` response.
#[derive(Debug, Clone)]
pub struct TurnstileVerifyResponse {
    pub success: bool,
    pub error_codes: Vec<String>,
}

/// Success reply `{"issue_number": N}`.
#[derive(Debug, Clone, PartialEq, Eq)]
pub struct SuccessBody {
    pub issue_number: u64,
}

/// Error reply `{"error": "..."}`.
#[derive(Debug, Clone, PartialEq, Eq)]
pub struct ErrorBody {
    pub error: String,
}

impl ErrorBody {
    pub fn new(message: &str) -> (b: ErrorBody)
        ensures
            b.error@ == message@,
    {
        ErrorBody { error: String::from_str(message) }
    }
}

// ── rate limit ─────────────────────────────────────────────────────

/// The KV key of an IP's rate-limit counter: `ratelimit:{ip}`.
pub fn rate_limit_key(ip: &str) -> (k: String)
    ensures
        k@ == "ratelimit:"@ + ip@,
{
    let mut k = String::from_str("ratelimit:");
    k.append(ip);
    k
}

/// Whether the current count has reached the hourly limit.
pub fn is_rate_limited(current_count: u32) -> (r: bool)
    ensures
        r == (current_count >= RATE_LIMIT_PER_HOUR),
{
    current_count >= RATE_LIMIT_PER_HOUR
}

} // verus!
