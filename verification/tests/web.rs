use kanji_etymology::index::KanjiSummaryItem;
use kanji_etymology::keyed::ListMap;
use kanji_etymology::schema::Confidence;
use kanji_etymology::search::{MatchRank, SearchHit, SearchIndex};
use kanji_etymology::web::{
    can_submit, check_response, enter_target, EnterTarget, confidence_label, confidence_note, failure_message,
    feedback_payload, filter_kanji, fnv1a_64_hex, markdown_to_html, member_summaries,
    next_active, radical_filter_members, sorted_keys, suggestion_picks, today_index_from_days,
    FetchError, SearchData, STROKE_RANGES, SUGGESTION_COUNT,
};

fn summary(c: &str, jlpt: Option<&str>, strokes: Option<u32>) -> KanjiSummaryItem {
    KanjiSummaryItem {
        character: c.to_string(),
        korean_reading: "음".to_string(),
        meanings: vec!["뜻".to_string()],
        jlpt: jlpt.map(|s| s.to_string()),
        stroke_count: strokes,
        grade: None,
    }
}

fn chars(list: &[KanjiSummaryItem]) -> Vec<&str> {
    list.iter().map(|s| s.character.as_str()).collect()
}

#[test]
fn fnv1a_64_hex_empty_string_is_offset_basis() {
    assert_eq!(fnv1a_64_hex(""), "cbf29ce484222325");
}

#[test]
fn fnv1a_64_hex_matches_known_vectors() {
    assert_eq!(fnv1a_64_hex("a"), "af63dc4c8601ec8c");
    assert_eq!(fnv1a_64_hex("foobar"), "85944171f73967e8");
}

#[test]
fn fnv1a_64_hex_is_deterministic_for_utf8() {
    let markdown = "「学」은 지붕 아래에서 아이가 배우는 모습입니다.";
    assert_eq!(fnv1a_64_hex(markdown), fnv1a_64_hex(markdown));
}

#[test]
fn fnv1a_64_hex_distinguishes_revisions() {
    assert_ne!(fnv1a_64_hex("설명 v1"), fnv1a_64_hex("설명 v2"));
}

#[test]
fn fnv1a_64_hex_is_16_lowercase_hex_digits() {
    for input in ["", "a", "学", "긴 마크다운 본문…"] {
        let hash = fnv1a_64_hex(input);
        assert_eq!(hash.len(), 16, "input={input:?}");
        assert!(
            hash.chars().all(|c| c.is_ascii_hexdigit() && !c.is_ascii_uppercase()),
            "input={input:?} hash={hash}"
        );
    }
}

#[test]
fn today_index_wraps_by_day() {
    assert_eq!(today_index_from_days(20_000, 0), 0);
    assert_eq!(today_index_from_days(20_000, 7), 20_000 % 7);
    assert_eq!(today_index_from_days(20_001, 7), 20_001 % 7);
    assert!(today_index_from_days(u64::MAX, 3) < 3);
}

#[test]
fn suggestions_wrap_around_from_today() {
    let list: Vec<_> = ["一", "二", "三", "四", "五", "六", "七", "八"]
        .iter()
        .map(|c| summary(c, None, None))
        .collect();
    let picks = suggestion_picks(&list, 5);
    assert_eq!(picks.len(), SUGGESTION_COUNT);
    assert_eq!(chars(&picks), vec!["六", "七", "八", "一", "二", "三"]);
    let short: Vec<_> = list[..3].to_vec();
    assert_eq!(chars(&suggestion_picks(&short, 2)), vec!["三", "一", "二"]);
    assert!(suggestion_picks(&vec![], 0).is_empty());
}

#[test]
fn browse_filters_combine_with_and() {
    let list = vec![
        summary("学", Some("N5"), Some(8)),
        summary("山", Some("N5"), Some(3)),
        summary("漢", Some("N3"), Some(13)),
        summary("々", None, None),
    ];
    let none = filter_kanji(&list, &None, None, &None);
    assert_eq!(chars(&none), vec!["学", "山", "漢", "々"]);
    let n5 = filter_kanji(&list, &Some("N5".to_string()), None, &None);
    assert_eq!(chars(&n5), vec!["学", "山"]);
    let n5_5to8 = filter_kanji(&list, &Some("N5".to_string()), Some((5, 8)), &None);
    assert_eq!(chars(&n5_5to8), vec!["学"]);
    let many = filter_kanji(&list, &None, Some((13, u32::MAX)), &None);
    assert_eq!(chars(&many), vec!["漢"]);
    let members = Some(vec!["山".to_string(), "々".to_string()]);
    let by_radical = filter_kanji(&list, &None, None, &members);
    assert_eq!(chars(&by_radical), vec!["山", "々"]);
}

#[test]
fn radical_filter_members_from_index() {
    let mut by_radical = ListMap::new();
    by_radical.insert("冖".to_string(), vec!["学".to_string()]);
    assert_eq!(radical_filter_members(&by_radical, &None), None);
    assert_eq!(
        radical_filter_members(&by_radical, &Some("冖".to_string())),
        Some(vec!["学".to_string()])
    );
    assert_eq!(radical_filter_members(&by_radical, &Some("氵".to_string())), Some(vec![]));
}

#[test]
fn member_summaries_follow_member_order() {
    let list = vec![summary("学", None, None), summary("字", None, None)];
    let members = vec!["字".to_string(), "无".to_string(), "学".to_string()];
    assert_eq!(chars(&member_summaries(&members, &list)), vec!["字", "学"]);
}

#[test]
fn confidence_labels() {
    assert_eq!(confidence_label(Confidence::WellAttested), ("근거 확실", "confidence--well"));
    assert_eq!(confidence_label(Confidence::Interpretation), ("해석", "confidence--interp"));
    assert_eq!(confidence_label(Confidence::Tentative), ("잠정", "confidence--tentative"));
    assert_eq!(confidence_note(Confidence::Interpretation), "여러 학설 중 하나의 해석입니다.");
}

#[test]
fn responses_are_judged() {
    assert_eq!(check_response(404, false, ""), Err(FetchError::NotFound));
    assert_eq!(check_response(500, false, "application/json"), Err(FetchError::Status(500)));
    assert_eq!(check_response(200, true, "text/html"), Err(FetchError::NotFound));
    assert_eq!(check_response(200, true, "Application/JSON; charset=utf-8"), Ok(()));
}

#[test]
fn fetch_error_messages() {
    assert_eq!(FetchError::NotFound.message(), "데이터를 찾을 수 없습니다 (404)");
    assert_eq!(FetchError::Status(503).message(), "서버 오류 (HTTP 503)");
    assert_eq!(FetchError::Status(7).message(), "서버 오류 (HTTP 7)");
    assert_eq!(FetchError::Other("timeout".to_string()).message(), "불러오기 실패: timeout");
}

#[test]
fn markdown_becomes_html() {
    assert_eq!(markdown_to_html("# 学\n\n**배우다**"), "<h1>学</h1>\n<p><strong>배우다</strong></p>\n");
    assert_eq!(markdown_to_html("~~old~~"), "<p><del>old</del></p>\n");
    assert!(markdown_to_html("| a |\n|---|\n| b |\n").contains("<table>"));
}

#[test]
fn submit_needs_valid_text_token_and_idle_form() {
    let ok = "열 글자가 넘는 제안입니다";
    assert!(can_submit(ok, "token", false));
    assert!(!can_submit("짧음", "token", false));
    assert!(!can_submit(ok, "", false));
    assert!(!can_submit(ok, "token", true));
    assert!(can_submit(&"가".repeat(4000), "t", false));
    assert!(!can_submit(&"가".repeat(4001), "t", false));
}

#[test]
fn payload_trims_contact() {
    let p = feedback_payload("学", "abc", "제안 내용입니다 열 글자 이상.", "  me@x.org ", "token123", "");
    assert_eq!(p.contact.as_deref(), Some("me@x.org"));
    assert_eq!(p.kanji, "学");
    assert_eq!(p.turnstile_token, "token123");
    assert_eq!(p.website, "");
    let p = feedback_payload("学", "abc", "제안", "   ", "t", "bot");
    assert_eq!(p.contact, None);
    assert_eq!(p.website, "bot");
}

#[test]
fn failure_messages_by_status() {
    assert_eq!(failure_message(429, None), "제보가 너무 잦습니다. 잠시 후 다시 시도해 주세요.");
    assert_eq!(failure_message(400, Some("서버 메시지".to_string())), "서버 메시지");
    assert_eq!(failure_message(400, None), "입력 내용을 다시 확인해 주세요.");
    assert_eq!(failure_message(403, Some("무시됨".to_string())).contains("허용되지 않은 접속 경로"), true);
    assert!(failure_message(502, None).starts_with("제보 저장에 실패했습니다."));
    assert_eq!(
        failure_message(418, None),
        "알 수 없는 오류가 발생했습니다 (HTTP 418). 잠시 후 다시 시도해 주세요."
    );
    assert_eq!(failure_message(418, Some("tea".to_string())), "tea");
}

#[test]
fn arrow_keys_move_the_highlight() {
    assert_eq!(next_active(None, true, 0), None);
    assert_eq!(next_active(Some(3), true, 0), Some(3));
    assert_eq!(next_active(None, true, 4), Some(0));
    assert_eq!(next_active(None, false, 4), Some(3));
    assert_eq!(next_active(Some(3), true, 4), Some(0));
    assert_eq!(next_active(Some(0), false, 4), Some(3));
    assert_eq!(next_active(Some(1), false, 4), Some(0));
    assert_eq!(next_active(Some(9), true, 4), Some(2));
}

#[test]
fn search_data_finds_summaries() {
    let list = vec![summary("学", Some("N5"), None), summary("山", None, None), summary("学", Some("N4"), None)];
    let data = SearchData::new(SearchIndex::default(), list);
    assert_eq!(data.summary_of("学").and_then(|s| s.jlpt.as_deref()), Some("N4"));
    assert_eq!(data.summary_of("山").map(|s| s.character.as_str()), Some("山"));
    assert!(data.summary_of("川").is_none());
}

#[test]
fn radical_keys_are_sorted() {
    let mut by_radical = ListMap::new();
    by_radical.insert("氵".to_string(), vec!["海".to_string()]);
    by_radical.insert("冖".to_string(), vec!["学".to_string()]);
    by_radical.insert("子".to_string(), vec!["学".to_string()]);
    assert_eq!(sorted_keys(&by_radical), vec!["冖".to_string(), "子".to_string(), "氵".to_string()]);
    assert!(sorted_keys(&ListMap::new()).is_empty());
}

#[test]
fn stroke_ranges_cover_all_counts_from_one() {
    assert_eq!(STROKE_RANGES[0], ("1~4획", 1, 4));
    assert_eq!(STROKE_RANGES[3].2, u32::MAX);
}

#[test]
fn enter_goes_to_highlighted_kanji_or_results() {
    let hits = vec![
        SearchHit { kanji: "学".to_string(), rank: MatchRank::Exact },
        SearchHit { kanji: "山".to_string(), rank: MatchRank::Prefix },
    ];
    match enter_target(Some(1), &hits, " 산 ") {
        EnterTarget::Kanji(k) => assert_eq!(k, "山"),
        _ => panic!("expected the highlighted kanji"),
    }
    match enter_target(None, &hits, " 산 ") {
        EnterTarget::Results(q) => assert_eq!(q, "산"),
        _ => panic!("expected the results page"),
    }
    match enter_target(Some(5), &hits, "학") {
        EnterTarget::Results(q) => assert_eq!(q, "학"),
        _ => panic!("expected the results page"),
    }
    assert!(matches!(enter_target(None, &hits, "   "), EnterTarget::Stay));
}
