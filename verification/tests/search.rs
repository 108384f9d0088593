use kanji_etymology::search::{
    decompose_jamo, search, to_hiragana, to_katakana, top_matches, MatchRank, SearchHit,
    SearchIndex,
};

fn fixture() -> SearchIndex {
    let mut idx = SearchIndex::default();
    idx.by_kanji.insert("学".into(), "学".into());
    idx.by_kanji.insert("山".into(), "山".into());
    idx.by_kr_sound.insert("학".into(), vec!["学".into()]);
    idx.by_kr_sound.insert("산".into(), vec!["山".into()]);
    idx.by_meaning.insert("배우다".into(), vec!["学".into()]);
    idx.by_meaning.insert("학문".into(), vec!["学".into()]);
    idx.by_meaning.insert("산".into(), vec!["山".into()]);
    idx.by_on.insert("ガク".into(), vec!["学".into()]);
    idx.by_kun.insert("まなぶ".into(), vec!["学".into()]);
    idx.by_kun.insert("やま".into(), vec!["山".into()]);
    idx.by_romaji.insert("gaku".into(), vec!["学".into()]);
    idx.by_romaji.insert("manabu".into(), vec!["学".into()]);
    idx
}

fn kanjis(hits: &[SearchHit]) -> Vec<&str> {
    hits.iter().map(|h| h.kanji.as_str()).collect()
}

#[test]
fn finds_by_kanji_direct() {
    let hits = search(&fixture(), "学");
    assert_eq!(hits[0].kanji, "学");
    assert_eq!(hits[0].rank, MatchRank::Exact);
}

#[test]
fn finds_by_korean_sound() {
    let hits = search(&fixture(), "학");
    assert_eq!(hits[0].kanji, "学");
    assert_eq!(hits[0].rank, MatchRank::Exact);
}

#[test]
fn finds_by_korean_meaning() {
    let hits = search(&fixture(), "배우다");
    assert_eq!(hits[0].kanji, "学");
    assert_eq!(hits[0].rank, MatchRank::Exact);
}

#[test]
fn finds_by_kun_hiragana_and_on_katakana() {
    let hits = search(&fixture(), "まなぶ");
    assert_eq!(hits[0].kanji, "学");
    let hits = search(&fixture(), "ガク");
    assert_eq!(hits[0].kanji, "学");
}

#[test]
fn kana_cross_script_lookup() {
    let hits = search(&fixture(), "マナブ");
    assert_eq!(hits[0].kanji, "学");
    let hits = search(&fixture(), "がく");
    assert_eq!(hits[0].kanji, "学");
}

#[test]
fn finds_by_romaji() {
    let hits = search(&fixture(), "manabu");
    assert_eq!(hits[0].kanji, "学");
    let hits = search(&fixture(), "gaku");
    assert_eq!(hits[0].kanji, "学");
    let hits = search(&fixture(), "  GAKU ");
    assert_eq!(hits[0].kanji, "学");
}

#[test]
fn jamo_prefix_matches_incomplete_syllable() {
    let hits = search(&fixture(), "하");
    assert!(hits.iter().any(|h| h.kanji == "学" && h.rank == MatchRank::Prefix));
}

#[test]
fn jamo_single_consonant_prefix() {
    let hits = search(&fixture(), "ㅎ");
    assert!(hits.iter().any(|h| h.kanji == "学" && h.rank == MatchRank::Prefix));
}

#[test]
fn decompose_jamo_arithmetic() {
    assert_eq!(decompose_jamo("학"), "ㅎㅏㄱ");
    assert_eq!(decompose_jamo("하"), "ㅎㅏ");
    assert_eq!(decompose_jamo("화"), "ㅎㅗㅏ");
    assert_eq!(decompose_jamo("값"), "ㄱㅏㅂㅅ");
    assert_eq!(decompose_jamo("abc学"), "abc学");
}

#[test]
fn priority_exact_before_prefix_before_partial() {
    let mut idx = SearchIndex::default();
    idx.by_meaning.insert("산".into(), vec!["山".into()]);
    idx.by_meaning.insert("산더미".into(), vec!["学".into()]);
    idx.by_meaning.insert("화산".into(), vec!["日".into()]);
    let hits = search(&idx, "산");
    assert_eq!(kanjis(&hits), vec!["山", "学", "日"]);
    assert_eq!(
        hits.iter().map(|h| h.rank).collect::<Vec<_>>(),
        vec![MatchRank::Exact, MatchRank::Prefix, MatchRank::Partial]
    );
}

#[test]
fn duplicate_kanji_merged_with_best_rank() {
    let mut idx = SearchIndex::default();
    idx.by_kr_sound.insert("산".into(), vec!["山".into()]);
    idx.by_meaning.insert("산더미".into(), vec!["山".into()]);
    let hits = search(&idx, "산");
    assert_eq!(hits.len(), 1);
    assert_eq!(hits[0].kanji, "山");
    assert_eq!(hits[0].rank, MatchRank::Exact);
}

#[test]
fn multi_char_paste_finds_registered_kanji() {
    let hits = search(&fixture(), "学校");
    assert!(hits.iter().any(|h| h.kanji == "学" && h.rank == MatchRank::Partial));
}

#[test]
fn empty_and_whitespace_queries_return_nothing() {
    assert!(search(&fixture(), "").is_empty());
    assert!(search(&fixture(), "   ").is_empty());
}

#[test]
fn romaji_prefix_but_not_partial() {
    let hits = search(&fixture(), "man");
    assert!(hits.iter().any(|h| h.kanji == "学" && h.rank == MatchRank::Prefix));
    let hits = search(&fixture(), "abu");
    assert!(hits.is_empty());
}

#[test]
fn kana_conversion_roundtrip() {
    assert_eq!(to_hiragana("ガク"), "がく");
    assert_eq!(to_katakana("まなぶ"), "マナブ");
    assert_eq!(to_hiragana("学ぶ"), "学ぶ");
}

#[test]
fn kana_round_trip_on_hiragana_text() {
    let s = "まなぶ、がっこう";
    assert_eq!(to_hiragana(&to_katakana(s)), s);
    let k = "マナブ・ガッコウ";
    assert_eq!(to_katakana(&to_hiragana(k)), k);
}

#[test]
fn long_vowel_mark_is_not_converted() {
    assert_eq!(to_hiragana("コーヒー"), "こーひー");
}

#[test]
fn ties_in_rank_are_ordered_by_kanji() {
    let mut idx = SearchIndex::default();
    idx.by_meaning.insert("산".into(), vec!["山".into(), "一".into()]);
    let hits = search(&idx, "산");
    assert_eq!(kanjis(&hits), vec!["一", "山"]);
}

#[test]
fn top_matches_keeps_the_best_hits() {
    let mut idx = SearchIndex::default();
    idx.by_meaning.insert("산".into(), vec!["山".into()]);
    idx.by_meaning.insert("산더미".into(), vec!["学".into()]);
    idx.by_meaning.insert("화산".into(), vec!["日".into()]);
    let top = top_matches(&idx, "산", 2);
    assert_eq!(kanjis(&top), vec!["山", "学"]);
    let all = top_matches(&idx, "산", 8);
    assert_eq!(kanjis(&all), vec!["山", "学", "日"]);
    assert!(top_matches(&idx, " ", 8).is_empty());
}

#[test]
fn jamo_of_concatenation_is_concatenated_jamo() {
    let a = "학교";
    let b = "ㅘ산";
    assert_eq!(decompose_jamo(&format!("{a}{b}")), format!("{}{}", decompose_jamo(a), decompose_jamo(b)));
}

#[test]
fn jamo_decomposition_is_idempotent() {
    for s in ["화학", "ㄳ값", "abc 뷁"] {
        let once = decompose_jamo(s);
        assert_eq!(decompose_jamo(&once), once);
    }
}

#[test]
fn typed_compound_vowel_matches_syllable() {
    assert_eq!(decompose_jamo("ㅎㅘ"), decompose_jamo("화"));
    assert_eq!(decompose_jamo("ㄱㅢ"), decompose_jamo("긔"));
}
