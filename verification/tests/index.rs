use kanji_etymology::index::{
    build_by_radical_index, build_by_word_index, build_kanji_list, build_radicals_list,
    build_search_index, meaning_keywords, normalize_kun_reading,
};
use kanji_etymology::search::{search, MatchRank};
use kanji_etymology::schema::{
    Component, Confidence, KanjiEntry, Korean, KunReading, RadicalEntry, Readings, Word,
};

#[test]
fn normalizes_kun_reading_removes_dash() {
    assert_eq!(normalize_kun_reading("まな-ぶ"), "まなぶ");
}

#[test]
fn meaning_keywords_splits_on_comma_and_space() {
    let keys = meaning_keywords("학문, 공부");
    assert_eq!(keys, vec!["학문, 공부", "학문", "공부"]);
}

#[test]
fn meaning_keywords_single_word_has_one_key() {
    assert_eq!(meaning_keywords("배우다"), vec!["배우다"]);
}

fn entry_gaku() -> KanjiEntry {
    KanjiEntry {
        character: "学".to_string(),
        variants: vec!["學".to_string()],
        jlpt: Some("N5".to_string()),
        grade: Some(1),
        stroke_count: Some(8),
        korean: Korean { reading: "학".to_string(), meaning: "배울 학".to_string() },
        readings: Readings {
            on: vec!["ガク".to_string()],
            kun: vec![KunReading { reading: "まな-ぶ".to_string(), form: "学ぶ".to_string() }],
        },
        meanings: vec!["배우다".to_string(), "학문, 공부".to_string()],
        components: vec![
            Component { form: "冖".to_string(), role: "지붕".to_string(), link: Some("/radical/冖".to_string()) },
            Component { form: "子".to_string(), role: "아이".to_string(), link: None },
        ],
        evolution: vec![],
        related: vec![],
        words: vec![Word { word: "学生".to_string(), reading: "がくせい".to_string(), gloss: "학생".to_string() }],
        confidence: Confidence::WellAttested,
        sources: vec![],
        last_updated: "2026-07-11".to_string(),
    }
}

#[test]
fn search_index_reaches_kanji_by_every_route() {
    let idx = build_search_index(&vec![entry_gaku()]);
    assert_eq!(idx.by_kanji.get("学").map(|s| s.as_str()), Some("学"));
    assert_eq!(idx.by_kr_sound.get("학"), Some(&vec!["学".to_string()]));
    assert_eq!(idx.by_meaning.get("배우다"), Some(&vec!["学".to_string()]));
    assert_eq!(idx.by_meaning.get("학문, 공부"), Some(&vec!["学".to_string()]));
    assert_eq!(idx.by_meaning.get("공부"), Some(&vec!["学".to_string()]));
    assert_eq!(idx.by_on.get("ガク"), Some(&vec!["学".to_string()]));
    assert_eq!(idx.by_kun.get("まなぶ"), Some(&vec!["学".to_string()]));
    assert_eq!(idx.by_romaji.get("gaku"), Some(&vec!["学".to_string()]));
    assert_eq!(idx.by_romaji.get("manabu"), Some(&vec!["学".to_string()]));
    assert!(idx.by_kun.get("まな-ぶ").is_none());
}

#[test]
fn search_index_lists_each_kanji_once_per_key() {
    let mut second = entry_gaku();
    second.character = "學".to_string();
    let idx = build_search_index(&vec![entry_gaku(), entry_gaku(), second]);
    assert_eq!(idx.by_kr_sound.get("학"), Some(&vec!["学".to_string(), "學".to_string()]));
}

#[test]
fn radical_and_word_indexes() {
    let by_radical = build_by_radical_index(&vec![entry_gaku()]);
    assert_eq!(by_radical.get("冖"), Some(&vec!["学".to_string()]));
    assert_eq!(by_radical.get("子"), Some(&vec!["学".to_string()]));
    let by_word = build_by_word_index(&vec![entry_gaku()]);
    assert_eq!(by_word.get("学生"), Some(&vec!["学".to_string()]));
    assert!(by_word.get("学校").is_none());
}

#[test]
fn kanji_list_summarizes_entries() {
    let list = build_kanji_list(&vec![entry_gaku()]);
    assert_eq!(list.len(), 1);
    assert_eq!(list[0].character, "学");
    assert_eq!(list[0].korean_reading, "학");
    assert_eq!(list[0].meanings, vec!["배우다".to_string(), "학문, 공부".to_string()]);
    assert_eq!(list[0].jlpt.as_deref(), Some("N5"));
    assert_eq!(list[0].stroke_count, Some(8));
    assert_eq!(list[0].grade, Some(1));
}

#[test]
fn radicals_list_counts_members() {
    let radicals = vec![
        RadicalEntry {
            radical: "冖".to_string(),
            name: "민갓머리".to_string(),
            meaning: "덮개".to_string(),
            stroke_count: 2,
            variants: vec![],
            last_updated: "2026-07-11".to_string(),
        },
        RadicalEntry {
            radical: "氵".to_string(),
            name: "삼수변".to_string(),
            meaning: "물".to_string(),
            stroke_count: 3,
            variants: vec![],
            last_updated: "2026-07-11".to_string(),
        },
    ];
    let by_radical = build_by_radical_index(&vec![entry_gaku()]);
    let list = build_radicals_list(&radicals, &by_radical);
    assert_eq!(list.len(), 2);
    assert_eq!(list[0].radical, "冖");
    assert_eq!(list[0].name, "민갓머리");
    assert_eq!(list[0].kanji_count, 1);
    assert_eq!(list[1].kanji_count, 0);
}

#[test]
fn built_index_finds_kanji_by_every_route() {
    let idx = build_search_index(&vec![entry_gaku()]);
    for q in ["学", "학", "배우다", "공부", "ガク", "まなぶ", "gaku", "manabu"] {
        let hits = search(&idx, q);
        assert_eq!(hits.len(), 1, "query {q}");
        assert_eq!(hits[0].kanji, "学", "query {q}");
        assert_eq!(hits[0].rank, MatchRank::Exact, "query {q}");
    }
}
