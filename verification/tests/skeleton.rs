use kanji_etymology::frontmatter::split_frontmatter;
use kanji_etymology::kanjidic::{KanjidicChar, KunPair};
use kanji_etymology::schema::Confidence;
use kanji_etymology::skeleton::{
    build_skeleton_entry, frame_skeleton_markdown, KANJIDIC2_LICENSE_URL, TODO,
};

fn sample() -> KanjidicChar {
    KanjidicChar {
        literal: '一',
        grade: Some(1),
        stroke_count: Some(1),
        korean_h: vec!["일".to_string()],
        on: vec!["イチ".to_string(), "イツ".to_string()],
        kun: vec![KunPair { reading: "ひと-つ".to_string(), form: "一つ".to_string() }],
        meanings_en: vec!["one".to_string()],
    }
}

#[test]
fn placeholders_mark_unknown_fields() {
    let entry = build_skeleton_entry(&sample());
    assert_eq!(entry.jlpt.as_deref(), Some(TODO));
    assert_eq!(entry.korean.meaning, TODO);
    assert_eq!(entry.last_updated, TODO);
    assert_eq!(entry.korean.reading, "일");
    assert_eq!(entry.meanings, vec!["(en) one".to_string()]);
    assert_eq!(entry.confidence, Confidence::Interpretation);
    assert_eq!(entry.sources[0].name, "KANJIDIC2");
}

#[test]
fn missing_meaning_gets_todo_placeholder() {
    let mut k = sample();
    k.meanings_en.clear();
    let entry = build_skeleton_entry(&k);
    assert_eq!(entry.meanings, vec![format!("(en) {TODO}")]);
}

#[test]
fn korean_readings_are_joined_with_slash() {
    let mut k = sample();
    k.korean_h = vec!["일".to_string(), "한".to_string()];
    assert_eq!(build_skeleton_entry(&k).korean.reading, "일/한");
    k.korean_h.clear();
    assert_eq!(build_skeleton_entry(&k).korean.reading, TODO);
}

#[test]
fn skeleton_copies_mechanical_fields() {
    let entry = build_skeleton_entry(&sample());
    assert_eq!(entry.character, "一");
    assert_eq!(entry.grade, Some(1));
    assert_eq!(entry.stroke_count, Some(1));
    assert_eq!(entry.readings.on, vec!["イチ".to_string(), "イツ".to_string()]);
    assert_eq!(entry.readings.kun[0].reading, "ひと-つ");
    assert_eq!(entry.readings.kun[0].form, "一つ");
    assert!(entry.variants.is_empty() && entry.components.is_empty());
    assert_eq!(entry.sources.len(), 1);
    assert_eq!(entry.sources[0].license.as_deref(), Some("CC-BY-SA"));
    assert_eq!(entry.sources[0].url.as_deref(), Some(KANJIDIC2_LICENSE_URL));
    assert!(entry.sources[0].reference.is_none() && entry.sources[0].year.is_none());
}

#[test]
fn framed_skeleton_splits_back() {
    let yaml = "---\ncharacter: 一\njlpt: TODO\n";
    let md = frame_skeleton_markdown(yaml);
    assert_eq!(md, "---\ncharacter: 一\njlpt: TODO\n---\n\n<!-- TODO: 어원 서술 작성 -->\n");
    let (front, body) = split_frontmatter(&md).unwrap();
    assert_eq!(front, "character: 一\njlpt: TODO");
    assert_eq!(body, "<!-- TODO: 어원 서술 작성 -->\n");
}

#[test]
fn frame_adds_missing_final_newline() {
    assert_eq!(
        frame_skeleton_markdown("a: 1"),
        "---\na: 1\n---\n\n<!-- TODO: 어원 서술 작성 -->\n"
    );
    assert_eq!(frame_skeleton_markdown(""), "---\n\n---\n\n<!-- TODO: 어원 서술 작성 -->\n");
}
