use kanji_etymology::pipeline::{parse_content_link, validate_content, KanjiFile, LinkTarget, RadicalFile};
use kanji_etymology::schema::{
    Component, Confidence, KanjiEntry, Korean, RadicalEntry, Readings, Related,
};

fn kanji(character: &str, components: Vec<Component>, related: Vec<Related>) -> KanjiEntry {
    KanjiEntry {
        character: character.to_string(),
        variants: vec![],
        jlpt: Some("N5".to_string()),
        grade: Some(1),
        stroke_count: Some(8),
        korean: Korean { reading: "학".to_string(), meaning: "배울 학".to_string() },
        readings: Readings { on: vec![], kun: vec![] },
        meanings: vec!["배우다".to_string()],
        components,
        evolution: vec![],
        related,
        words: vec![],
        confidence: Confidence::WellAttested,
        sources: vec![],
        last_updated: "2026-07-11".to_string(),
    }
}

fn component(form: &str, link: Option<&str>) -> Component {
    Component { form: form.to_string(), role: "부품".to_string(), link: link.map(|s| s.to_string()) }
}

fn kanji_file(stem: &str, entry: KanjiEntry) -> KanjiFile {
    KanjiFile { path: format!("content/kanji/{stem}.md"), stem: stem.to_string(), parsed: Ok(entry) }
}

fn radical_file(stem: &str, radical: &str) -> RadicalFile {
    RadicalFile {
        path: format!("content/radicals/{stem}.md"),
        stem: stem.to_string(),
        parsed: Ok(RadicalEntry {
            radical: radical.to_string(),
            name: "민갓머리".to_string(),
            meaning: "덮개".to_string(),
            stroke_count: 2,
            variants: vec![],
            last_updated: "2026-07-11".to_string(),
        }),
    }
}

fn valid_content() -> (Vec<KanjiFile>, Vec<RadicalFile>) {
    let gaku = kanji(
        "学",
        vec![component("冖", Some("/radical/冖")), component("子", Some("/kanji/子"))],
        vec![Related { kanji: "子".to_string(), relation: "부품".to_string() }],
    );
    let ko = kanji("子", vec![], vec![]);
    (vec![kanji_file("学", gaku), kanji_file("子", ko)], vec![radical_file("冖", "冖")])
}

#[test]
fn valid_content_has_no_problems() {
    let (k, r) = valid_content();
    assert!(validate_content(&k, &r).is_empty());
}

#[test]
fn missing_required_field_fails() {
    let (mut k, r) = valid_content();
    k.push(KanjiFile {
        path: "content/kanji/山.md".to_string(),
        stem: "山".to_string(),
        parsed: Err("missing field `korean`".to_string()),
    });
    let errors = validate_content(&k, &r);
    assert_eq!(errors, vec!["content/kanji/山.md: missing field `korean`".to_string()]);
}

#[test]
fn broken_link_fails() {
    let (mut k, r) = valid_content();
    k[1] = kanji_file("子", kanji("子", vec![component("木", Some("/kanji/木"))], vec![]));
    let errors = validate_content(&k, &r);
    assert_eq!(errors.len(), 1);
    assert!(errors[0].contains("존재하지 않는"));
    assert_eq!(
        errors[0],
        "content/kanji/子.md: components 링크가 존재하지 않는 한자를 가리킵니다: /kanji/木"
    );
}

#[test]
fn filename_character_mismatch_fails() {
    let (mut k, r) = valid_content();
    k[1].stem = "孑".to_string();
    let errors = validate_content(&k, &r);
    assert_eq!(errors.len(), 1);
    assert!(errors[0].contains("일치하지"));
}

#[test]
fn duplicate_character_fails() {
    let (mut k, r) = valid_content();
    let copy = kanji("子", vec![], vec![]);
    k.push(kanji_file("子", copy));
    let errors = validate_content(&k, &r);
    assert_eq!(errors, vec!["content/kanji/子.md: 한자 \"子\"가 다른 파일과 중복됩니다".to_string()]);
}

#[test]
fn radical_problems_are_reported() {
    let (k, mut r) = valid_content();
    r.push(radical_file("氵", "水"));
    r.push(radical_file("冖", "冖"));
    let errors = validate_content(&k, &r);
    assert_eq!(
        errors,
        vec![
            "content/radicals/氵.md: frontmatter의 radical(\"水\")이 파일명(\"氵\")과 일치하지 않습니다".to_string(),
            "content/radicals/冖.md: 부수 \"冖\"가 다른 파일과 중복됩니다".to_string(),
        ]
    );
}

#[test]
fn unknown_radical_link_and_unsupported_link_and_missing_related() {
    let (mut k, r) = valid_content();
    k[1] = kanji_file(
        "子",
        kanji(
            "子",
            vec![component("冫", Some("/radical/冫")), component("x", Some("https://example.com"))],
            vec![Related { kanji: "孫".to_string(), relation: "파생".to_string() }],
        ),
    );
    let errors = validate_content(&k, &r);
    assert_eq!(
        errors,
        vec![
            "content/kanji/子.md: components 링크가 존재하지 않는 부수를 가리킵니다: /radical/冫".to_string(),
            "content/kanji/子.md: 지원하지 않는 링크 형식입니다 (/kanji/... 또는 /radical/...만 허용): https://example.com".to_string(),
            "content/kanji/子.md: related.kanji가 존재하지 않는 한자를 가리킵니다: 孫".to_string(),
        ]
    );
}

#[test]
fn mismatch_message_names_both_spellings() {
    let (mut k, r) = valid_content();
    k[0].stem = "學".to_string();
    let errors = validate_content(&k, &r);
    assert_eq!(
        errors,
        vec!["content/kanji/学.md: frontmatter의 character(\"学\")가 파일명(\"學\")과 일치하지 않습니다".to_string()]
    );
}

#[test]
fn content_links_are_read() {
    assert_eq!(parse_content_link("/kanji/学"), Some(LinkTarget::Kanji("学".to_string())));
    assert_eq!(parse_content_link("/radical/冖"), Some(LinkTarget::Radical("冖".to_string())));
    assert_eq!(parse_content_link("/radicals/冖"), None);
    assert_eq!(parse_content_link("kanji/学"), None);
}
