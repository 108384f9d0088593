use kanji_etymology::kanjidic::{
    event_from_token, parse_wanted, split_kun, tag_of, wanted_from_tokens, KanjidicChar,
    KanjidicError, KanjidicScan, KunPair, Tag, XmlEvent, XmlToken,
};

/// A small KANJIDIC2 excerpt: 一, 二 (whose second stroke count is a miscount)
/// and 三 (with a French meaning among the English ones).
const FIXTURE: &str = r#"<?xml version="1.0" encoding="UTF-8"?>
<!DOCTYPE kanjidic2 [
<!ELEMENT kanjidic2 (header,character*)>
]>
<kanjidic2>
<header>
<file_version>4</file_version>
<database_version>2024-001</database_version>
</header>
<!-- Entry for Kanji: 一 -->
<character>
<literal>一</literal>
<codepoint>
<cp_value cp_type="ucs">4e00</cp_value>
</codepoint>
<radical>
<rad_value rad_type="classical">1</rad_value>
</radical>
<misc>
<grade>1</grade>
<stroke_count>1</stroke_count>
<freq>2</freq>
<jlpt>4</jlpt>
</misc>
<reading_meaning>
<rmgroup>
<reading r_type="pinyin">yi1</reading>
<reading r_type="korean_r">il</reading>
<reading r_type="korean_h">일</reading>
<reading r_type="ja_on">イチ</reading>
<reading r_type="ja_on">イツ</reading>
<reading r_type="ja_kun">ひと.つ</reading>
<meaning>one</meaning>
</rmgroup>
</reading_meaning>
</character>
<!-- Entry for Kanji: 二 -->
<character>
<literal>二</literal>
<misc>
<grade>1</grade>
<stroke_count>2</stroke_count>
<stroke_count>3</stroke_count>
</misc>
<reading_meaning>
<rmgroup>
<reading r_type="korean_h">이</reading>
<reading r_type="ja_on">ニ</reading>
<reading r_type="ja_kun">ふた</reading>
<meaning>two</meaning>
</rmgroup>
</reading_meaning>
</character>
<!-- Entry for Kanji: 三 -->
<character>
<literal>三</literal>
<misc>
<grade>1</grade>
<stroke_count>3</stroke_count>
</misc>
<reading_meaning>
<rmgroup>
<reading r_type="korean_h">삼</reading>
<reading r_type="ja_on">サン</reading>
<meaning>three</meaning>
<meaning m_lang="fr">trois</meaning>
<meaning m_lang="es">tres</meaning>
</rmgroup>
</reading_meaning>
</character>
</kanjidic2>
"#;

fn wanted(chars: &str) -> Vec<char> {
    chars.chars().collect()
}

fn get(parsed: &[KanjidicChar], c: char) -> Option<&KanjidicChar> {
    parsed.iter().find(|k| k.literal == c)
}

#[test]
fn extracts_ichi_fields() {
    let parsed = parse_wanted(FIXTURE, &wanted("一")).unwrap();
    let ichi = get(&parsed, '一').expect("一가 파싱되어야 합니다");

    assert_eq!(ichi.grade, Some(1));
    assert_eq!(ichi.stroke_count, Some(1));
    assert_eq!(ichi.korean_h, vec!["일".to_string()]);
    assert_eq!(ichi.on, vec!["イチ".to_string(), "イツ".to_string()]);
    assert_eq!(
        ichi.kun,
        vec![KunPair { reading: "ひと-つ".to_string(), form: "一つ".to_string() }]
    );
    assert_eq!(ichi.meanings_en, vec!["one".to_string()]);
}

#[test]
fn takes_first_stroke_count_only() {
    let parsed = parse_wanted(FIXTURE, &wanted("二")).unwrap();
    let ni = get(&parsed, '二').unwrap();
    assert_eq!(ni.stroke_count, Some(2));
}

#[test]
fn ignores_non_english_meanings() {
    let parsed = parse_wanted(FIXTURE, &wanted("三")).unwrap();
    let san = get(&parsed, '三').unwrap();
    assert_eq!(san.meanings_en, vec!["three".to_string()]);
}

#[test]
fn only_returns_wanted_characters() {
    let parsed = parse_wanted(FIXTURE, &wanted("一")).unwrap();
    assert_eq!(parsed.len(), 1);
    assert!(get(&parsed, '二').is_none());
}

#[test]
fn missing_character_is_simply_absent() {
    let parsed = parse_wanted(FIXTURE, &wanted("火")).unwrap();
    assert!(parsed.is_empty());
}

#[test]
fn reads_several_wanted_characters() {
    let parsed = parse_wanted(FIXTURE, &wanted("三一")).unwrap();
    assert_eq!(parsed.len(), 2);
    let ni_free: Vec<char> = parsed.iter().map(|k| k.literal).collect();
    assert_eq!(ni_free, vec!['一', '三']);
    assert_eq!(get(&parsed, '三').unwrap().korean_h, vec!["삼".to_string()]);
    assert!(get(&parsed, '三').unwrap().kun.is_empty());
}

#[test]
fn kun_without_okurigana_keeps_headword_form() {
    let parsed = parse_wanted(FIXTURE, &wanted("二")).unwrap();
    assert_eq!(
        get(&parsed, '二').unwrap().kun,
        vec![KunPair { reading: "ふた".to_string(), form: "二".to_string() }]
    );
}

#[test]
fn malformed_xml_is_an_error() {
    let broken = "<kanjidic2><character><literal>一</literal></kanji>";
    match parse_wanted(broken, &wanted("一")) {
        Err(KanjidicError::Xml(detail)) => assert!(!detail.is_empty()),
        other => panic!("expected an XML error, got {other:?}"),
    }
}

#[test]
fn error_message_names_kanjidic() {
    let e = KanjidicError::Xml("bad".to_string());
    assert_eq!(e.message(), "KANJIDIC2 XML 파싱 중 오류가 발생했습니다: bad");
}

#[test]
fn later_duplicate_replaces_earlier_record() {
    let xml = "<kanjidic2><character><literal>一</literal><misc><grade>1</grade></misc></character>\
               <character><literal>一</literal><misc><grade>2</grade></misc></character></kanjidic2>";
    let parsed = parse_wanted(xml, &wanted("一")).unwrap();
    assert_eq!(parsed.len(), 1);
    assert_eq!(parsed[0].grade, Some(2));
}

#[test]
fn out_of_range_grade_is_ignored() {
    let xml = "<kanjidic2><character><literal>一</literal><misc><grade>300</grade></misc></character></kanjidic2>";
    let parsed = parse_wanted(xml, &wanted("一")).unwrap();
    assert_eq!(parsed[0].grade, None);
}

#[test]
fn escaped_text_is_unescaped() {
    let xml = "<kanjidic2><character><literal>一</literal><reading_meaning><rmgroup>\
               <meaning>one &amp; only</meaning></rmgroup></reading_meaning></character></kanjidic2>";
    let parsed = parse_wanted(xml, &wanted("一")).unwrap();
    assert_eq!(parsed[0].meanings_en, vec!["one & only".to_string()]);
}

#[test]
fn split_kun_converts_dot_to_dash() {
    let raw: Vec<char> = "まな.ぶ".chars().collect();
    assert_eq!(
        split_kun('学', &raw),
        KunPair { reading: "まな-ぶ".to_string(), form: "学ぶ".to_string() }
    );
    let plain: Vec<char> = "いし".chars().collect();
    assert_eq!(split_kun('石', &plain), KunPair { reading: "いし".to_string(), form: "石".to_string() });
}

#[test]
fn tag_names_are_classified() {
    assert_eq!(tag_of(&b"character".to_vec()), Tag::Character);
    assert_eq!(tag_of(&b"stroke_count".to_vec()), Tag::StrokeCount);
    assert_eq!(tag_of(&b"meaning".to_vec()), Tag::Meaning);
    assert_eq!(tag_of(&b"jlpt".to_vec()), Tag::Other);
}

#[test]
fn scan_steps_over_events() {
    let wanted = vec!['一'];
    let events = vec![
        XmlEvent::Start { name: b"character".to_vec(), r_type: String::new(), m_lang: None },
        XmlEvent::Start { name: b"literal".to_vec(), r_type: String::new(), m_lang: None },
        XmlEvent::Text("  一 ".to_string()),
        XmlEvent::End { name: b"literal".to_vec() },
        XmlEvent::Start { name: b"reading".to_vec(), r_type: "ja_on".to_string(), m_lang: None },
        XmlEvent::Text("イチ".to_string()),
        XmlEvent::End { name: b"reading".to_vec() },
        XmlEvent::Other,
        XmlEvent::End { name: b"character".to_vec() },
    ];
    let mut scan = KanjidicScan::new();
    for e in &events {
        scan = scan.step(e, &wanted);
    }
    let found = scan.finish();
    assert_eq!(found.len(), 1);
    assert_eq!(found[0].literal, '一');
    assert_eq!(found[0].on, vec!["イチ".to_string()]);
    assert_eq!(kanji_etymology::kanjidic::collect_wanted(&events, &wanted), found);
}

#[test]
fn record_without_literal_is_dropped() {
    let xml = "<kanjidic2><character><misc><grade>1</grade></misc></character></kanjidic2>";
    let parsed = parse_wanted(xml, &vec!['\0']).unwrap();
    assert!(parsed.is_empty());
}

#[test]
fn clone_record_copies_every_field() {
    let parsed = parse_wanted(FIXTURE, &wanted("一")).unwrap();
    assert_eq!(parsed[0].clone_record(), parsed[0]);
}

fn start(content: &str, name_len: usize) -> XmlToken {
    XmlToken::Start { content: content.as_bytes().to_vec(), name_len }
}

#[test]
fn tokens_carry_attributes_to_the_scan() {
    let wanted = vec!['一'];
    let tokens = vec![
        start("character", 9),
        start("literal", 7),
        XmlToken::Text("一".to_string()),
        XmlToken::End { name: b"literal".to_vec() },
        start("reading r_type=\"ja_on\"", 7),
        XmlToken::Text("イチ".to_string()),
        XmlToken::End { name: b"reading".to_vec() },
        start("meaning m_lang=\"fr\"", 7),
        XmlToken::Text("un".to_string()),
        XmlToken::End { name: b"meaning".to_vec() },
        start("meaning", 7),
        XmlToken::Text("one".to_string()),
        XmlToken::End { name: b"meaning".to_vec() },
        XmlToken::Other,
        XmlToken::End { name: b"character".to_vec() },
    ];
    let found = wanted_from_tokens(&tokens, &wanted);
    assert_eq!(found.len(), 1);
    assert_eq!(found[0].literal, '一');
    assert_eq!(found[0].on, vec!["イチ".to_string()]);
    assert_eq!(found[0].meanings_en, vec!["one".to_string()]);
    assert!(wanted_from_tokens(&tokens, &vec!['二']).is_empty());
}

#[test]
fn first_matching_attribute_is_taken() {
    let token = start("reading m_lang='es' r_type=\"ja_kun\" other=\"a &amp; b\"", 7);
    match event_from_token(&token) {
        XmlEvent::Start { name, r_type, m_lang } => {
            assert_eq!(name, b"reading".to_vec());
            assert_eq!(r_type, "ja_kun");
            assert_eq!(m_lang, Some("es".to_string()));
        }
        _ => panic!("expected a start event"),
    }
    match event_from_token(&start("meaning", 7)) {
        XmlEvent::Start { name, r_type, m_lang } => {
            assert_eq!(name, b"meaning".to_vec());
            assert_eq!(r_type, "");
            assert_eq!(m_lang, None);
        }
        _ => panic!("expected a start event"),
    }
    match event_from_token(&start("meaning m_lang=\"a&amp;b\"", 7)) {
        XmlEvent::Start { m_lang, .. } => assert_eq!(m_lang, Some("a&b".to_string())),
        _ => panic!("expected a start event"),
    }
    match event_from_token(&start("grade", 9)) {
        XmlEvent::Start { name, r_type, m_lang } => {
            assert_eq!(name, b"grade".to_vec());
            assert_eq!(r_type, "");
            assert_eq!(m_lang, None);
        }
        _ => panic!("expected a start event"),
    }
}

#[test]
fn reader_passes_attributes_to_the_scan() {
    let xml = "<kanjidic2><character><literal>一</literal><reading_meaning><rmgroup>\
               <reading r_type=\"ja_on\">イチ</reading><meaning m_lang=\"fr\">un</meaning>\
               <meaning>one</meaning></rmgroup></reading_meaning></character></kanjidic2>";
    let parsed = parse_wanted(xml, &wanted("一")).unwrap();
    assert_eq!(parsed[0].on, vec!["イチ".to_string()]);
    assert_eq!(parsed[0].meanings_en, vec!["one".to_string()]);
}
