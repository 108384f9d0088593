use kanji_etymology::import::{
    dedupe_chars, kanji_file_name, plan_import, split_existing, ImportError,
};
use kanji_etymology::kanjidic::KanjidicError;

const XML: &str = "<kanjidic2>\
<character><literal>一</literal><misc><grade>1</grade><stroke_count>1</stroke_count></misc>\
<reading_meaning><rmgroup><reading r_type=\"ja_kun\">ひと.つ</reading><meaning>one</meaning></rmgroup></reading_meaning></character>\
<character><literal>二</literal><misc><stroke_count>2</stroke_count></misc></character>\
<character><literal>三</literal><misc><stroke_count>3</stroke_count></misc></character>\
</kanjidic2>";

#[test]
fn deduplicates_keeping_first_order() {
    assert_eq!(dedupe_chars(&vec!['一', '二', '一']), vec!['一', '二']);
    assert_eq!(dedupe_chars(&vec!['三', '三', '二', '三']), vec!['三', '二']);
    assert!(dedupe_chars(&vec![]).is_empty());
}

#[test]
fn plan_picks_records_in_request_order() {
    let (order, records) = plan_import(XML, &vec!['三', '一', '三']).unwrap();
    assert_eq!(order, vec!['三', '一']);
    assert_eq!(records.len(), 2);
    assert_eq!(records[0].literal, '三');
    assert_eq!(records[0].stroke_count, Some(3));
    assert_eq!(records[1].literal, '一');
    assert_eq!(records[1].meanings_en, vec!["one".to_string()]);
}

#[test]
fn plan_refuses_an_empty_request() {
    assert_eq!(plan_import(XML, &vec![]), Err(ImportError::NoChars));
    assert_eq!(
        ImportError::NoChars.message("kanjidic2.xml"),
        "--chars로 최소 한 글자 이상 지정해야 합니다"
    );
}

#[test]
fn plan_lists_missing_characters() {
    let err = plan_import(XML, &vec!['一', '火', '水', '火']).unwrap_err();
    assert_eq!(err, ImportError::Missing(vec!['火', '水']));
    let message = err.message("kanjidic2.xml");
    assert!(message.contains("찾을 수 없는 글자") && message.contains('火'));
    assert_eq!(message, "kanjidic2.xml: KANJIDIC2에서 찾을 수 없는 글자입니다: 火水");
}

#[test]
fn plan_reports_reader_errors() {
    match plan_import("<kanjidic2></oops>", &vec!['一']) {
        Err(ImportError::Xml(KanjidicError::Xml(detail))) => {
            let m = ImportError::Xml(KanjidicError::Xml(detail.clone())).message("k.xml");
            assert_eq!(
                m,
                format!("k.xml: KANJIDIC2 XML을 파싱하는 데 실패했습니다: KANJIDIC2 XML 파싱 중 오류가 발생했습니다: {detail}")
            );
        }
        other => panic!("expected a reader error, got {other:?}"),
    }
}

#[test]
fn file_names_end_in_md() {
    assert_eq!(kanji_file_name('学'), "学.md");
}

#[test]
fn existing_files_are_skipped_only_when_asked() {
    let order = vec!['一', '二', '三'];
    let existing = vec![true, false, true];
    let s = split_existing(&order, true, &existing);
    assert_eq!(s.written, vec!['二']);
    assert_eq!(s.skipped, vec!['一', '三']);
    let s = split_existing(&order, false, &existing);
    assert_eq!(s.written, order);
    assert!(s.skipped.is_empty());
}

#[test]
fn deduplicates_requested_chars_preserving_order() {
    let (order, _) = plan_import(XML, &vec!['一', '二', '一']).unwrap();
    assert_eq!(order, vec!['一', '二']);
}

#[test]
fn skip_existing_skips_chars_already_in_content_dir() {
    let (order, _) = plan_import(XML, &vec!['一', '二']).unwrap();
    let summary = split_existing(&order, true, &vec![true, false]);
    assert_eq!(summary.written, vec!['二']);
    assert_eq!(summary.skipped, vec!['一']);
}

#[test]
fn missing_character_fails_with_no_files_written() {
    let err = plan_import(XML, &vec!['一', '火']).expect_err("존재하지 않는 글자 요청은 실패해야 합니다");
    let message = err.message("sample.xml");
    assert!(
        message.contains("찾을 수 없는 글자") && message.contains('火'),
        "에러 메시지에 누락된 글자가 포함되어야 합니다: {message}"
    );
}
