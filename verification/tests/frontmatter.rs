use kanji_etymology::frontmatter::{split_frontmatter, FrontmatterError};

#[test]
fn splits_simple_frontmatter() {
    let raw = "---\ncharacter: \"学\"\n---\n# 제목\n본문 내용\n";
    let (yaml, body) = split_frontmatter(raw).unwrap();
    assert_eq!(yaml, "character: \"学\"");
    assert_eq!(body, "# 제목\n본문 내용\n");
}

#[test]
fn handles_crlf_line_endings() {
    let raw = "---\r\ncharacter: \"学\"\r\n---\r\n본문\r\n";
    let (yaml, body) = split_frontmatter(raw).unwrap();
    assert_eq!(yaml, "character: \"学\"");
    assert_eq!(body, "본문\n");
}

#[test]
fn errors_without_opening_delimiter() {
    let raw = "character: \"学\"\n---\n본문\n";
    assert!(split_frontmatter(raw).is_err());
}

#[test]
fn errors_without_closing_delimiter() {
    let raw = "---\ncharacter: \"学\"\n본문만 있음\n";
    assert!(split_frontmatter(raw).is_err());
}

#[test]
fn tolerates_dashes_inside_yaml_values() {
    let raw = "---\nnote: \"a---b\"\ncharacter: \"学\"\n---\n본문\n";
    let (yaml, _) = split_frontmatter(raw).unwrap();
    assert!(yaml.contains("a---b"));
    assert!(yaml.contains("character"));
}

#[test]
fn missing_opening_is_reported_as_such() {
    let err = split_frontmatter("title: x\n---\n").unwrap_err();
    assert_eq!(err, FrontmatterError::MissingOpening);
    assert_eq!(err.message(), "frontmatter 시작 구분자('---')가 파일 첫 줄에 없습니다");
}

#[test]
fn missing_closing_is_reported_as_such() {
    let err = split_frontmatter("---\ntitle: x\n").unwrap_err();
    assert_eq!(err, FrontmatterError::MissingClosing);
    assert_eq!(err.message(), "frontmatter 종료 구분자('---')를 찾을 수 없습니다");
}

#[test]
fn closing_line_must_hold_only_dashes() {
    // "---x" does not close; the later bare "---" does.
    let (yaml, body) = split_frontmatter("---\na: 1\n---x\nb: 2\n---\nbody").unwrap();
    assert_eq!(yaml, "a: 1\n---x\nb: 2");
    assert_eq!(body, "body");
}

#[test]
fn closing_at_end_of_file_gives_empty_body() {
    let (yaml, body) = split_frontmatter("---\na: 1\n---").unwrap();
    assert_eq!(yaml, "a: 1");
    assert_eq!(body, "");
}

#[test]
fn leading_blank_lines_of_body_are_dropped() {
    let (_, body) = split_frontmatter("---\na: 1\n---\n\n\n본문").unwrap();
    assert_eq!(body, "본문");
}
