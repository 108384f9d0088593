use kanji_etymology::cli::{parse_command, Command};

fn args(a: &[&str]) -> Vec<String> {
    a.iter().map(|s| s.to_string()).collect()
}

#[test]
fn defaults_build_content_to_dist() {
    assert_eq!(
        parse_command(&args(&[])),
        Ok(Command::Build { content_dir: "content".to_string(), out_dir: "dist/data".to_string() })
    );
}

#[test]
fn build_directories_can_be_given() {
    assert_eq!(
        parse_command(&args(&["--out-dir", "out", "--content-dir", "c"])),
        Ok(Command::Build { content_dir: "c".to_string(), out_dir: "out".to_string() })
    );
}

#[test]
fn build_argument_errors() {
    assert_eq!(parse_command(&args(&["--out-dir"])), Err("--out-dir 뒤에 경로가 필요합니다".to_string()));
    assert_eq!(
        parse_command(&args(&["--content-dir"])),
        Err("--content-dir 뒤에 경로가 필요합니다".to_string())
    );
    assert_eq!(parse_command(&args(&["--verbose"])), Err("알 수 없는 인자입니다: --verbose".to_string()));
}

#[test]
fn help_anywhere() {
    assert_eq!(parse_command(&args(&["--out-dir", "x", "-h"])), Ok(Command::Help));
    assert_eq!(parse_command(&args(&["import-kanjidic", "--help"])), Ok(Command::ImportHelp));
}

#[test]
fn import_arguments() {
    assert_eq!(
        parse_command(&args(&[
            "import-kanjidic", "--xml", "k.xml", "--chars", "一二", "--out-dir", "drafts", "--skip-existing",
        ])),
        Ok(Command::Import {
            xml: "k.xml".to_string(),
            chars: vec!['一', '二'],
            out_dir: "drafts".to_string(),
            skip_existing: true,
            content_dir: "content".to_string(),
        })
    );
}

#[test]
fn import_argument_errors() {
    assert_eq!(
        parse_command(&args(&["import-kanjidic"])),
        Err("import-kanjidic: --xml 인자가 필요합니다 (KANJIDIC2 XML 경로)".to_string())
    );
    assert_eq!(
        parse_command(&args(&["import-kanjidic", "--xml", "k.xml"])),
        Err("import-kanjidic: --chars 인자가 필요합니다 (예: --chars 一二三)".to_string())
    );
    assert_eq!(
        parse_command(&args(&["import-kanjidic", "--xml", "k.xml", "--chars", "一"])),
        Err("import-kanjidic: --out-dir 인자가 필요합니다".to_string())
    );
    assert_eq!(
        parse_command(&args(&["import-kanjidic", "--xml", "k.xml", "--chars", "", "--out-dir", "d"])),
        Err("import-kanjidic: --chars에 최소 한 글자 이상 지정해야 합니다".to_string())
    );
    assert_eq!(
        parse_command(&args(&["import-kanjidic", "--xml"])),
        Err("--xml 뒤에 값이 필요합니다".to_string())
    );
    assert_eq!(
        parse_command(&args(&["import-kanjidic", "--force"])),
        Err("import-kanjidic: 알 수 없는 인자입니다: --force".to_string())
    );
}
