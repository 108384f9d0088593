use kanji_etymology::kana::kana_to_romaji;

#[test]
fn converts_plain_hiragana() {
    assert_eq!(kana_to_romaji("まなぶ"), "manabu");
}

#[test]
fn converts_plain_katakana() {
    assert_eq!(kana_to_romaji("ガク"), "gaku");
}

#[test]
fn converts_youon() {
    assert_eq!(kana_to_romaji("きゃく"), "kyaku");
    assert_eq!(kana_to_romaji("キャク"), "kyaku");
}

#[test]
fn converts_sokuon() {
    assert_eq!(kana_to_romaji("がっこう"), "gakkou");
    assert_eq!(kana_to_romaji("マッチ"), "matchi");
}

#[test]
fn converts_choonpu() {
    assert_eq!(kana_to_romaji("コーヒー"), "koohii");
}

#[test]
fn converts_n_before_labial() {
    assert_eq!(kana_to_romaji("しんぶん"), "shimbun");
}

#[test]
fn converts_n_before_vowel_with_apostrophe() {
    assert_eq!(kana_to_romaji("けんい"), "ken'i");
}

#[test]
fn converts_n_at_end() {
    assert_eq!(kana_to_romaji("ほん"), "hon");
}

#[test]
fn non_kana_passes_through() {
    assert_eq!(kana_to_romaji("学ぶ!"), "学bu!");
}

#[test]
fn n_before_y_row_gets_apostrophe() {
    assert_eq!(kana_to_romaji("きんよう"), "kin'you");
}

#[test]
fn long_mark_at_start_adds_nothing() {
    assert_eq!(kana_to_romaji("ーあ"), "a");
}

#[test]
fn sokuon_before_vowel_is_silent() {
    assert_eq!(kana_to_romaji("っあ"), "a");
}

#[test]
fn katakana_and_hiragana_romanize_alike() {
    assert_eq!(kana_to_romaji("キョウト"), kana_to_romaji("きょうと"));
    assert_eq!(kana_to_romaji("ガッコウ"), kana_to_romaji("がっこう"));
}

#[test]
fn text_without_kana_is_unchanged() {
    assert_eq!(kana_to_romaji("abc 漢字 123"), "abc 漢字 123");
}
