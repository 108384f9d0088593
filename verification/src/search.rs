//! Search over the search index — every entry route at once: the kanji itself,
//! its Korean sound, a Korean meaning keyword, an on/kun reading in either
//! kana script, or its romaji.
//!
//! Matches are ranked exact, then prefix, then partial; a kanji reached by
//! several routes keeps its best rank, and hits come out ordered by rank and
//! then by kanji. Korean keys and queries are compared after decomposition
//! into jamo, so an unfinished syllable already matches as a prefix.

use vstd::prelude::*;

use crate::kana::{hiragana_seq, is_katakana_letter};
use crate::keyed::{ListMap, StrMap};
use crate::text::{
    char_from_u32, chars_eq, chars_of, contains, seq_contains, seq_starts_with,
    starts_with, string_of, to_lowercase, trim_chars, trim_seq, unicode_lowercase,
};

verus! {

// ── kana conversion ────────────────────────────────────────────────

/// Hiragana letters U+3041..=U+3096, which have a katakana counterpart.
pub open spec fn is_hiragana_letter(c: char) -> bool {
    0x3041 <= c as u32 <= 0x3096
}

/// The katakana for a hiragana letter (0x60 code points higher); any other
/// character is unchanged.
pub open spec fn katakana_char(c: char) -> char {
    if is_hiragana_letter(c) {
        ((c as u32 + 0x60) as u32) as char
    } else {
        c
    }
}

pub open spec fn katakana_seq(s: Seq<char>) -> Seq<char> {
    s.map_values(|c: char| katakana_char(c))
}

/// Katakana (U+30A1..=U+30F6) to hiragana; every other character unchanged.
pub fn to_hiragana(s: &str) -> (r: String)
    ensures
        r@ == hiragana_seq(s@),
{
    let v = chars_of(s);
    let h = hiragana_chars(&v);
    string_of(&h)
}

/// Hiragana (U+3041..=U+3096) to katakana; every other character unchanged.
pub fn to_katakana(s: &str) -> (r: String)
    ensures
        r@ == katakana_seq(s@),
{
    let v = chars_of(s);
    let k = katakana_chars(&v);
    string_of(&k)
}

fn hiragana_chars(s: &Vec<char>) -> (r: Vec<char>)
    ensures
        r@ == hiragana_seq(s@),
{
    let mut r: Vec<char> = Vec::new();
    let mut i: usize = 0;
    while i < s.len()
        invariant
            i <= s.len(),
            r@ == hiragana_seq(s@.take(i as int)),
        decreases s.len() - i,
    {
        let c = s[i];
        let code = c as u32;
        let h = if 0x30A1 <= code && code <= 0x30F6 {
            match char_from_u32(code - 0x60) {
                Some(d) => d,
                None => c,
            }
        } else {
            c
        };
        r.push(h);
        i += 1;
        assert(s@.take(i as int) == s@.take((i - 1) as int).push(c));
    }
    assert(s@.take(s.len() as int) == s@);
    r
}

fn katakana_chars(s: &Vec<char>) -> (r: Vec<char>)
    ensures
        r@ == katakana_seq(s@),
{
    let mut r: Vec<char> = Vec::new();
    let mut i: usize = 0;
    while i < s.len()
        invariant
            i <= s.len(),
            r@ == katakana_seq(s@.take(i as int)),
        decreases s.len() - i,
    {
        let c = s[i];
        let code = c as u32;
        let k = if 0x3041 <= code && code <= 0x3096 {
            match char_from_u32(code + 0x60) {
                Some(d) => d,
                None => c,
            }
        } else {
            c
        };
        r.push(k);
        i += 1;
        assert(s@.take(i as int) == s@.take((i - 1) as int).push(c));
    }
    assert(s@.take(s.len() as int) == s@);
    r
}


/// Converting to katakana and back gives the text again when it holds no
/// katakana letter; converting to hiragana and back gives it again when it
/// holds no hiragana letter.
pub proof fn lemma_kana_round_trip(s: Seq<char>)
    ensures
        (forall|i: int| 0 <= i < s.len() ==> !is_katakana_letter(#[trigger] s[i])) ==> hiragana_seq(
            katakana_seq(s),
        ) == s,
        (forall|i: int| 0 <= i < s.len() ==> !is_hiragana_letter(#[trigger] s[i])) ==> katakana_seq(
            hiragana_seq(s),
        ) == s,
{
    if forall|i: int| 0 <= i < s.len() ==> !is_katakana_letter(#[trigger] s[i]) {
        assert forall|i: int| 0 <= i < s.len() implies #[trigger] hiragana_seq(katakana_seq(s))[i]
            == s[i] by {
            let c = s[i];
            if is_hiragana_letter(c) {
                let n = (c as u32 + 0x60) as u32;
                assert(n == c as u32 + 0x60);
                let k = n as char;
                assert(k as u32 == n);
                assert(is_katakana_letter(k));
                let m = (k as u32 - 0x60) as u32;
                assert(m == c as u32);
                vstd::utf8::char_u32_cast(c, m);
            }
        }
        assert(hiragana_seq(katakana_seq(s)) =~= s);
    }
    if forall|i: int| 0 <= i < s.len() ==> !is_hiragana_letter(#[trigger] s[i]) {
        assert forall|i: int| 0 <= i < s.len() implies #[trigger] katakana_seq(hiragana_seq(s))[i]
            == s[i] by {
            let c = s[i];
            if is_katakana_letter(c) {
                let n = (c as u32 - 0x60) as u32;
                assert(n == c as u32 - 0x60);
                let h = n as char;
                assert(h as u32 == n);
                assert(is_hiragana_letter(h));
                let m = (h as u32 + 0x60) as u32;
                assert(m == c as u32);
                vstd::utf8::char_u32_cast(c, m);
            }
        }
        assert(katakana_seq(hiragana_seq(s)) =~= s);
    }
}

// ── Korean jamo decomposition ──────────────────────────────────────

/// Precomposed Hangul syllables U+AC00..=U+D7A3.
pub open spec fn is_hangul_syllable(c: char) -> bool {
    0xAC00 <= c as u32 <= 0xD7A3
}

/// The 19 initial consonants, in Unicode order.
pub open spec fn choseong(i: u32) -> char {
    match i {
        0 => 'ㄱ',
        1 => 'ㄲ',
        2 => 'ㄴ',
        3 => 'ㄷ',
        4 => 'ㄸ',
        5 => 'ㄹ',
        6 => 'ㅁ',
        7 => 'ㅂ',
        8 => 'ㅃ',
        9 => 'ㅅ',
        10 => 'ㅆ',
        11 => 'ㅇ',
        12 => 'ㅈ',
        13 => 'ㅉ',
        14 => 'ㅊ',
        15 => 'ㅋ',
        16 => 'ㅌ',
        17 => 'ㅍ',
        18 => 'ㅎ',
        _ => 'ㅎ',
    }
}

/// The 21 medial vowels, compound vowels written as their parts.
pub open spec fn jungseong(i: u32) -> Seq<char> {
    match i {
        0 => seq!['ㅏ'],
        1 => seq!['ㅐ'],
        2 => seq!['ㅑ'],
        3 => seq!['ㅒ'],
        4 => seq!['ㅓ'],
        5 => seq!['ㅔ'],
        6 => seq!['ㅕ'],
        7 => seq!['ㅖ'],
        8 => seq!['ㅗ'],
        9 => seq!['ㅗ', 'ㅏ'],
        10 => seq!['ㅗ', 'ㅐ'],
        11 => seq!['ㅗ', 'ㅣ'],
        12 => seq!['ㅛ'],
        13 => seq!['ㅜ'],
        14 => seq!['ㅜ', 'ㅓ'],
        15 => seq!['ㅜ', 'ㅔ'],
        16 => seq!['ㅜ', 'ㅣ'],
        17 => seq!['ㅠ'],
        18 => seq!['ㅡ'],
        19 => seq!['ㅡ', 'ㅣ'],
        20 => seq!['ㅣ'],
        _ => seq!['ㅣ'],
    }
}

/// The 28 finals (the first is "no final"), compound finals written as their parts.
pub open spec fn jongseong(i: u32) -> Seq<char> {
    match i {
        0 => seq![],
        1 => seq!['ㄱ'],
        2 => seq!['ㄲ'],
        3 => seq!['ㄱ', 'ㅅ'],
        4 => seq!['ㄴ'],
        5 => seq!['ㄴ', 'ㅈ'],
        6 => seq!['ㄴ', 'ㅎ'],
        7 => seq!['ㄷ'],
        8 => seq!['ㄹ'],
        9 => seq!['ㄹ', 'ㄱ'],
        10 => seq!['ㄹ', 'ㅁ'],
        11 => seq!['ㄹ', 'ㅂ'],
        12 => seq!['ㄹ', 'ㅅ'],
        13 => seq!['ㄹ', 'ㅌ'],
        14 => seq!['ㄹ', 'ㅍ'],
        15 => seq!['ㄹ', 'ㅎ'],
        16 => seq!['ㅁ'],
        17 => seq!['ㅂ'],
        18 => seq!['ㅂ', 'ㅅ'],
        19 => seq!['ㅅ'],
        20 => seq!['ㅆ'],
        21 => seq!['ㅇ'],
        22 => seq!['ㅈ'],
        23 => seq!['ㅊ'],
        24 => seq!['ㅋ'],
        25 => seq!['ㅌ'],
        26 => seq!['ㅍ'],
        27 => seq!['ㅎ'],
        _ => seq!['ㅎ'],
    }
}

/// A compound compatibility jamo written as its parts.
pub open spec fn compat_jamo_parts(c: char) -> Option<Seq<char>> {
    match c {
        'ㅘ' => Some(seq!['ㅗ', 'ㅏ']),
        'ㅙ' => Some(seq!['ㅗ', 'ㅐ']),
        'ㅚ' => Some(seq!['ㅗ', 'ㅣ']),
        'ㅝ' => Some(seq!['ㅜ', 'ㅓ']),
        'ㅞ' => Some(seq!['ㅜ', 'ㅔ']),
        'ㅟ' => Some(seq!['ㅜ', 'ㅣ']),
        'ㅢ' => Some(seq!['ㅡ', 'ㅣ']),
        'ㄳ' => Some(seq!['ㄱ', 'ㅅ']),
        'ㄵ' => Some(seq!['ㄴ', 'ㅈ']),
        'ㄶ' => Some(seq!['ㄴ', 'ㅎ']),
        'ㄺ' => Some(seq!['ㄹ', 'ㄱ']),
        'ㄻ' => Some(seq!['ㄹ', 'ㅁ']),
        'ㄼ' => Some(seq!['ㄹ', 'ㅂ']),
        'ㄽ' => Some(seq!['ㄹ', 'ㅅ']),
        'ㄾ' => Some(seq!['ㄹ', 'ㅌ']),
        'ㄿ' => Some(seq!['ㄹ', 'ㅍ']),
        'ㅀ' => Some(seq!['ㄹ', 'ㅎ']),
        'ㅄ' => Some(seq!['ㅂ', 'ㅅ']),
        _ => None,
    }
}

/// The jamo that one character decomposes into: a syllable into its initial,
/// medial and final; a compound jamo into its parts; anything else unchanged.
pub open spec fn jamo_of_char(c: char) -> Seq<char> {
    if is_hangul_syllable(c) {
        let idx = (c as u32 - 0xAC00) as u32;
        seq![choseong(idx / 588)] + jungseong((idx % 588) / 28) + jongseong(idx % 28)
    } else {
        match compat_jamo_parts(c) {
            Some(parts) => parts,
            None => seq![c],
        }
    }
}

pub open spec fn jamo_seq(s: Seq<char>) -> Seq<char>
    decreases s.len(),
{
    if s.len() == 0 {
        Seq::empty()
    } else {
        jamo_seq(s.drop_last()) + jamo_of_char(s.last())
    }
}

fn choseong_exec(i: u32) -> (c: char)
    requires
        i < 19,
    ensures
        c == choseong(i),
{
    match i {
        0 => 'ㄱ',
        1 => 'ㄲ',
        2 => 'ㄴ',
        3 => 'ㄷ',
        4 => 'ㄸ',
        5 => 'ㄹ',
        6 => 'ㅁ',
        7 => 'ㅂ',
        8 => 'ㅃ',
        9 => 'ㅅ',
        10 => 'ㅆ',
        11 => 'ㅇ',
        12 => 'ㅈ',
        13 => 'ㅉ',
        14 => 'ㅊ',
        15 => 'ㅋ',
        16 => 'ㅌ',
        17 => 'ㅍ',
        18 => 'ㅎ',
        _ => 'ㅎ',
    }
}

fn jungseong_exec(i: u32) -> (v: Vec<char>)
    requires
        i < 21,
    ensures
        v@ == jungseong(i),
{
    match i {
        0 => vec!['ㅏ'],
        1 => vec!['ㅐ'],
        2 => vec!['ㅑ'],
        3 => vec!['ㅒ'],
        4 => vec!['ㅓ'],
        5 => vec!['ㅔ'],
        6 => vec!['ㅕ'],
        7 => vec!['ㅖ'],
        8 => vec!['ㅗ'],
        9 => vec!['ㅗ', 'ㅏ'],
        10 => vec!['ㅗ', 'ㅐ'],
        11 => vec!['ㅗ', 'ㅣ'],
        12 => vec!['ㅛ'],
        13 => vec!['ㅜ'],
        14 => vec!['ㅜ', 'ㅓ'],
        15 => vec!['ㅜ', 'ㅔ'],
        16 => vec!['ㅜ', 'ㅣ'],
        17 => vec!['ㅠ'],
        18 => vec!['ㅡ'],
        19 => vec!['ㅡ', 'ㅣ'],
        20 => vec!['ㅣ'],
        _ => vec!['ㅣ'],
    }
}

fn jongseong_exec(i: u32) -> (v: Vec<char>)
    requires
        i < 28,
    ensures
        v@ == jongseong(i),
{
    match i {
        0 => Vec::new(),
        1 => vec!['ㄱ'],
        2 => vec!['ㄲ'],
        3 => vec!['ㄱ', 'ㅅ'],
        4 => vec!['ㄴ'],
        5 => vec!['ㄴ', 'ㅈ'],
        6 => vec!['ㄴ', 'ㅎ'],
        7 => vec!['ㄷ'],
        8 => vec!['ㄹ'],
        9 => vec!['ㄹ', 'ㄱ'],
        10 => vec!['ㄹ', 'ㅁ'],
        11 => vec!['ㄹ', 'ㅂ'],
        12 => vec!['ㄹ', 'ㅅ'],
        13 => vec!['ㄹ', 'ㅌ'],
        14 => vec!['ㄹ', 'ㅍ'],
        15 => vec!['ㄹ', 'ㅎ'],
        16 => vec!['ㅁ'],
        17 => vec!['ㅂ'],
        18 => vec!['ㅂ', 'ㅅ'],
        19 => vec!['ㅅ'],
        20 => vec!['ㅆ'],
        21 => vec!['ㅇ'],
        22 => vec!['ㅈ'],
        23 => vec!['ㅊ'],
        24 => vec!['ㅋ'],
        25 => vec!['ㅌ'],
        26 => vec!['ㅍ'],
        27 => vec!['ㅎ'],
        _ => vec!['ㅎ'],
    }
}

/// A compound compatibility jamo expanded into its parts; `None` for anything else.
fn expand_compat_jamo(c: char) -> (r: Option<Vec<char>>)
    ensures
        match r {
            Some(v) => compat_jamo_parts(c) == Some(v@),
            None => compat_jamo_parts(c) is None,
        },
{
    match c {
        'ㅘ' => Some(vec!['ㅗ', 'ㅏ']),
        'ㅙ' => Some(vec!['ㅗ', 'ㅐ']),
        'ㅚ' => Some(vec!['ㅗ', 'ㅣ']),
        'ㅝ' => Some(vec!['ㅜ', 'ㅓ']),
        'ㅞ' => Some(vec!['ㅜ', 'ㅔ']),
        'ㅟ' => Some(vec!['ㅜ', 'ㅣ']),
        'ㅢ' => Some(vec!['ㅡ', 'ㅣ']),
        'ㄳ' => Some(vec!['ㄱ', 'ㅅ']),
        'ㄵ' => Some(vec!['ㄴ', 'ㅈ']),
        'ㄶ' => Some(vec!['ㄴ', 'ㅎ']),
        'ㄺ' => Some(vec!['ㄹ', 'ㄱ']),
        'ㄻ' => Some(vec!['ㄹ', 'ㅁ']),
        'ㄼ' => Some(vec!['ㄹ', 'ㅂ']),
        'ㄽ' => Some(vec!['ㄹ', 'ㅅ']),
        'ㄾ' => Some(vec!['ㄹ', 'ㅌ']),
        'ㄿ' => Some(vec!['ㄹ', 'ㅍ']),
        'ㅀ' => Some(vec!['ㄹ', 'ㅎ']),
        'ㅄ' => Some(vec!['ㅂ', 'ㅅ']),
        _ => None,
    }
}

fn append_chars(out: &mut Vec<char>, piece: &Vec<char>)
    ensures
        final(out)@ == old(out)@ + piece@,
{
    let mut i: usize = 0;
    while i < piece.len()
        invariant
            i <= piece.len(),
            out@ == old(out)@ + piece@.take(i as int),
        decreases piece.len() - i,
    {
        out.push(piece[i]);
        i += 1;
        assert(piece@.take(i as int) == piece@.take((i - 1) as int).push(piece@[i - 1]));
    }
    assert(piece@.take(piece.len() as int) == piece@);
}

fn jamo_chars(s: &Vec<char>) -> (out: Vec<char>)
    ensures
        out@ == jamo_seq(s@),
{
    let mut out: Vec<char> = Vec::new();
    let mut i: usize = 0;
    while i < s.len()
        invariant
            i <= s.len(),
            out@ == jamo_seq(s@.take(i as int)),
        decreases s.len() - i,
    {
        let ch = s[i];
        let code = ch as u32;
        let ghost before = out@;
        if 0xAC00 <= code && code <= 0xD7A3 {
            let idx = code - 0xAC00;
            out.push(choseong_exec(idx / 588));
            let jung = jungseong_exec((idx % 588) / 28);
            append_chars(&mut out, &jung);
            let jong = jongseong_exec(idx % 28);
            append_chars(&mut out, &jong);
        } else {
            match expand_compat_jamo(ch) {
                Some(parts) => append_chars(&mut out, &parts),
                None => out.push(ch),
            }
        }
        assert(out@ == before + jamo_of_char(ch));
        i += 1;
        assert(s@.take(i as int).drop_last() == s@.take((i - 1) as int));
    }
    assert(s@.take(s.len() as int) == s@);
    out
}

/// Decomposes the Hangul in `s` into compatibility jamo (initial, medial,
/// final); characters that are not Hangul pass through. "학" gives "ㅎㅏㄱ".
pub fn decompose_jamo(s: &str) -> (r: String)
    ensures
        r@ == jamo_seq(s@),
{
    let v = chars_of(s);
    let j = jamo_chars(&v);
    string_of(&j)
}


// ── ranking ────────────────────────────────────────────────────────

/// How well a key matched a query; earlier variants are better.
#[derive(Debug, Clone, Copy, PartialEq, Eq, Structural, PartialOrd, Ord, Hash)]
pub enum MatchRank {
    /// The key equals the query.
    Exact,
    /// The key starts with the query.
    Prefix,
    /// The key contains the query elsewhere.
    Partial,
}

/// Position of a rank in the priority order (lower is better).
pub open spec fn rank_value(r: MatchRank) -> int {
    match r {
        MatchRank::Exact => 0,
        MatchRank::Prefix => 1,
        MatchRank::Partial => 2,
    }
}

fn rank_value_exec(r: MatchRank) -> (v: u8)
    ensures
        v == rank_value(r),
{
    match r {
        MatchRank::Exact => 0,
        MatchRank::Prefix => 1,
        MatchRank::Partial => 2,
    }
}

/// The rank a normalised key earns against a normalised, non-empty query.
pub open spec fn rank_of_spec(key: Seq<char>, query: Seq<char>) -> Option<MatchRank> {
    if query.len() == 0 {
        None
    } else if key == query {
        Some(MatchRank::Exact)
    } else if seq_starts_with(key, query) {
        Some(MatchRank::Prefix)
    } else if seq_contains(key, query) {
        Some(MatchRank::Partial)
    } else {
        None
    }
}

fn rank_of(key: &Vec<char>, query: &Vec<char>) -> (r: Option<MatchRank>)
    ensures
        r == rank_of_spec(key@, query@),
{
    if query.len() == 0 {
        None
    } else if chars_eq(key, query) {
        Some(MatchRank::Exact)
    } else if starts_with(key, query) {
        Some(MatchRank::Prefix)
    } else if contains(key, query) {
        Some(MatchRank::Partial)
    } else {
        None
    }
}

/// How the keys of one index map are compared with the query.
#[derive(Clone, Copy, PartialEq, Eq, Structural)]
pub enum KeyForm {
    /// Keys are decomposed into jamo first (Korean sounds and meanings).
    Jamo,
    /// Keys are compared as they are (kana readings).
    Plain,
    /// Keys are compared as they are, and only an exact or prefix match counts (romaji).
    WholeOrPrefix,
}

/// The rank that `key` earns, compared in form `form` with the (already
/// normalised) query `q`.
pub open spec fn key_rank(form: KeyForm, key: Seq<char>, q: Seq<char>) -> Option<MatchRank> {
    match form {
        KeyForm::Jamo => rank_of_spec(jamo_seq(key), q),
        KeyForm::Plain => rank_of_spec(key, q),
        KeyForm::WholeOrPrefix => match rank_of_spec(key, q) {
            Some(MatchRank::Partial) => None,
            other => other,
        },
    }
}

/// Some key of `m` lists kanji `k` and earns rank `r` against `q`.
pub open spec fn list_reaches(
    m: Map<Seq<char>, Seq<Seq<char>>>,
    form: KeyForm,
    q: Seq<char>,
    k: Seq<char>,
    r: MatchRank,
) -> bool {
    exists|key: Seq<char>| #[trigger]
        m.dom().contains(key) && m[key].contains(k) && key_rank(form, key, q) == Some(r)
}

pub open spec fn is_ascii_alphabetic(c: char) -> bool {
    ('a' <= c && c <= 'z') || ('A' <= c && c <= 'Z')
}

/// Romaji is looked up only when the lower-cased query is non-empty ASCII letters.
pub open spec fn romaji_query(q: Seq<char>) -> bool {
    let low = unicode_lowercase(q);
    low.len() > 0 && forall|i: int| 0 <= i < low.len() ==> is_ascii_alphabetic(#[trigger] low[i])
}

/// A single-character string.
pub open spec fn single(c: char) -> Seq<char> {
    seq![c]
}

/// The search index read by the web app: kanji registry plus one map per entry route.
pub struct SearchIndex {
    /// Kanji → kanji (registration lookup).
    pub by_kanji: StrMap,
    /// Korean sound ("학") → kanji.
    pub by_kr_sound: ListMap,
    /// Korean meaning keyword ("배우다") → kanji.
    pub by_meaning: ListMap,
    /// On reading in katakana ("ガク") → kanji.
    pub by_on: ListMap,
    /// Kun reading in hiragana ("まなぶ") → kanji.
    pub by_kun: ListMap,
    /// Hepburn romaji ("gaku") → kanji.
    pub by_romaji: ListMap,
}

impl SearchIndex {
    /// The rank kanji `k` gets from typing the kanji itself: exact when the whole
    /// query is a registered kanji; otherwise, for a query of several characters,
    /// partial for each of its characters that is registered.
    pub open spec fn kanji_route(&self, q: Seq<char>, k: Seq<char>) -> Option<MatchRank> {
        if self.by_kanji@.dom().contains(q) {
            if k == q {
                Some(MatchRank::Exact)
            } else {
                None
            }
        } else if q.len() > 1 && k.len() == 1 && q.contains(k[0]) && self.by_kanji@.dom().contains(
            k,
        ) {
            Some(MatchRank::Partial)
        } else {
            None
        }
    }

    /// Some entry route gives kanji `k` rank `r` for the trimmed query `q`.
    pub open spec fn reaches(&self, q: Seq<char>, k: Seq<char>, r: MatchRank) -> bool {
        ||| self.kanji_route(q, k) == Some(r)
        ||| list_reaches(self.by_kr_sound@, KeyForm::Jamo, jamo_seq(q), k, r)
        ||| list_reaches(self.by_meaning@, KeyForm::Jamo, jamo_seq(q), k, r)
        ||| list_reaches(self.by_on@, KeyForm::Plain, katakana_seq(q), k, r)
        ||| list_reaches(self.by_kun@, KeyForm::Plain, hiragana_seq(q), k, r)
        ||| romaji_query(q) && list_reaches(
            self.by_romaji@,
            KeyForm::WholeOrPrefix,
            unicode_lowercase(q),
            k,
            r,
        )
    }

    /// The best rank that kanji `k` reaches for the trimmed query `q`, if any.
    pub open spec fn best_rank(&self, q: Seq<char>, k: Seq<char>) -> Option<MatchRank> {
        if self.reaches(q, k, MatchRank::Exact) {
            Some(MatchRank::Exact)
        } else if self.reaches(q, k, MatchRank::Prefix) {
            Some(MatchRank::Prefix)
        } else if self.reaches(q, k, MatchRank::Partial) {
            Some(MatchRank::Partial)
        } else {
            None
        }
    }

    /// An index with every map empty.
    pub fn new() -> (idx: SearchIndex)
        ensures
            idx.by_kanji@ == Map::<Seq<char>, Seq<char>>::empty(),
            idx.by_kr_sound@ == Map::<Seq<char>, Seq<Seq<char>>>::empty(),
            idx.by_meaning@ == Map::<Seq<char>, Seq<Seq<char>>>::empty(),
            idx.by_on@ == Map::<Seq<char>, Seq<Seq<char>>>::empty(),
            idx.by_kun@ == Map::<Seq<char>, Seq<Seq<char>>>::empty(),
            idx.by_romaji@ == Map::<Seq<char>, Seq<Seq<char>>>::empty(),
    {
        SearchIndex {
            by_kanji: StrMap::new(),
            by_kr_sound: ListMap::new(),
            by_meaning: ListMap::new(),
            by_on: ListMap::new(),
            by_kun: ListMap::new(),
            by_romaji: ListMap::new(),
        }
    }
}

impl Default for SearchIndex {
    fn default() -> (idx: SearchIndex)
        ensures
            idx.by_kanji@ == Map::<Seq<char>, Seq<char>>::empty(),
            idx.by_kr_sound@ == Map::<Seq<char>, Seq<Seq<char>>>::empty(),
            idx.by_meaning@ == Map::<Seq<char>, Seq<Seq<char>>>::empty(),
            idx.by_on@ == Map::<Seq<char>, Seq<Seq<char>>>::empty(),
            idx.by_kun@ == Map::<Seq<char>, Seq<Seq<char>>>::empty(),
            idx.by_romaji@ == Map::<Seq<char>, Seq<Seq<char>>>::empty(),
    {
        SearchIndex::new()
    }
}

/// One search result: a kanji and the best rank it reached.
#[derive(Debug, Clone, PartialEq)]
pub struct SearchHit {
    pub kanji: String,
    pub rank: MatchRank,
}

/// Some note in `notes` records kanji `k` with rank `r`.
pub open spec fn noted(notes: Seq<SearchHit>, k: Seq<char>, r: MatchRank) -> bool {
    exists|i: int| 0 <= i < notes.len() && #[trigger] notes[i].kanji@ == k && notes[i].rank == r
}

/// Records, in `notes`, every kanji that a key of `map` lists together with the
/// rank that key earns against `q` (compared in form `form`).
fn match_map(map: &ListMap, form: KeyForm, q: &Vec<char>, notes: &mut Vec<SearchHit>)
    ensures
        final(notes)@.len() >= old(notes)@.len(),
        forall|i: int| 0 <= i < old(notes)@.len() ==> final(notes)@[i] == old(notes)@[i],
        forall|i: int|
            old(notes)@.len() <= i < final(notes)@.len() ==> list_reaches(
                map@,
                form,
                q@,
                #[trigger] final(notes)@[i].kanji@,
                final(notes)@[i].rank,
            ),
        forall|key: Seq<char>, k: Seq<char>, r: MatchRank|
            #![trigger map@[key].contains(k), key_rank(form, key, q@), noted(final(notes)@, k, r)]
            map@.dom().contains(key) && map@[key].contains(k) && key_rank(form, key, q@) == Some(r)
                ==> noted(final(notes)@, k, r),
{
    let n = map.len();
    let mut i: usize = 0;
    while i < n
        invariant
            i <= n,
            n == map.pairs().len(),
            map.well_indexed(),
            notes@.len() >= old(notes)@.len(),
            forall|j: int| 0 <= j < old(notes)@.len() ==> notes@[j] == old(notes)@[j],
            forall|j: int|
                old(notes)@.len() <= j < notes@.len() ==> list_reaches(
                    map@,
                    form,
                    q@,
                    #[trigger] notes@[j].kanji@,
                    notes@[j].rank,
                ),
            forall|e: int, k: Seq<char>, r: MatchRank|
                #![trigger map.pairs()[e].1.contains(k), noted(notes@, k, r)]
                0 <= e < i && map.pairs()[e].1.contains(k) && key_rank(form, map.pairs()[e].0, q@)
                    == Some(r) ==> noted(notes@, k, r),
        decreases n - i,
    {
        let key = chars_of(map.key_at(i).as_str());
        let values = map.values_at(i);
        let rank = match form {
            KeyForm::Jamo => {
                let jamo = jamo_chars(&key);
                rank_of(&jamo, q)
            },
            KeyForm::Plain => rank_of(&key, q),
            KeyForm::WholeOrPrefix => match rank_of(&key, q) {
                Some(MatchRank::Partial) => None,
                other => other,
            },
        };
        assert(rank == key_rank(form, map.pairs()[i as int].0, q@));
        match rank {
            Some(r) => {
                let ghost start = notes@.len();
                let mut j: usize = 0;
                while j < values.len()
                    invariant
                        j <= values.len(),
                        i < n,
                        n == map.pairs().len(),
                        map.well_indexed(),
                        values.deep_view() == map.pairs()[i as int].1,
                        Some(r) == key_rank(form, map.pairs()[i as int].0, q@),
                        notes@.len() == start + j,
                        start >= old(notes)@.len(),
                        forall|t: int| 0 <= t < old(notes)@.len() ==> notes@[t] == old(notes)@[t],
                        forall|t: int|
                            old(notes)@.len() <= t < notes@.len() ==> list_reaches(
                                map@,
                                form,
                                q@,
                                #[trigger] notes@[t].kanji@,
                                notes@[t].rank,
                            ),
                        forall|e: int, k: Seq<char>, rr: MatchRank|
                            #![trigger map.pairs()[e].1.contains(k), noted(notes@, k, rr)]
                            0 <= e < i && map.pairs()[e].1.contains(k) && key_rank(
                                form,
                                map.pairs()[e].0,
                                q@,
                            ) == Some(rr) ==> noted(notes@, k, rr),
                        forall|t: int| 0 <= t < j ==> noted(notes@, #[trigger] map.pairs()[i as int].1[t], r),
                    decreases values.len() - j,
                {
                    let ghost before = notes@;
                    let kanji = values[j].clone();
                    proof {
                        let key_v = map.pairs()[i as int].0;
                        assert(map@[key_v] == map.pairs()[i as int].1);
                        assert(map@.dom().contains(key_v));
                        assert(values.deep_view()[j as int] == values@[j as int]@);
                        assert(map@[key_v].contains(kanji@));
                    }
                    notes.push(SearchHit { kanji, rank: r });
                    proof {
                        assert(notes@[before.len() as int].kanji@ == map.pairs()[i as int].1[j as int]);
                        assert forall|e: int, k: Seq<char>, rr: MatchRank|
                            #![trigger map.pairs()[e].1.contains(k), noted(notes@, k, rr)]
                            0 <= e < i && map.pairs()[e].1.contains(k) && key_rank(
                                form,
                                map.pairs()[e].0,
                                q@,
                            ) == Some(rr) implies noted(notes@, k, rr) by {
                            assert(noted(before, k, rr));
                            let w = choose|w: int| 0 <= w < before.len() && #[trigger] before[w].kanji@ == k && before[w].rank == rr;
                            assert(notes@[w] == before[w]);
                        }
                        assert forall|t: int| 0 <= t < j + 1 implies noted(notes@, #[trigger] map.pairs()[i as int].1[t], r) by {
                            if t < j {
                                assert(noted(before, map.pairs()[i as int].1[t], r));
                                let w = choose|w: int| 0 <= w < before.len() && #[trigger] before[w].kanji@ == map.pairs()[i as int].1[t] && before[w].rank == r;
                                assert(notes@[w] == before[w]);
                            } else {
                                assert(notes@[before.len() as int].kanji@ == map.pairs()[i as int].1[t]);
                            }
                        }
                    }
                    j += 1;
                }
                proof {
                    assert forall|k: Seq<char>, rr: MatchRank|
                        #![trigger map.pairs()[i as int].1.contains(k), noted(notes@, k, rr)]
                        map.pairs()[i as int].1.contains(k) && key_rank(form, map.pairs()[i as int].0, q@) == Some(rr)
                        implies noted(notes@, k, rr) by {
                        let t = choose|t: int| 0 <= t < map.pairs()[i as int].1.len() && map.pairs()[i as int].1[t] == k;
                        assert(noted(notes@, map.pairs()[i as int].1[t], r));
                    }
                }
            },
            None => {},
        }
        i += 1;
    }
    proof {
        assert forall|key: Seq<char>, k: Seq<char>, r: MatchRank|
            #![trigger map@[key].contains(k), key_rank(form, key, q@), noted(notes@, k, r)]
            map@.dom().contains(key) && map@[key].contains(k) && key_rank(form, key, q@) == Some(r)
            implies noted(notes@, k, r) by {
            let e = choose|e: int| 0 <= e < map.pairs().len() && #[trigger] map.pairs()[e].0 == key;
            assert(map@[map.pairs()[e].0] == map.pairs()[e].1);
            assert(map.pairs()[e].1.contains(k));
        }
    }
}


// ── ordering of hits ───────────────────────────────────────────────

/// Lexicographic order on strings by code point (the order of `String`'s `Ord`,
/// since UTF-8 preserves code-point order).
pub open spec fn seq_lt(a: Seq<char>, b: Seq<char>) -> bool
    decreases a.len(),
{
    if a.len() == 0 {
        b.len() > 0
    } else if b.len() == 0 {
        false
    } else if a[0] < b[0] {
        true
    } else if a[0] == b[0] {
        seq_lt(a.drop_first(), b.drop_first())
    } else {
        false
    }
}

/// No string comes before itself in code-point order.
pub proof fn lemma_seq_lt_irreflexive(a: Seq<char>)
    ensures
        !seq_lt(a, a),
    decreases a.len(),
{
    if a.len() > 0 {
        lemma_seq_lt_irreflexive(a.drop_first());
    }
}

/// Code-point order is transitive.
pub proof fn lemma_seq_lt_transitive(a: Seq<char>, b: Seq<char>, c: Seq<char>)
    requires
        seq_lt(a, b),
        seq_lt(b, c),
    ensures
        seq_lt(a, c),
    decreases a.len(),
{
    if a.len() > 0 && b.len() > 0 && c.len() > 0 {
        if a[0] == b[0] && b[0] == c[0] {
            lemma_seq_lt_transitive(a.drop_first(), b.drop_first(), c.drop_first());
        }
    }
}

/// Of two different strings, one comes before the other in code-point order.
pub proof fn lemma_seq_lt_total(a: Seq<char>, b: Seq<char>)
    requires
        a != b,
    ensures
        seq_lt(a, b) || seq_lt(b, a),
    decreases a.len(),
{
    if a.len() > 0 && b.len() > 0 && a[0] == b[0] {
        if a.drop_first() == b.drop_first() {
            assert(a == seq![a[0]] + a.drop_first());
            assert(b == seq![b[0]] + b.drop_first());
        }
        lemma_seq_lt_total(a.drop_first(), b.drop_first());
    } else if a.len() > 0 && b.len() > 0 {

    } else if a.len() == 0 && b.len() == 0 {
        assert(a == b);
    }
}

pub(crate) fn seq_lt_exec(a: &Vec<char>, b: &Vec<char>) -> (r: bool)
    ensures
        r == seq_lt(a@, b@),
{
    let mut i: usize = 0;
    assert(a@.skip(0) == a@ && b@.skip(0) == b@);
    while i < a.len() && i < b.len() && a[i] == b[i]
        invariant
            i <= a.len(),
            i <= b.len(),
            seq_lt(a@, b@) == seq_lt(a@.skip(i as int), b@.skip(i as int)),
        decreases a.len() - i,
    {
        proof {
            let sa = a@.skip(i as int);
            let sb = b@.skip(i as int);
            assert(sa[0] == sb[0]);
            assert(sa.drop_first() == a@.skip(i + 1));
            assert(sb.drop_first() == b@.skip(i + 1));
        }
        i += 1;
    }
    let sa = Ghost(a@.skip(i as int));
    let sb = Ghost(b@.skip(i as int));
    if i == a.len() {
        i < b.len()
    } else if i == b.len() {
        false
    } else {
        assert(sa@[0] == a@[i as int] && sb@[0] == b@[i as int]);
        a[i] < b[i]
    }
}

/// Hit order: better rank first, then kanji in code-point order.
pub open spec fn hit_lt(a: SearchHit, b: SearchHit) -> bool {
    rank_value(a.rank) < rank_value(b.rank) || (rank_value(a.rank) == rank_value(b.rank)
        && seq_lt(a.kanji@, b.kanji@))
}

proof fn lemma_hit_lt_transitive(a: SearchHit, b: SearchHit, c: SearchHit)
    requires
        hit_lt(a, b),
        hit_lt(b, c),
    ensures
        hit_lt(a, c),
{
    if rank_value(a.rank) == rank_value(b.rank) && rank_value(b.rank) == rank_value(c.rank) {
        lemma_seq_lt_transitive(a.kanji@, b.kanji@, c.kanji@);
    }
}

proof fn lemma_hit_lt_total(a: SearchHit, b: SearchHit)
    requires
        a.kanji@ != b.kanji@,
    ensures
        hit_lt(a, b) || hit_lt(b, a),
{
    lemma_seq_lt_total(a.kanji@, b.kanji@);
}

fn hit_lt_exec(a: &SearchHit, b: &SearchHit) -> (r: bool)
    ensures
        r == hit_lt(*a, *b),
{
    let ra = rank_value_exec(a.rank);
    let rb = rank_value_exec(b.rank);
    if ra < rb {
        true
    } else if ra > rb {
        false
    } else {
        let ka = chars_of(a.kanji.as_str());
        let kb = chars_of(b.kanji.as_str());
        seq_lt_exec(&ka, &kb)
    }
}

/// No two hits share a kanji.
pub open spec fn distinct_kanji(hits: Seq<SearchHit>) -> bool {
    forall|i: int, j: int|
        0 <= i < j < hits.len() ==> #[trigger] hits[i].kanji@ != #[trigger] hits[j].kanji@
}

/// Hits strictly ascending in hit order.
pub open spec fn sorted_hits(hits: Seq<SearchHit>) -> bool {
    forall|i: int, j: int| 0 <= i < j < hits.len() ==> hit_lt(#[trigger] hits[i], #[trigger] hits[j])
}

/// Inserts `h` (whose kanji is not yet present) into the sorted `sorted`.
fn insert_sorted(sorted: &mut Vec<SearchHit>, h: SearchHit)
    requires
        sorted_hits(old(sorted)@),
        forall|i: int| 0 <= i < old(sorted)@.len() ==> #[trigger] old(sorted)@[i].kanji@ != h.kanji@,
    ensures
        sorted_hits(final(sorted)@),
        final(sorted)@.len() == old(sorted)@.len() + 1,
        forall|x: SearchHit| #[trigger] final(sorted)@.contains(x) <==> (old(sorted)@.contains(x) || x == h),
{
    let mut p: usize = 0;
    while p < sorted.len() && hit_lt_exec(&sorted[p], &h)
        invariant
            p <= sorted@.len(),
            forall|i: int| 0 <= i < p ==> hit_lt(#[trigger] sorted@[i], h),
        decreases sorted@.len() - p,
    {
        p += 1;
    }
    proof {
        if p < sorted@.len() {
            lemma_hit_lt_total(sorted@[p as int], h);
        }
    }
    let ghost old_s = sorted@;
    sorted.insert(p, h);
    proof {
        assert forall|i: int, j: int| 0 <= i < j < sorted@.len() implies hit_lt(#[trigger] sorted@[i], #[trigger] sorted@[j]) by {
            if j < p {
                assert(sorted@[i] == old_s[i] && sorted@[j] == old_s[j]);
            } else if j == p {
                assert(sorted@[i] == old_s[i]);
            } else if i > p {
                assert(sorted@[i] == old_s[i - 1] && sorted@[j] == old_s[j - 1]);
            } else if i == p {
                assert(sorted@[j] == old_s[j - 1]);
                if j - 1 > p {
                    lemma_hit_lt_transitive(h, old_s[p as int], old_s[j - 1]);
                }
            } else {
                assert(sorted@[i] == old_s[i] && sorted@[j] == old_s[j - 1]);
            }
        }
        assert forall|x: SearchHit| #[trigger] sorted@.contains(x) <==> (old_s.contains(x) || x == h) by {
            if sorted@.contains(x) {
                let i = choose|i: int| 0 <= i < sorted@.len() && sorted@[i] == x;
                if i < p {
                    assert(old_s[i] == x);
                } else if i > p {
                    assert(old_s[i - 1] == x);
                }
            }
            if old_s.contains(x) {
                let i = choose|i: int| 0 <= i < old_s.len() && old_s[i] == x;
                if i < p {
                    assert(sorted@[i] == x);
                } else {
                    assert(sorted@[i + 1] == x);
                }
            }
            if x == h {
                assert(sorted@[p as int] == h);
            }
        }
    }
}


// ── merging and the search itself ──────────────────────────────────

/// The better of two ranks.
pub open spec fn better_rank(a: MatchRank, b: MatchRank) -> MatchRank {
    if rank_value(b) < rank_value(a) {
        b
    } else {
        a
    }
}

/// Records rank `rank` for `kanji` in `best`, keeping an already better rank.
fn note(best: &mut Vec<SearchHit>, kanji: &String, rank: MatchRank)
    requires
        distinct_kanji(old(best)@),
    ensures
        (exists|t: int| 0 <= t < old(best)@.len() && #[trigger] old(best)@[t].kanji@ == kanji@)
            ==> final(best)@.len() == old(best)@.len(),
        !(exists|t: int| 0 <= t < old(best)@.len() && #[trigger] old(best)@[t].kanji@ == kanji@)
            ==> final(best)@.len() == old(best)@.len() + 1 && final(best)@.last().kanji@ == kanji@
            && final(best)@.last().rank == rank,
        forall|t: int|
            0 <= t < old(best)@.len() && old(best)@[t].kanji@ != kanji@ ==> #[trigger] final(best)@[t]
                == old(best)@[t],
        forall|t: int|
            0 <= t < old(best)@.len() && old(best)@[t].kanji@ == kanji@ ==> #[trigger] final(best)@[t].kanji@
                == kanji@ && final(best)@[t].rank == better_rank(old(best)@[t].rank, rank),
{
    let mut t: usize = 0;
    while t < best.len()
        invariant
            t <= best@.len(),
            best@ == old(best)@,
            distinct_kanji(old(best)@),
            forall|u: int| 0 <= u < t ==> #[trigger] best@[u].kanji@ != kanji@,
        decreases best@.len() - t,
    {
        if best[t].kanji == *kanji {
            proof {
                assert forall|t2: int| 0 <= t2 < best@.len() && #[trigger] best@[t2].kanji@ == kanji@ implies t2 == t by {
                    if t2 < t {
                        assert(best@[t2].kanji@ != best@[t as int].kanji@);
                    } else if t2 > t {
                        assert(best@[t as int].kanji@ != best@[t2].kanji@);
                    }
                }
            }
            if rank_value_exec(rank) < rank_value_exec(best[t].rank) {
                let k = best[t].kanji.clone();
                best.set(t, SearchHit { kanji: k, rank });
            }
            return;
        }
        t += 1;
    }
    best.push(SearchHit { kanji: kanji.clone(), rank });
}

/// Searches all six maps of `index` for `query` (trimmed first). Each kanji
/// reached appears once, with the best rank any route gave it, and the hits
/// are ordered by rank (exact, prefix, partial) and then by kanji. A query that
/// is empty after trimming finds nothing.
pub fn search(index: &SearchIndex, query: &str) -> (hits: Vec<SearchHit>)
    ensures
        trim_seq(query@).len() == 0 ==> hits@.len() == 0,
        trim_seq(query@).len() > 0 ==> {
            &&& forall|i: int|
                0 <= i < hits@.len() ==> index.best_rank(trim_seq(query@), #[trigger] hits@[i].kanji@)
                    == Some(hits@[i].rank)
            &&& forall|k: Seq<char>|
                #[trigger] index.best_rank(trim_seq(query@), k) is Some ==> exists|i: int|
                    0 <= i < hits@.len() && #[trigger] hits@[i].kanji@ == k
        },
        distinct_kanji(hits@),
        sorted_hits(hits@),
        trim_seq(query@).len() > 0 ==> routes_listed(*index, trim_seq(query@), hits@),
        better_ranks_first(hits@),
{
    let raw = chars_of(query);
    let q = trim_chars(&raw);
    let ghost gq = q@;
    if q.len() == 0 {
        return Vec::new();
    }
    let mut notes: Vec<SearchHit> = Vec::new();

    // 1) The kanji itself: exact; several characters pasted at once: each
    //    registered one as partial.
    let q_str = string_of(&q);
    if index.by_kanji.contains_key(q_str.as_str()) {
        notes.push(SearchHit { kanji: q_str.clone(), rank: MatchRank::Exact });
    } else if q.len() > 1 {
        let mut i: usize = 0;
        while i < q.len()
            invariant
                i <= q@.len(),
                q@ == gq,
                gq.len() > 1,
                !index.by_kanji@.dom().contains(gq),
                forall|t: int|
                    0 <= t < notes@.len() ==> index.kanji_route(gq, #[trigger] notes@[t].kanji@)
                        == Some(notes@[t].rank),
                forall|t: int|
                    0 <= t < i && index.by_kanji@.dom().contains(single(#[trigger] gq[t]))
                        ==> noted(notes@, single(gq[t]), MatchRank::Partial),
            decreases q@.len() - i,
        {
            let mut one: Vec<char> = Vec::new();
            one.push(q[i]);
            let s = string_of(&one);
            let ghost before = notes@;
            if index.by_kanji.contains_key(s.as_str()) {
                proof {
                    assert(one@ == single(gq[i as int]));
                    assert(gq.contains(gq[i as int]));
                    assert(single(gq[i as int])[0] == gq[i as int]);
                }
                notes.push(SearchHit { kanji: s, rank: MatchRank::Partial });
                proof {
                    assert(notes@[before.len() as int].kanji@ == single(gq[i as int]));
                }
            }
            proof {
                assert forall|t: int|
                    0 <= t < i + 1 && index.by_kanji@.dom().contains(single(#[trigger] gq[t]))
                    implies noted(notes@, single(gq[t]), MatchRank::Partial) by {
                    if t < i {
                        let w = choose|w: int| 0 <= w < before.len() && #[trigger] before[w].kanji@ == single(gq[t]) && before[w].rank == MatchRank::Partial;
                        assert(notes@[w] == before[w]);
                    } else {
                        assert(notes@[before.len() as int].kanji@ == single(gq[t]));
                    }
                }
            }
            i += 1;
        }
    }
    let ghost n1 = notes@;

    // 2) Korean sound and 3) Korean meaning, compared in jamo.
    let q_jamo = jamo_chars(&q);
    match_map(&index.by_kr_sound, KeyForm::Jamo, &q_jamo, &mut notes);
    let ghost n2 = notes@;
    match_map(&index.by_meaning, KeyForm::Jamo, &q_jamo, &mut notes);
    let ghost n3 = notes@;

    // 4) On readings (katakana keys) and 5) kun readings (hiragana keys): the
    //    query is converted to each script, so either script finds both.
    let q_kata = katakana_chars(&q);
    match_map(&index.by_on, KeyForm::Plain, &q_kata, &mut notes);
    let ghost n4 = notes@;
    let q_hira = hiragana_chars(&q);
    match_map(&index.by_kun, KeyForm::Plain, &q_hira, &mut notes);
    let ghost n5 = notes@;

    // 6) Romaji: lower-cased, exact or prefix only (partial matches are noise).
    let lower_s = to_lowercase(q_str.as_str());
    let lower = chars_of(lower_s.as_str());
    let mut all_alpha = lower.len() > 0;
    let mut i: usize = 0;
    while i < lower.len()
        invariant
            i <= lower@.len(),
            all_alpha == (lower@.len() > 0 && forall|t: int|
                0 <= t < i ==> is_ascii_alphabetic(#[trigger] lower@[t])),
        decreases lower@.len() - i,
    {
        let c = lower[i];
        if !(('a' <= c && c <= 'z') || ('A' <= c && c <= 'Z')) {
            all_alpha = false;
        }
        i += 1;
    }
    assert(all_alpha == romaji_query(gq));
    if all_alpha {
        match_map(&index.by_romaji, KeyForm::WholeOrPrefix, &lower, &mut notes);
    }
    let ghost n6 = notes@;

    proof {
        // Every note is a route that reaches its kanji with its rank.
        assert forall|t: int| 0 <= t < n6.len() implies index.reaches(gq, #[trigger] n6[t].kanji@, n6[t].rank) by {
            if t < n1.len() {
                assert(n6[t] == n1[t]);
            } else if t < n2.len() {
                assert(n6[t] == n2[t]);
            } else if t < n3.len() {
                assert(n6[t] == n3[t]);
            } else if t < n4.len() {
                assert(n6[t] == n4[t]);
            } else if t < n5.len() {
                assert(n6[t] == n5[t]);
            }
        }
        // Every route that reaches a kanji is noted.
        assert forall|k: Seq<char>, r: MatchRank| #[trigger] index.reaches(gq, k, r) implies noted(n6, k, r) by {
            lemma_noted_grows(n1, n6, k, r);
            lemma_noted_grows(n2, n6, k, r);
            lemma_noted_grows(n3, n6, k, r);
            lemma_noted_grows(n4, n6, k, r);
            lemma_noted_grows(n5, n6, k, r);
            if index.kanji_route(gq, k) == Some(r) {
                if index.by_kanji@.dom().contains(gq) {
                    assert(n1[0].kanji@ == gq);
                } else {
                    let t = choose|t: int| 0 <= t < gq.len() && gq[t] == k[0];
                    assert(k == single(gq[t]));
                }
            }
            if list_reaches(index.by_kr_sound@, KeyForm::Jamo, jamo_seq(gq), k, r) {
                let key = choose|key: Seq<char>| #[trigger] index.by_kr_sound@.dom().contains(key) && index.by_kr_sound@[key].contains(k) && key_rank(KeyForm::Jamo, key, jamo_seq(gq)) == Some(r);
                assert(noted(n2, k, r));
            }
            if list_reaches(index.by_meaning@, KeyForm::Jamo, jamo_seq(gq), k, r) {
                let key = choose|key: Seq<char>| #[trigger] index.by_meaning@.dom().contains(key) && index.by_meaning@[key].contains(k) && key_rank(KeyForm::Jamo, key, jamo_seq(gq)) == Some(r);
                assert(noted(n3, k, r));
            }
            if list_reaches(index.by_on@, KeyForm::Plain, katakana_seq(gq), k, r) {
                let key = choose|key: Seq<char>| #[trigger] index.by_on@.dom().contains(key) && index.by_on@[key].contains(k) && key_rank(KeyForm::Plain, key, katakana_seq(gq)) == Some(r);
                assert(noted(n4, k, r));
            }
            if list_reaches(index.by_kun@, KeyForm::Plain, hiragana_seq(gq), k, r) {
                let key = choose|key: Seq<char>| #[trigger] index.by_kun@.dom().contains(key) && index.by_kun@[key].contains(k) && key_rank(KeyForm::Plain, key, hiragana_seq(gq)) == Some(r);
                assert(noted(n5, k, r));
            }
            if romaji_query(gq) && list_reaches(index.by_romaji@, KeyForm::WholeOrPrefix, unicode_lowercase(gq), k, r) {
                let key = choose|key: Seq<char>| #[trigger] index.by_romaji@.dom().contains(key) && index.by_romaji@[key].contains(k) && key_rank(KeyForm::WholeOrPrefix, key, unicode_lowercase(gq)) == Some(r);
                assert(noted(n6, k, r));
            }
        }
    }

    // Merge: one entry per kanji, with its best rank.
    let mut best: Vec<SearchHit> = Vec::new();
    let mut j: usize = 0;
    while j < notes.len()
        invariant
            j <= notes@.len(),
            notes@ == n6,
            distinct_kanji(best@),
            forall|t: int|
                0 <= t < best@.len() ==> noted(notes@.take(j as int), #[trigger] best@[t].kanji@, best@[t].rank),
            forall|u: int, t: int|
                0 <= u < j && 0 <= t < best@.len() && #[trigger] notes@[u].kanji@ == #[trigger] best@[t].kanji@
                    ==> rank_value(best@[t].rank) <= rank_value(notes@[u].rank),
            forall|u: int|
                0 <= u < j ==> exists|t: int| 0 <= t < best@.len() && #[trigger] best@[t].kanji@ == #[trigger] notes@[u].kanji@,
        decreases notes@.len() - j,
    {
        let ghost old_best = best@;
        note(&mut best, &notes[j].kanji, notes[j].rank);
        proof {
            let nj = notes@[j as int];
            assert(notes@.take(j + 1) == notes@.take(j as int).push(nj));
            assert forall|t: int| 0 <= t < best@.len() implies noted(notes@.take(j + 1), #[trigger] best@[t].kanji@, best@[t].rank) by {
                if t < old_best.len() {
                    if old_best[t].kanji@ != nj.kanji@ {
                        let w = choose|w: int| 0 <= w < notes@.take(j as int).len() && #[trigger] notes@.take(j as int)[w].kanji@ == old_best[t].kanji@ && notes@.take(j as int)[w].rank == old_best[t].rank;
                        assert(notes@.take(j + 1)[w] == notes@.take(j as int)[w]);
                    } else if rank_value(nj.rank) < rank_value(old_best[t].rank) {
                        assert(notes@.take(j + 1)[j as int] == nj);
                    } else {
                        let w = choose|w: int| 0 <= w < notes@.take(j as int).len() && #[trigger] notes@.take(j as int)[w].kanji@ == old_best[t].kanji@ && notes@.take(j as int)[w].rank == old_best[t].rank;
                        assert(notes@.take(j + 1)[w] == notes@.take(j as int)[w]);
                    }
                } else {
                    assert(notes@.take(j + 1)[j as int] == nj);
                }
            }
            assert forall|a: int, b: int| 0 <= a < b < best@.len() implies #[trigger] best@[a].kanji@ != #[trigger] best@[b].kanji@ by {
                if b >= old_best.len() {
                    assert(old_best[a].kanji@ != nj.kanji@);
                }
            }
            assert forall|u: int, t: int|
                0 <= u < j + 1 && 0 <= t < best@.len() && #[trigger] notes@[u].kanji@ == #[trigger] best@[t].kanji@
                implies rank_value(best@[t].rank) <= rank_value(notes@[u].rank) by {
                if t < old_best.len() {
                    if u < j {
                        assert(notes@[u].kanji@ == old_best[t].kanji@);
                    }
                } else {
                    if u < j {
                        let t2 = choose|t2: int| 0 <= t2 < old_best.len() && #[trigger] old_best[t2].kanji@ == notes@[u].kanji@;
                        assert(old_best[t2].kanji@ == nj.kanji@);
                    }
                }
            }
            assert forall|u: int| 0 <= u < j + 1 implies exists|t: int| 0 <= t < best@.len() && #[trigger] best@[t].kanji@ == #[trigger] notes@[u].kanji@ by {
                if u < j {
                    let t = choose|t: int| 0 <= t < old_best.len() && #[trigger] old_best[t].kanji@ == notes@[u].kanji@;
                    assert(best@[t].kanji@ == notes@[u].kanji@);
                } else {
                    if exists|t: int| 0 <= t < old_best.len() && #[trigger] old_best[t].kanji@ == nj.kanji@ {
                        let t = choose|t: int| 0 <= t < old_best.len() && #[trigger] old_best[t].kanji@ == nj.kanji@;
                        assert(best@[t].kanji@ == nj.kanji@);
                    } else {
                        assert(best@[best@.len() - 1].kanji@ == nj.kanji@);
                    }
                }
            }
        }
        j += 1;
    }
    assert(notes@.take(notes@.len() as int) == notes@);

    proof {
        assert forall|t: int| 0 <= t < best@.len() implies index.best_rank(gq, #[trigger] best@[t].kanji@) == Some(best@[t].rank) by {
            let k = best@[t].kanji@;
            let w = choose|w: int| 0 <= w < n6.len() && #[trigger] n6[w].kanji@ == k && n6[w].rank == best@[t].rank;
            assert(index.reaches(gq, k, best@[t].rank));
            if index.reaches(gq, k, MatchRank::Exact) {
                let v = choose|v: int| 0 <= v < n6.len() && #[trigger] n6[v].kanji@ == k && n6[v].rank == MatchRank::Exact;
                assert(rank_value(best@[t].rank) <= rank_value(n6[v].rank));
            } else if index.reaches(gq, k, MatchRank::Prefix) {
                let v = choose|v: int| 0 <= v < n6.len() && #[trigger] n6[v].kanji@ == k && n6[v].rank == MatchRank::Prefix;
                assert(rank_value(best@[t].rank) <= rank_value(n6[v].rank));
            }
        }
        assert forall|k: Seq<char>| #[trigger] index.best_rank(gq, k) is Some implies exists|i: int|
            0 <= i < best@.len() && #[trigger] best@[i].kanji@ == k by {
            let r = index.best_rank(gq, k).unwrap();
            assert(index.reaches(gq, k, r));
            let v = choose|v: int| 0 <= v < n6.len() && #[trigger] n6[v].kanji@ == k && n6[v].rank == r;
            let t = choose|t: int| 0 <= t < best@.len() && #[trigger] best@[t].kanji@ == #[trigger] n6[v].kanji@;
        }
    }

    // Order: by rank, then by kanji.
    let mut hits: Vec<SearchHit> = Vec::new();
    let mut m: usize = 0;
    while m < best.len()
        invariant
            m <= best@.len(),
            distinct_kanji(best@),
            sorted_hits(hits@),
            hits@.len() == m,
            forall|x: SearchHit| #[trigger] hits@.contains(x) <==> best@.take(m as int).contains(x),
        decreases best@.len() - m,
    {
        let ghost old_hits = hits@;
        let h = SearchHit { kanji: best[m].kanji.clone(), rank: best[m].rank };
        proof {
            assert forall|i: int| 0 <= i < hits@.len() implies #[trigger] hits@[i].kanji@ != h.kanji@ by {
                assert(hits@.contains(hits@[i]));
                let bt0 = best@.take(m as int);
                let v = choose|v: int| 0 <= v < bt0.len() && bt0[v] == hits@[i];
                assert(best@[v].kanji@ != best@[m as int].kanji@);
            }
        }
        insert_sorted(&mut hits, h);
        proof {
            let bt1 = best@.take(m + 1);
            let bt0 = best@.take(m as int);
            assert(bt1 == bt0.push(best@[m as int]));
            assert(h == best@[m as int]);
            assert forall|x: SearchHit| #[trigger] hits@.contains(x) <==> bt1.contains(x) by {
                assert(old_hits.contains(x) <==> bt0.contains(x));
                if x == best@[m as int] {
                    assert(bt1[m as int] == x);
                }
                if bt1.contains(x) {
                    let v = choose|v: int| 0 <= v < bt1.len() && bt1[v] == x;
                    if v < m {
                        assert(bt0[v] == x);
                    }
                }
                if bt0.contains(x) {
                    let v = choose|v: int| 0 <= v < bt0.len() && bt0[v] == x;
                    assert(bt1[v] == x);
                }
            }
        }
        m += 1;
    }
    proof {
        assert(best@.take(best@.len() as int) == best@);
        assert forall|i: int, j2: int| 0 <= i < j2 < hits@.len() implies #[trigger] hits@[i].kanji@ != #[trigger] hits@[j2].kanji@ by {
            assert(hit_lt(hits@[i], hits@[j2]));
            if hits@[i].kanji@ == hits@[j2].kanji@ {
                lemma_seq_lt_irreflexive(hits@[i].kanji@);
                assert(hits@.contains(hits@[i]) && hits@.contains(hits@[j2]));
                let a = choose|a: int| 0 <= a < best@.len() && best@[a] == hits@[i];
                let b = choose|b: int| 0 <= b < best@.len() && best@[b] == hits@[j2];
                if a != b {
                    if a < b {
                        assert(best@[a].kanji@ != best@[b].kanji@);
                    } else {
                        assert(best@[b].kanji@ != best@[a].kanji@);
                    }
                }
            }
        }
        assert forall|i: int| 0 <= i < hits@.len() implies index.best_rank(gq, #[trigger] hits@[i].kanji@) == Some(hits@[i].rank) by {
            assert(hits@.contains(hits@[i]));
            let a = choose|a: int| 0 <= a < best@.len() && best@[a] == hits@[i];
        }
        assert forall|k: Seq<char>| #[trigger] index.best_rank(gq, k) is Some implies exists|i: int|
            0 <= i < hits@.len() && #[trigger] hits@[i].kanji@ == k by {
            let t = choose|t: int| 0 <= t < best@.len() && #[trigger] best@[t].kanji@ == k;
            assert(best@.contains(best@[t]));
            assert(hits@.contains(best@[t]));
            let i = choose|i: int| 0 <= i < hits@.len() && hits@[i] == best@[t];
        }
        lemma_routes_listed(*index, gq, hits@);
        lemma_better_ranks_first(hits@);
    }
    hits
}

/// What the routes promise for the trimmed query `tq`: a registered kanji
/// typed whole is listed exact; a kanji listed under a key is listed when the
/// key, in the route's form, contains the query in the same form (the Korean
/// sound and meaning in jamo, the on reading in katakana, the kun reading in
/// hiragana), ranked exact or prefix when the key starts with it and exact when
/// the two are equal; a romaji key counts only when it starts with the
/// lower-cased query.
pub open spec fn routes_listed(index: SearchIndex, tq: Seq<char>, hits: Seq<SearchHit>) -> bool {
            &&& index.by_kanji@.dom().contains(tq) ==> listed_exact(hits, tq)
            &&& forall|key: Seq<char>, k: Seq<char>|
                #![trigger index.by_kr_sound@[key].contains(k)]
                index.by_kr_sound@.dom().contains(key) && index.by_kr_sound@[key].contains(k)
                    && (seq_starts_with(jamo_seq(key), jamo_seq(tq)) || seq_contains(jamo_seq(key), jamo_seq(tq)))
                    ==> listed(hits, k, seq_starts_with(jamo_seq(key), jamo_seq(tq))) && (jamo_seq(key) == jamo_seq(tq)
                        ==> listed_exact(hits, k))
            &&& forall|key: Seq<char>, k: Seq<char>|
                #![trigger index.by_meaning@[key].contains(k)]
                index.by_meaning@.dom().contains(key) && index.by_meaning@[key].contains(k)
                    && (seq_starts_with(jamo_seq(key), jamo_seq(tq)) || seq_contains(jamo_seq(key), jamo_seq(tq)))
                    ==> listed(hits, k, seq_starts_with(jamo_seq(key), jamo_seq(tq))) && (jamo_seq(key) == jamo_seq(tq)
                        ==> listed_exact(hits, k))
            &&& forall|key: Seq<char>, k: Seq<char>|
                #![trigger index.by_on@[key].contains(k)]
                index.by_on@.dom().contains(key) && index.by_on@[key].contains(k)
                    && (seq_starts_with(key, katakana_seq(tq)) || seq_contains(key, katakana_seq(tq)))
                    ==> listed(hits, k, seq_starts_with(key, katakana_seq(tq))) && (key == katakana_seq(tq)
                        ==> listed_exact(hits, k))
            &&& forall|key: Seq<char>, k: Seq<char>|
                #![trigger index.by_kun@[key].contains(k)]
                index.by_kun@.dom().contains(key) && index.by_kun@[key].contains(k)
                    && (seq_starts_with(key, hiragana_seq(tq)) || seq_contains(key, hiragana_seq(tq)))
                    ==> listed(hits, k, seq_starts_with(key, hiragana_seq(tq))) && (key == hiragana_seq(tq)
                        ==> listed_exact(hits, k))
            &&& forall|key: Seq<char>, k: Seq<char>|
                #![trigger index.by_romaji@[key].contains(k)]
                index.by_romaji@.dom().contains(key) && index.by_romaji@[key].contains(k)
                    && romaji_query(tq) && seq_starts_with(key, unicode_lowercase(tq))
                    ==> listed(hits, k, true) && (key == unicode_lowercase(tq) ==> listed_exact(hits, k))
        }

/// The hits that search's contract allows keep the promises of the routes.
pub proof fn lemma_routes_listed(index: SearchIndex, gq: Seq<char>, hits: Seq<SearchHit>)
    requires
        gq.len() > 0,
        forall|i: int|
            0 <= i < hits.len() ==> index.best_rank(gq, #[trigger] hits[i].kanji@) == Some(hits[i].rank),
        forall|k: Seq<char>|
            #[trigger] index.best_rank(gq, k) is Some ==> exists|i: int|
                0 <= i < hits.len() && #[trigger] hits[i].kanji@ == k,
    ensures
        routes_listed(index, gq, hits),
{
    lemma_jamo_len(gq);
    assert forall|k: Seq<char>, r: MatchRank| #[trigger] index.reaches(gq, k, r) implies listed(
        hits,
        k,
        r != MatchRank::Partial,
    ) by {
        assert(index.best_rank(gq, k) is Some);
        let i = choose|i: int| 0 <= i < hits.len() && #[trigger] hits[i].kanji@ == k;
        assert(index.best_rank(gq, hits[i].kanji@) == Some(hits[i].rank));
    }
    assert forall|k: Seq<char>| #[trigger] index.reaches(gq, k, MatchRank::Exact) implies listed_exact(
        hits,
        k,
    ) by {
        let i = choose|i: int| 0 <= i < hits.len() && #[trigger] hits[i].kanji@ == k;
        assert(index.best_rank(gq, hits[i].kanji@) == Some(hits[i].rank));
    }
    if index.by_kanji@.dom().contains(gq) {
        assert(index.reaches(gq, gq, MatchRank::Exact));
    }
    assert forall|key: Seq<char>, k: Seq<char>|
        index.by_kr_sound@.dom().contains(key) && #[trigger] index.by_kr_sound@[key].contains(k)
            && (seq_starts_with(jamo_seq(key), jamo_seq(gq)) || seq_contains(jamo_seq(key), jamo_seq(gq)))
        implies listed(hits, k, seq_starts_with(jamo_seq(key), jamo_seq(gq))) && (jamo_seq(key)
            == jamo_seq(gq) ==> listed_exact(hits, k)) by {
        lemma_rank_found(jamo_seq(key), jamo_seq(gq));
        let r = rank_of_spec(jamo_seq(key), jamo_seq(gq))->0;
        assert(key_rank(KeyForm::Jamo, key, jamo_seq(gq)) == Some(r));
        assert(index.reaches(gq, k, r));
    }
    assert forall|key: Seq<char>, k: Seq<char>|
        index.by_meaning@.dom().contains(key) && #[trigger] index.by_meaning@[key].contains(k)
            && (seq_starts_with(jamo_seq(key), jamo_seq(gq)) || seq_contains(jamo_seq(key), jamo_seq(gq)))
        implies listed(hits, k, seq_starts_with(jamo_seq(key), jamo_seq(gq))) && (jamo_seq(key)
            == jamo_seq(gq) ==> listed_exact(hits, k)) by {
        lemma_rank_found(jamo_seq(key), jamo_seq(gq));
        let r = rank_of_spec(jamo_seq(key), jamo_seq(gq))->0;
        assert(key_rank(KeyForm::Jamo, key, jamo_seq(gq)) == Some(r));
        assert(index.reaches(gq, k, r));
    }
    assert forall|key: Seq<char>, k: Seq<char>|
        index.by_on@.dom().contains(key) && #[trigger] index.by_on@[key].contains(k)
            && (seq_starts_with(key, katakana_seq(gq)) || seq_contains(key, katakana_seq(gq)))
        implies listed(hits, k, seq_starts_with(key, katakana_seq(gq))) && (key == katakana_seq(gq)
            ==> listed_exact(hits, k)) by {
        lemma_rank_found(key, katakana_seq(gq));
        let r = rank_of_spec(key, katakana_seq(gq))->0;
        assert(key_rank(KeyForm::Plain, key, katakana_seq(gq)) == Some(r));
        assert(index.reaches(gq, k, r));
    }
    assert forall|key: Seq<char>, k: Seq<char>|
        index.by_kun@.dom().contains(key) && #[trigger] index.by_kun@[key].contains(k)
            && (seq_starts_with(key, hiragana_seq(gq)) || seq_contains(key, hiragana_seq(gq)))
        implies listed(hits, k, seq_starts_with(key, hiragana_seq(gq))) && (key == hiragana_seq(gq)
            ==> listed_exact(hits, k)) by {
        lemma_rank_found(key, hiragana_seq(gq));
        let r = rank_of_spec(key, hiragana_seq(gq))->0;
        assert(key_rank(KeyForm::Plain, key, hiragana_seq(gq)) == Some(r));
        assert(index.reaches(gq, k, r));
    }
    assert forall|key: Seq<char>, k: Seq<char>|
        index.by_romaji@.dom().contains(key) && #[trigger] index.by_romaji@[key].contains(k)
            && romaji_query(gq) && seq_starts_with(key, unicode_lowercase(gq))
        implies listed(hits, k, true) && (key == unicode_lowercase(gq) ==> listed_exact(hits, k)) by {
        lemma_rank_found(key, unicode_lowercase(gq));
        let r = rank_of_spec(key, unicode_lowercase(gq))->0;
        assert(key_rank(KeyForm::WholeOrPrefix, key, unicode_lowercase(gq)) == Some(r));
        assert(index.reaches(gq, k, r));
    }
}

/// Korean sounds are compared in jamo, so an unfinished syllable is a prefix:
/// a kanji listed under a Korean sound whose jamo start with the jamo of the
/// query reaches the query exact or prefix.
pub proof fn lemma_kr_sound_jamo_prefix(index: SearchIndex, q: Seq<char>, key: Seq<char>, k: Seq<char>)
    requires
        q.len() > 0,
        index.by_kr_sound@.dom().contains(key),
        index.by_kr_sound@[key].contains(k),
        seq_starts_with(jamo_seq(key), jamo_seq(q)),
    ensures
        index.best_rank(q, k) == Some(MatchRank::Exact) || index.best_rank(q, k) == Some(
            MatchRank::Prefix,
        ),
{
    lemma_jamo_len(q);
    lemma_rank_found(jamo_seq(key), jamo_seq(q));
    let r = rank_of_spec(jamo_seq(key), jamo_seq(q))->0;
    assert(key_rank(KeyForm::Jamo, key, jamo_seq(q)) == Some(r));
    assert(index.reaches(q, k, r));
}

/// Exact matches come before prefix matches, which come before partial ones.
pub open spec fn better_ranks_first(hits: Seq<SearchHit>) -> bool {
    forall|i: int, j: int|
        0 <= i < j < hits.len() ==> (#[trigger] hits[j].rank == MatchRank::Exact ==> #[trigger] hits[i].rank
            == MatchRank::Exact) && (hits[j].rank == MatchRank::Prefix ==> hits[i].rank
            != MatchRank::Partial)
}

/// Hits in hit order list better ranks first.
pub proof fn lemma_better_ranks_first(hits: Seq<SearchHit>)
    requires
        sorted_hits(hits),
    ensures
        better_ranks_first(hits),
{
    assert forall|i: int, j: int| 0 <= i < j < hits.len() implies (#[trigger] hits[j].rank
        == MatchRank::Exact ==> #[trigger] hits[i].rank == MatchRank::Exact) && (hits[j].rank
        == MatchRank::Prefix ==> hits[i].rank != MatchRank::Partial) by {
        assert(hit_lt(hits[i], hits[j]));
    }
}

/// `k` is among `hits`, ranked exact.
pub open spec fn listed_exact(hits: Seq<SearchHit>, k: Seq<char>) -> bool {
    exists|i: int| 0 <= i < hits.len() && #[trigger] hits[i].kanji@ == k && hits[i].rank == MatchRank::Exact
}

/// `k` is among `hits`, ranked exact or prefix when `prefix` holds.
pub open spec fn listed(hits: Seq<SearchHit>, k: Seq<char>, prefix: bool) -> bool {
    exists|i: int|
        0 <= i < hits.len() && #[trigger] hits[i].kanji@ == k && (prefix ==> hits[i].rank
            != MatchRank::Partial)
}

/// A key that starts with a non-empty query earns an exact or prefix rank; one
/// that contains it earns some rank.
proof fn lemma_rank_found(key: Seq<char>, q: Seq<char>)
    requires
        q.len() > 0,
        seq_starts_with(key, q) || seq_contains(key, q),
    ensures
        rank_of_spec(key, q) is Some,
        seq_starts_with(key, q) ==> rank_of_spec(key, q) != Some(MatchRank::Partial),
{
}

proof fn lemma_noted_grows(a: Seq<SearchHit>, b: Seq<SearchHit>, k: Seq<char>, r: MatchRank)
    requires
        a.len() <= b.len(),
        forall|i: int| 0 <= i < a.len() ==> b[i] == a[i],
    ensures
        noted(a, k, r) ==> noted(b, k, r),
{
    if noted(a, k, r) {
        let w = choose|w: int| 0 <= w < a.len() && #[trigger] a[w].kanji@ == k && a[w].rank == r;
        assert(b[w] == a[w]);
    }
}

/// `h` comes before the kanji `k` of rank `r` in hit order.
pub open spec fn ranks_before(h: SearchHit, k: Seq<char>, r: MatchRank) -> bool {
    rank_value(h.rank) < rank_value(r) || (rank_value(h.rank) == rank_value(r) && seq_lt(
        h.kanji@,
        k,
    ))
}

/// The first `max` hits of [`search`]: the best matches, in hit order. A kanji
/// that the query reaches but that is not listed ranks after every listed one,
/// and then the list is full.
pub fn top_matches(index: &SearchIndex, query: &str, max: usize) -> (hits: Vec<SearchHit>)
    ensures
        hits@.len() <= max,
        trim_seq(query@).len() == 0 ==> hits@.len() == 0,
        trim_seq(query@).len() > 0 ==> {
            &&& forall|i: int|
                0 <= i < hits@.len() ==> index.best_rank(trim_seq(query@), #[trigger] hits@[i].kanji@)
                    == Some(hits@[i].rank)
            &&& forall|k: Seq<char>|
                #[trigger] index.best_rank(trim_seq(query@), k) is Some ==> (exists|i: int|
                    0 <= i < hits@.len() && #[trigger] hits@[i].kanji@ == k) || (hits@.len() == max
                    && forall|i: int|
                    0 <= i < hits@.len() ==> ranks_before(
                        #[trigger] hits@[i],
                        k,
                        index.best_rank(trim_seq(query@), k)->0,
                    ))
        },
        distinct_kanji(hits@),
        sorted_hits(hits@),
{
    let mut hits = search(index, query);
    let ghost all = hits@;
    hits.truncate(max);
    proof {
        let q = trim_seq(query@);
        if all.len() > max {
            assert(hits@ == all.take(max as int));
            if q.len() > 0 {
                assert forall|k: Seq<char>|
                    #[trigger] index.best_rank(q, k) is Some implies (exists|i: int|
                        0 <= i < hits@.len() && #[trigger] hits@[i].kanji@ == k) || (hits@.len() == max
                        && forall|i: int|
                        0 <= i < hits@.len() ==> ranks_before(
                            #[trigger] hits@[i],
                            k,
                            index.best_rank(q, k)->0,
                        )) by {
                    let j = choose|j: int| 0 <= j < all.len() && #[trigger] all[j].kanji@ == k;
                    if j < max {
                        assert(hits@[j].kanji@ == k);
                    } else {
                        assert forall|i: int| 0 <= i < hits@.len() implies ranks_before(
                            #[trigger] hits@[i],
                            k,
                            index.best_rank(q, k)->0,
                        ) by {
                            assert(hit_lt(all[i], all[j]));
                            assert(all[j].rank == index.best_rank(q, k)->0);
                        }
                    }
                }
            }
        } else {
            assert(hits@ == all);
        }
    }
    hits
}

/// Katakana and hiragana letters pair up: ア and あ, ガ and が, ッ and っ, ン and
/// ん, ヴ and ゔ, ヶ and ゖ, and so on; the long-vowel mark ー, latin letters and
/// kanji stay as they are.
pub proof fn lemma_kana_pairs()
    ensures
        hiragana_seq(seq!['ア']) == seq!['あ'],
        hiragana_seq(seq!['ァ']) == seq!['ぁ'],
        hiragana_seq(seq!['カ']) == seq!['か'],
        hiragana_seq(seq!['ガ']) == seq!['が'],
        hiragana_seq(seq!['ッ']) == seq!['っ'],
        hiragana_seq(seq!['ノ']) == seq!['の'],
        hiragana_seq(seq!['ン']) == seq!['ん'],
        hiragana_seq(seq!['ヴ']) == seq!['ゔ'],
        hiragana_seq(seq!['ヵ']) == seq!['ゕ'],
        hiragana_seq(seq!['ヶ']) == seq!['ゖ'],
        katakana_seq(seq!['あ']) == seq!['ア'],
        katakana_seq(seq!['ぁ']) == seq!['ァ'],
        katakana_seq(seq!['か']) == seq!['カ'],
        katakana_seq(seq!['が']) == seq!['ガ'],
        katakana_seq(seq!['っ']) == seq!['ッ'],
        katakana_seq(seq!['の']) == seq!['ノ'],
        katakana_seq(seq!['ん']) == seq!['ン'],
        katakana_seq(seq!['ゔ']) == seq!['ヴ'],
        katakana_seq(seq!['ゕ']) == seq!['ヵ'],
        katakana_seq(seq!['ゖ']) == seq!['ヶ'],
        hiragana_seq(seq!['ー', 'a', '学']) == seq!['ー', 'a', '学'],
        katakana_seq(seq!['ー', 'a', '学']) == seq!['ー', 'a', '学'],
{
    assert(hiragana_seq(seq!['ー', 'a', '学']) =~= seq!['ー', 'a', '学']);
    assert(katakana_seq(seq!['ー', 'a', '学']) =~= seq!['ー', 'a', '学']);
}

// ── the jamo tables ────────────────────────────────────────────────

proof fn lemma_jamo_one(c: char)
    ensures
        jamo_seq(seq![c]) == jamo_of_char(c),
{
    assert(seq![c].drop_last() == Seq::<char>::empty());
    assert(seq![c].last() == c);
    assert(jamo_seq(Seq::<char>::empty()) == Seq::<char>::empty());
    assert(Seq::<char>::empty() + jamo_of_char(c) == jamo_of_char(c));
}

/// The initial consonants are 19 distinct jamo in Unicode order.
pub proof fn lemma_choseong_ordered(i: u32, j: u32)
    requires
        i < j < 19,
    ensures
        (choseong(i) as u32) < (choseong(j) as u32),
{
}

/// Each initial consonant, in the syllables 가 까 나 … 하 (with ㅏ, no final).
pub proof fn lemma_initial_jamo()
    ensures
        jamo_seq(seq!['가']) == seq!['ㄱ', 'ㅏ'],
        jamo_seq(seq!['까']) == seq!['ㄲ', 'ㅏ'],
        jamo_seq(seq!['나']) == seq!['ㄴ', 'ㅏ'],
        jamo_seq(seq!['다']) == seq!['ㄷ', 'ㅏ'],
        jamo_seq(seq!['따']) == seq!['ㄸ', 'ㅏ'],
        jamo_seq(seq!['라']) == seq!['ㄹ', 'ㅏ'],
        jamo_seq(seq!['마']) == seq!['ㅁ', 'ㅏ'],
        jamo_seq(seq!['바']) == seq!['ㅂ', 'ㅏ'],
        jamo_seq(seq!['빠']) == seq!['ㅃ', 'ㅏ'],
        jamo_seq(seq!['사']) == seq!['ㅅ', 'ㅏ'],
        jamo_seq(seq!['싸']) == seq!['ㅆ', 'ㅏ'],
        jamo_seq(seq!['아']) == seq!['ㅇ', 'ㅏ'],
        jamo_seq(seq!['자']) == seq!['ㅈ', 'ㅏ'],
        jamo_seq(seq!['짜']) == seq!['ㅉ', 'ㅏ'],
        jamo_seq(seq!['차']) == seq!['ㅊ', 'ㅏ'],
        jamo_seq(seq!['카']) == seq!['ㅋ', 'ㅏ'],
        jamo_seq(seq!['타']) == seq!['ㅌ', 'ㅏ'],
        jamo_seq(seq!['파']) == seq!['ㅍ', 'ㅏ'],
        jamo_seq(seq!['하']) == seq!['ㅎ', 'ㅏ'],
{
    lemma_jamo_one('가');
    lemma_jamo_one('까');
    lemma_jamo_one('나');
    lemma_jamo_one('다');
    lemma_jamo_one('따');
    lemma_jamo_one('라');
    lemma_jamo_one('마');
    lemma_jamo_one('바');
    lemma_jamo_one('빠');
    lemma_jamo_one('사');
    lemma_jamo_one('싸');
    lemma_jamo_one('아');
    lemma_jamo_one('자');
    lemma_jamo_one('짜');
    lemma_jamo_one('차');
    lemma_jamo_one('카');
    lemma_jamo_one('타');
    lemma_jamo_one('파');
    lemma_jamo_one('하');
}

/// Each medial vowel, in the syllables 가 개 갸 … 기 (with ㄱ, no final);
/// compound vowels come out as their parts.
pub proof fn lemma_medial_jamo()
    ensures
        jamo_seq(seq!['가']) == seq!['ㄱ', 'ㅏ'],
        jamo_seq(seq!['개']) == seq!['ㄱ', 'ㅐ'],
        jamo_seq(seq!['갸']) == seq!['ㄱ', 'ㅑ'],
        jamo_seq(seq!['걔']) == seq!['ㄱ', 'ㅒ'],
        jamo_seq(seq!['거']) == seq!['ㄱ', 'ㅓ'],
        jamo_seq(seq!['게']) == seq!['ㄱ', 'ㅔ'],
        jamo_seq(seq!['겨']) == seq!['ㄱ', 'ㅕ'],
        jamo_seq(seq!['계']) == seq!['ㄱ', 'ㅖ'],
        jamo_seq(seq!['고']) == seq!['ㄱ', 'ㅗ'],
        jamo_seq(seq!['과']) == seq!['ㄱ', 'ㅗ', 'ㅏ'],
        jamo_seq(seq!['괘']) == seq!['ㄱ', 'ㅗ', 'ㅐ'],
        jamo_seq(seq!['괴']) == seq!['ㄱ', 'ㅗ', 'ㅣ'],
        jamo_seq(seq!['교']) == seq!['ㄱ', 'ㅛ'],
        jamo_seq(seq!['구']) == seq!['ㄱ', 'ㅜ'],
        jamo_seq(seq!['궈']) == seq!['ㄱ', 'ㅜ', 'ㅓ'],
        jamo_seq(seq!['궤']) == seq!['ㄱ', 'ㅜ', 'ㅔ'],
        jamo_seq(seq!['귀']) == seq!['ㄱ', 'ㅜ', 'ㅣ'],
        jamo_seq(seq!['규']) == seq!['ㄱ', 'ㅠ'],
        jamo_seq(seq!['그']) == seq!['ㄱ', 'ㅡ'],
        jamo_seq(seq!['긔']) == seq!['ㄱ', 'ㅡ', 'ㅣ'],
        jamo_seq(seq!['기']) == seq!['ㄱ', 'ㅣ'],
{
    lemma_jamo_one('가');
    lemma_jamo_one('개');
    lemma_jamo_one('갸');
    lemma_jamo_one('걔');
    lemma_jamo_one('거');
    lemma_jamo_one('게');
    lemma_jamo_one('겨');
    lemma_jamo_one('계');
    lemma_jamo_one('고');
    lemma_jamo_one('과');
    lemma_jamo_one('괘');
    lemma_jamo_one('괴');
    lemma_jamo_one('교');
    lemma_jamo_one('구');
    lemma_jamo_one('궈');
    lemma_jamo_one('궤');
    lemma_jamo_one('귀');
    lemma_jamo_one('규');
    lemma_jamo_one('그');
    lemma_jamo_one('긔');
    lemma_jamo_one('기');
}

/// Each final, in the syllables 가 각 갂 … 갛 (ㄱ and ㅏ); compound finals
/// come out as their parts.
pub proof fn lemma_final_jamo()
    ensures
        jamo_seq(seq!['가']) == seq!['ㄱ', 'ㅏ'],
        jamo_seq(seq!['각']) == seq!['ㄱ', 'ㅏ', 'ㄱ'],
        jamo_seq(seq!['갂']) == seq!['ㄱ', 'ㅏ', 'ㄲ'],
        jamo_seq(seq!['갃']) == seq!['ㄱ', 'ㅏ', 'ㄱ', 'ㅅ'],
        jamo_seq(seq!['간']) == seq!['ㄱ', 'ㅏ', 'ㄴ'],
        jamo_seq(seq!['갅']) == seq!['ㄱ', 'ㅏ', 'ㄴ', 'ㅈ'],
        jamo_seq(seq!['갆']) == seq!['ㄱ', 'ㅏ', 'ㄴ', 'ㅎ'],
        jamo_seq(seq!['갇']) == seq!['ㄱ', 'ㅏ', 'ㄷ'],
        jamo_seq(seq!['갈']) == seq!['ㄱ', 'ㅏ', 'ㄹ'],
        jamo_seq(seq!['갉']) == seq!['ㄱ', 'ㅏ', 'ㄹ', 'ㄱ'],
        jamo_seq(seq!['갊']) == seq!['ㄱ', 'ㅏ', 'ㄹ', 'ㅁ'],
        jamo_seq(seq!['갋']) == seq!['ㄱ', 'ㅏ', 'ㄹ', 'ㅂ'],
        jamo_seq(seq!['갌']) == seq!['ㄱ', 'ㅏ', 'ㄹ', 'ㅅ'],
        jamo_seq(seq!['갍']) == seq!['ㄱ', 'ㅏ', 'ㄹ', 'ㅌ'],
        jamo_seq(seq!['갎']) == seq!['ㄱ', 'ㅏ', 'ㄹ', 'ㅍ'],
        jamo_seq(seq!['갏']) == seq!['ㄱ', 'ㅏ', 'ㄹ', 'ㅎ'],
        jamo_seq(seq!['감']) == seq!['ㄱ', 'ㅏ', 'ㅁ'],
        jamo_seq(seq!['갑']) == seq!['ㄱ', 'ㅏ', 'ㅂ'],
        jamo_seq(seq!['값']) == seq!['ㄱ', 'ㅏ', 'ㅂ', 'ㅅ'],
        jamo_seq(seq!['갓']) == seq!['ㄱ', 'ㅏ', 'ㅅ'],
        jamo_seq(seq!['갔']) == seq!['ㄱ', 'ㅏ', 'ㅆ'],
        jamo_seq(seq!['강']) == seq!['ㄱ', 'ㅏ', 'ㅇ'],
        jamo_seq(seq!['갖']) == seq!['ㄱ', 'ㅏ', 'ㅈ'],
        jamo_seq(seq!['갗']) == seq!['ㄱ', 'ㅏ', 'ㅊ'],
        jamo_seq(seq!['갘']) == seq!['ㄱ', 'ㅏ', 'ㅋ'],
        jamo_seq(seq!['같']) == seq!['ㄱ', 'ㅏ', 'ㅌ'],
        jamo_seq(seq!['갚']) == seq!['ㄱ', 'ㅏ', 'ㅍ'],
        jamo_seq(seq!['갛']) == seq!['ㄱ', 'ㅏ', 'ㅎ'],
{
    lemma_jamo_one('가');
    lemma_jamo_one('각');
    lemma_jamo_one('갂');
    lemma_jamo_one('갃');
    lemma_jamo_one('간');
    lemma_jamo_one('갅');
    lemma_jamo_one('갆');
    lemma_jamo_one('갇');
    lemma_jamo_one('갈');
    lemma_jamo_one('갉');
    lemma_jamo_one('갊');
    lemma_jamo_one('갋');
    lemma_jamo_one('갌');
    lemma_jamo_one('갍');
    lemma_jamo_one('갎');
    lemma_jamo_one('갏');
    lemma_jamo_one('감');
    lemma_jamo_one('갑');
    lemma_jamo_one('값');
    lemma_jamo_one('갓');
    lemma_jamo_one('갔');
    lemma_jamo_one('강');
    lemma_jamo_one('갖');
    lemma_jamo_one('갗');
    lemma_jamo_one('갘');
    lemma_jamo_one('같');
    lemma_jamo_one('갚');
    lemma_jamo_one('갛');
}

/// Each compound jamo typed on its own comes out as its parts.
pub proof fn lemma_compound_jamo()
    ensures
        jamo_seq(seq!['ㅘ']) == seq!['ㅗ', 'ㅏ'],
        jamo_seq(seq!['ㅙ']) == seq!['ㅗ', 'ㅐ'],
        jamo_seq(seq!['ㅚ']) == seq!['ㅗ', 'ㅣ'],
        jamo_seq(seq!['ㅝ']) == seq!['ㅜ', 'ㅓ'],
        jamo_seq(seq!['ㅞ']) == seq!['ㅜ', 'ㅔ'],
        jamo_seq(seq!['ㅟ']) == seq!['ㅜ', 'ㅣ'],
        jamo_seq(seq!['ㅢ']) == seq!['ㅡ', 'ㅣ'],
        jamo_seq(seq!['ㄳ']) == seq!['ㄱ', 'ㅅ'],
        jamo_seq(seq!['ㄵ']) == seq!['ㄴ', 'ㅈ'],
        jamo_seq(seq!['ㄶ']) == seq!['ㄴ', 'ㅎ'],
        jamo_seq(seq!['ㄺ']) == seq!['ㄹ', 'ㄱ'],
        jamo_seq(seq!['ㄻ']) == seq!['ㄹ', 'ㅁ'],
        jamo_seq(seq!['ㄼ']) == seq!['ㄹ', 'ㅂ'],
        jamo_seq(seq!['ㄽ']) == seq!['ㄹ', 'ㅅ'],
        jamo_seq(seq!['ㄾ']) == seq!['ㄹ', 'ㅌ'],
        jamo_seq(seq!['ㄿ']) == seq!['ㄹ', 'ㅍ'],
        jamo_seq(seq!['ㅀ']) == seq!['ㄹ', 'ㅎ'],
        jamo_seq(seq!['ㅄ']) == seq!['ㅂ', 'ㅅ'],
{
    lemma_jamo_one('ㅘ');
    lemma_jamo_one('ㅙ');
    lemma_jamo_one('ㅚ');
    lemma_jamo_one('ㅝ');
    lemma_jamo_one('ㅞ');
    lemma_jamo_one('ㅟ');
    lemma_jamo_one('ㅢ');
    lemma_jamo_one('ㄳ');
    lemma_jamo_one('ㄵ');
    lemma_jamo_one('ㄶ');
    lemma_jamo_one('ㄺ');
    lemma_jamo_one('ㄻ');
    lemma_jamo_one('ㄼ');
    lemma_jamo_one('ㄽ');
    lemma_jamo_one('ㄾ');
    lemma_jamo_one('ㄿ');
    lemma_jamo_one('ㅀ');
    lemma_jamo_one('ㅄ');
}

// ── laws of the decomposition ──────────────────────────────────────

/// A jamo that decomposes into itself: neither a syllable nor a compound jamo.
pub open spec fn is_simple_jamo(c: char) -> bool {
    !is_hangul_syllable(c) && compat_jamo_parts(c) is None
}

proof fn lemma_jamo_parts_simple(i: u32)
    ensures
        is_simple_jamo(choseong(i)),
        forall|k: int| 0 <= k < jungseong(i).len() ==> is_simple_jamo(#[trigger] jungseong(i)[k]),
        forall|k: int| 0 <= k < jongseong(i).len() ==> is_simple_jamo(#[trigger] jongseong(i)[k]),
{
}

proof fn lemma_compound_parts_simple(c: char)
    ensures
        compat_jamo_parts(c) matches Some(p) ==> forall|k: int|
            0 <= k < p.len() ==> is_simple_jamo(#[trigger] p[k]),
{
}

/// Decomposition never shortens a text: each character gives at least one jamo.
pub proof fn lemma_jamo_len(s: Seq<char>)
    ensures
        jamo_seq(s).len() >= s.len(),
    decreases s.len(),
{
    if s.len() > 0 {
        lemma_jamo_len(s.drop_last());
        let c = s.last();
        if is_hangul_syllable(c) {
            let idx = (c as u32 - 0xAC00) as u32;
            assert(jamo_of_char(c).len() >= 1);
        }
    }
}

/// Decomposing a concatenation decomposes each part: the jamo of `a + b` are
/// the jamo of `a` followed by those of `b`.
pub proof fn lemma_jamo_concat(a: Seq<char>, b: Seq<char>)
    ensures
        jamo_seq(a + b) == jamo_seq(a) + jamo_seq(b),
    decreases b.len(),
{
    if b.len() == 0 {
        assert(a + b == a);
    } else {
        lemma_jamo_concat(a, b.drop_last());
        assert((a + b).drop_last() == a + b.drop_last());
        assert((a + b).last() == b.last());
    }
}

proof fn lemma_jamo_of_simple(s: Seq<char>)
    requires
        forall|k: int| 0 <= k < s.len() ==> is_simple_jamo(#[trigger] s[k]),
    ensures
        jamo_seq(s) == s,
    decreases s.len(),
{
    if s.len() > 0 {
        assert(is_simple_jamo(s[s.len() - 1]));
        lemma_jamo_of_simple(s.drop_last());
        assert(s.drop_last().push(s.last()) == s);
    }
}

proof fn lemma_jamo_of_char_simple(c: char)
    ensures
        forall|k: int| 0 <= k < jamo_of_char(c).len() ==> is_simple_jamo(#[trigger] jamo_of_char(c)[k]),
{
    if is_hangul_syllable(c) {
        let idx = (c as u32 - 0xAC00) as u32;
        lemma_jamo_parts_simple(idx / 588);
        lemma_jamo_parts_simple((idx % 588) / 28);
        lemma_jamo_parts_simple(idx % 28);
        let j = jamo_of_char(c);
        let v = jungseong((idx % 588) / 28);
        let f = jongseong(idx % 28);
        assert forall|k: int| 0 <= k < j.len() implies is_simple_jamo(#[trigger] j[k]) by {
            if k == 0 {
            } else if k < 1 + v.len() {
                assert(j[k] == v[k - 1]);
            } else {
                assert(j[k] == f[k - 1 - v.len()]);
            }
        }
    } else {
        lemma_compound_parts_simple(c);
    }
}

/// Decomposing twice is decomposing once.
pub proof fn lemma_jamo_idempotent(s: Seq<char>)
    ensures
        jamo_seq(jamo_seq(s)) == jamo_seq(s),
    decreases s.len(),
{
    if s.len() > 0 {
        lemma_jamo_idempotent(s.drop_last());
        lemma_jamo_concat(jamo_seq(s.drop_last()), jamo_of_char(s.last()));
        lemma_jamo_of_char_simple(s.last());
        lemma_jamo_of_simple(jamo_of_char(s.last()));
    }
}

/// The position of a syllable in the Hangul syllable block.
pub open spec fn syllable_index(c: char) -> u32 {
    (c as u32 - 0xAC00) as u32
}

/// A syllable typed as its initial consonant followed by the compound vowel
/// jamo of its medial (`ㅎ` then `ㅘ` for `화`) decomposes like the syllable.
pub proof fn lemma_typed_compound_vowel(c: char, v: char)
    requires
        is_hangul_syllable(c),
        syllable_index(c) % 28 == 0,
        compat_jamo_parts(v) == Some(jungseong((syllable_index(c) % 588) / 28)),
    ensures
        jamo_seq(seq![choseong(syllable_index(c) / 588), v]) == jamo_seq(seq![c]),
{
    let i = choseong(syllable_index(c) / 588);
    lemma_jamo_parts_simple(syllable_index(c) / 588);
    lemma_jamo_of_simple(seq![i]);
    assert(seq![i, v] == seq![i] + seq![v]);
    lemma_jamo_concat(seq![i], seq![v]);
    assert(seq![v].drop_last() == Seq::<char>::empty());
    assert(seq![c].drop_last() == Seq::<char>::empty());
    assert(!is_hangul_syllable(v));
    assert(seq![v].last() == v);
    assert(seq![c].last() == c);
    assert(jamo_seq(Seq::<char>::empty()) == Seq::<char>::empty());
    assert(Seq::<char>::empty() + jamo_of_char(v) == jamo_of_char(v));
    assert(Seq::<char>::empty() + jamo_of_char(c) == jamo_of_char(c));
    assert(jamo_seq(seq![v]) == jamo_of_char(v));
    assert(jamo_of_char(v) == jungseong((syllable_index(c) % 588) / 28));
    assert(jamo_seq(seq![c]) == jamo_of_char(c));
    assert(jongseong(0) == Seq::<char>::empty());
    assert(jamo_of_char(c) == seq![i] + jungseong((syllable_index(c) % 588) / 28) + Seq::<char>::empty());
}

} // verus!
