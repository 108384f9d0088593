//! Kana to Hepburn romaji, as used for the romaji search keys.
//!
//! Hiragana and katakana are both accepted. Yōon (きゃ and the like) form one
//! mora, the sokuon っ doubles the next consonant (っち becomes "tchi"), the
//! long-vowel mark ー repeats the last vowel written, and ん becomes `n'`
//! before a vowel or y, `m` before b/m/p, and `n` otherwise. Long vowels are
//! written doubled rather than with macrons (コーヒー becomes "koohii").
//! Characters that are not kana pass through unchanged.

use vstd::prelude::*;

use crate::text::{char_from_u32, chars_of, string_of};

verus! {

/// One mora: a kana, and the small や/ゆ/よ that it combines with, if any.
pub type Mora = (char, Option<char>);

// ── katakana to hiragana ───────────────────────────────────────────

/// Katakana letters U+30A1..=U+30F6, which have a hiragana counterpart.
pub open spec fn is_katakana_letter(c: char) -> bool {
    0x30A1 <= c as u32 <= 0x30F6
}

/// The hiragana for a katakana letter (0x60 code points lower); any other
/// character, the long-vowel mark ー among them, is unchanged.
pub open spec fn hiragana_char(c: char) -> char {
    if is_katakana_letter(c) {
        ((c as u32 - 0x60) as u32) as char
    } else {
        c
    }
}

pub open spec fn hiragana_seq(s: Seq<char>) -> Seq<char> {
    s.map_values(|c: char| hiragana_char(c))
}

fn katakana_to_hiragana(s: &Vec<char>) -> (r: Vec<char>)
    ensures
        r@ == hiragana_seq(s@),
{
    let mut r: Vec<char> = Vec::new();
    let mut i: usize = 0;
    while i < s.len()
        invariant
            i <= s.len(),
            r@ == hiragana_seq(s@.take(i as int)),
        decreases s.len() - i,
    {
        let c = s[i];
        let cp = c as u32;
        let h = if 0x30A1 <= cp && cp <= 0x30F6 {
            match char_from_u32(cp - 0x60) {
                Some(d) => d,
                None => c,
            }
        } else {
            c
        };
        r.push(h);
        i += 1;
        assert(s@.take(i as int) == s@.take((i - 1) as int).push(c));
    }
    assert(s@.take(s.len() as int) == s@);
    r
}

// ── morae ──────────────────────────────────────────────────────────

pub open spec fn is_small_y(c: char) -> bool {
    c == 'ゃ' || c == 'ゅ' || c == 'ょ'
}

/// Consonant kana that form a yōon with a following small や/ゆ/よ.
pub open spec fn combines_with_small_y(c: char) -> bool {
    c == 'き' || c == 'ぎ' || c == 'し' || c == 'じ' || c == 'ち' || c == 'ぢ' || c == 'に'
        || c == 'ひ' || c == 'び' || c == 'ぴ' || c == 'み' || c == 'り'
}

/// Splits hiragana into morae, read from the left: a combining kana followed by
/// a small や/ゆ/よ makes one mora, every other character is a mora of its own.
pub open spec fn morae_of(s: Seq<char>) -> Seq<Mora>
    decreases s.len(),
{
    if s.len() == 0 {
        Seq::empty()
    } else if s.len() >= 2 && combines_with_small_y(s[0]) && is_small_y(s[1]) {
        seq![(s[0], Some(s[1]))] + morae_of(s.skip(2))
    } else {
        seq![(s[0], None::<char>)] + morae_of(s.skip(1))
    }
}

fn is_small_y_exec(c: char) -> (r: bool)
    ensures
        r == is_small_y(c),
{
    c == 'ゃ' || c == 'ゅ' || c == 'ょ'
}

fn combines_with_small_y_exec(c: char) -> (r: bool)
    ensures
        r == combines_with_small_y(c),
{
    c == 'き' || c == 'ぎ' || c == 'し' || c == 'じ' || c == 'ち' || c == 'ぢ' || c == 'に'
        || c == 'ひ' || c == 'び' || c == 'ぴ' || c == 'み' || c == 'り'
}

fn tokenize_morae(hira: &Vec<char>) -> (morae: Vec<Mora>)
    ensures
        morae@ == morae_of(hira@),
{
    let mut morae: Vec<Mora> = Vec::new();
    let mut i: usize = 0;
    assert(hira@.skip(0) == hira@);
    while i < hira.len()
        invariant
            i <= hira.len(),
            morae@ + morae_of(hira@.skip(i as int)) == morae_of(hira@),
        decreases hira.len() - i,
    {
        let c = hira[i];
        let ghost rest = hira@.skip(i as int);
        if combines_with_small_y_exec(c) && i + 1 < hira.len() && is_small_y_exec(hira[i + 1]) {
            let m: Mora = (c, Some(hira[i + 1]));
            proof {
                assert(rest[0] == c && rest[1] == hira@[i + 1]);
                assert(rest.skip(2) == hira@.skip(i + 2));
                assert(morae_of(rest) == seq![m] + morae_of(hira@.skip(i + 2)));
                assert(morae@.push(m) + morae_of(hira@.skip(i + 2)) == morae@ + morae_of(rest));
            }
            morae.push(m);
            i += 2;
        } else {
            let m: Mora = (c, None);
            proof {
                assert(rest[0] == c);
                assert(rest.skip(1) == hira@.skip(i + 1));
                assert(morae_of(rest) == seq![m] + morae_of(hira@.skip(i + 1)));
                assert(morae@.push(m) + morae_of(hira@.skip(i + 1)) == morae@ + morae_of(rest));
            }
            morae.push(m);
            i += 1;
        }
    }
    assert(hira@.skip(hira.len() as int) == Seq::<char>::empty());
    assert(morae@ + Seq::<Mora>::empty() == morae@);
    morae
}

// ── romaji of one mora ─────────────────────────────────────────────

/// Hepburn romaji of a single mora; `None` for っ, ん, ー and anything that
/// is not kana.
pub open spec fn mora_romaji_spec(m: Mora) -> Option<Seq<char>> {
    match m.1 {
        None => match m.0 {
            'あ' => Some(seq!['a']),
            'い' => Some(seq!['i']),
            'う' => Some(seq!['u']),
            'え' => Some(seq!['e']),
            'お' => Some(seq!['o']),
            'か' => Some(seq!['k', 'a']),
            'き' => Some(seq!['k', 'i']),
            'く' => Some(seq!['k', 'u']),
            'け' => Some(seq!['k', 'e']),
            'こ' => Some(seq!['k', 'o']),
            'さ' => Some(seq!['s', 'a']),
            'し' => Some(seq!['s', 'h', 'i']),
            'す' => Some(seq!['s', 'u']),
            'せ' => Some(seq!['s', 'e']),
            'そ' => Some(seq!['s', 'o']),
            'た' => Some(seq!['t', 'a']),
            'ち' => Some(seq!['c', 'h', 'i']),
            'つ' => Some(seq!['t', 's', 'u']),
            'て' => Some(seq!['t', 'e']),
            'と' => Some(seq!['t', 'o']),
            'な' => Some(seq!['n', 'a']),
            'に' => Some(seq!['n', 'i']),
            'ぬ' => Some(seq!['n', 'u']),
            'ね' => Some(seq!['n', 'e']),
            'の' => Some(seq!['n', 'o']),
            'は' => Some(seq!['h', 'a']),
            'ひ' => Some(seq!['h', 'i']),
            'ふ' => Some(seq!['f', 'u']),
            'へ' => Some(seq!['h', 'e']),
            'ほ' => Some(seq!['h', 'o']),
            'ま' => Some(seq!['m', 'a']),
            'み' => Some(seq!['m', 'i']),
            'む' => Some(seq!['m', 'u']),
            'め' => Some(seq!['m', 'e']),
            'も' => Some(seq!['m', 'o']),
            'や' => Some(seq!['y', 'a']),
            'ゆ' => Some(seq!['y', 'u']),
            'よ' => Some(seq!['y', 'o']),
            'ら' => Some(seq!['r', 'a']),
            'り' => Some(seq!['r', 'i']),
            'る' => Some(seq!['r', 'u']),
            'れ' => Some(seq!['r', 'e']),
            'ろ' => Some(seq!['r', 'o']),
            'わ' => Some(seq!['w', 'a']),
            'ゐ' => Some(seq!['i']),
            'ゑ' => Some(seq!['e']),
            'を' => Some(seq!['o']),
            'が' => Some(seq!['g', 'a']),
            'ぎ' => Some(seq!['g', 'i']),
            'ぐ' => Some(seq!['g', 'u']),
            'げ' => Some(seq!['g', 'e']),
            'ご' => Some(seq!['g', 'o']),
            'ざ' => Some(seq!['z', 'a']),
            'じ' => Some(seq!['j', 'i']),
            'ず' => Some(seq!['z', 'u']),
            'ぜ' => Some(seq!['z', 'e']),
            'ぞ' => Some(seq!['z', 'o']),
            'だ' => Some(seq!['d', 'a']),
            'ぢ' => Some(seq!['j', 'i']),
            'づ' => Some(seq!['z', 'u']),
            'で' => Some(seq!['d', 'e']),
            'ど' => Some(seq!['d', 'o']),
            'ば' => Some(seq!['b', 'a']),
            'び' => Some(seq!['b', 'i']),
            'ぶ' => Some(seq!['b', 'u']),
            'べ' => Some(seq!['b', 'e']),
            'ぼ' => Some(seq!['b', 'o']),
            'ぱ' => Some(seq!['p', 'a']),
            'ぴ' => Some(seq!['p', 'i']),
            'ぷ' => Some(seq!['p', 'u']),
            'ぺ' => Some(seq!['p', 'e']),
            'ぽ' => Some(seq!['p', 'o']),
            _ => None,
        },
        Some(y) => match (m.0, y) {
            ('き', 'ゃ') => Some(seq!['k', 'y', 'a']),
            ('き', 'ゅ') => Some(seq!['k', 'y', 'u']),
            ('き', 'ょ') => Some(seq!['k', 'y', 'o']),
            ('ぎ', 'ゃ') => Some(seq!['g', 'y', 'a']),
            ('ぎ', 'ゅ') => Some(seq!['g', 'y', 'u']),
            ('ぎ', 'ょ') => Some(seq!['g', 'y', 'o']),
            ('し', 'ゃ') => Some(seq!['s', 'h', 'a']),
            ('し', 'ゅ') => Some(seq!['s', 'h', 'u']),
            ('し', 'ょ') => Some(seq!['s', 'h', 'o']),
            ('じ', 'ゃ') => Some(seq!['j', 'a']),
            ('じ', 'ゅ') => Some(seq!['j', 'u']),
            ('じ', 'ょ') => Some(seq!['j', 'o']),
            ('ち', 'ゃ') => Some(seq!['c', 'h', 'a']),
            ('ち', 'ゅ') => Some(seq!['c', 'h', 'u']),
            ('ち', 'ょ') => Some(seq!['c', 'h', 'o']),
            ('ぢ', 'ゃ') => Some(seq!['j', 'a']),
            ('ぢ', 'ゅ') => Some(seq!['j', 'u']),
            ('ぢ', 'ょ') => Some(seq!['j', 'o']),
            ('に', 'ゃ') => Some(seq!['n', 'y', 'a']),
            ('に', 'ゅ') => Some(seq!['n', 'y', 'u']),
            ('に', 'ょ') => Some(seq!['n', 'y', 'o']),
            ('ひ', 'ゃ') => Some(seq!['h', 'y', 'a']),
            ('ひ', 'ゅ') => Some(seq!['h', 'y', 'u']),
            ('ひ', 'ょ') => Some(seq!['h', 'y', 'o']),
            ('び', 'ゃ') => Some(seq!['b', 'y', 'a']),
            ('び', 'ゅ') => Some(seq!['b', 'y', 'u']),
            ('び', 'ょ') => Some(seq!['b', 'y', 'o']),
            ('ぴ', 'ゃ') => Some(seq!['p', 'y', 'a']),
            ('ぴ', 'ゅ') => Some(seq!['p', 'y', 'u']),
            ('ぴ', 'ょ') => Some(seq!['p', 'y', 'o']),
            ('み', 'ゃ') => Some(seq!['m', 'y', 'a']),
            ('み', 'ゅ') => Some(seq!['m', 'y', 'u']),
            ('み', 'ょ') => Some(seq!['m', 'y', 'o']),
            ('り', 'ゃ') => Some(seq!['r', 'y', 'a']),
            ('り', 'ゅ') => Some(seq!['r', 'y', 'u']),
            ('り', 'ょ') => Some(seq!['r', 'y', 'o']),
            _ => None,
        },
    }
}

fn mora_romaji(m: Mora) -> (r: Option<Vec<char>>)
    ensures
        match r {
            Some(v) => mora_romaji_spec(m) == Some(v@),
            None => mora_romaji_spec(m) is None,
        },
{
    match m.1 {
        None => match m.0 {
            'あ' => Some(vec!['a']),
            'い' => Some(vec!['i']),
            'う' => Some(vec!['u']),
            'え' => Some(vec!['e']),
            'お' => Some(vec!['o']),
            'か' => Some(vec!['k', 'a']),
            'き' => Some(vec!['k', 'i']),
            'く' => Some(vec!['k', 'u']),
            'け' => Some(vec!['k', 'e']),
            'こ' => Some(vec!['k', 'o']),
            'さ' => Some(vec!['s', 'a']),
            'し' => Some(vec!['s', 'h', 'i']),
            'す' => Some(vec!['s', 'u']),
            'せ' => Some(vec!['s', 'e']),
            'そ' => Some(vec!['s', 'o']),
            'た' => Some(vec!['t', 'a']),
            'ち' => Some(vec!['c', 'h', 'i']),
            'つ' => Some(vec!['t', 's', 'u']),
            'て' => Some(vec!['t', 'e']),
            'と' => Some(vec!['t', 'o']),
            'な' => Some(vec!['n', 'a']),
            'に' => Some(vec!['n', 'i']),
            'ぬ' => Some(vec!['n', 'u']),
            'ね' => Some(vec!['n', 'e']),
            'の' => Some(vec!['n', 'o']),
            'は' => Some(vec!['h', 'a']),
            'ひ' => Some(vec!['h', 'i']),
            'ふ' => Some(vec!['f', 'u']),
            'へ' => Some(vec!['h', 'e']),
            'ほ' => Some(vec!['h', 'o']),
            'ま' => Some(vec!['m', 'a']),
            'み' => Some(vec!['m', 'i']),
            'む' => Some(vec!['m', 'u']),
            'め' => Some(vec!['m', 'e']),
            'も' => Some(vec!['m', 'o']),
            'や' => Some(vec!['y', 'a']),
            'ゆ' => Some(vec!['y', 'u']),
            'よ' => Some(vec!['y', 'o']),
            'ら' => Some(vec!['r', 'a']),
            'り' => Some(vec!['r', 'i']),
            'る' => Some(vec!['r', 'u']),
            'れ' => Some(vec!['r', 'e']),
            'ろ' => Some(vec!['r', 'o']),
            'わ' => Some(vec!['w', 'a']),
            'ゐ' => Some(vec!['i']),
            'ゑ' => Some(vec!['e']),
            'を' => Some(vec!['o']),
            'が' => Some(vec!['g', 'a']),
            'ぎ' => Some(vec!['g', 'i']),
            'ぐ' => Some(vec!['g', 'u']),
            'げ' => Some(vec!['g', 'e']),
            'ご' => Some(vec!['g', 'o']),
            'ざ' => Some(vec!['z', 'a']),
            'じ' => Some(vec!['j', 'i']),
            'ず' => Some(vec!['z', 'u']),
            'ぜ' => Some(vec!['z', 'e']),
            'ぞ' => Some(vec!['z', 'o']),
            'だ' => Some(vec!['d', 'a']),
            'ぢ' => Some(vec!['j', 'i']),
            'づ' => Some(vec!['z', 'u']),
            'で' => Some(vec!['d', 'e']),
            'ど' => Some(vec!['d', 'o']),
            'ば' => Some(vec!['b', 'a']),
            'び' => Some(vec!['b', 'i']),
            'ぶ' => Some(vec!['b', 'u']),
            'べ' => Some(vec!['b', 'e']),
            'ぼ' => Some(vec!['b', 'o']),
            'ぱ' => Some(vec!['p', 'a']),
            'ぴ' => Some(vec!['p', 'i']),
            'ぷ' => Some(vec!['p', 'u']),
            'ぺ' => Some(vec!['p', 'e']),
            'ぽ' => Some(vec!['p', 'o']),
            _ => None,
        },
        Some(y) => match (m.0, y) {
            ('き', 'ゃ') => Some(vec!['k', 'y', 'a']),
            ('き', 'ゅ') => Some(vec!['k', 'y', 'u']),
            ('き', 'ょ') => Some(vec!['k', 'y', 'o']),
            ('ぎ', 'ゃ') => Some(vec!['g', 'y', 'a']),
            ('ぎ', 'ゅ') => Some(vec!['g', 'y', 'u']),
            ('ぎ', 'ょ') => Some(vec!['g', 'y', 'o']),
            ('し', 'ゃ') => Some(vec!['s', 'h', 'a']),
            ('し', 'ゅ') => Some(vec!['s', 'h', 'u']),
            ('し', 'ょ') => Some(vec!['s', 'h', 'o']),
            ('じ', 'ゃ') => Some(vec!['j', 'a']),
            ('じ', 'ゅ') => Some(vec!['j', 'u']),
            ('じ', 'ょ') => Some(vec!['j', 'o']),
            ('ち', 'ゃ') => Some(vec!['c', 'h', 'a']),
            ('ち', 'ゅ') => Some(vec!['c', 'h', 'u']),
            ('ち', 'ょ') => Some(vec!['c', 'h', 'o']),
            ('ぢ', 'ゃ') => Some(vec!['j', 'a']),
            ('ぢ', 'ゅ') => Some(vec!['j', 'u']),
            ('ぢ', 'ょ') => Some(vec!['j', 'o']),
            ('に', 'ゃ') => Some(vec!['n', 'y', 'a']),
            ('に', 'ゅ') => Some(vec!['n', 'y', 'u']),
            ('に', 'ょ') => Some(vec!['n', 'y', 'o']),
            ('ひ', 'ゃ') => Some(vec!['h', 'y', 'a']),
            ('ひ', 'ゅ') => Some(vec!['h', 'y', 'u']),
            ('ひ', 'ょ') => Some(vec!['h', 'y', 'o']),
            ('び', 'ゃ') => Some(vec!['b', 'y', 'a']),
            ('び', 'ゅ') => Some(vec!['b', 'y', 'u']),
            ('び', 'ょ') => Some(vec!['b', 'y', 'o']),
            ('ぴ', 'ゃ') => Some(vec!['p', 'y', 'a']),
            ('ぴ', 'ゅ') => Some(vec!['p', 'y', 'u']),
            ('ぴ', 'ょ') => Some(vec!['p', 'y', 'o']),
            ('み', 'ゃ') => Some(vec!['m', 'y', 'a']),
            ('み', 'ゅ') => Some(vec!['m', 'y', 'u']),
            ('み', 'ょ') => Some(vec!['m', 'y', 'o']),
            ('り', 'ゃ') => Some(vec!['r', 'y', 'a']),
            ('り', 'ゅ') => Some(vec!['r', 'y', 'u']),
            ('り', 'ょ') => Some(vec!['r', 'y', 'o']),
            _ => None,
        },
    }
}

// ── romaji of a mora sequence ──────────────────────────────────────

pub open spec fn is_vowel(c: char) -> bool {
    c == 'a' || c == 'i' || c == 'u' || c == 'e' || c == 'o'
}

/// The last vowel written so far, if any.
pub open spec fn last_vowel(out: Seq<char>) -> Option<char>
    decreases out.len(),
{
    if out.len() == 0 {
        None
    } else if is_vowel(out.last()) {
        Some(out.last())
    } else {
        last_vowel(out.drop_last())
    }
}

/// The romaji of a mora that follows っ: its leading consonant doubled, or a
/// leading "ch" written "tch"; a vowel-initial romaji is left as it is.
pub open spec fn doubled(r: Seq<char>) -> Seq<char> {
    if r.len() >= 2 && r[0] == 'c' && r[1] == 'h' {
        seq!['t'] + r
    } else if r.len() == 0 {
        Seq::empty()
    } else if is_vowel(r[0]) {
        r
    } else {
        seq![r[0]] + r
    }
}

/// What ん is written as, given the romaji of the mora after it (if any).
pub open spec fn syllabic_n(next: Option<Seq<char>>) -> Seq<char> {
    match next {
        Some(nr) => if nr.len() > 0 && (is_vowel(nr[0]) || nr[0] == 'y') {
            seq!['n', '\'']
        } else if nr.len() > 0 && (nr[0] == 'b' || nr[0] == 'm' || nr[0] == 'p') {
            seq!['m']
        } else {
            seq!['n']
        },
        None => seq!['n'],
    }
}

/// The characters of a mora as written.
pub open spec fn mora_chars(m: Mora) -> Seq<char> {
    match m.1 {
        Some(y) => seq![m.0, y],
        None => seq![m.0],
    }
}

pub open spec fn is_sokuon(m: Mora) -> bool {
    m == ('っ', None::<char>)
}

/// The romaji written for mora `i` of `m`, given the romaji `out` written for
/// the morae before it.
pub open spec fn mora_piece(m: Seq<Mora>, i: int, out: Seq<char>) -> Seq<char> {
    if is_sokuon(m[i]) {
        Seq::empty()
    } else if m[i] == ('ん', None::<char>) {
        syllabic_n(if i + 1 < m.len() { mora_romaji_spec(m[i + 1]) } else { None })
    } else if m[i] == ('ー', None::<char>) {
        match last_vowel(out) {
            Some(v) => seq![v],
            None => Seq::empty(),
        }
    } else {
        match mora_romaji_spec(m[i]) {
            Some(r) => if i > 0 && is_sokuon(m[i - 1]) {
                doubled(r)
            } else {
                r
            },
            None => mora_chars(m[i]),
        }
    }
}

/// The romaji of the first `n` morae of `m`.
pub open spec fn romaji_prefix(m: Seq<Mora>, n: int) -> Seq<char>
    decreases n,
{
    if n <= 0 {
        Seq::empty()
    } else {
        let out = romaji_prefix(m, n - 1);
        out + mora_piece(m, n - 1, out)
    }
}

/// The Hepburn romaji of a kana string.
pub open spec fn romaji_of(s: Seq<char>) -> Seq<char> {
    let m = morae_of(hiragana_seq(s));
    romaji_prefix(m, m.len() as int)
}

fn double_leading_consonant(r: &Vec<char>) -> (d: Vec<char>)
    ensures
        d@ == doubled(r@),
{
    if r.len() >= 2 && r[0] == 'c' && r[1] == 'h' {
        let mut d: Vec<char> = vec!['t'];
        let mut i: usize = 0;
        while i < r.len()
            invariant
                i <= r.len(),
                d@ == seq!['t'] + r@.take(i as int),
            decreases r.len() - i,
        {
            d.push(r[i]);
            i += 1;
            assert(r@.take(i as int) == r@.take((i - 1) as int).push(r@[i - 1]));
        }
        assert(r@.take(r.len() as int) == r@);
        d
    } else if r.len() == 0 {
        Vec::new()
    } else if is_vowel_exec(r[0]) {
        r.clone()
    } else {
        let mut d: Vec<char> = vec![r[0]];
        let mut i: usize = 0;
        while i < r.len()
            invariant
                i <= r.len(),
                d@ == seq![r@[0]] + r@.take(i as int),
            decreases r.len() - i,
        {
            d.push(r[i]);
            i += 1;
            assert(r@.take(i as int) == r@.take((i - 1) as int).push(r@[i - 1]));
        }
        assert(r@.take(r.len() as int) == r@);
        d
    }
}

fn is_vowel_exec(c: char) -> (r: bool)
    ensures
        r == is_vowel(c),
{
    c == 'a' || c == 'i' || c == 'u' || c == 'e' || c == 'o'
}

fn find_last_vowel(out: &Vec<char>) -> (r: Option<char>)
    ensures
        r == last_vowel(out@),
{
    let mut i: usize = out.len();
    assert(out@.take(i as int) == out@);
    while i > 0
        invariant
            i <= out.len(),
            last_vowel(out@) == last_vowel(out@.take(i as int)),
        decreases i,
    {
        let c = out[i - 1];
        assert(out@.take(i as int).last() == c);
        if is_vowel_exec(c) {
            return Some(c);
        }
        assert(out@.take(i as int).drop_last() == out@.take(i - 1));
        i -= 1;
    }
    None
}

fn append_all(out: &mut Vec<char>, piece: &Vec<char>)
    ensures
        final(out)@ == old(out)@ + piece@,
{
    let mut i: usize = 0;
    while i < piece.len()
        invariant
            i <= piece.len(),
            out@ == old(out)@ + piece@.take(i as int),
        decreases piece.len() - i,
    {
        out.push(piece[i]);
        i += 1;
        assert(piece@.take(i as int) == piece@.take((i - 1) as int).push(piece@[i - 1]));
    }
    assert(piece@.take(piece.len() as int) == piece@);
}

fn morae_to_romaji(morae: &Vec<Mora>) -> (out: Vec<char>)
    ensures
        out@ == romaji_prefix(morae@, morae@.len() as int),
{
    let mut out: Vec<char> = Vec::new();
    let mut i: usize = 0;
    // っ makes no sound of its own; it marks the next mora's consonant as doubled.
    let mut geminate = false;
    while i < morae.len()
        invariant
            i <= morae.len(),
            out@ == romaji_prefix(morae@, i as int),
            geminate == (i > 0 && is_sokuon(morae@[i - 1])),
        decreases morae.len() - i,
    {
        let m = morae[i];
        let ghost before = out@;
        if m.0 == 'っ' && m.1.is_none() {
            geminate = true;
        } else if m.0 == 'ん' && m.1.is_none() {
            let next = if i + 1 < morae.len() {
                mora_romaji(morae[i + 1])
            } else {
                None
            };
            match next {
                Some(nr) => {
                    if nr.len() > 0 && (is_vowel_exec(nr[0]) || nr[0] == 'y') {
                        out.push('n');
                        out.push('\'');
                    } else if nr.len() > 0 && (nr[0] == 'b' || nr[0] == 'm' || nr[0] == 'p') {
                        out.push('m');
                    } else {
                        out.push('n');
                    }
                },
                None => {
                    out.push('n');
                },
            }
            geminate = false;
        } else if m.0 == 'ー' && m.1.is_none() {
            match find_last_vowel(&out) {
                Some(v) => out.push(v),
                None => {},
            }
            geminate = false;
        } else {
            match mora_romaji(m) {
                Some(r) => {
                    if geminate {
                        let d = double_leading_consonant(&r);
                        append_all(&mut out, &d);
                    } else {
                        append_all(&mut out, &r);
                    }
                },
                None => {
                    // Not kana (punctuation and the like): written as it is.
                    out.push(m.0);
                    match m.1 {
                        Some(y) => out.push(y),
                        None => {},
                    }
                },
            }
            geminate = false;
        }
        assert(out@ == before + mora_piece(morae@, i as int, before));
        i += 1;
    }
    out
}

/// Converts a kana string to Hepburn romaji; characters that are not kana pass
/// through unchanged.
pub fn kana_to_romaji(input: &str) -> (r: String)
    ensures
        r@ == romaji_of(input@),
{
    let chars = chars_of(input);
    let hiragana = katakana_to_hiragana(&chars);
    let morae = tokenize_morae(&hiragana);
    let out = morae_to_romaji(&morae);
    string_of(&out)
}

// ── the Hepburn table ──────────────────────────────────────────────

/// A kana with a romaji of its own romanizes alone to that romaji.
proof fn lemma_single_kana(c: char)
    requires
        mora_romaji_spec((c, None::<char>)) is Some,
    ensures
        romaji_of(seq![c]) == mora_romaji_spec((c, None::<char>))->0,
{
    let s = seq![c];
    assert(!is_katakana_letter(c));
    assert(hiragana_seq(s) == s);
    assert(s.skip(1) == Seq::<char>::empty());
    assert(morae_of(Seq::<char>::empty()) == Seq::<Mora>::empty());
    assert(s[0] == c);
    let m = morae_of(s);
    assert(m == seq![(c, None::<char>)] + Seq::<Mora>::empty());
    assert(seq![(c, None::<char>)] + Seq::<Mora>::empty() == seq![(c, None::<char>)]);
    assert(romaji_prefix(m, 0) == Seq::<char>::empty());
    assert(mora_piece(m, 0, Seq::<char>::empty()) == mora_romaji_spec((c, None::<char>))->0);
    assert(Seq::<char>::empty() + mora_romaji_spec((c, None::<char>))->0 == mora_romaji_spec(
        (c, None::<char>),
    )->0);
}

/// A consonant kana with a small や/ゆ/よ romanizes as one yōon.
proof fn lemma_yoon(c: char, y: char)
    requires
        mora_romaji_spec((c, Some(y))) is Some,
    ensures
        romaji_of(seq![c, y]) == mora_romaji_spec((c, Some(y)))->0,
{
    let s = seq![c, y];
    assert(!is_katakana_letter(c) && !is_katakana_letter(y));
    assert(hiragana_seq(s) == s);
    assert(s.skip(2) == Seq::<char>::empty());
    assert(combines_with_small_y(c) && is_small_y(y));
    assert(morae_of(Seq::<char>::empty()) == Seq::<Mora>::empty());
    assert(s[0] == c && s[1] == y);
    let m = morae_of(s);
    assert(m == seq![(c, Some(y))] + Seq::<Mora>::empty());
    assert(seq![(c, Some(y))] + Seq::<Mora>::empty() == seq![(c, Some(y))]);
    assert(romaji_prefix(m, 0) == Seq::<char>::empty());
    assert(mora_piece(m, 0, Seq::<char>::empty()) == mora_romaji_spec((c, Some(y)))->0);
    assert(Seq::<char>::empty() + mora_romaji_spec((c, Some(y)))->0 == mora_romaji_spec(
        (c, Some(y)),
    )->0);
}

/// Hepburn romaji of the kana あ・い・う・え・お.
pub proof fn lemma_hepburn_a()
    ensures
        romaji_of(seq!['あ']) == seq!['a'],
        romaji_of(seq!['い']) == seq!['i'],
        romaji_of(seq!['う']) == seq!['u'],
        romaji_of(seq!['え']) == seq!['e'],
        romaji_of(seq!['お']) == seq!['o'],
{
    lemma_single_kana('あ');
    lemma_single_kana('い');
    lemma_single_kana('う');
    lemma_single_kana('え');
    lemma_single_kana('お');
}

/// Hepburn romaji of the kana か・き・く・け・こ.
pub proof fn lemma_hepburn_ka()
    ensures
        romaji_of(seq!['か']) == seq!['k', 'a'],
        romaji_of(seq!['き']) == seq!['k', 'i'],
        romaji_of(seq!['く']) == seq!['k', 'u'],
        romaji_of(seq!['け']) == seq!['k', 'e'],
        romaji_of(seq!['こ']) == seq!['k', 'o'],
{
    lemma_single_kana('か');
    lemma_single_kana('き');
    lemma_single_kana('く');
    lemma_single_kana('け');
    lemma_single_kana('こ');
}

/// Hepburn romaji of the kana さ・し・す・せ・そ.
pub proof fn lemma_hepburn_sa()
    ensures
        romaji_of(seq!['さ']) == seq!['s', 'a'],
        romaji_of(seq!['し']) == seq!['s', 'h', 'i'],
        romaji_of(seq!['す']) == seq!['s', 'u'],
        romaji_of(seq!['せ']) == seq!['s', 'e'],
        romaji_of(seq!['そ']) == seq!['s', 'o'],
{
    lemma_single_kana('さ');
    lemma_single_kana('し');
    lemma_single_kana('す');
    lemma_single_kana('せ');
    lemma_single_kana('そ');
}

/// Hepburn romaji of the kana た・ち・つ・て・と.
pub proof fn lemma_hepburn_ta()
    ensures
        romaji_of(seq!['た']) == seq!['t', 'a'],
        romaji_of(seq!['ち']) == seq!['c', 'h', 'i'],
        romaji_of(seq!['つ']) == seq!['t', 's', 'u'],
        romaji_of(seq!['て']) == seq!['t', 'e'],
        romaji_of(seq!['と']) == seq!['t', 'o'],
{
    lemma_single_kana('た');
    lemma_single_kana('ち');
    lemma_single_kana('つ');
    lemma_single_kana('て');
    lemma_single_kana('と');
}

/// Hepburn romaji of the kana な・に・ぬ・ね・の.
pub proof fn lemma_hepburn_na()
    ensures
        romaji_of(seq!['な']) == seq!['n', 'a'],
        romaji_of(seq!['に']) == seq!['n', 'i'],
        romaji_of(seq!['ぬ']) == seq!['n', 'u'],
        romaji_of(seq!['ね']) == seq!['n', 'e'],
        romaji_of(seq!['の']) == seq!['n', 'o'],
{
    lemma_single_kana('な');
    lemma_single_kana('に');
    lemma_single_kana('ぬ');
    lemma_single_kana('ね');
    lemma_single_kana('の');
}

/// Hepburn romaji of the kana は・ひ・ふ・へ・ほ.
pub proof fn lemma_hepburn_ha()
    ensures
        romaji_of(seq!['は']) == seq!['h', 'a'],
        romaji_of(seq!['ひ']) == seq!['h', 'i'],
        romaji_of(seq!['ふ']) == seq!['f', 'u'],
        romaji_of(seq!['へ']) == seq!['h', 'e'],
        romaji_of(seq!['ほ']) == seq!['h', 'o'],
{
    lemma_single_kana('は');
    lemma_single_kana('ひ');
    lemma_single_kana('ふ');
    lemma_single_kana('へ');
    lemma_single_kana('ほ');
}

/// Hepburn romaji of the kana ま・み・む・め・も.
pub proof fn lemma_hepburn_ma()
    ensures
        romaji_of(seq!['ま']) == seq!['m', 'a'],
        romaji_of(seq!['み']) == seq!['m', 'i'],
        romaji_of(seq!['む']) == seq!['m', 'u'],
        romaji_of(seq!['め']) == seq!['m', 'e'],
        romaji_of(seq!['も']) == seq!['m', 'o'],
{
    lemma_single_kana('ま');
    lemma_single_kana('み');
    lemma_single_kana('む');
    lemma_single_kana('め');
    lemma_single_kana('も');
}

/// Hepburn romaji of the kana や・ゆ・よ.
pub proof fn lemma_hepburn_ya()
    ensures
        romaji_of(seq!['や']) == seq!['y', 'a'],
        romaji_of(seq!['ゆ']) == seq!['y', 'u'],
        romaji_of(seq!['よ']) == seq!['y', 'o'],
{
    lemma_single_kana('や');
    lemma_single_kana('ゆ');
    lemma_single_kana('よ');
}

/// Hepburn romaji of the kana ら・り・る・れ・ろ.
pub proof fn lemma_hepburn_ra()
    ensures
        romaji_of(seq!['ら']) == seq!['r', 'a'],
        romaji_of(seq!['り']) == seq!['r', 'i'],
        romaji_of(seq!['る']) == seq!['r', 'u'],
        romaji_of(seq!['れ']) == seq!['r', 'e'],
        romaji_of(seq!['ろ']) == seq!['r', 'o'],
{
    lemma_single_kana('ら');
    lemma_single_kana('り');
    lemma_single_kana('る');
    lemma_single_kana('れ');
    lemma_single_kana('ろ');
}

/// Hepburn romaji of the kana わ・ゐ・ゑ・を.
pub proof fn lemma_hepburn_wa()
    ensures
        romaji_of(seq!['わ']) == seq!['w', 'a'],
        romaji_of(seq!['ゐ']) == seq!['i'],
        romaji_of(seq!['ゑ']) == seq!['e'],
        romaji_of(seq!['を']) == seq!['o'],
{
    lemma_single_kana('わ');
    lemma_single_kana('ゐ');
    lemma_single_kana('ゑ');
    lemma_single_kana('を');
}

/// Hepburn romaji of the kana が・ぎ・ぐ・げ・ご.
pub proof fn lemma_hepburn_ga()
    ensures
        romaji_of(seq!['が']) == seq!['g', 'a'],
        romaji_of(seq!['ぎ']) == seq!['g', 'i'],
        romaji_of(seq!['ぐ']) == seq!['g', 'u'],
        romaji_of(seq!['げ']) == seq!['g', 'e'],
        romaji_of(seq!['ご']) == seq!['g', 'o'],
{
    lemma_single_kana('が');
    lemma_single_kana('ぎ');
    lemma_single_kana('ぐ');
    lemma_single_kana('げ');
    lemma_single_kana('ご');
}

/// Hepburn romaji of the kana ざ・じ・ず・ぜ・ぞ.
pub proof fn lemma_hepburn_za()
    ensures
        romaji_of(seq!['ざ']) == seq!['z', 'a'],
        romaji_of(seq!['じ']) == seq!['j', 'i'],
        romaji_of(seq!['ず']) == seq!['z', 'u'],
        romaji_of(seq!['ぜ']) == seq!['z', 'e'],
        romaji_of(seq!['ぞ']) == seq!['z', 'o'],
{
    lemma_single_kana('ざ');
    lemma_single_kana('じ');
    lemma_single_kana('ず');
    lemma_single_kana('ぜ');
    lemma_single_kana('ぞ');
}

/// Hepburn romaji of the kana だ・ぢ・づ・で・ど.
pub proof fn lemma_hepburn_da()
    ensures
        romaji_of(seq!['だ']) == seq!['d', 'a'],
        romaji_of(seq!['ぢ']) == seq!['j', 'i'],
        romaji_of(seq!['づ']) == seq!['z', 'u'],
        romaji_of(seq!['で']) == seq!['d', 'e'],
        romaji_of(seq!['ど']) == seq!['d', 'o'],
{
    lemma_single_kana('だ');
    lemma_single_kana('ぢ');
    lemma_single_kana('づ');
    lemma_single_kana('で');
    lemma_single_kana('ど');
}

/// Hepburn romaji of the kana ば・び・ぶ・べ・ぼ.
pub proof fn lemma_hepburn_ba()
    ensures
        romaji_of(seq!['ば']) == seq!['b', 'a'],
        romaji_of(seq!['び']) == seq!['b', 'i'],
        romaji_of(seq!['ぶ']) == seq!['b', 'u'],
        romaji_of(seq!['べ']) == seq!['b', 'e'],
        romaji_of(seq!['ぼ']) == seq!['b', 'o'],
{
    lemma_single_kana('ば');
    lemma_single_kana('び');
    lemma_single_kana('ぶ');
    lemma_single_kana('べ');
    lemma_single_kana('ぼ');
}

/// Hepburn romaji of the kana ぱ・ぴ・ぷ・ぺ・ぽ.
pub proof fn lemma_hepburn_pa()
    ensures
        romaji_of(seq!['ぱ']) == seq!['p', 'a'],
        romaji_of(seq!['ぴ']) == seq!['p', 'i'],
        romaji_of(seq!['ぷ']) == seq!['p', 'u'],
        romaji_of(seq!['ぺ']) == seq!['p', 'e'],
        romaji_of(seq!['ぽ']) == seq!['p', 'o'],
{
    lemma_single_kana('ぱ');
    lemma_single_kana('ぴ');
    lemma_single_kana('ぷ');
    lemma_single_kana('ぺ');
    lemma_single_kana('ぽ');
}

/// Hepburn romaji of the yōon きゃ・きゅ・きょ.
pub proof fn lemma_hepburn_kya()
    ensures
        romaji_of(seq!['き', 'ゃ']) == seq!['k', 'y', 'a'],
        romaji_of(seq!['き', 'ゅ']) == seq!['k', 'y', 'u'],
        romaji_of(seq!['き', 'ょ']) == seq!['k', 'y', 'o'],
{
    lemma_yoon('き', 'ゃ');
    lemma_yoon('き', 'ゅ');
    lemma_yoon('き', 'ょ');
}

/// Hepburn romaji of the yōon ぎゃ・ぎゅ・ぎょ.
pub proof fn lemma_hepburn_gya()
    ensures
        romaji_of(seq!['ぎ', 'ゃ']) == seq!['g', 'y', 'a'],
        romaji_of(seq!['ぎ', 'ゅ']) == seq!['g', 'y', 'u'],
        romaji_of(seq!['ぎ', 'ょ']) == seq!['g', 'y', 'o'],
{
    lemma_yoon('ぎ', 'ゃ');
    lemma_yoon('ぎ', 'ゅ');
    lemma_yoon('ぎ', 'ょ');
}

/// Hepburn romaji of the yōon しゃ・しゅ・しょ.
pub proof fn lemma_hepburn_sha()
    ensures
        romaji_of(seq!['し', 'ゃ']) == seq!['s', 'h', 'a'],
        romaji_of(seq!['し', 'ゅ']) == seq!['s', 'h', 'u'],
        romaji_of(seq!['し', 'ょ']) == seq!['s', 'h', 'o'],
{
    lemma_yoon('し', 'ゃ');
    lemma_yoon('し', 'ゅ');
    lemma_yoon('し', 'ょ');
}

/// Hepburn romaji of the yōon じゃ・じゅ・じょ.
pub proof fn lemma_hepburn_ja()
    ensures
        romaji_of(seq!['じ', 'ゃ']) == seq!['j', 'a'],
        romaji_of(seq!['じ', 'ゅ']) == seq!['j', 'u'],
        romaji_of(seq!['じ', 'ょ']) == seq!['j', 'o'],
{
    lemma_yoon('じ', 'ゃ');
    lemma_yoon('じ', 'ゅ');
    lemma_yoon('じ', 'ょ');
}

/// Hepburn romaji of the yōon ちゃ・ちゅ・ちょ.
pub proof fn lemma_hepburn_cha()
    ensures
        romaji_of(seq!['ち', 'ゃ']) == seq!['c', 'h', 'a'],
        romaji_of(seq!['ち', 'ゅ']) == seq!['c', 'h', 'u'],
        romaji_of(seq!['ち', 'ょ']) == seq!['c', 'h', 'o'],
{
    lemma_yoon('ち', 'ゃ');
    lemma_yoon('ち', 'ゅ');
    lemma_yoon('ち', 'ょ');
}

/// Hepburn romaji of the yōon ぢゃ・ぢゅ・ぢょ.
pub proof fn lemma_hepburn_ja_di()
    ensures
        romaji_of(seq!['ぢ', 'ゃ']) == seq!['j', 'a'],
        romaji_of(seq!['ぢ', 'ゅ']) == seq!['j', 'u'],
        romaji_of(seq!['ぢ', 'ょ']) == seq!['j', 'o'],
{
    lemma_yoon('ぢ', 'ゃ');
    lemma_yoon('ぢ', 'ゅ');
    lemma_yoon('ぢ', 'ょ');
}

/// Hepburn romaji of the yōon にゃ・にゅ・にょ.
pub proof fn lemma_hepburn_nya()
    ensures
        romaji_of(seq!['に', 'ゃ']) == seq!['n', 'y', 'a'],
        romaji_of(seq!['に', 'ゅ']) == seq!['n', 'y', 'u'],
        romaji_of(seq!['に', 'ょ']) == seq!['n', 'y', 'o'],
{
    lemma_yoon('に', 'ゃ');
    lemma_yoon('に', 'ゅ');
    lemma_yoon('に', 'ょ');
}

/// Hepburn romaji of the yōon ひゃ・ひゅ・ひょ.
pub proof fn lemma_hepburn_hya()
    ensures
        romaji_of(seq!['ひ', 'ゃ']) == seq!['h', 'y', 'a'],
        romaji_of(seq!['ひ', 'ゅ']) == seq!['h', 'y', 'u'],
        romaji_of(seq!['ひ', 'ょ']) == seq!['h', 'y', 'o'],
{
    lemma_yoon('ひ', 'ゃ');
    lemma_yoon('ひ', 'ゅ');
    lemma_yoon('ひ', 'ょ');
}

/// Hepburn romaji of the yōon びゃ・びゅ・びょ.
pub proof fn lemma_hepburn_bya()
    ensures
        romaji_of(seq!['び', 'ゃ']) == seq!['b', 'y', 'a'],
        romaji_of(seq!['び', 'ゅ']) == seq!['b', 'y', 'u'],
        romaji_of(seq!['び', 'ょ']) == seq!['b', 'y', 'o'],
{
    lemma_yoon('び', 'ゃ');
    lemma_yoon('び', 'ゅ');
    lemma_yoon('び', 'ょ');
}

/// Hepburn romaji of the yōon ぴゃ・ぴゅ・ぴょ.
pub proof fn lemma_hepburn_pya()
    ensures
        romaji_of(seq!['ぴ', 'ゃ']) == seq!['p', 'y', 'a'],
        romaji_of(seq!['ぴ', 'ゅ']) == seq!['p', 'y', 'u'],
        romaji_of(seq!['ぴ', 'ょ']) == seq!['p', 'y', 'o'],
{
    lemma_yoon('ぴ', 'ゃ');
    lemma_yoon('ぴ', 'ゅ');
    lemma_yoon('ぴ', 'ょ');
}

/// Hepburn romaji of the yōon みゃ・みゅ・みょ.
pub proof fn lemma_hepburn_mya()
    ensures
        romaji_of(seq!['み', 'ゃ']) == seq!['m', 'y', 'a'],
        romaji_of(seq!['み', 'ゅ']) == seq!['m', 'y', 'u'],
        romaji_of(seq!['み', 'ょ']) == seq!['m', 'y', 'o'],
{
    lemma_yoon('み', 'ゃ');
    lemma_yoon('み', 'ゅ');
    lemma_yoon('み', 'ょ');
}

/// Hepburn romaji of the yōon りゃ・りゅ・りょ.
pub proof fn lemma_hepburn_rya()
    ensures
        romaji_of(seq!['り', 'ゃ']) == seq!['r', 'y', 'a'],
        romaji_of(seq!['り', 'ゅ']) == seq!['r', 'y', 'u'],
        romaji_of(seq!['り', 'ょ']) == seq!['r', 'y', 'o'],
{
    lemma_yoon('り', 'ゃ');
    lemma_yoon('り', 'ゅ');
    lemma_yoon('り', 'ょ');
}

/// Two kana that do not form a yōon romanize mora by mora.
proof fn lemma_two_kana(a: char, b: char)
    requires
        !is_katakana_letter(a),
        !is_katakana_letter(b),
        !(combines_with_small_y(a) && is_small_y(b)),
    ensures
        ({
            let m = seq![(a, None::<char>), (b, None::<char>)];
            let first = mora_piece(m, 0, Seq::<char>::empty());
            romaji_of(seq![a, b]) == first + mora_piece(m, 1, first)
        }),
{
    let s = seq![a, b];
    assert(hiragana_seq(s) == s);
    assert(s[0] == a && s[1] == b);
    let t = s.skip(1);
    assert(t == seq![b]);
    assert(t.skip(1) == Seq::<char>::empty());
    assert(morae_of(Seq::<char>::empty()) == Seq::<Mora>::empty());
    assert(morae_of(t) == seq![(b, None::<char>)] + Seq::<Mora>::empty());
    assert(seq![(b, None::<char>)] + Seq::<Mora>::empty() == seq![(b, None::<char>)]);
    let m = morae_of(s);
    assert(m == seq![(a, None::<char>)] + seq![(b, None::<char>)]);
    assert(m == seq![(a, None::<char>), (b, None::<char>)]);
    assert(romaji_prefix(m, 0) == Seq::<char>::empty());
    let first = mora_piece(m, 0, Seq::<char>::empty());
    assert(romaji_prefix(m, 1) == Seq::<char>::empty() + first);
    assert(Seq::<char>::empty() + first == first);
}

/// The rules around っ, ん and ー: っ doubles the next consonant (ch as tch);
/// ん is written n' before a vowel or y, m before b, m or p, and n otherwise;
/// ー repeats the last vowel.
pub proof fn lemma_hepburn_special_morae()
    ensures
        romaji_of(seq!['っ', 'か']) == seq!['k', 'k', 'a'],
        romaji_of(seq!['っ', 'ち']) == seq!['t', 'c', 'h', 'i'],
        romaji_of(seq!['っ', 'ぱ']) == seq!['p', 'p', 'a'],
        romaji_of(seq!['ん', 'あ']) == seq!['n', '\'', 'a'],
        romaji_of(seq!['ん', 'や']) == seq!['n', '\'', 'y', 'a'],
        romaji_of(seq!['ん', 'ば']) == seq!['m', 'b', 'a'],
        romaji_of(seq!['ん', 'ま']) == seq!['m', 'm', 'a'],
        romaji_of(seq!['ん', 'ぽ']) == seq!['m', 'p', 'o'],
        romaji_of(seq!['ん', 'か']) == seq!['n', 'k', 'a'],
        romaji_of(seq!['ん', 'ー']) == seq!['n'],
        romaji_of(seq!['か', 'ー']) == seq!['k', 'a', 'a'],
        romaji_of(seq!['ひ', 'ー']) == seq!['h', 'i', 'i'],
        romaji_of(seq!['か', 'ん']) == seq!['k', 'a', 'n'],
{
    lemma_two_kana('っ', 'か');
    lemma_two_kana('っ', 'ち');
    lemma_two_kana('っ', 'ぱ');
    lemma_two_kana('ん', 'あ');
    lemma_two_kana('ん', 'や');
    lemma_two_kana('ん', 'ば');
    lemma_two_kana('ん', 'ま');
    lemma_two_kana('ん', 'ぽ');
    lemma_two_kana('ん', 'か');
    lemma_two_kana('ん', 'ー');
    lemma_two_kana('か', 'ー');
    lemma_two_kana('ひ', 'ー');
    lemma_two_kana('か', 'ん');
    assert(last_vowel(seq!['k', 'a']) == Some('a'));
    assert(last_vowel(seq!['h', 'i']) == Some('i'));
    assert(last_vowel(seq!['n']) == None::<char>) by {
        assert(seq!['n'].drop_last() == Seq::<char>::empty());
    }
}

// ── laws of the romanization ───────────────────────────────────────

/// Kana: hiragana U+3041..=U+309F and katakana U+30A0..=U+30FF.
pub open spec fn is_kana(c: char) -> bool {
    0x3041 <= c as u32 <= 0x309F || 0x30A0 <= c as u32 <= 0x30FF
}

proof fn lemma_hiragana_char_fixed(c: char)
    ensures
        hiragana_char(hiragana_char(c)) == hiragana_char(c),
{
    if is_katakana_letter(c) {
        let n = (c as u32 - 0x60) as u32;
        let d = n as char;
        assert(d as u32 == n);
        assert(!is_katakana_letter(d));
    }
}

/// Katakana and hiragana spellings of a word romanize alike: the romaji of a
/// text is the romaji of the text with its katakana letters turned into
/// hiragana.
pub proof fn lemma_katakana_romanizes_as_hiragana(s: Seq<char>)
    ensures
        romaji_of(s) == romaji_of(hiragana_seq(s)),
{
    assert forall|i: int| 0 <= i < s.len() implies #[trigger] hiragana_seq(hiragana_seq(s))[i]
        == hiragana_seq(s)[i] by {
        lemma_hiragana_char_fixed(s[i]);
    }
    assert(hiragana_seq(hiragana_seq(s)) == hiragana_seq(s));
}

proof fn lemma_morae_of_plain(s: Seq<char>)
    requires
        forall|i: int| 0 <= i < s.len() ==> !is_kana(#[trigger] s[i]),
    ensures
        morae_of(s) == s.map_values(|c: char| (c, None::<char>)),
    decreases s.len(),
{
    if s.len() > 0 {
        assert(!is_kana(s[0]));
        let t = s.skip(1);
        assert forall|i: int| 0 <= i < t.len() implies !is_kana(#[trigger] t[i]) by {
            assert(t[i] == s[i + 1]);
        }
        lemma_morae_of_plain(t);
        assert(s.map_values(|c: char| (c, None::<char>)) == seq![(s[0], None::<char>)]
            + t.map_values(|c: char| (c, None::<char>)));
    }
}

proof fn lemma_plain_mora_has_no_romaji(c: char)
    requires
        !is_kana(c),
    ensures
        mora_romaji_spec((c, None::<char>)) is None,
{
}

proof fn lemma_romaji_prefix_plain(s: Seq<char>, n: int)
    requires
        forall|i: int| 0 <= i < s.len() ==> !is_kana(#[trigger] s[i]),
        0 <= n <= s.len(),
    ensures
        romaji_prefix(s.map_values(|c: char| (c, None::<char>)), n) == s.take(n),
    decreases n,
{
    if n > 0 {
        let m = s.map_values(|c: char| (c, None::<char>));
        lemma_romaji_prefix_plain(s, n - 1);
        let c = s[n - 1];
        assert(!is_kana(c));
        assert(m[n - 1] == (c, None::<char>));
        lemma_plain_mora_has_no_romaji(c);
        assert(mora_piece(m, n - 1, s.take(n - 1)) == seq![c]);
        assert(s.take(n) == s.take(n - 1) + seq![c]);
    }
}

/// Text without kana passes through the romanization unchanged.
pub proof fn lemma_non_kana_unchanged(s: Seq<char>)
    requires
        forall|i: int| 0 <= i < s.len() ==> !is_kana(#[trigger] s[i]),
    ensures
        romaji_of(s) == s,
{
    assert forall|i: int| 0 <= i < s.len() implies #[trigger] hiragana_seq(s)[i] == s[i] by {
        assert(!is_kana(s[i]));
    }
    assert(hiragana_seq(s) == s);
    lemma_morae_of_plain(s);
    lemma_romaji_prefix_plain(s, s.len() as int);
    assert(s.take(s.len() as int) == s);
}

} // verus!
