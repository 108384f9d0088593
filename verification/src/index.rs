//! Search index and reverse indexes built from the kanji entries.
//!
//! Each index maps a key to the kanji it leads to, listed in the order the
//! entries are given and without repeats. Keys are kept once each; the JSON
//! writer orders them, so the output is reproducible.

use vstd::prelude::*;

use crate::kana::{kana_to_romaji, romaji_of};
use crate::keyed::ListMap;
use crate::schema::{KanjiEntry, RadicalEntry};
use crate::search::{jamo_seq, key_rank, KeyForm, MatchRank};
use crate::text::{
    chars_of, is_whitespace, string_of, trim_chars, trim_seq, trim_start_seq, unicode_white_space,
};

verus! {

/// The search index written to `search-index.json` (the same structure the
/// web app searches).
pub type SearchIndex = crate::search::SearchIndex;

// ── the index model ────────────────────────────────────────────────

/// What recording kanji `v` under key `k` does to an index: an empty key is
/// ignored, and a kanji already listed under the key is not listed again.
pub open spec fn push_unique_spec(
    m: Map<Seq<char>, Seq<Seq<char>>>,
    k: Seq<char>,
    v: Seq<char>,
) -> Map<Seq<char>, Seq<Seq<char>>> {
    if k.len() == 0 {
        m
    } else if m.dom().contains(k) {
        if m[k].contains(v) {
            m
        } else {
            m.insert(k, m[k].push(v))
        }
    } else {
        m.insert(k, seq![v])
    }
}

/// Records kanji `v` under each of `keys`, in order.
pub open spec fn add_keys(
    m: Map<Seq<char>, Seq<Seq<char>>>,
    keys: Seq<Seq<char>>,
    v: Seq<char>,
) -> Map<Seq<char>, Seq<Seq<char>>>
    decreases keys.len(),
{
    if keys.len() == 0 {
        m
    } else {
        push_unique_spec(add_keys(m, keys.drop_last(), v), keys.last(), v)
    }
}

/// The index that records, for each entry in turn, its character under each
/// of the keys `keys_of` gives for it.
pub open spec fn build_model(
    es: Seq<KanjiEntry>,
    keys_of: spec_fn(KanjiEntry) -> Seq<Seq<char>>,
) -> Map<Seq<char>, Seq<Seq<char>>>
    decreases es.len(),
{
    if es.len() == 0 {
        Map::empty()
    } else {
        add_keys(build_model(es.drop_last(), keys_of), keys_of(es.last()), es.last().character@)
    }
}

proof fn lemma_add_keys_push(
    m: Map<Seq<char>, Seq<Seq<char>>>,
    keys: Seq<Seq<char>>,
    k: Seq<char>,
    v: Seq<char>,
)
    ensures
        add_keys(m, keys.push(k), v) == push_unique_spec(add_keys(m, keys, v), k, v),
{
    assert(keys.push(k).drop_last() == keys);
}

proof fn lemma_add_keys_concat(
    m: Map<Seq<char>, Seq<Seq<char>>>,
    a: Seq<Seq<char>>,
    b: Seq<Seq<char>>,
    v: Seq<char>,
)
    ensures
        add_keys(m, a + b, v) == add_keys(add_keys(m, a, v), b, v),
    decreases b.len(),
{
    if b.len() == 0 {
        assert(a + b == a);
    } else {
        assert((a + b).drop_last() == a + b.drop_last());
        lemma_add_keys_concat(m, a, b.drop_last(), v);
    }
}

/// Law of the index model: every kanji recorded under a non-empty key is listed
/// under it, exactly once, and a key lists only kanji recorded under it.
pub proof fn lemma_add_keys_lists(
    m: Map<Seq<char>, Seq<Seq<char>>>,
    keys: Seq<Seq<char>>,
    v: Seq<char>,
)
    requires
        forall|k: Seq<char>| #[trigger] m.dom().contains(k) ==> m[k].no_duplicates() && k.len() > 0,
    ensures
        forall|k: Seq<char>|
            #[trigger] add_keys(m, keys, v).dom().contains(k) ==> add_keys(m, keys, v)[k].no_duplicates()
                && k.len() > 0,
        forall|i: int|
            0 <= i < keys.len() && keys[i].len() > 0 ==> #[trigger] add_keys(m, keys, v).dom().contains(
                keys[i],
            ) && add_keys(m, keys, v)[keys[i]].contains(v),
        forall|k: Seq<char>, w: Seq<char>|
            #[trigger] add_keys(m, keys, v).dom().contains(k) && #[trigger] add_keys(m, keys, v)[k].contains(w)
                ==> (m.dom().contains(k) && m[k].contains(w)) || (w == v && keys.contains(k)),
    decreases keys.len(),
{
    if keys.len() > 0 {
        let prev = add_keys(m, keys.drop_last(), v);
        lemma_add_keys_lists(m, keys.drop_last(), v);
        let k = keys.last();
        let cur = add_keys(m, keys, v);
        assert(cur == push_unique_spec(prev, k, v));
        assert forall|kk: Seq<char>| #[trigger] cur.dom().contains(kk) implies cur[kk].no_duplicates() && kk.len() > 0 by {
            if kk == k && k.len() > 0 && prev.dom().contains(k) && !prev[k].contains(v) {
                assert(prev[k].no_duplicates());
                assert forall|a: int, b: int| 0 <= a < cur[kk].len() && 0 <= b < cur[kk].len() && a != b implies cur[kk][a] != cur[kk][b] by {
                    if a == prev[k].len() as int {
                        assert(cur[kk][b] == prev[k][b]);
                    } else if b == prev[k].len() as int {
                        assert(cur[kk][a] == prev[k][a]);
                    }
                }
            }
        }
        assert forall|i: int| 0 <= i < keys.len() && keys[i].len() > 0 implies #[trigger] cur.dom().contains(keys[i])
            && cur[keys[i]].contains(v) by {
            if i < keys.len() - 1 {
                assert(keys.drop_last()[i] == keys[i]);
                if keys[i] == k {
                    assert(prev[k].contains(v));
                } else {
                    assert(prev.dom().contains(keys.drop_last()[i]));
                    assert(prev.dom().contains(keys[i]) && prev[keys[i]].contains(v));
                    if k.len() > 0 && prev.dom().contains(k) && !prev[k].contains(v) {
                        assert(cur[keys[i]] == prev[keys[i]]);
                    }
                }
            } else {
                if prev.dom().contains(k) && !prev[k].contains(v) {
                    assert(cur[k][prev[k].len() as int] == v);
                } else if !prev.dom().contains(k) {
                    assert(cur[k][0] == v);
                }
            }
        }
        assert forall|kk: Seq<char>, w: Seq<char>| #[trigger] cur.dom().contains(kk) && #[trigger] cur[kk].contains(w)
            implies (m.dom().contains(kk) && m[kk].contains(w)) || (w == v && keys.contains(kk)) by {
            if kk == k && k.len() > 0 {
                assert(keys[keys.len() - 1] == k);
                if prev.dom().contains(k) && !prev[k].contains(v) {
                    let t = choose|t: int| 0 <= t < cur[kk].len() && cur[kk][t] == w;
                    if t < prev[k].len() {
                        assert(prev[k].contains(w));
                    }
                }
                if prev.dom().contains(k) && prev[k].contains(w) {
                    if !(m.dom().contains(kk) && m[kk].contains(w)) {
                        let j = choose|j: int| 0 <= j < keys.drop_last().len() && keys.drop_last()[j] == kk;
                        assert(keys[j] == kk);
                    }
                }
            } else {
                assert(prev.dom().contains(kk) && prev[kk] == cur[kk]);
                if !(m.dom().contains(kk) && m[kk].contains(w)) {
                    let j = choose|j: int| 0 <= j < keys.drop_last().len() && keys.drop_last()[j] == kk;
                    assert(keys[j] == kk);
                }
            }
        }
    }
}

/// Records `value` under `key` in `map` (see [`push_unique_spec`]).
fn push_unique(map: &mut ListMap, key: String, value: &str)
    ensures
        final(map)@ == push_unique_spec(old(map)@, key@, value@),
{
    if key.as_str().is_empty() {
        return;
    }
    let found = match map.get(key.as_str()) {
        Some(vs) => {
            let mut listed = false;
            let mut i: usize = 0;
            while i < vs.len()
                invariant
                    i <= vs@.len(),
                    listed == (exists|t: int| 0 <= t < i && #[trigger] vs.deep_view()[t] == value@),
                decreases vs@.len() - i,
            {
                assert(vs.deep_view()[i as int] == vs@[i as int]@);
                let a = chars_of(vs[i].as_str());
                let b = chars_of(value);
                if crate::text::chars_eq(&a, &b) {
                    listed = true;
                }
                i += 1;
            }
            let mut next = clone_strings(vs);
            next.push(value.to_owned());
            Some((listed, next))
        },
        None => None,
    };
    match found {
        Some((listed, next)) => {
            if !listed {
                proof {
                    assert(next.deep_view() == old(map)@[key@].push(value@));
                    assert(!old(map)@[key@].contains(value@));
                }
                map.insert(key, next);
            } else {
                let ghost vs = old(map)@[key@];
                proof {
                    let t = choose|t: int| 0 <= t < vs.len() && #[trigger] vs[t] == value@;
                }
            }
        },
        None => {
            let mut one: Vec<String> = Vec::new();
            one.push(value.to_owned());
            assert(one.deep_view() == seq![value@]);
            map.insert(key, one);
        },
    }
}

/// A copy of a list of strings.
pub fn clone_strings(v: &Vec<String>) -> (r: Vec<String>)
    ensures
        r@ == v@,
        r.deep_view() == v.deep_view(),
{
    let mut r: Vec<String> = Vec::new();
    let mut i: usize = 0;
    while i < v.len()
        invariant
            i <= v@.len(),
            r@ == v@.take(i as int),
        decreases v@.len() - i,
    {
        r.push(v[i].clone());
        i += 1;
        assert(v@.take(i as int) == v@.take((i - 1) as int).push(v@[i - 1]));
    }
    assert(v@.take(v@.len() as int) == v@);
    r
}


// ── keys of an entry ───────────────────────────────────────────────

/// `s` with every `-` removed.
pub open spec fn without_dashes(s: Seq<char>) -> Seq<char>
    decreases s.len(),
{
    if s.len() == 0 {
        Seq::empty()
    } else if s.last() == '-' {
        without_dashes(s.drop_last())
    } else {
        without_dashes(s.drop_last()).push(s.last())
    }
}

/// The plain kana of a kun reading: the stem/okurigana separator `-` removed
/// ("まな-ぶ" gives "まなぶ"), which is how the written form ("学ぶ") is read.
pub fn normalize_kun_reading(reading: &str) -> (r: String)
    ensures
        r@ == without_dashes(reading@),
{
    let v = chars_of(reading);
    let mut out: Vec<char> = Vec::new();
    let mut i: usize = 0;
    while i < v.len()
        invariant
            i <= v@.len(),
            out@ == without_dashes(v@.take(i as int)),
        decreases v@.len() - i,
    {
        if v[i] != '-' {
            out.push(v[i]);
        }
        i += 1;
        assert(v@.take(i as int).drop_last() == v@.take((i - 1) as int));
    }
    assert(v@.take(v@.len() as int) == v@);
    string_of(&out)
}

/// Separators between meaning keywords: a comma or white space.
pub open spec fn is_keyword_separator(c: char) -> bool {
    c == ',' || unicode_white_space(c)
}

/// The pieces between separators, as `str::split` yields them (empty pieces
/// included; an empty string is one empty piece).
pub open spec fn split_pieces(s: Seq<char>) -> Seq<Seq<char>>
    decreases s.len(),
{
    if s.len() == 0 {
        seq![Seq::empty()]
    } else {
        let p = split_pieces(s.drop_last());
        if is_keyword_separator(s.last()) {
            p.push(Seq::empty())
        } else {
            p.update(p.len() - 1, p.last().push(s.last()))
        }
    }
}

proof fn lemma_split_pieces_nonempty(s: Seq<char>)
    ensures
        split_pieces(s).len() >= 1,
    decreases s.len(),
{
    if s.len() > 0 {
        lemma_split_pieces_nonempty(s.drop_last());
    }
}

/// The trimmed non-empty pieces that differ from the whole meaning, in order.
pub open spec fn extra_keywords(pieces: Seq<Seq<char>>, whole: Seq<char>) -> Seq<Seq<char>>
    decreases pieces.len(),
{
    if pieces.len() == 0 {
        Seq::empty()
    } else {
        let rest = extra_keywords(pieces.drop_last(), whole);
        let p = trim_seq(pieces.last());
        if p.len() > 0 && p != whole {
            rest.push(p)
        } else {
            rest
        }
    }
}

/// The search keywords of one Korean meaning: the whole (trimmed) meaning,
/// then each comma- or space-separated part of it that is not empty and not
/// the whole ("학문, 공부" gives "학문, 공부", "학문", "공부").
pub open spec fn meaning_keywords_spec(meaning: Seq<char>) -> Seq<Seq<char>> {
    let t = trim_seq(meaning);
    seq![t] + extra_keywords(split_pieces(t), t)
}

fn keep_keyword(keys: &mut Vec<String>, piece: &Vec<char>, whole: &Vec<char>)
    ensures
        ({
            let p = trim_seq(piece@);
            final(keys).deep_view() == if p.len() > 0 && p != whole@ {
                old(keys).deep_view().push(p)
            } else {
                old(keys).deep_view()
            }
        }),
{
    let p = trim_chars(piece);
    if p.len() > 0 && !crate::text::chars_eq(&p, whole) {
        let s = string_of(&p);
        keys.push(s);
        assert(keys.deep_view() == old(keys).deep_view().push(p@));
    }
}

/// The search keywords of a Korean meaning (see [`meaning_keywords_spec`]).
pub fn meaning_keywords(meaning: &str) -> (keys: Vec<String>)
    ensures
        keys.deep_view() == meaning_keywords_spec(meaning@),
{
    let t = trim_chars(&chars_of(meaning));
    let mut keys: Vec<String> = Vec::new();
    keys.push(string_of(&t));
    let mut cur: Vec<char> = Vec::new();
    let ghost mut done: Seq<Seq<char>> = Seq::empty();
    let mut i: usize = 0;
    while i < t.len()
        invariant
            i <= t@.len(),
            split_pieces(t@.take(i as int)) == done.push(cur@),
            keys.deep_view() == seq![t@] + extra_keywords(done, t@),
        decreases t@.len() - i,
    {
        let c = t[i];
        proof {
            assert(t@.take(i + 1).drop_last() == t@.take(i as int));
            assert(t@.take(i + 1).last() == c);
        }
        if c == ',' || is_whitespace(c) {
            keep_keyword(&mut keys, &cur, &t);
            proof {
                assert(done.push(cur@).drop_last() == done);
                assert(extra_keywords(done.push(cur@), t@) == if trim_seq(cur@).len() > 0 && trim_seq(cur@) != t@ {
                    extra_keywords(done, t@).push(trim_seq(cur@))
                } else {
                    extra_keywords(done, t@)
                });
                done = done.push(cur@);
            }
            cur = Vec::new();
        } else {
            let ghost before = cur@;
            cur.push(c);
            proof {
                assert(done.push(before).update(done.len() as int, cur@) == done.push(cur@));
            }
        }
        i += 1;
    }
    assert(t@.take(t@.len() as int) == t@);
    keep_keyword(&mut keys, &cur, &t);
    proof {
        assert(done.push(cur@).drop_last() == done);
    }
    keys
}


/// The characters `t[i..j]` form one word of `t`: a maximal non-empty run of
/// characters that are neither a comma nor white space.
pub open spec fn word_at(t: Seq<char>, i: int, j: int) -> bool {
    &&& 0 <= i < j <= t.len()
    &&& forall|x: int| i <= x < j ==> #[trigger] t[x] != ',' && !unicode_white_space(t[x])
    &&& (i == 0 || t[i - 1] == ',' || unicode_white_space(t[i - 1]))
    &&& (j == t.len() || t[j] == ',' || unicode_white_space(t[j]))
}

proof fn lemma_last_piece(s: Seq<char>, i: int)
    requires
        0 <= i <= s.len(),
        i == 0 || is_keyword_separator(s[i - 1]),
        forall|x: int| i <= x < s.len() ==> !is_keyword_separator(#[trigger] s[x]),
    ensures
        split_pieces(s).last() == s.subrange(i, s.len() as int),
    decreases s.len(),
{
    if s.len() > i {
        let p = s.drop_last();
        assert forall|x: int| i <= x < p.len() implies !is_keyword_separator(#[trigger] p[x]) by {
            assert(p[x] == s[x]);
        }
        if i > 0 {
            assert(p[i - 1] == s[i - 1]);
        }
        lemma_last_piece(p, i);
        lemma_split_pieces_nonempty(p);
        assert(s.subrange(i, s.len() as int) == p.subrange(i, p.len() as int).push(s.last()));
    } else if s.len() > 0 {
        lemma_split_pieces_nonempty(s.drop_last());
        assert(s.subrange(i, s.len() as int) == Seq::<char>::empty());
    } else {
        assert(s.subrange(i, s.len() as int) == Seq::<char>::empty());
    }
}

/// The pieces of a prefix, but for the last one, stay pieces of any longer prefix.
proof fn lemma_pieces_grow(t: Seq<char>, n: int, m: int)
    requires
        0 <= n <= m <= t.len(),
    ensures
        split_pieces(t.take(n)).len() <= split_pieces(t.take(m)).len(),
        forall|x: int|
            0 <= x < split_pieces(t.take(n)).len() - 1 ==> #[trigger] split_pieces(t.take(m))[x]
                == split_pieces(t.take(n))[x],
    decreases m - n,
{
    if m > n {
        lemma_pieces_grow(t, n, m - 1);
        assert(t.take(m).drop_last() == t.take(m - 1));
        lemma_split_pieces_nonempty(t.take(m - 1));
    }
}

proof fn lemma_extra_contains(pieces: Seq<Seq<char>>, whole: Seq<char>, x: int)
    requires
        0 <= x < pieces.len(),
        trim_seq(pieces[x]).len() > 0,
        trim_seq(pieces[x]) != whole,
    ensures
        extra_keywords(pieces, whole).contains(trim_seq(pieces[x])),
    decreases pieces.len(),
{
    let rest = extra_keywords(pieces.drop_last(), whole);
    if x < pieces.len() - 1 {
        assert(pieces.drop_last()[x] == pieces[x]);
        lemma_extra_contains(pieces.drop_last(), whole, x);
        let w = choose|w: int| 0 <= w < rest.len() && rest[w] == trim_seq(pieces[x]);
        let p = trim_seq(pieces.last());
        if p.len() > 0 && p != whole {
            assert(rest.push(p)[w] == rest[w]);
        }
    } else {
        assert(extra_keywords(pieces, whole) == rest.push(trim_seq(pieces[x])));
        assert(extra_keywords(pieces, whole)[rest.len() as int] == trim_seq(pieces[x]));
    }
}

/// Commas and white space separate keywords: every word of the trimmed meaning
/// is one of its search keywords.
pub proof fn lemma_meaning_words_are_keywords(meaning: Seq<char>, i: int, j: int)
    requires
        word_at(trim_seq(meaning), i, j),
    ensures
        meaning_keywords_spec(meaning).contains(trim_seq(meaning).subrange(i, j)),
{
    let t = trim_seq(meaning);
    let w = t.subrange(i, j);
    let s = t.take(j);
    assert forall|x: int| i <= x < s.len() implies !is_keyword_separator(#[trigger] s[x]) by {
        assert(s[x] == t[x]);
    }
    if i > 0 {
        assert(s[i - 1] == t[i - 1]);
    }
    lemma_last_piece(s, i);
    assert(s.subrange(i, s.len() as int) == w);
    lemma_split_pieces_nonempty(s);
    // the word is a piece of the whole meaning
    let pieces = split_pieces(t);
    let k = split_pieces(s).len() - 1;
    if j == t.len() {
        assert(s == t);
    } else {
        assert(t.take(j + 1).drop_last() == s);
        assert(t.take(j + 1).last() == t[j]);
        assert(split_pieces(t.take(j + 1)) == split_pieces(s).push(Seq::<char>::empty()));
        lemma_pieces_grow(t, j + 1, t.len() as int);
        assert(t.take(t.len() as int) == t);
    }
    assert(pieces[k] == w);
    // a word is its own trim
    assert(w[0] == t[i]);
    assert(w.last() == t[j - 1]);
    assert(trim_start_seq(w) == w);
    assert(trim_seq(w) == w);
    let keys = meaning_keywords_spec(meaning);
    if w == t {
        assert(keys[0] == t);
    } else {
        lemma_extra_contains(pieces, t, k);
        let e = extra_keywords(pieces, t);
        let z = choose|z: int| 0 <= z < e.len() && e[z] == w;
        assert(keys[z + 1] == w);
    }
}

/// Removing the stem marks leaves no `-` and keeps every other character in
/// order; a reading without `-` is unchanged.
pub proof fn lemma_without_dashes(s: Seq<char>)
    ensures
        forall|i: int| 0 <= i < without_dashes(s).len() ==> #[trigger] without_dashes(s)[i] != '-',
        without_dashes(s).len() <= s.len(),
        (forall|i: int| 0 <= i < s.len() ==> #[trigger] s[i] != '-') ==> without_dashes(s) == s,
    decreases s.len(),
{
    if s.len() > 0 {
        let p = s.drop_last();
        lemma_without_dashes(p);
        if s.last() != '-' {
            let w = without_dashes(p);
            assert forall|i: int| 0 <= i < w.push(s.last()).len() implies #[trigger] w.push(s.last())[i]
                != '-' by {
                if i < w.len() {
                    assert(w.push(s.last())[i] == w[i]);
                }
            }
        }
        if forall|i: int| 0 <= i < s.len() ==> #[trigger] s[i] != '-' {
            assert forall|i: int| 0 <= i < p.len() implies #[trigger] p[i] != '-' by {
                assert(p[i] == s[i]);
            }
            assert(s[s.len() - 1] != '-');
            assert(p.push(s.last()) == s);
        }
    }
}

/// `まな-ぶ` reads `まなぶ`: the stem mark goes, the kana stay.
pub proof fn lemma_without_dashes_example()
    ensures
        without_dashes(seq!['ま', 'な', '-', 'ぶ']) == seq!['ま', 'な', 'ぶ'],
{
    let e = Seq::<char>::empty();
    let s1 = seq!['ま'];
    let s2 = seq!['ま', 'な'];
    let s3 = seq!['ま', 'な', '-'];
    let s4 = seq!['ま', 'な', '-', 'ぶ'];
    assert(without_dashes(e) == e);
    assert(s1.drop_last() == e && s1.last() == 'ま');
    assert(without_dashes(s1) == e.push('ま'));
    assert(e.push('ま') == s1);
    assert(s2.drop_last() == s1 && s2.last() == 'な');
    assert(without_dashes(s2) == s1.push('な'));
    assert(s1.push('な') == s2);
    assert(s3.drop_last() == s2 && s3.last() == '-');
    assert(without_dashes(s3) == s2);
    assert(s4.drop_last() == s3 && s4.last() == 'ぶ');
    assert(without_dashes(s4) == s2.push('ぶ'));
    assert(s2.push('ぶ') == seq!['ま', 'な', 'ぶ']);
}

// ── the search index ───────────────────────────────────────────────

pub open spec fn kr_keys(e: KanjiEntry) -> Seq<Seq<char>> {
    seq![e.korean.reading@]
}

/// The keywords of the meanings `ms`, meaning after meaning.
pub open spec fn concat_keywords(ms: Seq<String>) -> Seq<Seq<char>>
    decreases ms.len(),
{
    if ms.len() == 0 {
        Seq::empty()
    } else {
        concat_keywords(ms.drop_last()) + meaning_keywords_spec(ms.last()@)
    }
}

pub open spec fn meaning_keys(e: KanjiEntry) -> Seq<Seq<char>> {
    concat_keywords(e.meanings@)
}

pub open spec fn on_keys(e: KanjiEntry) -> Seq<Seq<char>> {
    e.readings.on@.map_values(|s: String| s@)
}

pub open spec fn kun_keys(e: KanjiEntry) -> Seq<Seq<char>> {
    e.readings.kun@.map_values(|k: crate::schema::KunReading| without_dashes(k.reading@))
}

/// Romaji of the on readings, then of the (dash-free) kun readings.
pub open spec fn romaji_keys(e: KanjiEntry) -> Seq<Seq<char>> {
    on_keys(e).map_values(|s: Seq<char>| romaji_of(s)) + kun_keys(e).map_values(
        |s: Seq<char>| romaji_of(s),
    )
}

pub open spec fn kr_model(es: Seq<KanjiEntry>) -> Map<Seq<char>, Seq<Seq<char>>> {
    build_model(es, |e: KanjiEntry| kr_keys(e))
}

pub open spec fn meaning_model(es: Seq<KanjiEntry>) -> Map<Seq<char>, Seq<Seq<char>>> {
    build_model(es, |e: KanjiEntry| meaning_keys(e))
}

pub open spec fn on_model(es: Seq<KanjiEntry>) -> Map<Seq<char>, Seq<Seq<char>>> {
    build_model(es, |e: KanjiEntry| on_keys(e))
}

pub open spec fn kun_model(es: Seq<KanjiEntry>) -> Map<Seq<char>, Seq<Seq<char>>> {
    build_model(es, |e: KanjiEntry| kun_keys(e))
}

pub open spec fn romaji_model(es: Seq<KanjiEntry>) -> Map<Seq<char>, Seq<Seq<char>>> {
    build_model(es, |e: KanjiEntry| romaji_keys(e))
}

/// Each entry's character, registered under itself.
pub open spec fn registry_model(es: Seq<KanjiEntry>) -> Map<Seq<char>, Seq<char>>
    decreases es.len(),
{
    if es.len() == 0 {
        Map::empty()
    } else {
        registry_model(es.drop_last()).insert(es.last().character@, es.last().character@)
    }
}

/// Records `value` under each of `keys`, in order.
fn add_all(map: &mut ListMap, keys: &Vec<String>, value: &str)
    ensures
        final(map)@ == add_keys(old(map)@, keys.deep_view(), value@),
{
    let mut i: usize = 0;
    while i < keys.len()
        invariant
            i <= keys@.len(),
            map@ == add_keys(old(map)@, keys.deep_view().take(i as int), value@),
        decreases keys@.len() - i,
    {
        proof {
            assert(keys.deep_view().take(i + 1) == keys.deep_view().take(i as int).push(keys@[i as int]@));
            lemma_add_keys_push(old(map)@, keys.deep_view().take(i as int), keys@[i as int]@, value@);
        }
        push_unique(map, keys[i].clone(), value);
        i += 1;
    }
    assert(keys.deep_view().take(keys@.len() as int) == keys.deep_view());
}

proof fn lemma_models_push(es: Seq<KanjiEntry>, e: KanjiEntry)
    ensures
        registry_model(es.push(e)) == registry_model(es).insert(e.character@, e.character@),
        kr_model(es.push(e)) == add_keys(kr_model(es), kr_keys(e), e.character@),
        meaning_model(es.push(e)) == add_keys(meaning_model(es), meaning_keys(e), e.character@),
        on_model(es.push(e)) == add_keys(on_model(es), on_keys(e), e.character@),
        kun_model(es.push(e)) == add_keys(kun_model(es), kun_keys(e), e.character@),
        romaji_model(es.push(e)) == add_keys(romaji_model(es), romaji_keys(e), e.character@),
{
    assert(es.push(e).drop_last() == es);
}

fn add_meaning_keys(map: &mut ListMap, e: &KanjiEntry)
    ensures
        final(map)@ == add_keys(old(map)@, meaning_keys(*e), e.character@),
{
    let c = e.character.as_str();
    let mut j: usize = 0;
    while j < e.meanings.len()
        invariant
            j <= e.meanings@.len(),
            c@ == e.character@,
            map@ == add_keys(old(map)@, concat_keywords(e.meanings@.take(j as int)), e.character@),
        decreases e.meanings@.len() - j,
    {
        let kws = meaning_keywords(e.meanings[j].as_str());
        proof {
            let ms = e.meanings@.take(j + 1);
            assert(ms.drop_last() == e.meanings@.take(j as int));
            assert(ms.last() == e.meanings@[j as int]);
            assert(concat_keywords(ms) == concat_keywords(e.meanings@.take(j as int)) + kws.deep_view());
            lemma_add_keys_concat(old(map)@, concat_keywords(e.meanings@.take(j as int)), kws.deep_view(), e.character@);
        }
        add_all(map, &kws, c);
        j += 1;
    }
    assert(e.meanings@.take(e.meanings@.len() as int) == e.meanings@);
}

fn add_on_keys(on_map: &mut ListMap, romaji_map: &mut ListMap, e: &KanjiEntry)
    ensures
        final(on_map)@ == add_keys(old(on_map)@, on_keys(*e), e.character@),
        final(romaji_map)@ == add_keys(old(romaji_map)@, on_keys(*e).map_values(|s: Seq<char>| romaji_of(s)), e.character@),
{
    let c = e.character.as_str();
    let ghost rk = on_keys(*e).map_values(|s: Seq<char>| romaji_of(s));
    let mut j: usize = 0;
    while j < e.readings.on.len()
        invariant
            j <= e.readings.on@.len(),
            c@ == e.character@,
            rk == on_keys(*e).map_values(|s: Seq<char>| romaji_of(s)),
            on_map@ == add_keys(old(on_map)@, on_keys(*e).take(j as int), e.character@),
            romaji_map@ == add_keys(old(romaji_map)@, rk.take(j as int), e.character@),
        decreases e.readings.on@.len() - j,
    {
        let on = &e.readings.on[j];
        proof {
            assert(on_keys(*e)[j as int] == on@);
            assert(on_keys(*e).take(j + 1) == on_keys(*e).take(j as int).push(on@));
            lemma_add_keys_push(old(on_map)@, on_keys(*e).take(j as int), on@, e.character@);
            assert(rk[j as int] == romaji_of(on@));
            assert(rk.take(j + 1) == rk.take(j as int).push(romaji_of(on@)));
            lemma_add_keys_push(old(romaji_map)@, rk.take(j as int), romaji_of(on@), e.character@);
        }
        push_unique(on_map, on.clone(), c);
        push_unique(romaji_map, kana_to_romaji(on.as_str()), c);
        j += 1;
    }
    assert(on_keys(*e).take(e.readings.on@.len() as int) == on_keys(*e));
    assert(rk.take(e.readings.on@.len() as int) == rk);
}

fn add_kun_keys(kun_map: &mut ListMap, romaji_map: &mut ListMap, e: &KanjiEntry)
    ensures
        final(kun_map)@ == add_keys(old(kun_map)@, kun_keys(*e), e.character@),
        final(romaji_map)@ == add_keys(old(romaji_map)@, kun_keys(*e).map_values(|s: Seq<char>| romaji_of(s)), e.character@),
{
    let c = e.character.as_str();
    let ghost rk = kun_keys(*e).map_values(|s: Seq<char>| romaji_of(s));
    let mut j: usize = 0;
    while j < e.readings.kun.len()
        invariant
            j <= e.readings.kun@.len(),
            c@ == e.character@,
            rk == kun_keys(*e).map_values(|s: Seq<char>| romaji_of(s)),
            kun_map@ == add_keys(old(kun_map)@, kun_keys(*e).take(j as int), e.character@),
            romaji_map@ == add_keys(old(romaji_map)@, rk.take(j as int), e.character@),
        decreases e.readings.kun@.len() - j,
    {
        let normalized = normalize_kun_reading(e.readings.kun[j].reading.as_str());
        proof {
            assert(kun_keys(*e)[j as int] == normalized@);
            assert(kun_keys(*e).take(j + 1) == kun_keys(*e).take(j as int).push(normalized@));
            lemma_add_keys_push(old(kun_map)@, kun_keys(*e).take(j as int), normalized@, e.character@);
            assert(rk[j as int] == romaji_of(normalized@));
            assert(rk.take(j + 1) == rk.take(j as int).push(romaji_of(normalized@)));
            lemma_add_keys_push(old(romaji_map)@, rk.take(j as int), romaji_of(normalized@), e.character@);
        }
        let romaji = kana_to_romaji(normalized.as_str());
        push_unique(kun_map, normalized, c);
        push_unique(romaji_map, romaji, c);
        j += 1;
    }
    assert(kun_keys(*e).take(e.readings.kun@.len() as int) == kun_keys(*e));
    assert(rk.take(e.readings.kun@.len() as int) == rk);
}

/// Builds the search index for the five entry routes: the kanji itself, its
/// Korean sound, its Korean meaning keywords, its on and kun readings (kun
/// without the stem separator), and the romaji of those readings.
pub fn build_search_index(entries: &Vec<KanjiEntry>) -> (idx: SearchIndex)
    ensures
        idx.by_kanji@ == registry_model(entries@),
        idx.by_kr_sound@ == kr_model(entries@),
        idx.by_meaning@ == meaning_model(entries@),
        idx.by_on@ == on_model(entries@),
        idx.by_kun@ == kun_model(entries@),
        idx.by_romaji@ == romaji_model(entries@),
{
    let mut idx = SearchIndex::new();
    let mut i: usize = 0;
    while i < entries.len()
        invariant
            i <= entries@.len(),
            idx.by_kanji@ == registry_model(entries@.take(i as int)),
            idx.by_kr_sound@ == kr_model(entries@.take(i as int)),
            idx.by_meaning@ == meaning_model(entries@.take(i as int)),
            idx.by_on@ == on_model(entries@.take(i as int)),
            idx.by_kun@ == kun_model(entries@.take(i as int)),
            idx.by_romaji@ == romaji_model(entries@.take(i as int)),
        decreases entries@.len() - i,
    {
        let e = &entries[i];
        let c = e.character.as_str();
        let ghost es = entries@.take(i as int);
        proof {
            assert(entries@.take(i + 1) == es.push(*e));
            lemma_models_push(es, *e);
            let one = kr_keys(*e);
            assert(one.drop_last() == Seq::<Seq<char>>::empty());
            assert(one.last() == e.korean.reading@);
            assert(add_keys(kr_model(es), one.drop_last(), e.character@) == kr_model(es));
            lemma_add_keys_concat(romaji_model(es), on_keys(*e).map_values(|s: Seq<char>| romaji_of(s)),
                kun_keys(*e).map_values(|s: Seq<char>| romaji_of(s)), e.character@);
        }
        idx.by_kanji.insert(e.character.clone(), e.character.clone());
        push_unique(&mut idx.by_kr_sound, e.korean.reading.clone(), c);
        add_meaning_keys(&mut idx.by_meaning, e);
        add_on_keys(&mut idx.by_on, &mut idx.by_romaji, e);
        add_kun_keys(&mut idx.by_kun, &mut idx.by_romaji, e);
        i += 1;
    }
    assert(entries@.take(entries@.len() as int) == entries@);
    idx
}


// ── reverse indexes and lists ──────────────────────────────────────

pub open spec fn component_keys(e: KanjiEntry) -> Seq<Seq<char>> {
    e.components@.map_values(|c: crate::schema::Component| c.form@)
}

pub open spec fn word_keys(e: KanjiEntry) -> Seq<Seq<char>> {
    e.words@.map_values(|w: crate::schema::Word| w.word@)
}

pub open spec fn radical_model(es: Seq<KanjiEntry>) -> Map<Seq<char>, Seq<Seq<char>>> {
    build_model(es, |e: KanjiEntry| component_keys(e))
}

pub open spec fn word_model(es: Seq<KanjiEntry>) -> Map<Seq<char>, Seq<Seq<char>>> {
    build_model(es, |e: KanjiEntry| word_keys(e))
}

/// Component (radical or part) → the kanji that have it as a component
/// (`by-radical.json`).
pub fn build_by_radical_index(entries: &Vec<KanjiEntry>) -> (idx: ListMap)
    ensures
        idx@ == radical_model(entries@),
{
    let mut idx = ListMap::new();
    let mut i: usize = 0;
    while i < entries.len()
        invariant
            i <= entries@.len(),
            idx@ == radical_model(entries@.take(i as int)),
        decreases entries@.len() - i,
    {
        let e = &entries[i];
        let c = e.character.as_str();
        let ghost base = idx@;
        let ghost es = entries@.take(i as int);
        proof {
            assert(entries@.take(i + 1) == es.push(*e));
            assert(es.push(*e).drop_last() == es);
        }
        let mut j: usize = 0;
        while j < e.components.len()
            invariant
                j <= e.components@.len(),
                c@ == e.character@,
                idx@ == add_keys(base, component_keys(*e).take(j as int), e.character@),
            decreases e.components@.len() - j,
        {
            proof {
                assert(component_keys(*e).take(j + 1) == component_keys(*e).take(j as int).push(e.components@[j as int].form@));
                lemma_add_keys_push(base, component_keys(*e).take(j as int), e.components@[j as int].form@, e.character@);
            }
            push_unique(&mut idx, e.components[j].form.clone(), c);
            j += 1;
        }
        assert(component_keys(*e).take(e.components@.len() as int) == component_keys(*e));
        i += 1;
    }
    assert(entries@.take(entries@.len() as int) == entries@);
    idx
}

/// Word → the kanji whose page lists it (`by-word.json`).
pub fn build_by_word_index(entries: &Vec<KanjiEntry>) -> (idx: ListMap)
    ensures
        idx@ == word_model(entries@),
{
    let mut idx = ListMap::new();
    let mut i: usize = 0;
    while i < entries.len()
        invariant
            i <= entries@.len(),
            idx@ == word_model(entries@.take(i as int)),
        decreases entries@.len() - i,
    {
        let e = &entries[i];
        let c = e.character.as_str();
        let ghost base = idx@;
        let ghost es = entries@.take(i as int);
        proof {
            assert(entries@.take(i + 1) == es.push(*e));
            assert(es.push(*e).drop_last() == es);
        }
        let mut j: usize = 0;
        while j < e.words.len()
            invariant
                j <= e.words@.len(),
                c@ == e.character@,
                idx@ == add_keys(base, word_keys(*e).take(j as int), e.character@),
            decreases e.words@.len() - j,
        {
            proof {
                assert(word_keys(*e).take(j + 1) == word_keys(*e).take(j as int).push(e.words@[j as int].word@));
                lemma_add_keys_push(base, word_keys(*e).take(j as int), e.words@[j as int].word@, e.character@);
            }
            push_unique(&mut idx, e.words[j].word.clone(), c);
            j += 1;
        }
        assert(word_keys(*e).take(e.words@.len() as int) == word_keys(*e));
        i += 1;
    }
    assert(entries@.take(entries@.len() as int) == entries@);
    idx
}

/// One item of `kanji-list.json`: the summary the browse grid shows.
#[derive(Debug, Clone, PartialEq)]
pub struct KanjiSummaryItem {
    pub character: String,
    pub korean_reading: String,
    pub meanings: Vec<String>,
    pub jlpt: Option<String>,
    pub stroke_count: Option<u32>,
    pub grade: Option<u8>,
}

/// The summary of one entry.
pub open spec fn summarizes(item: KanjiSummaryItem, e: KanjiEntry) -> bool {
    &&& item.character@ == e.character@
    &&& item.korean_reading@ == e.korean.reading@
    &&& item.meanings@ == e.meanings@
    &&& item.jlpt == e.jlpt
    &&& item.stroke_count == e.stroke_count
    &&& item.grade == e.grade
}

fn clone_opt_string(s: &Option<String>) -> (r: Option<String>)
    ensures
        r == *s,
{
    match s {
        Some(v) => Some(v.clone()),
        None => None,
    }
}

/// Two summaries hold the same values.
pub open spec fn same_summary(a: KanjiSummaryItem, b: KanjiSummaryItem) -> bool {
    &&& a.character@ == b.character@
    &&& a.korean_reading@ == b.korean_reading@
    &&& a.meanings@ == b.meanings@
    &&& a.jlpt == b.jlpt
    &&& a.stroke_count == b.stroke_count
    &&& a.grade == b.grade
}

impl KanjiSummaryItem {
    /// A copy of this summary.
    pub fn clone_summary(&self) -> (r: Self)
        ensures
            same_summary(r, *self),
    {
        KanjiSummaryItem {
            character: self.character.clone(),
            korean_reading: self.korean_reading.clone(),
            meanings: clone_strings(&self.meanings),
            jlpt: clone_opt_string(&self.jlpt),
            stroke_count: self.stroke_count,
            grade: self.grade,
        }
    }
}

/// The `kanji-list.json` array: one summary per entry, in order.
pub fn build_kanji_list(entries: &Vec<KanjiEntry>) -> (list: Vec<KanjiSummaryItem>)
    ensures
        list@.len() == entries@.len(),
        forall|i: int| 0 <= i < list@.len() ==> summarizes(#[trigger] list@[i], entries@[i]),
{
    let mut list: Vec<KanjiSummaryItem> = Vec::new();
    let mut i: usize = 0;
    while i < entries.len()
        invariant
            i <= entries@.len(),
            list@.len() == i,
            forall|t: int| 0 <= t < i ==> summarizes(#[trigger] list@[t], entries@[t]),
        decreases entries@.len() - i,
    {
        let e = &entries[i];
        list.push(
            KanjiSummaryItem {
                character: e.character.clone(),
                korean_reading: e.korean.reading.clone(),
                meanings: clone_strings(&e.meanings),
                jlpt: clone_opt_string(&e.jlpt),
                stroke_count: e.stroke_count,
                grade: e.grade,
            },
        );
        i += 1;
    }
    list
}

/// One item of `radicals-list.json`: a radical and how many registered kanji
/// have it as a component.
#[derive(Debug, Clone, PartialEq)]
pub struct RadicalSummary {
    pub radical: String,
    pub name: String,
    pub meaning: String,
    pub stroke_count: u32,
    /// Number of registered kanji that have this radical as a component.
    pub kanji_count: usize,
}

/// How many kanji `by_radical` lists under `r` (none when `r` is not a key).
pub open spec fn member_count(by_radical: Map<Seq<char>, Seq<Seq<char>>>, r: Seq<char>) -> nat {
    if by_radical.dom().contains(r) {
        by_radical[r].len()
    } else {
        0
    }
}

/// The `radicals-list.json` array: each radical's summary with its member count.
pub fn build_radicals_list(radicals: &Vec<RadicalEntry>, by_radical: &ListMap) -> (list: Vec<RadicalSummary>)
    ensures
        list@.len() == radicals@.len(),
        forall|i: int|
            0 <= i < list@.len() ==> {
                let item = #[trigger] list@[i];
                let r = radicals@[i];
                &&& item.radical@ == r.radical@
                &&& item.name@ == r.name@
                &&& item.meaning@ == r.meaning@
                &&& item.stroke_count == r.stroke_count
                &&& item.kanji_count == member_count(by_radical@, r.radical@)
            },
{
    let mut list: Vec<RadicalSummary> = Vec::new();
    let mut i: usize = 0;
    while i < radicals.len()
        invariant
            i <= radicals@.len(),
            list@.len() == i,
            forall|t: int|
                0 <= t < i ==> {
                    let item = #[trigger] list@[t];
                    let r = radicals@[t];
                    &&& item.radical@ == r.radical@
                    &&& item.name@ == r.name@
                    &&& item.meaning@ == r.meaning@
                    &&& item.stroke_count == r.stroke_count
                    &&& item.kanji_count == member_count(by_radical@, r.radical@)
                },
        decreases radicals@.len() - i,
    {
        let r = &radicals[i];
        let count = match by_radical.get(r.radical.as_str()) {
            Some(members) => members.len(),
            None => 0,
        };
        list.push(
            RadicalSummary {
                radical: r.radical.clone(),
                name: r.name.clone(),
                meaning: r.meaning.clone(),
                stroke_count: r.stroke_count,
                kanji_count: count,
            },
        );
        i += 1;
    }
    list
}

// ── every route leads to its kanji ─────────────────────────────────

proof fn lemma_push_unique_keeps(
    m: Map<Seq<char>, Seq<Seq<char>>>,
    k: Seq<char>,
    v: Seq<char>,
    kk: Seq<char>,
    w: Seq<char>,
)
    requires
        m.dom().contains(kk),
        m[kk].contains(w),
    ensures
        push_unique_spec(m, k, v).dom().contains(kk),
        push_unique_spec(m, k, v)[kk].contains(w),
{
    if k.len() > 0 && m.dom().contains(k) && !m[k].contains(v) && kk == k {
        let i = choose|i: int| 0 <= i < m[k].len() && m[k][i] == w;
        assert(m[k].push(v)[i] == w);
    }
}

proof fn lemma_add_keys_keeps(
    m: Map<Seq<char>, Seq<Seq<char>>>,
    keys: Seq<Seq<char>>,
    v: Seq<char>,
    kk: Seq<char>,
    w: Seq<char>,
)
    requires
        m.dom().contains(kk),
        m[kk].contains(w),
    ensures
        add_keys(m, keys, v).dom().contains(kk),
        add_keys(m, keys, v)[kk].contains(w),
    decreases keys.len(),
{
    if keys.len() > 0 {
        lemma_add_keys_keeps(m, keys.drop_last(), v, kk, w);
        lemma_push_unique_keeps(add_keys(m, keys.drop_last(), v), keys.last(), v, kk, w);
    }
}

proof fn lemma_add_keys_has(m: Map<Seq<char>, Seq<Seq<char>>>, keys: Seq<Seq<char>>, v: Seq<char>, j: int)
    requires
        0 <= j < keys.len(),
        keys[j].len() > 0,
    ensures
        add_keys(m, keys, v).dom().contains(keys[j]),
        add_keys(m, keys, v)[keys[j]].contains(v),
    decreases keys.len(),
{
    let prev = add_keys(m, keys.drop_last(), v);
    let k = keys.last();
    if j == keys.len() - 1 {
        if prev.dom().contains(k) && !prev[k].contains(v) {
            assert(prev[k].push(v)[prev[k].len() as int] == v);
        }
        if !prev.dom().contains(k) {
            assert(seq![v][0] == v);
        }
    } else {
        assert(keys.drop_last()[j] == keys[j]);
        lemma_add_keys_has(m, keys.drop_last(), v, j);
        lemma_push_unique_keeps(prev, k, v, keys[j], v);
    }
}

proof fn lemma_build_model_has(es: Seq<KanjiEntry>, keys_of: spec_fn(KanjiEntry) -> Seq<Seq<char>>, i: int, j: int)
    requires
        0 <= i < es.len(),
        0 <= j < keys_of(es[i]).len(),
        keys_of(es[i])[j].len() > 0,
    ensures
        build_model(es, keys_of).dom().contains(keys_of(es[i])[j]),
        build_model(es, keys_of)[keys_of(es[i])[j]].contains(es[i].character@),
    decreases es.len(),
{
    let prev = es.drop_last();
    if i == es.len() - 1 {
        lemma_add_keys_has(build_model(prev, keys_of), keys_of(es.last()), es.last().character@, j);
    } else {
        assert(prev[i] == es[i]);
        lemma_build_model_has(prev, keys_of, i, j);
        lemma_add_keys_keeps(
            build_model(prev, keys_of),
            keys_of(es.last()),
            es.last().character@,
            keys_of(es[i])[j],
            es[i].character@,
        );
    }
}

proof fn lemma_registry_has(es: Seq<KanjiEntry>, i: int)
    requires
        0 <= i < es.len(),
    ensures
        registry_model(es).dom().contains(es[i].character@),
    decreases es.len(),
{
    if i < es.len() - 1 {
        assert(es.drop_last()[i] == es[i]);
        lemma_registry_has(es.drop_last(), i);
    }
}

proof fn lemma_jamo_nonempty(s: Seq<char>)
    requires
        s.len() > 0,
    ensures
        crate::search::jamo_seq(s).len() > 0,
{
    assert(crate::search::jamo_of_char(s.last()).len() > 0);
}

/// Every route leads to its kanji: in the index built from `es`, typing an
/// entry's own character, its Korean sound, one of its meaning keywords, one of
/// its on readings (in katakana), one of its kun readings (in hiragana, without
/// the dash) or the romaji of a reading (when it is lower-case letters) finds
/// that entry's kanji as an exact match.
pub proof fn lemma_every_route_reaches(idx: SearchIndex, es: Seq<KanjiEntry>, i: int)
    requires
        idx.by_kanji@ == registry_model(es),
        idx.by_kr_sound@ == kr_model(es),
        idx.by_meaning@ == meaning_model(es),
        idx.by_on@ == on_model(es),
        idx.by_kun@ == kun_model(es),
        idx.by_romaji@ == romaji_model(es),
        0 <= i < es.len(),
    ensures
        idx.best_rank(es[i].character@, es[i].character@) == Some(crate::search::MatchRank::Exact),
        es[i].korean.reading@.len() > 0 ==> idx.best_rank(es[i].korean.reading@, es[i].character@)
            == Some(crate::search::MatchRank::Exact),
        forall|j: int|
            0 <= j < meaning_keys(es[i]).len() && (#[trigger] meaning_keys(es[i])[j]).len() > 0
                ==> idx.best_rank(meaning_keys(es[i])[j], es[i].character@) == Some(
                crate::search::MatchRank::Exact,
            ),
        forall|j: int|
            0 <= j < on_keys(es[i]).len() && (#[trigger] on_keys(es[i])[j]).len() > 0
                && crate::search::katakana_seq(on_keys(es[i])[j]) == on_keys(es[i])[j]
                ==> idx.best_rank(on_keys(es[i])[j], es[i].character@) == Some(
                crate::search::MatchRank::Exact,
            ),
        forall|j: int|
            0 <= j < kun_keys(es[i]).len() && (#[trigger] kun_keys(es[i])[j]).len() > 0
                && crate::kana::hiragana_seq(kun_keys(es[i])[j]) == kun_keys(es[i])[j]
                ==> idx.best_rank(kun_keys(es[i])[j], es[i].character@) == Some(
                crate::search::MatchRank::Exact,
            ),
        forall|j: int|
            0 <= j < romaji_keys(es[i]).len() && (#[trigger] romaji_keys(es[i])[j]).len() > 0
                && crate::search::romaji_query(romaji_keys(es[i])[j])
                && crate::text::unicode_lowercase(romaji_keys(es[i])[j]) == romaji_keys(es[i])[j]
                ==> idx.best_rank(romaji_keys(es[i])[j], es[i].character@) == Some(
                crate::search::MatchRank::Exact,
            ),
{
    let c = es[i].character@;
    lemma_registry_has(es, i);
    assert(idx.kanji_route(c, c) == Some(MatchRank::Exact));
    let r = es[i].korean.reading@;
    if r.len() > 0 {
        assert(kr_keys(es[i])[0] == r);
        lemma_build_model_has(es, |e: KanjiEntry| kr_keys(e), i, 0);
        lemma_jamo_nonempty(r);
        assert(key_rank(KeyForm::Jamo, r, jamo_seq(r)) == Some(MatchRank::Exact));
        assert(crate::search::list_reaches(idx.by_kr_sound@, KeyForm::Jamo, jamo_seq(r), c, MatchRank::Exact));
    }
    assert forall|j: int|
        0 <= j < meaning_keys(es[i]).len() && (#[trigger] meaning_keys(es[i])[j]).len() > 0
        implies idx.best_rank(meaning_keys(es[i])[j], c) == Some(MatchRank::Exact) by {
        let k = meaning_keys(es[i])[j];
        lemma_build_model_has(es, |e: KanjiEntry| meaning_keys(e), i, j);
        lemma_jamo_nonempty(k);
        assert(key_rank(KeyForm::Jamo, k, jamo_seq(k)) == Some(MatchRank::Exact));
        assert(crate::search::list_reaches(idx.by_meaning@, KeyForm::Jamo, jamo_seq(k), c, MatchRank::Exact));
    }
    assert forall|j: int|
        0 <= j < on_keys(es[i]).len() && (#[trigger] on_keys(es[i])[j]).len() > 0
            && crate::search::katakana_seq(on_keys(es[i])[j]) == on_keys(es[i])[j]
        implies idx.best_rank(on_keys(es[i])[j], c) == Some(MatchRank::Exact) by {
        let k = on_keys(es[i])[j];
        lemma_build_model_has(es, |e: KanjiEntry| on_keys(e), i, j);
        assert(key_rank(KeyForm::Plain, k, k) == Some(MatchRank::Exact));
        assert(crate::search::list_reaches(idx.by_on@, KeyForm::Plain, crate::search::katakana_seq(k), c, MatchRank::Exact));
    }
    assert forall|j: int|
        0 <= j < kun_keys(es[i]).len() && (#[trigger] kun_keys(es[i])[j]).len() > 0
            && crate::kana::hiragana_seq(kun_keys(es[i])[j]) == kun_keys(es[i])[j]
        implies idx.best_rank(kun_keys(es[i])[j], c) == Some(MatchRank::Exact) by {
        let k = kun_keys(es[i])[j];
        lemma_build_model_has(es, |e: KanjiEntry| kun_keys(e), i, j);
        assert(key_rank(KeyForm::Plain, k, k) == Some(MatchRank::Exact));
        assert(crate::search::list_reaches(idx.by_kun@, KeyForm::Plain, crate::kana::hiragana_seq(k), c, MatchRank::Exact));
    }
    assert forall|j: int|
        0 <= j < romaji_keys(es[i]).len() && (#[trigger] romaji_keys(es[i])[j]).len() > 0
            && crate::search::romaji_query(romaji_keys(es[i])[j])
            && crate::text::unicode_lowercase(romaji_keys(es[i])[j]) == romaji_keys(es[i])[j]
        implies idx.best_rank(romaji_keys(es[i])[j], c) == Some(MatchRank::Exact) by {
        let k = romaji_keys(es[i])[j];
        lemma_build_model_has(es, |e: KanjiEntry| romaji_keys(e), i, j);
        assert(key_rank(KeyForm::WholeOrPrefix, k, k) == Some(MatchRank::Exact));
        assert(crate::search::list_reaches(idx.by_romaji@, KeyForm::WholeOrPrefix, crate::text::unicode_lowercase(k), c, MatchRank::Exact));
    }
}

proof fn lemma_concat_keywords_has(ms: Seq<String>, j: int, x: Seq<char>)
    requires
        0 <= j < ms.len(),
        meaning_keywords_spec(ms[j]@).contains(x),
    ensures
        concat_keywords(ms).contains(x),
    decreases ms.len(),
{
    let p = ms.drop_last();
    let last = meaning_keywords_spec(ms.last()@);
    if j < ms.len() - 1 {
        assert(p[j] == ms[j]);
        lemma_concat_keywords_has(p, j, x);
        let w = choose|w: int| 0 <= w < concat_keywords(p).len() && concat_keywords(p)[w] == x;
        assert((concat_keywords(p) + last)[w] == x);
    } else {
        let w = choose|w: int| 0 <= w < last.len() && last[w] == x;
        assert((concat_keywords(p) + last)[concat_keywords(p).len() + w] == x);
    }
}

/// Every route leads to its kanji, stated over the entry's own fields: in the
/// index built from `es`, each word of one of the entry's Korean meanings (a
/// run between commas and white space), each on reading as written in
/// katakana, each kun reading in hiragana with its stem mark removed, and the
/// romaji of each on and kun reading (when it is lower-case letters) finds the
/// entry's kanji as an exact match.
pub proof fn lemma_entry_fields_reach(idx: SearchIndex, es: Seq<KanjiEntry>, i: int)
    requires
        idx.by_kanji@ == registry_model(es),
        idx.by_kr_sound@ == kr_model(es),
        idx.by_meaning@ == meaning_model(es),
        idx.by_on@ == on_model(es),
        idx.by_kun@ == kun_model(es),
        idx.by_romaji@ == romaji_model(es),
        0 <= i < es.len(),
    ensures
        forall|j: int, a: int, b: int|
            0 <= j < es[i].meanings@.len() && #[trigger] word_at(trim_seq(es[i].meanings@[j]@), a, b)
                ==> idx.best_rank(trim_seq(es[i].meanings@[j]@).subrange(a, b), es[i].character@)
                == Some(MatchRank::Exact),
        forall|j: int|
            0 <= j < es[i].readings.on@.len() && (#[trigger] es[i].readings.on@[j])@.len() > 0
                && crate::search::katakana_seq(es[i].readings.on@[j]@) == es[i].readings.on@[j]@
                ==> idx.best_rank(es[i].readings.on@[j]@, es[i].character@) == Some(MatchRank::Exact),
        forall|j: int|
            0 <= j < es[i].readings.kun@.len() && without_dashes((#[trigger] es[i].readings.kun@[j]).reading@).len() > 0
                && crate::kana::hiragana_seq(without_dashes(es[i].readings.kun@[j].reading@))
                == without_dashes(es[i].readings.kun@[j].reading@)
                ==> idx.best_rank(without_dashes(es[i].readings.kun@[j].reading@), es[i].character@)
                == Some(MatchRank::Exact),
        forall|j: int|
            0 <= j < es[i].readings.on@.len() && romaji_of((#[trigger] es[i].readings.on@[j])@).len() > 0
                && crate::search::romaji_query(romaji_of(es[i].readings.on@[j]@))
                && crate::text::unicode_lowercase(romaji_of(es[i].readings.on@[j]@)) == romaji_of(
                es[i].readings.on@[j]@,
            ) ==> idx.best_rank(romaji_of(es[i].readings.on@[j]@), es[i].character@) == Some(
                MatchRank::Exact,
            ),
        forall|j: int|
            0 <= j < es[i].readings.kun@.len() && romaji_of(
                without_dashes((#[trigger] es[i].readings.kun@[j]).reading@),
            ).len() > 0 && crate::search::romaji_query(
                romaji_of(without_dashes(es[i].readings.kun@[j].reading@)),
            ) && crate::text::unicode_lowercase(
                romaji_of(without_dashes(es[i].readings.kun@[j].reading@)),
            ) == romaji_of(without_dashes(es[i].readings.kun@[j].reading@))
                ==> idx.best_rank(romaji_of(without_dashes(es[i].readings.kun@[j].reading@)), es[i].character@)
                == Some(MatchRank::Exact),
{
    let e = es[i];
    lemma_every_route_reaches(idx, es, i);
    assert forall|j: int, a: int, b: int|
        0 <= j < e.meanings@.len() && #[trigger] word_at(trim_seq(e.meanings@[j]@), a, b)
        implies idx.best_rank(trim_seq(e.meanings@[j]@).subrange(a, b), e.character@)
            == Some(MatchRank::Exact) by {
        let w = trim_seq(e.meanings@[j]@).subrange(a, b);
        lemma_meaning_words_are_keywords(e.meanings@[j]@, a, b);
        lemma_concat_keywords_has(e.meanings@, j, w);
        let z = choose|z: int| 0 <= z < meaning_keys(e).len() && meaning_keys(e)[z] == w;
        assert(meaning_keys(e)[z].len() > 0);
    }
    assert forall|j: int|
        0 <= j < e.readings.on@.len() && (#[trigger] e.readings.on@[j])@.len() > 0
            && crate::search::katakana_seq(e.readings.on@[j]@) == e.readings.on@[j]@
        implies idx.best_rank(e.readings.on@[j]@, e.character@) == Some(MatchRank::Exact) by {
        assert(on_keys(e)[j] == e.readings.on@[j]@);
    }
    assert forall|j: int|
        0 <= j < e.readings.kun@.len() && without_dashes((#[trigger] e.readings.kun@[j]).reading@).len() > 0
            && crate::kana::hiragana_seq(without_dashes(e.readings.kun@[j].reading@))
            == without_dashes(e.readings.kun@[j].reading@)
        implies idx.best_rank(without_dashes(e.readings.kun@[j].reading@), e.character@)
            == Some(MatchRank::Exact) by {
        assert(kun_keys(e)[j] == without_dashes(e.readings.kun@[j].reading@));
    }
    assert forall|j: int|
        0 <= j < e.readings.on@.len() && romaji_of((#[trigger] e.readings.on@[j])@).len() > 0
            && crate::search::romaji_query(romaji_of(e.readings.on@[j]@))
            && crate::text::unicode_lowercase(romaji_of(e.readings.on@[j]@)) == romaji_of(
            e.readings.on@[j]@,
        ) implies idx.best_rank(romaji_of(e.readings.on@[j]@), e.character@) == Some(
            MatchRank::Exact,
        ) by {
        assert(on_keys(e)[j] == e.readings.on@[j]@);
        assert(romaji_keys(e)[j] == romaji_of(e.readings.on@[j]@));
    }
    assert forall|j: int|
        0 <= j < e.readings.kun@.len() && romaji_of(without_dashes((#[trigger] e.readings.kun@[j]).reading@)).len()
            > 0 && crate::search::romaji_query(romaji_of(without_dashes(e.readings.kun@[j].reading@)))
            && crate::text::unicode_lowercase(romaji_of(without_dashes(e.readings.kun@[j].reading@)))
            == romaji_of(without_dashes(e.readings.kun@[j].reading@))
        implies idx.best_rank(romaji_of(without_dashes(e.readings.kun@[j].reading@)), e.character@)
            == Some(MatchRank::Exact) by {
        assert(kun_keys(e)[j] == without_dashes(e.readings.kun@[j].reading@));
        let n = on_keys(e).len();
        assert(romaji_keys(e)[n + j] == romaji_of(without_dashes(e.readings.kun@[j].reading@)));
    }
}

} // verus!
