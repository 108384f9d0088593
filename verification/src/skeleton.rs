//! Draft skeletons of `content/kanji/{character}.md` built from the mechanical
//! KANJIDIC2 fields. The etymology itself is written later by a person, so the
//! body only carries a `<!-- TODO: 어원 서술 작성 -->` marker.
//!
//! A skeleton has a complete frontmatter, but fields whose value is unknown
//! hold the `"TODO"` placeholder (`jlpt`, `korean.meaning`, `last_updated`).
//! Such a file deliberately fails content validation until the placeholders
//! are replaced.

use vstd::prelude::*;
use crate::frontmatter::{split_spec, crlf_to_lf, closes_at, first_closing, strip_leading_newlines, FrontmatterError};
use crate::kanjidic::{KanjidicChar, KunPair};
use crate::schema::{Confidence, KanjiEntry, Korean, KunReading, Readings, Source};
use crate::text::{chars_of, push_char};

verus! {

/// Placeholder for a value that is not known yet; one spelling, easy to search for.
pub const TODO: &'static str = "TODO";

/// The KANJIDIC2 license notice, cited in every skeleton's sources.
pub const KANJIDIC2_LICENSE_URL: &'static str = "http://www.edrdg.org/wiki/index.php/KANJIDIC_Project";

/// The body of a skeleton file.
pub const BODY_MARKER: &'static str = "<!-- TODO: 어원 서술 작성 -->\n";

/// `parts` joined with `sep` between neighbours.
pub open spec fn join_spec(parts: Seq<Seq<char>>, sep: Seq<char>) -> Seq<char>
    decreases parts.len(),
{
    if parts.len() == 0 {
        Seq::empty()
    } else if parts.len() == 1 {
        parts[0]
    } else {
        join_spec(parts.drop_last(), sep) + sep + parts.last()
    }
}

/// A meaning tagged as English: `"(en) "` followed by the meaning.
pub open spec fn english_tagged(m: Seq<char>) -> Seq<char> {
    "(en) "@ + m
}

/// The Korean sound of a skeleton: the `korean_h` readings joined with `/`,
/// or the placeholder when there is none.
pub open spec fn skeleton_korean_reading(korean_h: Seq<Seq<char>>) -> Seq<char> {
    if korean_h.len() == 0 {
        TODO@
    } else {
        join_spec(korean_h, "/"@)
    }
}

/// The meanings of a skeleton: each English meaning tagged `(en)`, or one
/// tagged placeholder when there is none.
pub open spec fn skeleton_meanings(meanings_en: Seq<Seq<char>>) -> Seq<Seq<char>> {
    if meanings_en.len() == 0 {
        seq![english_tagged(TODO@)]
    } else {
        meanings_en.map_values(|m: Seq<char>| english_tagged(m))
    }
}

fn todo_string() -> (s: String)
    ensures
        s@ == TODO@,
{
    String::from_str(TODO)
}

fn join_strings(parts: &Vec<String>, sep: &str) -> (r: String)
    ensures
        r@ == join_spec(parts.deep_view(), sep@),
{
    let mut r = String::new();
    let mut i: usize = 0;
    while i < parts.len()
        invariant
            i <= parts.len(),
            r@ == join_spec(parts.deep_view().take(i as int), sep@),
        decreases parts.len() - i,
    {
        let ghost done = parts.deep_view().take(i as int);
        if i > 0 {
            r.append(sep);
        }
        r.append(parts[i].as_str());
        i += 1;
        proof {
            let now = parts.deep_view().take(i as int);
            assert(now.drop_last() == done);
            assert(now.last() == parts@[i - 1]@);
            if i == 1 {
                assert(done.len() == 0);
            }
        }
    }
    assert(parts.deep_view().take(parts.len() as int) == parts.deep_view());
    r
}

fn tagged_meanings(meanings_en: &Vec<String>) -> (r: Vec<String>)
    ensures
        r.deep_view() == skeleton_meanings(meanings_en.deep_view()),
{
    let mut r: Vec<String> = Vec::new();
    if meanings_en.len() == 0 {
        let mut s = String::from_str("(en) ");
        s.append(TODO);
        r.push(s);
        assert(r.deep_view() == seq![english_tagged(TODO@)]);
        return r;
    }
    let mut i: usize = 0;
    while i < meanings_en.len()
        invariant
            i <= meanings_en.len(),
            r.deep_view() == meanings_en.deep_view().take(i as int).map_values(
                |m: Seq<char>| english_tagged(m),
            ),
        decreases meanings_en.len() - i,
    {
        let mut s = String::from_str("(en) ");
        s.append(meanings_en[i].as_str());
        let ghost before = r.deep_view();
        r.push(s);
        i += 1;
        assert(r.deep_view() == before.push(s@));
        assert(meanings_en.deep_view().take(i as int).map_values(|m: Seq<char>| english_tagged(m))
            == meanings_en.deep_view().take(i - 1).map_values(|m: Seq<char>| english_tagged(m)).push(
            english_tagged(meanings_en@[i - 1]@),
        ));
    }
    assert(meanings_en.deep_view().take(meanings_en.len() as int) == meanings_en.deep_view());
    r
}

fn kun_readings(kun: &Vec<KunPair>) -> (r: Vec<KunReading>)
    ensures
        r@.map_values(|k: KunReading| (k.reading@, k.form@)) == kun@.map_values(|k: KunPair| k@),
{
    let mut r: Vec<KunReading> = Vec::new();
    let mut i: usize = 0;
    while i < kun.len()
        invariant
            i <= kun.len(),
            r@.map_values(|k: KunReading| (k.reading@, k.form@)) == kun@.take(i as int).map_values(
                |k: KunPair| k@,
            ),
        decreases kun.len() - i,
    {
        let ghost before = r@;
        r.push(KunReading { reading: kun[i].reading.clone(), form: kun[i].form.clone() });
        i += 1;
        assert(r@ == before.push(r@.last()));
        assert(r@.map_values(|k: KunReading| (k.reading@, k.form@)) == before.map_values(
            |k: KunReading| (k.reading@, k.form@),
        ).push(kun@[i - 1]@));
        assert(kun@.take(i as int).map_values(|k: KunPair| k@) == kun@.take(i - 1).map_values(
            |k: KunPair| k@,
        ).push(kun@[i - 1]@));
    }
    assert(kun@.take(kun.len() as int) == kun@);
    r
}

fn copy_strings(v: &Vec<String>) -> (r: Vec<String>)
    ensures
        r.deep_view() == v.deep_view(),
{
    let mut r: Vec<String> = Vec::new();
    let mut i: usize = 0;
    while i < v.len()
        invariant
            i <= v.len(),
            r.deep_view() == v.deep_view().take(i as int),
        decreases v.len() - i,
    {
        let ghost before = r.deep_view();
        r.push(v[i].clone());
        i += 1;
        assert(r.deep_view() == before.push(v@[i - 1]@));
        assert(v.deep_view().take(i as int) == v.deep_view().take(i - 1).push(v@[i - 1]@));
    }
    assert(v.deep_view().take(v.len() as int) == v.deep_view());
    r
}

/// The single source of every skeleton: KANJIDIC2 under CC-BY-SA.
pub open spec fn is_kanjidic_source(s: Source) -> bool {
    &&& s.name@ == "KANJIDIC2"@
    &&& s.reference is None
    &&& s.license matches Some(l) && l@ == "CC-BY-SA"@
    &&& s.url matches Some(u) && u@ == KANJIDIC2_LICENSE_URL@
    &&& s.year is None
}

/// Turns the fields read from KANJIDIC2 into a skeleton entry. Unknown fields
/// hold `TODO`; the confidence is `Interpretation`; the only source is KANJIDIC2.
pub fn build_skeleton_entry(k: &KanjidicChar) -> (e: KanjiEntry)
    ensures
        e.character@ == seq![k.literal],
        e.variants@.len() == 0,
        e.jlpt matches Some(j) && j@ == TODO@,
        e.grade == k.grade,
        e.stroke_count == k.stroke_count,
        e.korean.reading@ == skeleton_korean_reading(k.korean_h.deep_view()),
        e.korean.meaning@ == TODO@,
        e.readings.on.deep_view() == k.on.deep_view(),
        e.readings.kun@.map_values(|r: KunReading| (r.reading@, r.form@)) == k.kun@.map_values(
            |p: KunPair| p@,
        ),
        e.meanings.deep_view() == skeleton_meanings(k.meanings_en.deep_view()),
        e.components@.len() == 0,
        e.evolution@.len() == 0,
        e.related@.len() == 0,
        e.words@.len() == 0,
        e.confidence == Confidence::Interpretation,
        e.sources@.len() == 1,
        is_kanjidic_source(e.sources@[0]),
        e.last_updated@ == TODO@,
{
    let korean_reading = if k.korean_h.len() == 0 {
        todo_string()
    } else {
        join_strings(&k.korean_h, "/")
    };
    let mut character = String::new();
    push_char(&mut character, k.literal);
    let source = Source {
        name: String::from_str("KANJIDIC2"),
        reference: None,
        license: Some(String::from_str("CC-BY-SA")),
        url: Some(String::from_str(KANJIDIC2_LICENSE_URL)),
        year: None,
    };
    let mut sources: Vec<Source> = Vec::new();
    sources.push(source);
    KanjiEntry {
        character,
        variants: Vec::new(),
        jlpt: Some(todo_string()),
        grade: k.grade,
        stroke_count: k.stroke_count,
        korean: Korean { reading: korean_reading, meaning: todo_string() },
        readings: Readings { on: copy_strings(&k.on), kun: kun_readings(&k.kun) },
        meanings: tagged_meanings(&k.meanings_en),
        components: Vec::new(),
        evolution: Vec::new(),
        related: Vec::new(),
        words: Vec::new(),
        confidence: Confidence::Interpretation,
        sources,
        last_updated: todo_string(),
    }
}

// ── the file text ──────────────────────────────────────────────────

/// The YAML as it goes between the delimiters: without the `---\n` document
/// start that a YAML writer may put first, and ending with a newline.
pub open spec fn skeleton_yaml(yaml: Seq<char>) -> Seq<char> {
    let y = if yaml.len() >= 4 && yaml.take(4) == seq!['-', '-', '-', '\n'] {
        yaml.skip(4)
    } else {
        yaml
    };
    if y.len() > 0 && y.last() == '\n' {
        y
    } else {
        y.push('\n')
    }
}

/// The whole skeleton file: `---\n{yaml}---\n\n` and the body marker.
pub open spec fn skeleton_markdown(yaml: Seq<char>) -> Seq<char> {
    seq!['-', '-', '-', '\n'] + skeleton_yaml(yaml) + seq!['-', '-', '-', '\n', '\n'] + BODY_MARKER@
}

/// Frames serialised YAML frontmatter into the text of a skeleton file:
/// `---\n<YAML>---\n\n<!-- TODO: 어원 서술 작성 -->\n`. A leading `---\n`
/// document start is dropped and a final newline added where missing.
pub fn frame_skeleton_markdown(yaml: &str) -> (md: String)
    ensures
        md@ == skeleton_markdown(yaml@),
{
    let v = chars_of(yaml);
    let start: usize = if v.len() >= 4 && v[0] == '-' && v[1] == '-' && v[2] == '-' && v[3] == '\n' {
        4
    } else {
        0
    };
    proof {
        if v@.len() >= 4 && v@.take(4) == seq!['-', '-', '-', '\n'] {
            assert(v@.take(4)[0] == '-' && v@.take(4)[3] == '\n');
        }
        if start == 4 {
            assert(v@.take(4) == seq!['-', '-', '-', '\n']);
        }
    }
    proof {
        reveal_strlit("---\n");
    }
    let mut md = String::from_str("---\n");
    let mut i: usize = start;
    while i < v.len()
        invariant
            start <= i <= v.len(),
            v@ == yaml@,
            md@ == seq!['-', '-', '-', '\n'] + v@.subrange(start as int, i as int),
        decreases v.len() - i,
    {
        push_char(&mut md, v[i]);
        i += 1;
        assert(v@.subrange(start as int, i as int) == v@.subrange(start as int, i - 1).push(
            v@[i - 1],
        ));
    }
    assert(v@.subrange(start as int, v.len() as int) == v@.skip(start as int));
    if !(v.len() > start && v[v.len() - 1] == '\n') {
        push_char(&mut md, '\n');
    }
    proof {
        reveal_strlit("---\n\n");
    }
    md.append("---\n\n");
    md.append(BODY_MARKER);
    md
}

/// No line of `y` after its first holds only `---`.
pub open spec fn no_marker_line(y: Seq<char>) -> bool {
    forall|p: int|
        0 <= p && p + 4 < y.len() ==> !(#[trigger] y.subrange(p, p + 4) == seq![
            '\n',
            '-',
            '-',
            '-',
        ] && y[p + 4] == '\n')
}

proof fn lemma_crlf_to_lf_identity(s: Seq<char>)
    requires
        !s.contains('\r'),
    ensures
        crlf_to_lf(s) == s,
    decreases s.len(),
{
    if s.len() > 0 {
        assert(s[0] != '\r');
        assert(!s.skip(1).contains('\r')) by {
            if s.skip(1).contains('\r') {
                let k = choose|k: int| 0 <= k < s.skip(1).len() && s.skip(1)[k] == '\r';
                assert(s[k + 1] == '\r');
            }
        }
        lemma_crlf_to_lf_identity(s.skip(1));
        assert(seq![s[0]] + s.skip(1) == s);
    }
}

proof fn lemma_first_closing_at(a: Seq<char>, k: int, p: int)
    requires
        0 <= k <= p,
        p + 4 <= a.len(),
        closes_at(a, p),
        forall|i: int| k <= i < p ==> !closes_at(a, i),
    ensures
        first_closing(a, k) == Some(p),
    decreases p - k,
{
    if k < p {
        lemma_first_closing_at(a, k + 1, p);
    }
}

/// A skeleton file splits back into its YAML (without the final newline) and
/// the body marker, provided the YAML holds no carriage return and no line of
/// it is a bare `---`.
pub proof fn lemma_skeleton_round_trip(yaml: Seq<char>)
    requires
        !skeleton_yaml(yaml).contains('\r'),
        no_marker_line(skeleton_yaml(yaml)),
    ensures
        split_spec(skeleton_markdown(yaml)) == Ok::<(Seq<char>, Seq<char>), FrontmatterError>(
            (skeleton_yaml(yaml).drop_last(), BODY_MARKER@),
        ),
{
    reveal_strlit("<!-- TODO: 어원 서술 작성 -->\n");
    let y = skeleton_yaml(yaml);
    let tail = seq!['-', '-', '-', '\n', '\n'] + BODY_MARKER@;
    let n = skeleton_markdown(yaml);
    let a = y + tail;
    assert(n == seq!['-', '-', '-', '\n'] + a);
    assert(!tail.contains('\r')) by {
        if tail.contains('\r') {
            let k = choose|k: int| 0 <= k < tail.len() && tail[k] == '\r';
            assert(k >= 5);
            assert(BODY_MARKER@[k - 5] == '\r');
        }
    }
    assert(!n.contains('\r')) by {
        if n.contains('\r') {
            let k = choose|k: int| 0 <= k < n.len() && n[k] == '\r';
            if k < 4 {
            } else if k < 4 + y.len() {
                assert(y[k - 4] == '\r');
            } else {
                assert(tail[k - 4 - y.len()] == '\r');
            }
        }
    }
    lemma_crlf_to_lf_identity(n);
    assert(n.take(4) == seq!['-', '-', '-', '\n']);
    assert(n.skip(4) == a);
    let m = y.len();
    let p = m - 1;
    assert(y.len() > 0 && y.last() == '\n');
    assert(a.subrange(p, p + 4) == seq!['\n', '-', '-', '-']);
    assert(closes_at(a, p));
    assert forall|i: int| 0 <= i < p implies !closes_at(a, i) by {
        if i + 4 < m {
            assert(a.subrange(i, i + 4) == y.subrange(i, i + 4));
            assert(a[i + 4] == y[i + 4]);
        } else if i == m - 2 {
            assert(a[i + 1] == '\n');
            assert(a.subrange(i, i + 4)[1] == '\n');
        } else if i == m - 3 {
            assert(a[i + 2] == '\n');
            assert(a.subrange(i, i + 4)[2] == '\n');
        } else {
            assert(i == m - 4);
            assert(a[i + 3] == '\n');
            assert(a.subrange(i, i + 4)[3] == '\n');
        }
    }
    lemma_first_closing_at(a, 0, p);
    assert(a[p + 4] == '\n');
    assert(a.take(p) == y.drop_last());
    let rest = a.skip(p + 5);
    assert(rest == seq!['\n'] + BODY_MARKER@);
    assert(rest.drop_first() == BODY_MARKER@);
    assert(BODY_MARKER@[0] == '<');
    assert(strip_leading_newlines(BODY_MARKER@) == BODY_MARKER@);
}

} // verus!
