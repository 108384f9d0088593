//! Validation of the content directory before any output is produced.
//!
//! Every kanji and radical file is checked (its headword matches its file
//! name, no headword occurs twice), then every component link and related
//! kanji is checked against the full set of headwords. All problems are
//! collected; the build writes nothing unless the list is empty, so partly
//! broken data is never published.

use vstd::prelude::*;
use crate::schema::{Component, KanjiEntry, RadicalEntry, Related};
use crate::text::{chars_of, seq_starts_with, slice_chars, starts_with, string_of};

verus! {

/// What the build reports after a successful run.
#[derive(Debug, Clone, Copy, PartialEq, Eq, Structural)]
pub struct Summary {
    pub kanji_count: usize,
    pub radical_count: usize,
}

/// One kanji file as read from disk: its displayed path, its file name
/// without extension, and its parsed frontmatter or the parse error's text.
pub struct KanjiFile {
    pub path: String,
    pub stem: String,
    pub parsed: Result<KanjiEntry, String>,
}

/// One radical file as read from disk (see [`KanjiFile`]).
pub struct RadicalFile {
    pub path: String,
    pub stem: String,
    pub parsed: Result<RadicalEntry, String>,
}

// ── content links ──────────────────────────────────────────────────

/// Where a component link points.
#[derive(Debug, Clone, PartialEq, Eq)]
pub enum LinkTarget {
    /// `/kanji/{character}`.
    Kanji(String),
    /// `/radical/{radical}`.
    Radical(String),
}

pub open spec fn kanji_prefix() -> Seq<char> {
    seq!['/', 'k', 'a', 'n', 'j', 'i', '/']
}

pub open spec fn radical_prefix() -> Seq<char> {
    seq!['/', 'r', 'a', 'd', 'i', 'c', 'a', 'l', '/']
}

/// The target of a content link: what follows `/kanji/` or `/radical/`, or
/// nothing for any other link.
pub open spec fn link_target_spec(link: Seq<char>) -> Option<(bool, Seq<char>)> {
    if seq_starts_with(link, kanji_prefix()) {
        Some((true, link.skip(7)))
    } else if seq_starts_with(link, radical_prefix()) {
        Some((false, link.skip(9)))
    } else {
        None
    }
}

/// The model of a link target: `true` for a kanji, `false` for a radical.
pub open spec fn link_target_model(t: Option<LinkTarget>) -> Option<(bool, Seq<char>)> {
    match t {
        Some(LinkTarget::Kanji(s)) => Some((true, s@)),
        Some(LinkTarget::Radical(s)) => Some((false, s@)),
        None => None,
    }
}

/// Reads a component link: `/kanji/{character}` or `/radical/{radical}`.
pub fn parse_content_link(link: &str) -> (t: Option<LinkTarget>)
    ensures
        link_target_model(t) == link_target_spec(link@),
{
    let v = chars_of(link);
    let k: Vec<char> = vec!['/', 'k', 'a', 'n', 'j', 'i', '/'];
    let r: Vec<char> = vec!['/', 'r', 'a', 'd', 'i', 'c', 'a', 'l', '/'];
    if starts_with(&v, &k) {
        let rest = slice_chars(&v, 7, v.len());
        Some(LinkTarget::Kanji(string_of(&rest)))
    } else if starts_with(&v, &r) {
        let rest = slice_chars(&v, 9, v.len());
        Some(LinkTarget::Radical(string_of(&rest)))
    } else {
        None
    }
}

// ── messages ───────────────────────────────────────────────────────

pub open spec fn parse_failed_msg(path: Seq<char>, err: Seq<char>) -> Seq<char> {
    path + ": "@ + err
}

pub open spec fn kanji_mismatch_msg(path: Seq<char>, c: Seq<char>, stem: Seq<char>) -> Seq<char> {
    path + ": frontmatter의 character(\""@ + c + "\")가 파일명(\""@ + stem
        + "\")과 일치하지 않습니다"@
}

pub open spec fn kanji_duplicate_msg(path: Seq<char>, c: Seq<char>) -> Seq<char> {
    path + ": 한자 \""@ + c + "\"가 다른 파일과 중복됩니다"@
}

pub open spec fn radical_mismatch_msg(path: Seq<char>, r: Seq<char>, stem: Seq<char>) -> Seq<char> {
    path + ": frontmatter의 radical(\""@ + r + "\")이 파일명(\""@ + stem
        + "\")과 일치하지 않습니다"@
}

pub open spec fn radical_duplicate_msg(path: Seq<char>, r: Seq<char>) -> Seq<char> {
    path + ": 부수 \""@ + r + "\"가 다른 파일과 중복됩니다"@
}

/// The content path of a kanji, as reference errors name it.
pub open spec fn kanji_content_path(c: Seq<char>) -> Seq<char> {
    "content/kanji/"@ + c + ".md"@
}

pub open spec fn missing_kanji_link_msg(c: Seq<char>, link: Seq<char>) -> Seq<char> {
    kanji_content_path(c) + ": components 링크가 존재하지 않는 한자를 가리킵니다: "@ + link
}

pub open spec fn missing_radical_link_msg(c: Seq<char>, link: Seq<char>) -> Seq<char> {
    kanji_content_path(c) + ": components 링크가 존재하지 않는 부수를 가리킵니다: "@ + link
}

pub open spec fn unsupported_link_msg(c: Seq<char>, link: Seq<char>) -> Seq<char> {
    kanji_content_path(c)
        + ": 지원하지 않는 링크 형식입니다 (/kanji/... 또는 /radical/...만 허용): "@ + link
}

pub open spec fn missing_related_msg(c: Seq<char>, related: Seq<char>) -> Seq<char> {
    kanji_content_path(c) + ": related.kanji가 존재하지 않는 한자를 가리킵니다: "@ + related
}

// ── the rules ──────────────────────────────────────────────────────

/// The headwords of the kanji files that parsed, in file order.
pub open spec fn kanji_heads(files: Seq<KanjiFile>) -> Seq<Seq<char>>
    decreases files.len(),
{
    if files.len() == 0 {
        Seq::empty()
    } else {
        match files.last().parsed {
            Ok(e) => kanji_heads(files.drop_last()).push(e.character@),
            Err(_) => kanji_heads(files.drop_last()),
        }
    }
}

/// The radicals of the radical files that parsed, in file order.
pub open spec fn radical_heads(files: Seq<RadicalFile>) -> Seq<Seq<char>>
    decreases files.len(),
{
    if files.len() == 0 {
        Seq::empty()
    } else {
        match files.last().parsed {
            Ok(e) => radical_heads(files.drop_last()).push(e.radical@),
            Err(_) => radical_heads(files.drop_last()),
        }
    }
}

/// `x` if `cond`, else nothing.
pub open spec fn when(cond: bool, x: Seq<char>) -> Seq<Seq<char>> {
    if cond {
        seq![x]
    } else {
        Seq::empty()
    }
}

/// The problems of one kanji file, given the headwords of the files before it.
pub open spec fn kanji_file_msgs(f: KanjiFile, earlier: Seq<Seq<char>>) -> Seq<Seq<char>> {
    match f.parsed {
        Err(e) => seq![parse_failed_msg(f.path@, e@)],
        Ok(entry) => when(entry.character@ != f.stem@, kanji_mismatch_msg(f.path@, entry.character@, f.stem@))
            + when(earlier.contains(entry.character@), kanji_duplicate_msg(f.path@, entry.character@)),
    }
}

/// The problems of one radical file, given the radicals of the files before it.
pub open spec fn radical_file_msgs(f: RadicalFile, earlier: Seq<Seq<char>>) -> Seq<Seq<char>> {
    match f.parsed {
        Err(e) => seq![parse_failed_msg(f.path@, e@)],
        Ok(entry) => when(entry.radical@ != f.stem@, radical_mismatch_msg(f.path@, entry.radical@, f.stem@))
            + when(earlier.contains(entry.radical@), radical_duplicate_msg(f.path@, entry.radical@)),
    }
}

pub open spec fn kanji_msgs(files: Seq<KanjiFile>) -> Seq<Seq<char>>
    decreases files.len(),
{
    if files.len() == 0 {
        Seq::empty()
    } else {
        kanji_msgs(files.drop_last()) + kanji_file_msgs(files.last(), kanji_heads(files.drop_last()))
    }
}

pub open spec fn radical_msgs(files: Seq<RadicalFile>) -> Seq<Seq<char>>
    decreases files.len(),
{
    if files.len() == 0 {
        Seq::empty()
    } else {
        radical_msgs(files.drop_last()) + radical_file_msgs(
            files.last(),
            radical_heads(files.drop_last()),
        )
    }
}

/// The problem with one component link of the kanji `c`, if any.
pub open spec fn link_msgs(c: Seq<char>, link: Seq<char>, kanji: Seq<Seq<char>>, radicals: Seq<Seq<char>>) -> Seq<Seq<char>> {
    match link_target_spec(link) {
        Some((true, target)) => when(!kanji.contains(target), missing_kanji_link_msg(c, link)),
        Some((false, target)) => when(!radicals.contains(target), missing_radical_link_msg(c, link)),
        None => seq![unsupported_link_msg(c, link)],
    }
}

pub open spec fn component_msgs(c: Seq<char>, comps: Seq<Component>, kanji: Seq<Seq<char>>, radicals: Seq<Seq<char>>) -> Seq<Seq<char>>
    decreases comps.len(),
{
    if comps.len() == 0 {
        Seq::empty()
    } else {
        component_msgs(c, comps.drop_last(), kanji, radicals) + match comps.last().link {
            Some(l) => link_msgs(c, l@, kanji, radicals),
            None => Seq::empty(),
        }
    }
}

pub open spec fn related_msgs(c: Seq<char>, rel: Seq<Related>, kanji: Seq<Seq<char>>) -> Seq<Seq<char>>
    decreases rel.len(),
{
    if rel.len() == 0 {
        Seq::empty()
    } else {
        related_msgs(c, rel.drop_last(), kanji) + when(
            !kanji.contains(rel.last().kanji@),
            missing_related_msg(c, rel.last().kanji@),
        )
    }
}

/// The reference problems of the parsed kanji files: component links first,
/// then related kanji, file by file.
pub open spec fn reference_msgs(files: Seq<KanjiFile>, kanji: Seq<Seq<char>>, radicals: Seq<Seq<char>>) -> Seq<Seq<char>>
    decreases files.len(),
{
    if files.len() == 0 {
        Seq::empty()
    } else {
        reference_msgs(files.drop_last(), kanji, radicals) + match files.last().parsed {
            Ok(e) => component_msgs(e.character@, e.components@, kanji, radicals) + related_msgs(
                e.character@,
                e.related@,
                kanji,
            ),
            Err(_) => Seq::empty(),
        }
    }
}

/// Every problem of a content directory, in the order they are reported.
pub open spec fn validation_msgs(kanji: Seq<KanjiFile>, radicals: Seq<RadicalFile>) -> Seq<Seq<char>> {
    kanji_msgs(kanji) + radical_msgs(radicals) + reference_msgs(
        kanji,
        kanji_heads(kanji),
        radical_heads(radicals),
    )
}

// ── checking ───────────────────────────────────────────────────────

fn list_contains(v: &Vec<String>, s: &str) -> (r: bool)
    ensures
        r == v.deep_view().contains(s@),
{
    let target = chars_of(s);
    let mut i: usize = 0;
    while i < v.len()
        invariant
            i <= v.len(),
            target@ == s@,
            forall|j: int| 0 <= j < i ==> v.deep_view()[j] != s@,
        decreases v.len() - i,
    {
        let item = chars_of(v[i].as_str());
        if crate::text::chars_eq(&item, &target) {
            assert(v.deep_view()[i as int] == s@);
            return true;
        }
        i += 1;
    }
    false
}

fn push_msg(out: &mut Vec<String>, m: String)
    ensures
        final(out).deep_view() == old(out).deep_view().push(m@),
{
    out.push(m);
    assert(out.deep_view() == old(out).deep_view().push(m@));
}

fn check_kanji_file(f: &KanjiFile, heads: &mut Vec<String>, out: &mut Vec<String>)
    ensures
        final(out).deep_view() == old(out).deep_view() + kanji_file_msgs(*f, old(heads).deep_view()),
        final(heads).deep_view() == match f.parsed {
            Ok(e) => old(heads).deep_view().push(e.character@),
            Err(_) => old(heads).deep_view(),
        },
{
    match &f.parsed {
        Err(e) => {
            let mut m = String::from_str(f.path.as_str());
            m.append(": ");
            m.append(e.as_str());
            push_msg(out, m);
            assert(out.deep_view() == old(out).deep_view() + seq![m@]);
        },
        Ok(entry) => {
            let c = entry.character.as_str();
            let stem = f.stem.as_str();
            let ghost start = out.deep_view();
            if !crate::text::str_eq(c, stem) {
                let mut m = String::from_str(f.path.as_str());
                m.append(": frontmatter의 character(\"");
                m.append(c);
                m.append("\")가 파일명(\"");
                m.append(stem);
                m.append("\")과 일치하지 않습니다");
                push_msg(out, m);
            }
            let ghost mid = out.deep_view();
            assert(mid == start + when(entry.character@ != f.stem@, kanji_mismatch_msg(f.path@, entry.character@, f.stem@)));
            if list_contains(heads, c) {
                let mut m = String::from_str(f.path.as_str());
                m.append(": 한자 \"");
                m.append(c);
                m.append("\"가 다른 파일과 중복됩니다");
                push_msg(out, m);
            }
            assert(out.deep_view() == mid + when(old(heads).deep_view().contains(entry.character@), kanji_duplicate_msg(f.path@, entry.character@)));
            push_msg(heads, entry.character.clone());
        },
    }
}

fn check_radical_file(f: &RadicalFile, heads: &mut Vec<String>, out: &mut Vec<String>)
    ensures
        final(out).deep_view() == old(out).deep_view() + radical_file_msgs(*f, old(heads).deep_view()),
        final(heads).deep_view() == match f.parsed {
            Ok(e) => old(heads).deep_view().push(e.radical@),
            Err(_) => old(heads).deep_view(),
        },
{
    match &f.parsed {
        Err(e) => {
            let mut m = String::from_str(f.path.as_str());
            m.append(": ");
            m.append(e.as_str());
            push_msg(out, m);
            assert(out.deep_view() == old(out).deep_view() + seq![m@]);
        },
        Ok(entry) => {
            let r = entry.radical.as_str();
            let stem = f.stem.as_str();
            let ghost start = out.deep_view();
            if !crate::text::str_eq(r, stem) {
                let mut m = String::from_str(f.path.as_str());
                m.append(": frontmatter의 radical(\"");
                m.append(r);
                m.append("\")이 파일명(\"");
                m.append(stem);
                m.append("\")과 일치하지 않습니다");
                push_msg(out, m);
            }
            let ghost mid = out.deep_view();
            assert(mid == start + when(entry.radical@ != f.stem@, radical_mismatch_msg(f.path@, entry.radical@, f.stem@)));
            if list_contains(heads, r) {
                let mut m = String::from_str(f.path.as_str());
                m.append(": 부수 \"");
                m.append(r);
                m.append("\"가 다른 파일과 중복됩니다");
                push_msg(out, m);
            }
            assert(out.deep_view() == mid + when(old(heads).deep_view().contains(entry.radical@), radical_duplicate_msg(f.path@, entry.radical@)));
            push_msg(heads, entry.radical.clone());
        },
    }
}

fn content_path_msg(c: &str, text: &str, tail: &str) -> (m: String)
    ensures
        m@ == kanji_content_path(c@) + text@ + tail@,
{
    let mut m = String::from_str("content/kanji/");
    m.append(c);
    m.append(".md");
    m.append(text);
    m.append(tail);
    m
}

fn check_link(c: &str, link: &str, kanji: &Vec<String>, radicals: &Vec<String>, out: &mut Vec<String>)
    ensures
        final(out).deep_view() == old(out).deep_view() + link_msgs(
            c@,
            link@,
            kanji.deep_view(),
            radicals.deep_view(),
        ),
{
    match parse_content_link(link) {
        Some(LinkTarget::Kanji(target)) => {
            if !list_contains(kanji, target.as_str()) {
                let m = content_path_msg(c, ": components 링크가 존재하지 않는 한자를 가리킵니다: ", link);
                push_msg(out, m);
            }
        },
        Some(LinkTarget::Radical(target)) => {
            if !list_contains(radicals, target.as_str()) {
                let m = content_path_msg(c, ": components 링크가 존재하지 않는 부수를 가리킵니다: ", link);
                push_msg(out, m);
            }
        },
        None => {
            let m = content_path_msg(
                c,
                ": 지원하지 않는 링크 형식입니다 (/kanji/... 또는 /radical/...만 허용): ",
                link,
            );
            push_msg(out, m);
        },
    }
}

fn check_references(e: &KanjiEntry, kanji: &Vec<String>, radicals: &Vec<String>, out: &mut Vec<String>)
    ensures
        final(out).deep_view() == old(out).deep_view() + component_msgs(
            e.character@,
            e.components@,
            kanji.deep_view(),
            radicals.deep_view(),
        ) + related_msgs(e.character@, e.related@, kanji.deep_view()),
{
    let c = e.character.as_str();
    let ghost start = out.deep_view();
    let mut i: usize = 0;
    while i < e.components.len()
        invariant
            i <= e.components.len(),
            c@ == e.character@,
            out.deep_view() == start + component_msgs(
                e.character@,
                e.components@.take(i as int),
                kanji.deep_view(),
                radicals.deep_view(),
            ),
        decreases e.components.len() - i,
    {
        let ghost before = out.deep_view();
        match &e.components[i].link {
            Some(l) => check_link(c, l.as_str(), kanji, radicals, out),
            None => {},
        }
        i += 1;
        proof {
            assert(e.components@.take(i as int).drop_last() == e.components@.take(i - 1));
            assert(e.components@.take(i as int).last() == e.components@[i - 1]);
            let x = match e.components@[i - 1].link {
                Some(l) => link_msgs(e.character@, l@, kanji.deep_view(), radicals.deep_view()),
                None => Seq::<Seq<char>>::empty(),
            };
            if e.components@[i - 1].link is None {
                assert(before + x =~= before);
            }
            assert(out.deep_view() == before + x);
            let done = component_msgs(
                e.character@,
                e.components@.take(i - 1),
                kanji.deep_view(),
                radicals.deep_view(),
            );
            assert(start + (done + x) == (start + done) + x);
        }
    }
    assert(e.components@.take(e.components.len() as int) == e.components@);
    let ghost mid = out.deep_view();
    let mut j: usize = 0;
    while j < e.related.len()
        invariant
            j <= e.related.len(),
            c@ == e.character@,
            out.deep_view() == mid + related_msgs(
                e.character@,
                e.related@.take(j as int),
                kanji.deep_view(),
            ),
        decreases e.related.len() - j,
    {
        let ghost before = out.deep_view();
        let target = e.related[j].kanji.as_str();
        if !list_contains(kanji, target) {
            let m = content_path_msg(c, ": related.kanji가 존재하지 않는 한자를 가리킵니다: ", target);
            push_msg(out, m);
        }
        j += 1;
        proof {
            assert(e.related@.take(j as int).drop_last() == e.related@.take(j - 1));
            assert(e.related@.take(j as int).last() == e.related@[j - 1]);
            let x = when(
                !kanji.deep_view().contains(e.related@[j - 1].kanji@),
                missing_related_msg(e.character@, e.related@[j - 1].kanji@),
            );
            if kanji.deep_view().contains(e.related@[j - 1].kanji@) {
                assert(before + x =~= before);
            } else {
                assert(before + x =~= before.push(x[0]));
            }
            assert(out.deep_view() == before + x);
            let done = related_msgs(e.character@, e.related@.take(j - 1), kanji.deep_view());
            assert(mid + (done + x) == (mid + done) + x);
        }
    }
    assert(e.related@.take(e.related.len() as int) == e.related@);
}

/// Checks a whole content directory and returns every problem found, in the
/// order the build reports them: per kanji file (parse error, or headword not
/// matching the file name, then headword already used), per radical file
/// likewise, then for each parsed kanji its component links (`/kanji/…` must
/// name a parsed kanji, `/radical/…` a parsed radical, anything else is
/// refused) and its related kanji. The content is valid when the list is empty.
pub fn validate_content(kanji: &Vec<KanjiFile>, radicals: &Vec<RadicalFile>) -> (errors: Vec<String>)
    ensures
        errors.deep_view() == validation_msgs(kanji@, radicals@),
{
    let mut out: Vec<String> = Vec::new();
    let mut kheads: Vec<String> = Vec::new();
    let mut i: usize = 0;
    while i < kanji.len()
        invariant
            i <= kanji.len(),
            out.deep_view() == kanji_msgs(kanji@.take(i as int)),
            kheads.deep_view() == kanji_heads(kanji@.take(i as int)),
        decreases kanji.len() - i,
    {
        check_kanji_file(&kanji[i], &mut kheads, &mut out);
        i += 1;
        proof {
            assert(kanji@.take(i as int).drop_last() == kanji@.take(i - 1));
            assert(kanji@.take(i as int).last() == kanji@[i - 1]);
        }
    }
    assert(kanji@.take(kanji.len() as int) == kanji@);
    let ghost after_kanji = out.deep_view();
    let mut rheads: Vec<String> = Vec::new();
    let mut i: usize = 0;
    while i < radicals.len()
        invariant
            i <= radicals.len(),
            out.deep_view() == after_kanji + radical_msgs(radicals@.take(i as int)),
            rheads.deep_view() == radical_heads(radicals@.take(i as int)),
        decreases radicals.len() - i,
    {
        let ghost before = out.deep_view();
        check_radical_file(&radicals[i], &mut rheads, &mut out);
        i += 1;
        proof {
            assert(radicals@.take(i as int).drop_last() == radicals@.take(i - 1));
            assert(radicals@.take(i as int).last() == radicals@[i - 1]);
            let rs = radicals@.take(i as int);
            assert(radical_msgs(rs) == radical_msgs(radicals@.take(i - 1)) + radical_file_msgs(
                radicals@[i - 1],
                radical_heads(radicals@.take(i - 1)),
            ));
        }
    }
    assert(radicals@.take(radicals.len() as int) == radicals@);
    let ghost after_radicals = out.deep_view();
    let mut i: usize = 0;
    while i < kanji.len()
        invariant
            i <= kanji.len(),
            kheads.deep_view() == kanji_heads(kanji@),
            rheads.deep_view() == radical_heads(radicals@),
            out.deep_view() == after_radicals + reference_msgs(
                kanji@.take(i as int),
                kanji_heads(kanji@),
                radical_heads(radicals@),
            ),
        decreases kanji.len() - i,
    {
        let ghost before = out.deep_view();
        match &kanji[i].parsed {
            Ok(e) => check_references(e, &kheads, &rheads, &mut out),
            Err(_) => {},
        }
        i += 1;
        proof {
            assert(kanji@.take(i as int).drop_last() == kanji@.take(i - 1));
            assert(kanji@.take(i as int).last() == kanji@[i - 1]);
            if kanji@[i - 1].parsed is Err {
                assert(out.deep_view() == before + Seq::<Seq<char>>::empty());
            }
        }
    }
    assert(kanji@.take(kanji.len() as int) == kanji@);
    out
}

// ── when the content is valid ──────────────────────────────────────

/// Every kanji file parsed, its headword matches its file name, and no
/// headword occurs in two files.
pub open spec fn kanji_files_ok(files: Seq<KanjiFile>) -> bool {
    &&& forall|i: int|
        0 <= i < files.len() ==> ((#[trigger] files[i]).parsed matches Ok(e) && e.character@
            == files[i].stem@)
    &&& forall|i: int, j: int|
        0 <= i < j < files.len() ==> (#[trigger] files[i]).parsed->Ok_0.character@ != (
        #[trigger] files[j]).parsed->Ok_0.character@
}

/// Every radical file parsed, its radical matches its file name, and no
/// radical occurs in two files.
pub open spec fn radical_files_ok(files: Seq<RadicalFile>) -> bool {
    &&& forall|i: int|
        0 <= i < files.len() ==> ((#[trigger] files[i]).parsed matches Ok(e) && e.radical@
            == files[i].stem@)
    &&& forall|i: int, j: int|
        0 <= i < j < files.len() ==> (#[trigger] files[i]).parsed->Ok_0.radical@ != (
        #[trigger] files[j]).parsed->Ok_0.radical@
}

/// A component link names an existing kanji or radical.
pub open spec fn link_resolves(link: Seq<char>, kanji: Seq<Seq<char>>, radicals: Seq<Seq<char>>) -> bool {
    match link_target_spec(link) {
        Some((true, t)) => kanji.contains(t),
        Some((false, t)) => radicals.contains(t),
        None => false,
    }
}

/// Every component link of `e` resolves and every related kanji exists.
pub open spec fn entry_refs_ok(e: KanjiEntry, kanji: Seq<Seq<char>>, radicals: Seq<Seq<char>>) -> bool {
    &&& forall|i: int|
        0 <= i < e.components@.len() ==> ((#[trigger] e.components@[i]).link matches Some(l)
            ==> link_resolves(l@, kanji, radicals))
    &&& forall|i: int| 0 <= i < e.related@.len() ==> kanji.contains((#[trigger] e.related@[i]).kanji@)
}

/// The whole content is consistent: files well named and unique, references resolved.
pub open spec fn content_valid(kanji: Seq<KanjiFile>, radicals: Seq<RadicalFile>) -> bool {
    &&& kanji_files_ok(kanji)
    &&& radical_files_ok(radicals)
    &&& forall|i: int|
        0 <= i < kanji.len() ==> ((#[trigger] kanji[i]).parsed matches Ok(e) ==> entry_refs_ok(
            e,
            kanji_heads(kanji),
            radical_heads(radicals),
        ))
}

proof fn lemma_kanji_heads_all(files: Seq<KanjiFile>)
    requires
        forall|i: int| 0 <= i < files.len() ==> (#[trigger] files[i]).parsed is Ok,
    ensures
        kanji_heads(files).len() == files.len(),
        forall|i: int|
            0 <= i < files.len() ==> #[trigger] kanji_heads(files)[i] == files[i].parsed->Ok_0.character@,
    decreases files.len(),
{
    if files.len() > 0 {
        let p = files.drop_last();
        assert forall|i: int| 0 <= i < p.len() implies (#[trigger] p[i]).parsed is Ok by {
            assert(p[i] == files[i]);
        }
        lemma_kanji_heads_all(p);
        assert(files.last().parsed is Ok);
        assert forall|i: int| 0 <= i < files.len() implies #[trigger] kanji_heads(files)[i]
            == files[i].parsed->Ok_0.character@ by {
            if i < p.len() {
                assert(p[i] == files[i]);
            }
        }
    }
}

proof fn lemma_radical_heads_all(files: Seq<RadicalFile>)
    requires
        forall|i: int| 0 <= i < files.len() ==> (#[trigger] files[i]).parsed is Ok,
    ensures
        radical_heads(files).len() == files.len(),
        forall|i: int|
            0 <= i < files.len() ==> #[trigger] radical_heads(files)[i] == files[i].parsed->Ok_0.radical@,
    decreases files.len(),
{
    if files.len() > 0 {
        let p = files.drop_last();
        assert forall|i: int| 0 <= i < p.len() implies (#[trigger] p[i]).parsed is Ok by {
            assert(p[i] == files[i]);
        }
        lemma_radical_heads_all(p);
        assert(files.last().parsed is Ok);
        assert forall|i: int| 0 <= i < files.len() implies #[trigger] radical_heads(files)[i]
            == files[i].parsed->Ok_0.radical@ by {
            if i < p.len() {
                assert(p[i] == files[i]);
            }
        }
    }
}

proof fn lemma_kanji_msgs_empty(files: Seq<KanjiFile>)
    ensures
        kanji_msgs(files).len() == 0 <==> kanji_files_ok(files),
    decreases files.len(),
{
    if files.len() > 0 {
        let p = files.drop_last();
        let f = files.last();
        lemma_kanji_msgs_empty(p);
        assert forall|i: int| 0 <= i < p.len() implies #[trigger] p[i] == files[i] by {}
        if kanji_files_ok(files) {
            assert(kanji_files_ok(p)) by {
                assert forall|i: int, j: int| 0 <= i < j < p.len() implies (#[trigger] p[i]).parsed->Ok_0.character@
                    != (#[trigger] p[j]).parsed->Ok_0.character@ by {
                    assert(files[i].parsed->Ok_0.character@ != files[j].parsed->Ok_0.character@);
                }
            }
            lemma_kanji_heads_all(p);
            assert(files[files.len() - 1] == f);
            assert(!kanji_heads(p).contains(f.parsed->Ok_0.character@)) by {
                if kanji_heads(p).contains(f.parsed->Ok_0.character@) {
                    let k = choose|k: int| 0 <= k < kanji_heads(p).len() && kanji_heads(p)[k] == f.parsed->Ok_0.character@;
                    assert(files[k].parsed->Ok_0.character@ != files[files.len() - 1].parsed->Ok_0.character@);
                }
            }
            assert(kanji_file_msgs(f, kanji_heads(p)).len() == 0);
        }
        if kanji_msgs(files).len() == 0 {
            assert(kanji_msgs(p).len() == 0);
            assert(kanji_file_msgs(f, kanji_heads(p)).len() == 0);
            assert(f.parsed is Ok);
            lemma_kanji_heads_all(p);
            assert forall|i: int| 0 <= i < files.len() implies ((#[trigger] files[i]).parsed matches Ok(e)
                && e.character@ == files[i].stem@) by {
                if i < p.len() {
                    assert(p[i] == files[i]);
                }
            }
            assert forall|i: int, j: int| 0 <= i < j < files.len() implies (#[trigger] files[i]).parsed->Ok_0.character@
                != (#[trigger] files[j]).parsed->Ok_0.character@ by {
                if j < p.len() {
                    assert(p[i] == files[i] && p[j] == files[j]);
                } else {
                    assert(kanji_heads(p)[i] == files[i].parsed->Ok_0.character@);
                    if files[i].parsed->Ok_0.character@ == f.parsed->Ok_0.character@ {
                        assert(kanji_heads(p).contains(f.parsed->Ok_0.character@));
                    }
                }
            }
        }
    }
}

proof fn lemma_radical_msgs_empty(files: Seq<RadicalFile>)
    ensures
        radical_msgs(files).len() == 0 <==> radical_files_ok(files),
    decreases files.len(),
{
    if files.len() > 0 {
        let p = files.drop_last();
        let f = files.last();
        lemma_radical_msgs_empty(p);
        assert forall|i: int| 0 <= i < p.len() implies #[trigger] p[i] == files[i] by {}
        if radical_files_ok(files) {
            assert(radical_files_ok(p)) by {
                assert forall|i: int, j: int| 0 <= i < j < p.len() implies (#[trigger] p[i]).parsed->Ok_0.radical@
                    != (#[trigger] p[j]).parsed->Ok_0.radical@ by {
                    assert(files[i].parsed->Ok_0.radical@ != files[j].parsed->Ok_0.radical@);
                }
            }
            lemma_radical_heads_all(p);
            assert(files[files.len() - 1] == f);
            assert(!radical_heads(p).contains(f.parsed->Ok_0.radical@)) by {
                if radical_heads(p).contains(f.parsed->Ok_0.radical@) {
                    let k = choose|k: int| 0 <= k < radical_heads(p).len() && radical_heads(p)[k] == f.parsed->Ok_0.radical@;
                    assert(files[k].parsed->Ok_0.radical@ != files[files.len() - 1].parsed->Ok_0.radical@);
                }
            }
            assert(radical_file_msgs(f, radical_heads(p)).len() == 0);
        }
        if radical_msgs(files).len() == 0 {
            assert(radical_msgs(p).len() == 0);
            assert(radical_file_msgs(f, radical_heads(p)).len() == 0);
            assert(f.parsed is Ok);
            lemma_radical_heads_all(p);
            assert forall|i: int| 0 <= i < files.len() implies ((#[trigger] files[i]).parsed matches Ok(e)
                && e.radical@ == files[i].stem@) by {
                if i < p.len() {
                    assert(p[i] == files[i]);
                }
            }
            assert forall|i: int, j: int| 0 <= i < j < files.len() implies (#[trigger] files[i]).parsed->Ok_0.radical@
                != (#[trigger] files[j]).parsed->Ok_0.radical@ by {
                if j < p.len() {
                    assert(p[i] == files[i] && p[j] == files[j]);
                } else {
                    assert(radical_heads(p)[i] == files[i].parsed->Ok_0.radical@);
                    if files[i].parsed->Ok_0.radical@ == f.parsed->Ok_0.radical@ {
                        assert(radical_heads(p).contains(f.parsed->Ok_0.radical@));
                    }
                }
            }
        }
    }
}

proof fn lemma_component_msgs_empty(c: Seq<char>, comps: Seq<Component>, k: Seq<Seq<char>>, r: Seq<Seq<char>>)
    ensures
        component_msgs(c, comps, k, r).len() == 0 <==> forall|i: int|
            0 <= i < comps.len() ==> ((#[trigger] comps[i]).link matches Some(l) ==> link_resolves(
                l@,
                k,
                r,
            )),
    decreases comps.len(),
{
    if comps.len() > 0 {
        let p = comps.drop_last();
        lemma_component_msgs_empty(c, p, k, r);
        let last = comps[comps.len() - 1];
        assert(comps.last() == last);
        let w = match last.link {
            Some(l) => link_msgs(c, l@, k, r),
            None => Seq::empty(),
        };
        assert(component_msgs(c, comps, k, r) == component_msgs(c, p, k, r) + w);
        assert(w.len() == 0 <==> (last.link matches Some(l) ==> link_resolves(l@, k, r)));
        if forall|i: int|
            0 <= i < comps.len() ==> ((#[trigger] comps[i]).link matches Some(l) ==> link_resolves(
                l@,
                k,
                r,
            )) {
            assert forall|i: int| 0 <= i < p.len() implies ((#[trigger] p[i]).link matches Some(l)
                ==> link_resolves(l@, k, r)) by {
                assert(p[i] == comps[i]);
            }
            assert(comps[comps.len() - 1] == last);
        }
        if component_msgs(c, comps, k, r).len() == 0 {
            assert(component_msgs(c, p, k, r).len() == 0);
            assert forall|i: int| 0 <= i < comps.len() implies ((#[trigger] comps[i]).link matches Some(l)
                ==> link_resolves(l@, k, r)) by {
                if i < p.len() {
                    assert(p[i] == comps[i]);
                }
            }
        }
    }
}

proof fn lemma_related_msgs_empty(c: Seq<char>, rel: Seq<Related>, k: Seq<Seq<char>>)
    ensures
        related_msgs(c, rel, k).len() == 0 <==> forall|i: int|
            0 <= i < rel.len() ==> k.contains((#[trigger] rel[i]).kanji@),
    decreases rel.len(),
{
    if rel.len() > 0 {
        let p = rel.drop_last();
        lemma_related_msgs_empty(c, p, k);
        let last = rel[rel.len() - 1];
        assert(rel.last() == last);
        let w = when(!k.contains(last.kanji@), missing_related_msg(c, last.kanji@));
        assert(related_msgs(c, rel, k) == related_msgs(c, p, k) + w);
        if forall|i: int| 0 <= i < rel.len() ==> k.contains((#[trigger] rel[i]).kanji@) {
            assert forall|i: int| 0 <= i < p.len() implies k.contains((#[trigger] p[i]).kanji@) by {
                assert(p[i] == rel[i]);
            }
            assert(k.contains(rel[rel.len() - 1].kanji@));
            assert(w.len() == 0);
        }
        if related_msgs(c, rel, k).len() == 0 {
            assert(related_msgs(c, p, k).len() == 0);
            assert(w.len() == 0);
            assert forall|i: int| 0 <= i < rel.len() implies k.contains((#[trigger] rel[i]).kanji@) by {
                if i < p.len() {
                    assert(p[i] == rel[i]);
                }
            }
        }
    }
}

proof fn lemma_reference_msgs_empty(files: Seq<KanjiFile>, k: Seq<Seq<char>>, r: Seq<Seq<char>>)
    ensures
        reference_msgs(files, k, r).len() == 0 <==> forall|i: int|
            0 <= i < files.len() ==> ((#[trigger] files[i]).parsed matches Ok(e) ==> entry_refs_ok(
                e,
                k,
                r,
            )),
    decreases files.len(),
{
    if files.len() > 0 {
        let p = files.drop_last();
        lemma_reference_msgs_empty(p, k, r);
        let f = files[files.len() - 1];
        assert(files.last() == f);
        let w = match f.parsed {
            Ok(e) => component_msgs(e.character@, e.components@, k, r) + related_msgs(
                e.character@,
                e.related@,
                k,
            ),
            Err(_) => Seq::empty(),
        };
        assert(reference_msgs(files, k, r) == reference_msgs(p, k, r) + w);
        if let Ok(e) = f.parsed {
            lemma_component_msgs_empty(e.character@, e.components@, k, r);
            lemma_related_msgs_empty(e.character@, e.related@, k);
        }
        assert(w.len() == 0 <==> (f.parsed matches Ok(e) ==> entry_refs_ok(e, k, r)));
        if forall|i: int|
            0 <= i < files.len() ==> ((#[trigger] files[i]).parsed matches Ok(e) ==> entry_refs_ok(
                e,
                k,
                r,
            )) {
            assert forall|i: int| 0 <= i < p.len() implies ((#[trigger] p[i]).parsed matches Ok(e)
                ==> entry_refs_ok(e, k, r)) by {
                assert(p[i] == files[i]);
            }
        }
        if reference_msgs(files, k, r).len() == 0 {
            assert(reference_msgs(p, k, r).len() == 0);
            assert forall|i: int| 0 <= i < files.len() implies ((#[trigger] files[i]).parsed matches Ok(e)
                ==> entry_refs_ok(e, k, r)) by {
                if i < p.len() {
                    assert(p[i] == files[i]);
                }
            }
        }
    }
}

/// The content passes validation (no problem is reported) exactly when every
/// file parsed with a headword matching its file name, no headword or radical
/// is used twice, every component link names an existing kanji or radical,
/// and every related kanji exists.
pub proof fn lemma_valid_iff_no_problems(kanji: Seq<KanjiFile>, radicals: Seq<RadicalFile>)
    ensures
        validation_msgs(kanji, radicals).len() == 0 <==> content_valid(kanji, radicals),
{
    lemma_kanji_msgs_empty(kanji);
    lemma_radical_msgs_empty(radicals);
    lemma_reference_msgs_empty(kanji, kanji_heads(kanji), radical_heads(radicals));
}

} // verus!
