//! Planning of the `import-kanjidic` command: which characters to draft, which
//! KANJIDIC2 records they come from, and which drafts to skip because the
//! content already exists. Reading and writing files is left to the caller.
//!
//! If any requested character is missing from the dictionary, nothing is
//! written (the same all-or-nothing rule as the build).

use vstd::prelude::*;
use crate::kanjidic::{
    char_models, found_ok, parse_wanted, wanted_records, xml_tokens, CharModel, KanjidicChar,
    KanjidicError,
};
use crate::text::{contains_char, push_char};

verus! {

#[verifier::external_type_specification]
#[verifier::external_body]
pub struct ExPathBuf(std::path::PathBuf);

/// The inputs of an import.
pub struct ImportOptions {
    /// Path of the KANJIDIC2 XML file (a local file; nothing is downloaded).
    pub xml_path: std::path::PathBuf,
    /// The characters to draft; repeats are dropped, first occurrence kept.
    pub chars: Vec<char>,
    /// Directory the draft `.md` files are written to.
    pub out_dir: std::path::PathBuf,
    /// Skip a character when `content_dir/kanji/{character}.md` exists.
    pub skip_existing: bool,
    /// The content directory consulted by `skip_existing`.
    pub content_dir: std::path::PathBuf,
}

/// What an import did, in request order.
#[derive(Debug, Default, Clone, PartialEq, Eq)]
pub struct ImportSummary {
    /// Characters whose draft was written.
    pub written: Vec<char>,
    /// Characters skipped because their content file exists.
    pub skipped: Vec<char>,
}

/// Why an import was refused.
#[derive(Debug, Clone, PartialEq, Eq)]
pub enum ImportError {
    /// No character was requested.
    NoChars,
    /// The dictionary could not be read.
    Xml(KanjidicError),
    /// These requested characters are not in the dictionary (request order).
    Missing(Vec<char>),
}

/// The message of an import error for the dictionary at `xml_path`.
pub open spec fn import_error_text(e: ImportError, xml_path: Seq<char>) -> Seq<char> {
    match e {
        ImportError::NoChars => "--chars로 최소 한 글자 이상 지정해야 합니다"@,
        ImportError::Xml(KanjidicError::Xml(detail)) => xml_path
            + ": KANJIDIC2 XML을 파싱하는 데 실패했습니다: KANJIDIC2 XML 파싱 중 오류가 발생했습니다: "@
            + detail@,
        ImportError::Missing(m) => xml_path + ": KANJIDIC2에서 찾을 수 없는 글자입니다: "@ + m@,
    }
}

impl ImportError {
    /// The error as the command line reports it, naming the dictionary file.
    pub fn message(&self, xml_path: &str) -> (m: String)
        ensures
            m@ == import_error_text(*self, xml_path@),
    {
        match self {
            ImportError::NoChars => String::from_str("--chars로 최소 한 글자 이상 지정해야 합니다"),
            ImportError::Xml(KanjidicError::Xml(detail)) => {
                let mut m = String::from_str(xml_path);
                m.append(": KANJIDIC2 XML을 파싱하는 데 실패했습니다: KANJIDIC2 XML 파싱 중 오류가 발생했습니다: ");
                m.append(detail.as_str());
                m
            },
            ImportError::Missing(chars) => {
                let mut m = String::from_str(xml_path);
                m.append(": KANJIDIC2에서 찾을 수 없는 글자입니다: ");
                let mut i: usize = 0;
                let ghost start = m@;
                while i < chars.len()
                    invariant
                        i <= chars.len(),
                        m@ == start + chars@.take(i as int),
                    decreases chars.len() - i,
                {
                    push_char(&mut m, chars[i]);
                    i += 1;
                    assert(chars@.take(i as int) == chars@.take(i - 1).push(chars@[i - 1]));
                }
                assert(chars@.take(chars.len() as int) == chars@);
                m
            },
        }
    }
}

/// `s` with repeats removed, first occurrences kept in order.
pub open spec fn dedupe_spec(s: Seq<char>) -> Seq<char>
    decreases s.len(),
{
    if s.len() == 0 {
        Seq::empty()
    } else {
        let d = dedupe_spec(s.drop_last());
        if d.contains(s.last()) {
            d
        } else {
            d.push(s.last())
        }
    }
}

/// The requested characters without repeats, in order of first request.
pub fn dedupe_chars(chars: &Vec<char>) -> (r: Vec<char>)
    ensures
        r@ == dedupe_spec(chars@),
{
    let mut r: Vec<char> = Vec::new();
    let mut i: usize = 0;
    while i < chars.len()
        invariant
            i <= chars.len(),
            r@ == dedupe_spec(chars@.take(i as int)),
        decreases chars.len() - i,
    {
        if !contains_char(&r, chars[i]) {
            r.push(chars[i]);
        }
        i += 1;
        proof {
            assert(chars@.take(i as int).drop_last() == chars@.take(i - 1));
            assert(chars@.take(i as int).last() == chars@[i - 1]);
        }
    }
    assert(chars@.take(chars.len() as int) == chars@);
    r
}

/// Some record of `found` has the literal `c`.
pub open spec fn has_record(found: Seq<CharModel>, c: char) -> bool {
    exists|i: int| 0 <= i < found.len() && found[i].literal == c
}

/// The characters of `order` that no record in `found` has as its literal.
pub open spec fn missing_spec(order: Seq<char>, found: Seq<CharModel>) -> Seq<char>
    decreases order.len(),
{
    if order.len() == 0 {
        Seq::empty()
    } else {
        let m = missing_spec(order.drop_last(), found);
        if has_record(found, order.last()) {
            m
        } else {
            m.push(order.last())
        }
    }
}

/// The record of `found` whose literal is `c`.
pub open spec fn record_for(found: Seq<CharModel>, c: char) -> CharModel {
    found[choose|i: int| 0 <= i < found.len() && found[i].literal == c]
}

proof fn lemma_missing_from_order(order: Seq<char>, found: Seq<CharModel>)
    ensures
        forall|i: int|
            0 <= i < missing_spec(order, found).len() ==> order.contains(
                #[trigger] missing_spec(order, found)[i],
            ),
        missing_spec(order, found).len() == 0 ==> forall|i: int|
            0 <= i < order.len() ==> has_record(found, #[trigger] order[i]),
    decreases order.len(),
{
    if order.len() > 0 {
        let prev = order.drop_last();
        lemma_missing_from_order(prev, found);
        let m = missing_spec(order, found);
        assert forall|i: int| 0 <= i < m.len() implies order.contains(#[trigger] m[i]) by {
            if i < missing_spec(prev, found).len() {
                let x = m[i];
                assert(prev.contains(x));
                let k = choose|k: int| 0 <= k < prev.len() && prev[k] == x;
                assert(order[k] == x);
            } else {
                assert(order[order.len() - 1] == m[i]);
            }
        }
        if m.len() == 0 {
            assert(missing_spec(prev, found).len() == 0);
            assert forall|i: int| 0 <= i < order.len() implies has_record(found, #[trigger] order[i]) by {
                if i < prev.len() {
                    assert(prev[i] == order[i]);
                }
            }
        }
    }
}

fn find_record(found: &Vec<KanjidicChar>, c: char) -> (r: Option<usize>)
    ensures
        match r {
            Some(i) => i < found.len() && found@[i as int].literal == c,
            None => forall|i: int| 0 <= i < found.len() ==> found@[i].literal != c,
        },
{
    let mut i: usize = 0;
    while i < found.len()
        invariant
            i <= found.len(),
            forall|j: int| 0 <= j < i ==> found@[j].literal != c,
        decreases found.len() - i,
    {
        if found[i].literal == c {
            return Some(i);
        }
        i += 1;
    }
    None
}

/// Picks, for each character of `order`, its record in `found`. When some
/// characters have no record, they are returned instead, in order.
pub fn select_records(order: &Vec<char>, found: &Vec<KanjidicChar>) -> (r: Result<Vec<KanjidicChar>, Vec<char>>)
    requires
        forall|i: int, j: int|
            0 <= i < j < found.len() ==> #[trigger] found@[i].literal != #[trigger] found@[j].literal,
    ensures
        match r {
            Ok(records) => missing_spec(order@, char_models(found@)).len() == 0 && records@.len()
                == order@.len() && forall|i: int|
                0 <= i < order@.len() ==> #[trigger] records@[i]@ == record_for(
                    char_models(found@),
                    order@[i],
                ),
            Err(missing) => missing@.len() > 0 && missing@ == missing_spec(
                order@,
                char_models(found@),
            ),
        },
{
    let ghost models = char_models(found@);
    let mut missing: Vec<char> = Vec::new();
    let mut records: Vec<KanjidicChar> = Vec::new();
    let mut i: usize = 0;
    while i < order.len()
        invariant
            i <= order.len(),
            models == char_models(found@),
            forall|a: int, b: int|
                0 <= a < b < found.len() ==> #[trigger] found@[a].literal != #[trigger] found@[b].literal,
            missing@ == missing_spec(order@.take(i as int), models),
            missing@.len() == 0 ==> records@.len() == i && forall|k: int|
                0 <= k < i ==> #[trigger] records@[k]@ == record_for(models, order@[k]),
        decreases order.len() - i,
    {
        let c = order[i];
        proof {
            assert(order@.take(i + 1).drop_last() == order@.take(i as int));
            assert(order@.take(i + 1).last() == c);
        }
        match find_record(found, c) {
            Some(k) => {
                proof {
                    assert(models[k as int] == found@[k as int]@);
                    assert(has_record(models, c));
                }
                if missing.len() == 0 {
                    proof {
                        let j = choose|j: int| 0 <= j < models.len() && models[j].literal == c;
                        if j != k {
                            if j < k {
                                assert(found@[j].literal != found@[k as int].literal);
                            } else {
                                assert(found@[k as int].literal != found@[j].literal);
                            }
                        }
                        assert(record_for(models, c) == found@[k as int]@);
                    }
                    records.push(found[k].clone_record());
                    assert(records@[i as int]@ == record_for(models, order@[i as int]));
                }
            },
            None => {
                proof {
                    assert forall|j: int| 0 <= j < models.len() implies models[j].literal != c by {
                        assert(models[j] == found@[j]@);
                    }
                    assert(!has_record(models, c));
                }
                missing.push(c);
            },
        }
        i += 1;
    }
    assert(order@.take(order.len() as int) == order@);
    if missing.len() > 0 {
        Err(missing)
    } else {
        Ok(records)
    }
}

/// Reads the dictionary `xml` and picks the records for the requested
/// characters (repeats dropped, request order kept). Refused when nothing is
/// requested, when the reader fails, or when some character is missing.
pub fn plan_import(xml: &str, chars: &Vec<char>) -> (r: Result<(Vec<char>, Vec<KanjidicChar>), ImportError>)
    ensures
        dedupe_spec(chars@).len() == 0 <==> r matches Err(ImportError::NoChars),
        dedupe_spec(chars@).len() > 0 ==> (r matches Err(ImportError::Xml(_)) <==> xml_tokens(
            xml@,
        ) is None),
        r matches Err(ImportError::Missing(m)) ==> m@.len() > 0 && m@ == missing_spec(
            dedupe_spec(chars@),
            wanted_records(xml@, dedupe_spec(chars@)),
        ),
        r is Ok <==> dedupe_spec(chars@).len() > 0 && xml_tokens(xml@) is Some && missing_spec(
            dedupe_spec(chars@),
            wanted_records(xml@, dedupe_spec(chars@)),
        ).len() == 0,
        r matches Ok((order, records)) ==> order@ == dedupe_spec(chars@) && records@.len()
            == order@.len() && forall|i: int|
            0 <= i < order@.len() ==> #[trigger] records@[i]@ == record_for(
                wanted_records(xml@, order@),
                order@[i],
            ) && records@[i].literal == order@[i],
{
    let order = dedupe_chars(chars);
    if order.len() == 0 {
        return Err(ImportError::NoChars);
    }
    let found = match parse_wanted(xml, &order) {
        Ok(f) => f,
        Err(e) => {
            return Err(ImportError::Xml(e));
        },
    };
    proof {
        let models = char_models(found@);
        assert(found_ok(models, order@));
        assert forall|i: int, j: int| 0 <= i < j < found.len() implies #[trigger] found@[i].literal
            != #[trigger] found@[j].literal by {
            assert(models[i] == found@[i]@);
            assert(models[j] == found@[j]@);
            assert(models[i].literal != models[j].literal);
        }
    }
    match select_records(&order, &found) {
        Ok(records) => {
            proof {
                let models = char_models(found@);
                lemma_missing_from_order(order@, models);
                assert forall|i: int| 0 <= i < order@.len() implies #[trigger] records@[i]@
                    == record_for(models, order@[i]) && records@[i].literal == order@[i] by {
                    assert(records@[i]@ == record_for(models, order@[i]));
                    assert(has_record(models, order@[i]));
                }
            }
            Ok((order, records))
        },
        Err(missing) => {
            proof {
                lemma_missing_from_order(order@, char_models(found@));
            }
            Err(ImportError::Missing(missing))
        },
    }
}

/// Dropping repeats keeps every requested character exactly once: the result
/// holds no character twice and holds the same characters as the request.
pub proof fn lemma_dedupe_keeps_each_once(s: Seq<char>)
    ensures
        forall|i: int, j: int|
            0 <= i < j < dedupe_spec(s).len() ==> #[trigger] dedupe_spec(s)[i] != #[trigger] dedupe_spec(
                s,
            )[j],
        forall|c: char| #[trigger] dedupe_spec(s).contains(c) <==> s.contains(c),
    decreases s.len(),
{
    if s.len() > 0 {
        let p = s.drop_last();
        lemma_dedupe_keeps_each_once(p);
        let d = dedupe_spec(p);
        let x = s.last();
        assert forall|c: char| #[trigger] dedupe_spec(s).contains(c) <==> s.contains(c) by {
            if s.contains(c) {
                let k = choose|k: int| 0 <= k < s.len() && s[k] == c;
                if k < p.len() {
                    assert(p[k] == c);
                    assert(p.contains(c));
                    assert(d.contains(c));
                    if !d.contains(x) {
                        let m = choose|m: int| 0 <= m < d.len() && d[m] == c;
                        assert(d.push(x)[m] == c);
                        assert(d.push(x).contains(c));
                    }
                } else {
                    if !d.contains(x) {
                        assert(d.push(x)[d.len() as int] == c);
                    }
                }
            }
            if dedupe_spec(s).contains(c) {
                let m = choose|m: int| 0 <= m < dedupe_spec(s).len() && dedupe_spec(s)[m] == c;
                if m < d.len() {
                    assert(d[m] == c);
                    assert(d.contains(c));
                    let k = choose|k: int| 0 <= k < p.len() && p[k] == c;
                    assert(s[k] == c);
                } else {
                    assert(s[s.len() - 1] == c);
                }
            }
        }
        if !d.contains(x) {
            let e = d.push(x);
            assert forall|i: int, j: int| 0 <= i < j < e.len() implies #[trigger] e[i] != #[trigger] e[j] by {
                if j == d.len() {
                    assert(e[i] == d[i]);
                    if d[i] == x {
                        assert(d.contains(x));
                    }
                } else {
                    assert(e[i] == d[i] && e[j] == d[j]);
                }
            }
        }
    }
}

/// Without `skip_existing` every character is drafted and none skipped; in
/// any case the drafted and skipped characters together are the request.
pub proof fn lemma_split_existing_partition(order: Seq<char>, skip_existing: bool, existing: Seq<bool>)
    requires
        existing.len() == order.len(),
    ensures
        written_spec(order, skip_existing, existing).len() + skipped_spec(
            order,
            skip_existing,
            existing,
        ).len() == order.len(),
        !skip_existing ==> written_spec(order, skip_existing, existing) == order && skipped_spec(
            order,
            skip_existing,
            existing,
        ).len() == 0,
    decreases order.len(),
{
    if order.len() > 0 {
        lemma_split_existing_partition(order.drop_last(), skip_existing, existing.drop_last());
        if !skip_existing {
            assert(order.drop_last().push(order.last()) == order);
        }
    }
}

/// The file name of a kanji's content or draft file: `{character}.md`.
pub fn kanji_file_name(c: char) -> (name: String)
    ensures
        name@ == seq![c] + ".md"@,
{
    let mut name = String::new();
    push_char(&mut name, c);
    name.append(".md");
    name
}

/// Splits the requested characters into those to draft and those to skip:
/// with `skip_existing`, a character whose content file exists
/// (`existing[i]`) is skipped; every other one is drafted.
pub fn split_existing(order: &Vec<char>, skip_existing: bool, existing: &Vec<bool>) -> (s: ImportSummary)
    requires
        existing@.len() == order@.len(),
    ensures
        s.written@ == written_spec(order@, skip_existing, existing@),
        s.skipped@ == skipped_spec(order@, skip_existing, existing@),
{
    let mut written: Vec<char> = Vec::new();
    let mut skipped: Vec<char> = Vec::new();
    let mut i: usize = 0;
    while i < order.len()
        invariant
            i <= order.len(),
            existing@.len() == order@.len(),
            written@ == written_spec(order@.take(i as int), skip_existing, existing@.take(i as int)),
            skipped@ == skipped_spec(order@.take(i as int), skip_existing, existing@.take(i as int)),
        decreases order.len() - i,
    {
        if skip_existing && existing[i] {
            skipped.push(order[i]);
        } else {
            written.push(order[i]);
        }
        i += 1;
        proof {
            assert(order@.take(i as int).drop_last() == order@.take(i - 1));
            assert(existing@.take(i as int).drop_last() == existing@.take(i - 1));
        }
    }
    assert(order@.take(order.len() as int) == order@);
    assert(existing@.take(order.len() as int) == existing@);
    ImportSummary { written, skipped }
}

/// The characters drafted: those not skipped, in order.
pub open spec fn written_spec(order: Seq<char>, skip_existing: bool, existing: Seq<bool>) -> Seq<char>
    decreases order.len(),
{
    if order.len() == 0 || existing.len() != order.len() {
        Seq::empty()
    } else {
        let w = written_spec(order.drop_last(), skip_existing, existing.drop_last());
        if skip_existing && existing.last() {
            w
        } else {
            w.push(order.last())
        }
    }
}

/// The characters skipped because their content file exists, in order.
pub open spec fn skipped_spec(order: Seq<char>, skip_existing: bool, existing: Seq<bool>) -> Seq<char>
    decreases order.len(),
{
    if order.len() == 0 || existing.len() != order.len() {
        Seq::empty()
    } else {
        let w = skipped_spec(order.drop_last(), skip_existing, existing.drop_last());
        if skip_existing && existing.last() {
            w.push(order.last())
        } else {
            w
        }
    }
}

} // verus!
