//! The decisions behind the web pages: how a data response is judged, how the
//! browse filters combine, which kanji are suggested today, which summaries a
//! radical page shows, how confidence is labelled, and the hash that identifies
//! the explanation a reader was looking at.

use vstd::prelude::*;
use crate::index::KanjiSummaryItem;
use crate::keyed::ListMap;
use crate::schema::{Confidence, KanjiEntry, RadicalEntry};
use crate::search::{
    lemma_seq_lt_total, lemma_seq_lt_transitive, seq_lt, seq_lt_exec, SearchHit, SearchIndex,
};
use crate::text::{char_from_u32, chars_of, contains, seq_contains, string_of, trim_seq, trimmed};
use vstd::string::StringSliceAdditionalSpecFns;

verus! {

/// One item of `kanji-list.json`, as the pages read it.
pub type KanjiSummary = KanjiSummaryItem;

/// `kanji/{kanji}.json`: every field of the entry and the explanation's Markdown.
#[derive(Debug, Clone, PartialEq)]
pub struct KanjiDetail {
    pub entry: KanjiEntry,
    /// The etymology ("why this shape") as Markdown.
    pub body_markdown: String,
}

/// `radicals/{radical}.json`: every field of the entry and its explanation.
#[derive(Debug, Clone, PartialEq)]
pub struct RadicalDetail {
    pub entry: RadicalEntry,
    /// The radical's etymology as Markdown.
    pub body_markdown: String,
}

// ── fetching data ──────────────────────────────────────────────────

/// Why data could not be loaded. A missing file is told apart so the page can
/// say the kanji is not registered yet.
#[derive(Debug, Clone, PartialEq)]
pub enum FetchError {
    /// The data file does not exist (404).
    NotFound,
    /// Another HTTP error status.
    Status(u16),
    /// Network or decoding failure.
    Other(String),
}

/// The decimal digits of `n`.
pub open spec fn decimal(n: nat) -> Seq<char>
    decreases n,
{
    if n < 10 {
        seq![digit_char(n)]
    } else {
        decimal(n / 10).push(digit_char(n % 10))
    }
}

pub open spec fn digit_char(d: nat) -> char {
    if d == 0 { '0' }
    else if d == 1 { '1' }
    else if d == 2 { '2' }
    else if d == 3 { '3' }
    else if d == 4 { '4' }
    else if d == 5 { '5' }
    else if d == 6 { '6' }
    else if d == 7 { '7' }
    else if d == 8 { '8' }
    else { '9' }
}

fn digit_char_exec(d: u16) -> (c: char)
    requires
        d < 10,
    ensures
        c == digit_char(d as nat),
{
    if d == 0 { '0' }
    else if d == 1 { '1' }
    else if d == 2 { '2' }
    else if d == 3 { '3' }
    else if d == 4 { '4' }
    else if d == 5 { '5' }
    else if d == 6 { '6' }
    else if d == 7 { '7' }
    else if d == 8 { '8' }
    else { '9' }
}

fn decimal_string(n: u16) -> (s: Vec<char>)
    ensures
        s@ == decimal(n as nat),
    decreases n,
{
    if n < 10 {
        let mut s: Vec<char> = Vec::new();
        s.push(digit_char_exec(n));
        s
    } else {
        let mut s = decimal_string(n / 10);
        s.push(digit_char_exec(n % 10));
        s
    }
}

/// The message shown for a fetch error.
pub open spec fn fetch_error_text(e: FetchError) -> Seq<char> {
    match e {
        FetchError::NotFound => "데이터를 찾을 수 없습니다 (404)"@,
        FetchError::Status(code) => "서버 오류 (HTTP "@ + decimal(code as nat) + ")"@,
        FetchError::Other(msg) => "불러오기 실패: "@ + msg@,
    }
}

impl FetchError {
    /// The error as the page shows it.
    pub fn message(&self) -> (m: String)
        ensures
            m@ == fetch_error_text(*self),
    {
        match self {
            FetchError::NotFound => String::from_str("데이터를 찾을 수 없습니다 (404)"),
            FetchError::Status(code) => {
                let mut m = String::from_str("서버 오류 (HTTP ");
                let digits = decimal_string(*code);
                let mut i: usize = 0;
                while i < digits.len()
                    invariant
                        i <= digits.len(),
                        m@ == "서버 오류 (HTTP "@ + digits@.take(i as int),
                    decreases digits.len() - i,
                {
                    crate::text::push_char(&mut m, digits[i]);
                    i += 1;
                    assert(digits@.take(i as int) == digits@.take(i - 1).push(digits@[i - 1]));
                }
                assert(digits@.take(digits.len() as int) == digits@);
                m.append(")");
                m
            },
            FetchError::Other(msg) => {
                let mut m = String::from_str("불러오기 실패: ");
                m.append(msg.as_str());
                m
            },
        }
    }
}

/// ASCII lower case of one character.
pub open spec fn ascii_lower(c: char) -> char {
    if 'A' <= c && c <= 'Z' {
        ((c as u32) + 32) as char
    } else {
        c
    }
}

fn ascii_lower_exec(c: char) -> (r: char)
    ensures
        r == ascii_lower(c),
{
    if 'A' <= c && c <= 'Z' {
        match char_from_u32(c as u32 + 32) {
            Some(l) => l,
            None => c,
        }
    } else {
        c
    }
}

/// How a response is judged before its body is decoded: 404 is "not found",
/// another status outside 2xx is an HTTP error, and a success whose content
/// type does not mention `json` (any letter case) is treated as "not found"
/// too, because a development server answers unknown paths with its HTML page.
pub open spec fn response_verdict(status: u16, ok: bool, content_type: Seq<char>) -> Result<(), FetchError> {
    if status == 404 {
        Err(FetchError::NotFound)
    } else if !ok {
        Err(FetchError::Status(status))
    } else if !seq_contains(content_type.map_values(|c: char| ascii_lower(c)), "json"@) {
        Err(FetchError::NotFound)
    } else {
        Ok(())
    }
}

/// Judges a response from its status, whether the status is a success, and
/// its `Content-Type` header (empty when absent).
pub fn check_response(status: u16, ok: bool, content_type: &str) -> (r: Result<(), FetchError>)
    ensures
        match (r, response_verdict(status, ok, content_type@)) {
            (Ok(()), Ok(())) => true,
            (Err(FetchError::NotFound), Err(FetchError::NotFound)) => true,
            (Err(FetchError::Status(a)), Err(FetchError::Status(b))) => a == b,
            _ => false,
        },
{
    if status == 404 {
        return Err(FetchError::NotFound);
    }
    if !ok {
        return Err(FetchError::Status(status));
    }
    let v = chars_of(content_type);
    let mut lower: Vec<char> = Vec::new();
    let mut i: usize = 0;
    while i < v.len()
        invariant
            i <= v.len(),
            lower@ == v@.take(i as int).map_values(|c: char| ascii_lower(c)),
        decreases v.len() - i,
    {
        lower.push(ascii_lower_exec(v[i]));
        i += 1;
        assert(v@.take(i as int).map_values(|c: char| ascii_lower(c)) == v@.take(i - 1).map_values(
            |c: char| ascii_lower(c),
        ).push(ascii_lower(v@[i - 1])));
    }
    assert(v@.take(v.len() as int) == v@);
    let json = chars_of("json");
    if !contains(&lower, &json) {
        return Err(FetchError::NotFound);
    }
    Ok(())
}

// ── today's kanji and suggestions ──────────────────────────────────

/// How many kanji the "how about these" block suggests.
pub const SUGGESTION_COUNT: usize = 6;

/// The index of today's kanji among `len` kanji, from the number of whole days
/// since the Unix epoch (UTC): the same kanji all day. `0` when the list is empty.
pub fn today_index_from_days(days: u64, len: usize) -> (i: usize)
    ensures
        len == 0 ==> i == 0,
        len > 0 ==> i == days % (len as u64) && i < len,
{
    if len == 0 {
        return 0;
    }
    (days % (len as u64)) as usize
}

/// The suggestions: up to `SUGGESTION_COUNT` kanji, taken in list order
/// from `start` and wrapping around.
pub open spec fn suggestion_spec(list: Seq<KanjiSummary>, start: int) -> Seq<KanjiSummary> {
    if list.len() == 0 {
        Seq::empty()
    } else {
        Seq::new(
            if list.len() < SUGGESTION_COUNT { list.len() } else { SUGGESTION_COUNT as nat },
            |i: int| list[(start + i) % (list.len() as int)],
        )
    }
}

/// Picks the suggested kanji, starting at `start` (today's index).
pub fn suggestion_picks(list: &Vec<KanjiSummary>, start: usize) -> (picks: Vec<KanjiSummary>)
    ensures
        picks@.len() == suggestion_spec(list@, start as int).len(),
        forall|i: int|
            0 <= i < picks@.len() ==> crate::index::same_summary(
                #[trigger] picks@[i],
                suggestion_spec(list@, start as int)[i],
            ),
{
    let mut picks: Vec<KanjiSummary> = Vec::new();
    let n = list.len();
    if n == 0 {
        return picks;
    }
    let count = if n < SUGGESTION_COUNT { n } else { SUGGESTION_COUNT };
    let base = start % n;
    let mut i: usize = 0;
    while i < count
        invariant
            n == list.len(),
            n > 0,
            count <= n,
            count == (if n < SUGGESTION_COUNT { n } else { SUGGESTION_COUNT }),
            base == start % n,
            i <= count,
            picks@.len() == i,
            forall|k: int|
                0 <= k < i ==> crate::index::same_summary(
                    #[trigger] picks@[k],
                    list@[(start + k) % (n as int)],
                ),
        decreases count - i,
    {
        let j = if i < n - base {
            base + i
        } else {
            i - (n - base)
        };
        proof {
            let x = base + i;
            if x < n {
                vstd::arithmetic::div_mod::lemma_small_mod(x as nat, n as nat);
            } else {
                assert(x % (n as int) == x - n) by (nonlinear_arith)
                    requires
                        n <= x < 2 * n,
                        n > 0,
                ;
            }
            vstd::arithmetic::div_mod::lemma_add_mod_noop(start as int, i as int, n as int);
            vstd::arithmetic::div_mod::lemma_small_mod(i as nat, n as nat);
            assert(j == (start + i) % (n as int));
        }
        picks.push(list[j].clone_summary());
        i += 1;
    }
    picks
}

// ── browsing ───────────────────────────────────────────────────────

/// The JLPT levels offered as filters, easiest first.
pub const JLPT_LEVELS: [&'static str; 5] = ["N5", "N4", "N3", "N2", "N1"];

/// The kanji that `by_radical` lists under the selected radical: `None` when
/// no radical is selected, an empty list when the radical is not a key.
pub fn radical_filter_members(by_radical: &ListMap, radical: &Option<String>) -> (m: Option<Vec<String>>)
    ensures
        match radical {
            None => m is None,
            Some(r) => m matches Some(v) && v.deep_view() == (if by_radical@.dom().contains(r@) {
                by_radical@[r@]
            } else {
                Seq::empty()
            }),
        },
{
    match radical {
        None => None,
        Some(r) => match by_radical.get(r.as_str()) {
            Some(v) => Some(crate::index::clone_strings(v)),
            None => {
                let v: Vec<String> = Vec::new();
                assert(v.deep_view() == Seq::<Seq<char>>::empty());
                Some(v)
            },
        },
    }
}

/// Whether a kanji passes the browse filters, which combine with AND:
/// the selected JLPT level (an unknown level fails), the selected stroke range
/// `lo..=hi` (an unknown stroke count fails), and membership in the selected
/// radical's kanji.
pub open spec fn passes_filters(
    item: KanjiSummary,
    jlpt: Option<Seq<char>>,
    strokes: Option<(u32, u32)>,
    members: Option<Seq<Seq<char>>>,
) -> bool {
    &&& match jlpt {
        Some(sel) => item.jlpt matches Some(j) && j@ == sel,
        None => true,
    }
    &&& match strokes {
        Some((lo, hi)) => item.stroke_count matches Some(n) && lo <= n && n <= hi,
        None => true,
    }
    &&& match members {
        Some(m) => m.contains(item.character@),
        None => true,
    }
}

/// The kanji of `list` that pass the filters, in list order.
pub open spec fn browse_spec(
    list: Seq<KanjiSummary>,
    jlpt: Option<Seq<char>>,
    strokes: Option<(u32, u32)>,
    members: Option<Seq<Seq<char>>>,
) -> Seq<KanjiSummary>
    decreases list.len(),
{
    if list.len() == 0 {
        Seq::empty()
    } else {
        let r = browse_spec(list.drop_last(), jlpt, strokes, members);
        if passes_filters(list.last(), jlpt, strokes, members) {
            r.push(list.last())
        } else {
            r
        }
    }
}

pub open spec fn opt_view(s: Option<String>) -> Option<Seq<char>> {
    match s {
        Some(v) => Some(v@),
        None => None,
    }
}

pub open spec fn opt_list_view(s: Option<Vec<String>>) -> Option<Seq<Seq<char>>> {
    match s {
        Some(v) => Some(v.deep_view()),
        None => None,
    }
}

fn list_has(v: &Vec<String>, s: &str) -> (r: bool)
    ensures
        r == v.deep_view().contains(s@),
{
    let target = chars_of(s);
    let mut i: usize = 0;
    while i < v.len()
        invariant
            i <= v.len(),
            target@ == s@,
            forall|j: int| 0 <= j < i ==> v.deep_view()[j] != s@,
        decreases v.len() - i,
    {
        let item = chars_of(v[i].as_str());
        if crate::text::chars_eq(&item, &target) {
            assert(v.deep_view()[i as int] == s@);
            return true;
        }
        i += 1;
    }
    false
}

fn passes_exec(
    item: &KanjiSummary,
    jlpt: &Option<String>,
    strokes: Option<(u32, u32)>,
    members: &Option<Vec<String>>,
) -> (r: bool)
    ensures
        r == passes_filters(*item, opt_view(*jlpt), strokes, opt_list_view(*members)),
{
    match jlpt {
        Some(sel) => match &item.jlpt {
            Some(j) => {
                if !crate::text::str_eq(j.as_str(), sel.as_str()) {
                    return false;
                }
            },
            None => {
                return false;
            },
        },
        None => {},
    }
    match strokes {
        Some((lo, hi)) => match item.stroke_count {
            Some(n) => {
                if !(lo <= n && n <= hi) {
                    return false;
                }
            },
            None => {
                return false;
            },
        },
        None => {},
    }
    match members {
        Some(m) => list_has(m, item.character.as_str()),
        None => true,
    }
}

/// The browse grid: the kanji of `list` that pass the filters, in order.
pub fn filter_kanji(
    list: &Vec<KanjiSummary>,
    jlpt: &Option<String>,
    strokes: Option<(u32, u32)>,
    members: &Option<Vec<String>>,
) -> (r: Vec<KanjiSummary>)
    ensures
        r@.len() == browse_spec(list@, opt_view(*jlpt), strokes, opt_list_view(*members)).len(),
        forall|i: int|
            0 <= i < r@.len() ==> crate::index::same_summary(
                #[trigger] r@[i],
                browse_spec(list@, opt_view(*jlpt), strokes, opt_list_view(*members))[i],
            ),
{
    let ghost j = opt_view(*jlpt);
    let ghost m = opt_list_view(*members);
    let mut r: Vec<KanjiSummary> = Vec::new();
    let mut i: usize = 0;
    while i < list.len()
        invariant
            i <= list.len(),
            j == opt_view(*jlpt),
            m == opt_list_view(*members),
            r@.len() == browse_spec(list@.take(i as int), j, strokes, m).len(),
            forall|k: int|
                0 <= k < r@.len() ==> crate::index::same_summary(
                    #[trigger] r@[k],
                    browse_spec(list@.take(i as int), j, strokes, m)[k],
                ),
        decreases list.len() - i,
    {
        proof {
            assert(list@.take(i + 1).drop_last() == list@.take(i as int));
            assert(list@.take(i + 1).last() == list@[i as int]);
        }
        if passes_exec(&list[i], jlpt, strokes, members) {
            r.push(list[i].clone_summary());
        }
        i += 1;
    }
    assert(list@.take(list.len() as int) == list@);
    r
}

/// The stroke-count ranges offered as filters: label, least and most strokes.
pub const STROKE_RANGES: [(&'static str, u32, u32); 4] = [
    ("1~4획", 1, 4),
    ("5~8획", 5, 8),
    ("9~12획", 9, 12),
    ("13획~", 13, 0xffff_ffff),
];

/// `s` is strictly ascending in code-point order.
pub open spec fn strictly_ascending(s: Seq<Seq<char>>) -> bool {
    forall|i: int, j: int| 0 <= i < j < s.len() ==> seq_lt(#[trigger] s[i], #[trigger] s[j])
}

/// The keys of `by_radical` in ascending order, as the radical filter lists them.
pub fn sorted_keys(by_radical: &ListMap) -> (keys: Vec<String>)
    ensures
        strictly_ascending(keys.deep_view()),
        forall|k: Seq<char>| #[trigger] by_radical@.dom().contains(k) <==> keys.deep_view().contains(k),
{
    let n = by_radical.len();
    let mut keys: Vec<String> = Vec::new();
    let mut i: usize = 0;
    while i < n
        invariant
            i <= n,
            n == by_radical.pairs().len(),
            by_radical.well_indexed(),
            strictly_ascending(keys.deep_view()),
            forall|k: Seq<char>|
                #[trigger] keys.deep_view().contains(k) <==> exists|t: int|
                    0 <= t < i && by_radical.pairs()[t].0 == k,
        decreases n - i,
    {
        let key = by_radical.key_at(i);
        let kc = chars_of(key.as_str());
        proof {
            assert forall|t: int| 0 <= t < keys.deep_view().len() implies keys.deep_view()[t] != key@ by {
                let x = keys.deep_view()[t];
                if x == key@ {
                    assert(keys.deep_view().contains(x));
                    let u = choose|u: int| 0 <= u < i && by_radical.pairs()[u].0 == x;
                    assert(by_radical.pairs()[u].0 != by_radical.pairs()[i as int].0);
                }
            }
        }
        let mut p: usize = 0;
        while p < keys.len() && seq_lt_exec(&chars_of(keys[p].as_str()), &kc)
            invariant
                p <= keys.len(),
                kc@ == key@,
                forall|t: int| 0 <= t < p ==> seq_lt(#[trigger] keys.deep_view()[t], key@),
            decreases keys.len() - p,
        {
            p += 1;
        }
        let ghost before = keys.deep_view();
        proof {
            if p < before.len() {
                assert(!seq_lt(before[p as int], key@));
                assert(before[p as int] != key@);
                lemma_seq_lt_total(before[p as int], key@);
            }
        }
        keys.insert(p, key.clone());
        proof {
            let after = keys.deep_view();
            assert(after == before.insert(p as int, key@));
            assert forall|a: int, b: int| 0 <= a < b < after.len() implies seq_lt(
                #[trigger] after[a],
                #[trigger] after[b],
            ) by {
                if b < p {
                    assert(after[a] == before[a] && after[b] == before[b]);
                } else if b == p {
                    assert(after[a] == before[a]);
                } else if a < p {
                    assert(after[a] == before[a] && after[b] == before[b - 1]);
                    lemma_seq_lt_transitive(before[a], key@, before[p as int]);
                    if b - 1 > p {
                        lemma_seq_lt_transitive(before[a], before[p as int], before[b - 1]);
                    }
                } else if a == p {
                    assert(after[b] == before[b - 1]);
                    if b - 1 > p {
                        lemma_seq_lt_transitive(key@, before[p as int], before[b - 1]);
                    }
                } else {
                    assert(after[a] == before[a - 1] && after[b] == before[b - 1]);
                }
            }
            assert forall|k: Seq<char>| #[trigger] after.contains(k) <==> exists|t: int|
                0 <= t < i + 1 && by_radical.pairs()[t].0 == k by {
                if after.contains(k) {
                    let m = choose|m: int| 0 <= m < after.len() && after[m] == k;
                    if m < p {
                        assert(before[m] == k);
                        assert(before.contains(k));
                    } else if m == p {
                        assert(by_radical.pairs()[i as int].0 == k);
                    } else {
                        assert(before[m - 1] == k);
                        assert(before.contains(k));
                    }
                }
                if exists|t: int| 0 <= t < i + 1 && by_radical.pairs()[t].0 == k {
                    let t = choose|t: int| 0 <= t < i + 1 && by_radical.pairs()[t].0 == k;
                    if t < i {
                        assert(before.contains(k));
                        let m = choose|m: int| 0 <= m < before.len() && before[m] == k;
                        if m < p {
                            assert(after[m] == k);
                        } else {
                            assert(after[m + 1] == k);
                        }
                    } else {
                        assert(after[p as int] == k);
                    }
                }
            }
        }
        i += 1;
    }
    proof {
        assert forall|k: Seq<char>| #[trigger] by_radical@.dom().contains(k) <==> keys.deep_view().contains(k) by {
            if by_radical@.dom().contains(k) {
                let t = choose|t: int| 0 <= t < by_radical.pairs().len() && #[trigger] by_radical.pairs()[t].0 == k;
                assert(exists|t: int| 0 <= t < n && by_radical.pairs()[t].0 == k);
            }
        }
    }
    keys
}

// ── a radical's page ───────────────────────────────────────────────

/// The position of the first summary of `list` whose character is `c`.
pub open spec fn first_summary_at(list: Seq<KanjiSummary>, c: Seq<char>, i: int) -> bool {
    &&& 0 <= i < list.len()
    &&& list[i].character@ == c
    &&& forall|k: int| 0 <= k < i ==> list[k].character@ != c
}

/// For each member character, the first summary with that character; members
/// without a summary are left out.
pub open spec fn member_summaries_spec(chars: Seq<Seq<char>>, list: Seq<KanjiSummary>) -> Seq<KanjiSummary>
    decreases chars.len(),
{
    if chars.len() == 0 {
        Seq::empty()
    } else {
        let r = member_summaries_spec(chars.drop_last(), list);
        if exists|i: int| first_summary_at(list, chars.last(), i) {
            r.push(list[choose|i: int| first_summary_at(list, chars.last(), i)])
        } else {
            r
        }
    }
}

proof fn lemma_first_summary_unique(list: Seq<KanjiSummary>, c: Seq<char>, i: int, k: int)
    requires
        first_summary_at(list, c, i),
        first_summary_at(list, c, k),
    ensures
        i == k,
{
    if i < k {
        assert(list[i].character@ != c);
    } else if k < i {
        assert(list[k].character@ != c);
    }
}

fn first_summary(list: &Vec<KanjiSummary>, c: &str) -> (r: Option<usize>)
    ensures
        match r {
            Some(i) => first_summary_at(list@, c@, i as int),
            None => !(exists|i: int| first_summary_at(list@, c@, i)),
        },
{
    let mut i: usize = 0;
    while i < list.len()
        invariant
            i <= list.len(),
            forall|k: int| 0 <= k < i ==> list@[k].character@ != c@,
        decreases list.len() - i,
    {
        if crate::text::str_eq(list[i].character.as_str(), c) {
            return Some(i);
        }
        i += 1;
    }
    assert forall|k: int| !first_summary_at(list@, c@, k) by {
        if 0 <= k < list@.len() {
            assert(list@[k].character@ != c@);
        }
    }
    None
}

/// The summaries shown on a radical's page: for each kanji listed under the
/// radical, in that order, its summary from the kanji list (first match).
pub fn member_summaries(chars: &Vec<String>, list: &Vec<KanjiSummary>) -> (r: Vec<KanjiSummary>)
    ensures
        r@.len() == member_summaries_spec(chars.deep_view(), list@).len(),
        forall|i: int|
            0 <= i < r@.len() ==> crate::index::same_summary(
                #[trigger] r@[i],
                member_summaries_spec(chars.deep_view(), list@)[i],
            ),
{
    let mut r: Vec<KanjiSummary> = Vec::new();
    let mut i: usize = 0;
    while i < chars.len()
        invariant
            i <= chars.len(),
            r@.len() == member_summaries_spec(chars.deep_view().take(i as int), list@).len(),
            forall|k: int|
                0 <= k < r@.len() ==> crate::index::same_summary(
                    #[trigger] r@[k],
                    member_summaries_spec(chars.deep_view().take(i as int), list@)[k],
                ),
        decreases chars.len() - i,
    {
        proof {
            assert(chars.deep_view().take(i + 1).drop_last() == chars.deep_view().take(i as int));
            assert(chars.deep_view().take(i + 1).last() == chars@[i as int]@);
        }
        match first_summary(list, chars[i].as_str()) {
            Some(k) => {
                proof {
                    let c = chars@[i as int]@;
                    let w = choose|w: int| first_summary_at(list@, c, w);
                    lemma_first_summary_unique(list@, c, k as int, w);
                }
                r.push(list[k].clone_summary());
            },
            None => {},
        }
        i += 1;
    }
    assert(chars.deep_view().take(chars.len() as int) == chars.deep_view());
    r
}

// ── confidence ─────────────────────────────────────────────────────

/// The badge text and CSS modifier class of a confidence level.
pub fn confidence_label(confidence: Confidence) -> (r: (&'static str, &'static str))
    ensures
        r.0@ == confidence_label_text(confidence),
        r.1@ == confidence_label_class(confidence),
{
    match confidence {
        Confidence::WellAttested => ("근거 확실", "confidence--well"),
        Confidence::Interpretation => ("해석", "confidence--interp"),
        Confidence::Tentative => ("잠정", "confidence--tentative"),
    }
}

pub open spec fn confidence_label_text(c: Confidence) -> Seq<char> {
    match c {
        Confidence::WellAttested => "근거 확실"@,
        Confidence::Interpretation => "해석"@,
        Confidence::Tentative => "잠정"@,
    }
}

pub open spec fn confidence_label_class(c: Confidence) -> Seq<char> {
    match c {
        Confidence::WellAttested => "confidence--well"@,
        Confidence::Interpretation => "confidence--interp"@,
        Confidence::Tentative => "confidence--tentative"@,
    }
}

pub open spec fn confidence_note_text(c: Confidence) -> Seq<char> {
    match c {
        Confidence::WellAttested => "정설로 널리 받아들여지는 설명입니다."@,
        Confidence::Interpretation => "여러 학설 중 하나의 해석입니다."@,
        Confidence::Tentative => "근거가 약한 잠정적 추정입니다."@,
    }
}

/// The sentence under the confidence badge.
pub fn confidence_note(confidence: Confidence) -> (r: &'static str)
    ensures
        r@ == confidence_note_text(confidence),
{
    match confidence {
        Confidence::WellAttested => "정설로 널리 받아들여지는 설명입니다.",
        Confidence::Interpretation => "여러 학설 중 하나의 해석입니다.",
        Confidence::Tentative => "근거가 약한 잠정적 추정입니다.",
    }
}

// ── search data ────────────────────────────────────────────────────

/// What the search modal and page need: the index and every kanji's summary.
pub struct SearchData {
    pub index: SearchIndex,
    summaries: Vec<KanjiSummary>,
}

/// The position of the last summary of `list` whose character is `c`.
pub open spec fn last_summary_at(list: Seq<KanjiSummary>, c: Seq<char>, i: int) -> bool {
    &&& 0 <= i < list.len()
    &&& list[i].character@ == c
    &&& forall|k: int| i < k < list.len() ==> list[k].character@ != c
}

impl SearchData {
    /// Bundles the index with the kanji list.
    pub fn new(index: SearchIndex, list: Vec<KanjiSummary>) -> (d: Self)
        ensures
            d.summaries() == list@,
    {
        SearchData { index, summaries: list }
    }

    pub closed spec fn summaries(&self) -> Seq<KanjiSummary> {
        self.summaries@
    }

    /// The summary of `kanji`; when the list has several, the last one.
    pub fn summary_of(&self, kanji: &str) -> (r: Option<&KanjiSummary>)
        ensures
            match r {
                Some(s) => exists|i: int| last_summary_at(self.summaries(), kanji@, i) && *s == self.summaries()[i],
                None => forall|i: int| 0 <= i < self.summaries().len() ==> self.summaries()[i].character@ != kanji@,
            },
    {
        let mut i: usize = self.summaries.len();
        while i > 0
            invariant
                i <= self.summaries.len(),
                forall|k: int| i <= k < self.summaries@.len() ==> self.summaries@[k].character@ != kanji@,
            decreases i,
        {
            if crate::text::str_eq(self.summaries[i - 1].character.as_str(), kanji) {
                assert(last_summary_at(self.summaries@, kanji@, i - 1));
                return Some(&self.summaries[i - 1]);
            }
            i -= 1;
        }
        None
    }
}

// ── explanation hash ───────────────────────────────────────────────

pub const FNV_OFFSET_BASIS: u64 = 0xcbf2_9ce4_8422_2325;

pub const FNV_PRIME: u64 = 0x0000_0100_0000_01b3;

/// The 64-bit FNV-1a hash of `bytes`: start from the offset basis; for each
/// byte, xor it in and multiply by the prime modulo 2^64.
pub open spec fn fnv1a_64(bytes: Seq<u8>) -> u64
    decreases bytes.len(),
{
    if bytes.len() == 0 {
        FNV_OFFSET_BASIS
    } else {
        (((fnv1a_64(bytes.drop_last()) ^ (bytes.last() as u64)) as nat * FNV_PRIME as nat)
            % 0x1_0000_0000_0000_0000) as u64
    }
}

/// The lower-case hexadecimal digit of `d < 16`.
pub open spec fn hex_digit(d: nat) -> char {
    if d < 10 {
        digit_char(d)
    } else if d == 10 {
        'a'
    } else if d == 11 {
        'b'
    } else if d == 12 {
        'c'
    } else if d == 13 {
        'd'
    } else if d == 14 {
        'e'
    } else {
        'f'
    }
}

/// The last `n` hexadecimal digits of `x`, most significant first, zero-padded.
pub open spec fn hex_digits(x: nat, n: nat) -> Seq<char>
    decreases n,
{
    if n == 0 {
        Seq::empty()
    } else {
        hex_digits(x / 16, (n - 1) as nat).push(hex_digit(x % 16))
    }
}

fn hex_digit_exec(d: u64) -> (c: char)
    requires
        d < 16,
    ensures
        c == hex_digit(d as nat),
{
    if d < 10 {
        digit_char_exec(d as u16)
    } else if d == 10 {
        'a'
    } else if d == 11 {
        'b'
    } else if d == 12 {
        'c'
    } else if d == 13 {
        'd'
    } else if d == 14 {
        'e'
    } else {
        'f'
    }
}

proof fn lemma_hex_digits_shape(x: nat, n: nat)
    ensures
        hex_digits(x, n).len() == n,
        forall|i: int|
            0 <= i < n ==> {
                let c = #[trigger] hex_digits(x, n)[i];
                ('0' <= c && c <= '9') || ('a' <= c && c <= 'f')
            },
    decreases n,
{
    if n > 0 {
        lemma_hex_digits_shape(x / 16, (n - 1) as nat);
        let d = x % 16;
        assert(d < 16);
        assert forall|i: int| 0 <= i < n implies {
            let c = #[trigger] hex_digits(x, n)[i];
            ('0' <= c && c <= '9') || ('a' <= c && c <= 'f')
        } by {
            if i < n - 1 {
                assert(hex_digits(x, n)[i] == hex_digits(x / 16, (n - 1) as nat)[i]);
            }
        }
    }
}

/// FNV-1a 64-bit hash of the UTF-8 bytes of `input`, as 16 lower-case hex
/// digits. It identifies the explanation a reader saw when sending feedback,
/// so that revisions can be told apart; it is not meant to be cryptographic.
pub fn fnv1a_64_hex(input: &str) -> (h: String)
    ensures
        h@ == hex_digits(fnv1a_64(input.spec_bytes()) as nat, 16),
        h@.len() == 16,
        forall|i: int|
            0 <= i < 16 ==> {
                let c = #[trigger] h@[i];
                ('0' <= c && c <= '9') || ('a' <= c && c <= 'f')
            },
{
    let bytes = input.as_bytes();
    let mut hash: u64 = FNV_OFFSET_BASIS;
    let mut i: usize = 0;
    while i < bytes.len()
        invariant
            i <= bytes@.len(),
            bytes@ == input.spec_bytes(),
            hash == fnv1a_64(bytes@.take(i as int)),
        decreases bytes@.len() - i,
    {
        proof {
            assert(bytes@.take(i + 1).drop_last() == bytes@.take(i as int));
            assert(bytes@.take(i + 1).last() == bytes@[i as int]);
        }
        hash = hash ^ (bytes[i] as u64);
        hash = hash.wrapping_mul(FNV_PRIME);
        i += 1;
    }
    assert(bytes@.take(bytes@.len() as int) == bytes@);
    let ghost full = hash as nat;
    let mut digits: Vec<char> = Vec::new();
    let mut x: u64 = hash;
    let mut k: usize = 0;
    while k < 16
        invariant
            k <= 16,
            full == hash as nat,
            hex_digits(full, 16) == hex_digits(x as nat, (16 - k) as nat) + digits@,
        decreases 16 - k,
    {
        let ghost before = digits@;
        let c = hex_digit_exec(x % 16);
        digits.insert(0, c);
        proof {
            assert(digits@ == seq![c] + before);
            assert(hex_digits(x as nat, (16 - k) as nat) == hex_digits((x / 16) as nat, (16 - k - 1) as nat).push(c));
            assert(hex_digits((x / 16) as nat, (16 - k - 1) as nat).push(c) + before == hex_digits((x / 16) as nat, (16 - k - 1) as nat) + (seq![c] + before));
        }
        x = x / 16;
        k += 1;
    }
    assert(hex_digits(x as nat, 0) + digits@ == digits@);
    proof {
        lemma_hex_digits_shape(full, 16);
    }
    crate::text::string_of(&digits)
}

// ── explanation text ───────────────────────────────────────────────

/// Name for the HTML that pulldown-cmark renders from Markdown, with or without
/// its table and strikethrough extensions.
pub uninterp spec fn commonmark_html(markdown: Seq<char>, tables: bool, strikethrough: bool) -> Seq<char>;

/// `pulldown_cmark::html::push_html` over `Parser::new_ext(markdown, options)`,
/// into an empty string, where `options` enables tables and strikethrough as
/// asked. The rendering depends on these arguments alone; the contract only
/// ties the result to the name `commonmark_html`.
#[verifier::external_body]
fn render_commonmark(markdown: &str, tables: bool, strikethrough: bool) -> (html: String)
    ensures
        html@ == commonmark_html(markdown@, tables, strikethrough),
{
    let mut options = pulldown_cmark::Options::empty();
    options.set(pulldown_cmark::Options::ENABLE_TABLES, tables);
    options.set(pulldown_cmark::Options::ENABLE_STRIKETHROUGH, strikethrough);
    let parser = pulldown_cmark::Parser::new_ext(markdown, options);
    let mut out = String::new();
    pulldown_cmark::html::push_html(&mut out, parser);
    out
}

/// The etymology's Markdown rendered as HTML, with tables and strikethrough.
pub fn markdown_to_html(markdown: &str) -> (html: String)
    ensures
        html@ == commonmark_html(markdown@, true, true),
{
    render_commonmark(markdown, true, true)
}


// ── sending feedback ───────────────────────────────────────────────

/// The body of `POST /feedback`, with the fields the worker reads.
#[derive(Debug, Clone, PartialEq)]
pub struct FeedbackPayload {
    pub kanji: String,
    pub current_explanation_hash: String,
    pub suggestion: String,
    /// Left out of the JSON when `None`.
    pub contact: Option<String>,
    pub turnstile_token: String,
    /// Honeypot, sent as typed: a bot that fills it is refused by the worker.
    pub website: String,
}

/// Whether the form may be sent: the suggestion has 10 to 4000 characters
/// (the worker's rule), a captcha token was issued, and nothing is being sent.
pub open spec fn can_submit_spec(suggestion: Seq<char>, token: Seq<char>, sending: bool) -> bool {
    &&& crate::feedback::MIN_SUGGESTION_LEN <= suggestion.len()
    &&& suggestion.len() <= crate::feedback::MAX_SUGGESTION_LEN
    &&& token.len() > 0
    &&& !sending
}

pub fn can_submit(suggestion: &str, token: &str, sending: bool) -> (r: bool)
    ensures
        r == can_submit_spec(suggestion@, token@, sending),
{
    let n = chars_of(suggestion).len();
    let t = chars_of(token).len();
    crate::feedback::MIN_SUGGESTION_LEN <= n && n <= crate::feedback::MAX_SUGGESTION_LEN && t > 0
        && !sending
}

/// Builds the request body. The contact is trimmed and left out when empty.
pub fn feedback_payload(
    kanji: &str,
    explanation_hash: &str,
    suggestion: &str,
    contact: &str,
    token: &str,
    website: &str,
) -> (p: FeedbackPayload)
    ensures
        p.kanji@ == kanji@,
        p.current_explanation_hash@ == explanation_hash@,
        p.suggestion@ == suggestion@,
        p.turnstile_token@ == token@,
        p.website@ == website@,
        match p.contact {
            Some(c) => c@ == crate::text::trim_seq(contact@) && c@.len() > 0,
            None => crate::text::trim_seq(contact@).len() == 0,
        },
{
    let t = crate::text::trimmed(contact);
    let contact = if t.len() > 0 {
        Some(crate::text::string_of(&t))
    } else {
        None
    };
    FeedbackPayload {
        kanji: String::from_str(kanji),
        current_explanation_hash: String::from_str(explanation_hash),
        suggestion: String::from_str(suggestion),
        contact,
        turnstile_token: String::from_str(token),
        website: String::from_str(website),
    }
}

/// What the form says when sending failed with HTTP `status`: fixed advice for
/// 429, 403 and 502; for 400 the worker's own message, or a default; for
/// any other status the worker's message, or a generic text with the status.
pub open spec fn failure_text(status: u16, server: Option<Seq<char>>) -> Seq<char> {
    if status == 429 {
        "제보가 너무 잦습니다. 잠시 후 다시 시도해 주세요."@
    } else if status == 403 {
        "허용되지 않은 접속 경로입니다. 보안 확인에 실패했거나, 정식 사이트(whitekr.github.io)가 아닌 곳에서는 제출할 수 없습니다."@
    } else if status == 400 {
        match server {
            Some(m) => m,
            None => "입력 내용을 다시 확인해 주세요."@,
        }
    } else if status == 502 {
        "제보 저장에 실패했습니다. 잠시 후 다시 시도하거나 GitHub Issue로 직접 제보해 주세요."@
    } else {
        match server {
            Some(m) => m,
            None => "알 수 없는 오류가 발생했습니다 (HTTP "@ + decimal(status as nat)
                + "). 잠시 후 다시 시도해 주세요."@,
        }
    }
}

pub fn failure_message(status: u16, server_message: Option<String>) -> (m: String)
    ensures
        m@ == failure_text(status, opt_view(server_message)),
{
    if status == 429 {
        String::from_str("제보가 너무 잦습니다. 잠시 후 다시 시도해 주세요.")
    } else if status == 403 {
        String::from_str(
            "허용되지 않은 접속 경로입니다. 보안 확인에 실패했거나, 정식 사이트(whitekr.github.io)가 아닌 곳에서는 제출할 수 없습니다.",
        )
    } else if status == 400 {
        match server_message {
            Some(m) => m,
            None => String::from_str("입력 내용을 다시 확인해 주세요."),
        }
    } else if status == 502 {
        String::from_str(
            "제보 저장에 실패했습니다. 잠시 후 다시 시도하거나 GitHub Issue로 직접 제보해 주세요.",
        )
    } else {
        match server_message {
            Some(m) => m,
            None => {
                let mut m = String::from_str("알 수 없는 오류가 발생했습니다 (HTTP ");
                let digits = decimal_string(status);
                let mut i: usize = 0;
                while i < digits.len()
                    invariant
                        i <= digits.len(),
                        m@ == "알 수 없는 오류가 발생했습니다 (HTTP "@ + digits@.take(i as int),
                    decreases digits.len() - i,
                {
                    crate::text::push_char(&mut m, digits[i]);
                    i += 1;
                    assert(digits@.take(i as int) == digits@.take(i - 1).push(digits@[i - 1]));
                }
                assert(digits@.take(digits.len() as int) == digits@);
                m.append("). 잠시 후 다시 시도해 주세요.");
                m
            },
        }
    }
}

// ── the search modal ───────────────────────────────────────────────

/// How many candidates the search modal lists while typing.
pub const MODAL_TYPEAHEAD_MAX: usize = 8;

/// The candidate highlighted after an arrow key among `count` candidates:
/// nothing changes without candidates; from no highlight, down goes to the
/// first and up to the last; otherwise the highlight moves one step and wraps.
pub open spec fn next_active_spec(active: Option<usize>, down: bool, count: usize) -> Option<usize> {
    if count == 0 {
        active
    } else {
        match active {
            None => if down {
                Some(0usize)
            } else {
                Some((count - 1) as usize)
            },
            Some(i) => Some(((i + (if down { 1int } else { -1int })) % (count as int)) as usize),
        }
    }
}

proof fn lemma_step_mod(x: int, n: int)
    requires
        n > 0,
        -1 <= x <= n,
    ensures
        0 <= x < n ==> x % n == x,
        x == n ==> x % n == 0,
        x == -1 ==> x % n == n - 1,
{
    if 0 <= x < n {
        vstd::arithmetic::div_mod::lemma_small_mod(x as nat, n as nat);
    } else if x == n {
        vstd::arithmetic::div_mod::lemma_mod_self_0(n);
    } else {
        vstd::arithmetic::div_mod::lemma_fundamental_div_mod_converse(-1, n, -1, n - 1);
    }
}

/// The arrow keys undo each other: down then up, or up then down, comes back
/// to the same candidate; the highlight wraps from the last candidate to the
/// first going down, and from the first to the last going up.
pub proof fn lemma_arrow_keys_undo(i: usize, count: usize)
    requires
        i < count,
    ensures
        next_active_spec(next_active_spec(Some(i), true, count), false, count) == Some(i),
        next_active_spec(next_active_spec(Some(i), false, count), true, count) == Some(i),
        next_active_spec(Some((count - 1) as usize), true, count) == Some(0usize),
        next_active_spec(Some(0usize), false, count) == Some((count - 1) as usize),
        i + 1 < count ==> next_active_spec(Some(i), true, count) == Some((i + 1) as usize),
        i > 0 ==> next_active_spec(Some(i), false, count) == Some((i - 1) as usize),
{
    let n = count as int;
    lemma_step_mod(i + 1, n);
    lemma_step_mod(i - 1, n);
    lemma_step_mod(n - 1 + 1, n);
    lemma_step_mod(0 - 1, n);
    let d = if i + 1 < n { i + 1 } else { 0 };
    lemma_step_mod(d - 1, n);
    let u = if i > 0 { i - 1 } else { n - 1 };
    lemma_step_mod(u + 1, n);
}

pub fn next_active(active: Option<usize>, down: bool, count: usize) -> (r: Option<usize>)
    ensures
        r == next_active_spec(active, down, count),
        count > 0 ==> (r matches Some(j) && j < count),
{
    if count == 0 {
        return active;
    }
    match active {
        None => {
            if down {
                Some(0)
            } else {
                let last: usize = count - 1;
                assert(next_active_spec(active, down, count) == Some(last));
                Some(last)
            }
        },
        Some(i) => {
            let base = i % count;
            proof {
                vstd::arithmetic::div_mod::lemma_fundamental_div_mod(i as int, count as int);
            }
            if down {
                let r = if base + 1 == count {
                    0
                } else {
                    base + 1
                };
                proof {
                    vstd::arithmetic::div_mod::lemma_add_mod_noop(i as int, 1, count as int);
                    if count == 1 {
                        assert((i + 1) % 1 == 0) by (nonlinear_arith);
                    } else {
                        vstd::arithmetic::div_mod::lemma_small_mod(1, count as nat);
                    }
                    if base + 1 < count {
                        vstd::arithmetic::div_mod::lemma_small_mod((base + 1) as nat, count as nat);
                    } else {
                        vstd::arithmetic::div_mod::lemma_mod_self_0(count as int);
                    }
                    assert(r == (i + 1) % (count as int));
                }
                Some(r)
            } else {
                let r = if base == 0 {
                    count - 1
                } else {
                    base - 1
                };
                proof {
                    let q = i as int / count as int;
                    assert(i as int == count * q + base);
                    assert(q * count == count * q) by (nonlinear_arith);
                    if base == 0 {
                        assert(i - 1 == (q - 1) * count + (count - 1)) by (nonlinear_arith)
                            requires
                                i as int == count * q + base,
                                base == 0,
                        ;
                        vstd::arithmetic::div_mod::lemma_fundamental_div_mod_converse(
                            i - 1,
                            count as int,
                            q - 1,
                            count - 1,
                        );
                    } else {
                        vstd::arithmetic::div_mod::lemma_fundamental_div_mod_converse(
                            i - 1,
                            count as int,
                            q,
                            base - 1,
                        );
                    }
                    assert(r == (i - 1) % (count as int));
                }
                Some(r)
            }
        },
    }
}

/// Where Enter in the search modal leads.
pub enum EnterTarget {
    /// The page of the highlighted candidate's kanji.
    Kanji(String),
    /// The results page for the trimmed query.
    Results(String),
    /// Nowhere: nothing is highlighted and the query is blank.
    Stay,
}

/// Where Enter leads: to the highlighted candidate's kanji when the highlight
/// points at a candidate, else to the results page for the trimmed query, or
/// nowhere when that is empty. Editing the query clears the highlight, so
/// Enter right after an edit goes to the results page.
pub fn enter_target(active: Option<usize>, candidates: &Vec<SearchHit>, query: &str) -> (t: EnterTarget)
    ensures
        match active {
            Some(i) if i < candidates@.len() => t matches EnterTarget::Kanji(k) && k@
                == candidates@[i as int].kanji@,
            _ => if trim_seq(query@).len() > 0 {
                t matches EnterTarget::Results(q) && q@ == trim_seq(query@)
            } else {
                t is Stay
            },
        },
{
    match active {
        Some(i) => {
            if i < candidates.len() {
                return EnterTarget::Kanji(candidates[i].kanji.clone());
            }
        },
        None => {},
    }
    let q = trimmed(query);
    if q.len() > 0 {
        EnterTarget::Results(string_of(&q))
    } else {
        EnterTarget::Stay
    }
}

} // verus!
