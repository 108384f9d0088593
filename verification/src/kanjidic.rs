//! Extraction of the mechanical fields of KANJIDIC2 `<character>` records
//! (readings, stroke count, school grade, English meanings).
//!
//! KANJIDIC2 is the kanji database of the Electronic Dictionary Research and
//! Development Group, distributed under CC-BY-SA 4.0. quick-xml reads the XML
//! into a list of tokens; the event of each token moves a small scan state
//! (`KanjidicScan`), and
//! only the `<character>` records whose literal was asked for are kept. The
//! `jlpt` field (old four-level scale) is deliberately not read.

use vstd::prelude::*;
use quick_xml::events::{BytesStart, Event};
use quick_xml::Reader;
use crate::text::{
    chars_of, contains_char, parse_bounded, parse_unsigned, str_eq, string_of, trim_seq,
    trimmed,
};

verus! {

// ── records ────────────────────────────────────────────────────────

/// One `ja_kun` reading. KANJIDIC2 separates stem and okurigana with `.`
/// (`"まな.ぶ"`); the content files use `-` (`"まな-ぶ"`), so the reading is
/// stored converted.
#[derive(Debug, Clone, PartialEq, Eq)]
pub struct KunPair {
    /// The reading with `-` between stem and okurigana (unchanged without okurigana).
    pub reading: String,
    /// The written form with okurigana (`"学ぶ"`), or the headword alone.
    pub form: String,
}

impl View for KunPair {
    type V = (Seq<char>, Seq<char>);

    open spec fn view(&self) -> (Seq<char>, Seq<char>) {
        (self.reading@, self.form@)
    }
}

/// The mechanical fields of one KANJIDIC2 `<character>`.
#[derive(Debug, Clone, PartialEq, Eq)]
pub struct KanjidicChar {
    pub literal: char,
    pub grade: Option<u8>,
    /// Only the first `<stroke_count>` is taken (later ones list miscounts).
    pub stroke_count: Option<u32>,
    /// Korean readings (`korean_h`), in document order.
    pub korean_h: Vec<String>,
    /// On readings (`ja_on`), in katakana as given.
    pub on: Vec<String>,
    /// Kun readings (`ja_kun`), converted to the `-` convention.
    pub kun: Vec<KunPair>,
    /// English meanings (`meaning` without `m_lang`, or with `m_lang` empty or `"en"`).
    pub meanings_en: Vec<String>,
}

/// What a `KanjidicChar` holds, as mathematical values.
pub struct CharModel {
    pub literal: char,
    pub grade: Option<u8>,
    pub stroke_count: Option<u32>,
    pub korean_h: Seq<Seq<char>>,
    pub on: Seq<Seq<char>>,
    pub kun: Seq<(Seq<char>, Seq<char>)>,
    pub meanings_en: Seq<Seq<char>>,
}

impl View for KanjidicChar {
    type V = CharModel;

    open spec fn view(&self) -> CharModel {
        CharModel {
            literal: self.literal,
            grade: self.grade,
            stroke_count: self.stroke_count,
            korean_h: self.korean_h.deep_view(),
            on: self.on.deep_view(),
            kun: self.kun@.map_values(|k: KunPair| k@),
            meanings_en: self.meanings_en.deep_view(),
        }
    }
}

/// A record before any of its fields was read: literal `'\0'`, nothing else.
pub open spec fn empty_char() -> CharModel {
    CharModel {
        literal: '\0',
        grade: None,
        stroke_count: None,
        korean_h: Seq::empty(),
        on: Seq::empty(),
        kun: Seq::empty(),
        meanings_en: Seq::empty(),
    }
}

impl Default for KanjidicChar {
    fn default() -> (r: Self)
        ensures
            r@ == empty_char(),
    {
        let r = KanjidicChar {
            literal: '\0',
            grade: None,
            stroke_count: None,
            korean_h: Vec::new(),
            on: Vec::new(),
            kun: Vec::new(),
            meanings_en: Vec::new(),
        };
        assert(r.kun@.map_values(|k: KunPair| k@) == Seq::<(Seq<char>, Seq<char>)>::empty());
        assert(r.on.deep_view() == Seq::<Seq<char>>::empty());
        assert(r.korean_h.deep_view() == Seq::<Seq<char>>::empty());
        assert(r.meanings_en.deep_view() == Seq::<Seq<char>>::empty());
        r
    }
}

fn copy_strings(v: &Vec<String>) -> (r: Vec<String>)
    ensures
        r.deep_view() == v.deep_view(),
{
    let mut r: Vec<String> = Vec::new();
    let mut i: usize = 0;
    while i < v.len()
        invariant
            i <= v.len(),
            r.deep_view() == v.deep_view().take(i as int),
        decreases v.len() - i,
    {
        let ghost before = r.deep_view();
        r.push(v[i].clone());
        i += 1;
        assert(r.deep_view() == before.push(v@[i - 1]@));
        assert(v.deep_view().take(i as int) == v.deep_view().take(i - 1).push(v@[i - 1]@));
    }
    assert(v.deep_view().take(v.len() as int) == v.deep_view());
    r
}

fn copy_kun(v: &Vec<KunPair>) -> (r: Vec<KunPair>)
    ensures
        r@.map_values(|k: KunPair| k@) == v@.map_values(|k: KunPair| k@),
{
    let mut r: Vec<KunPair> = Vec::new();
    let mut i: usize = 0;
    while i < v.len()
        invariant
            i <= v.len(),
            r@.map_values(|k: KunPair| k@) == v@.take(i as int).map_values(|k: KunPair| k@),
        decreases v.len() - i,
    {
        let ghost before = r@;
        r.push(KunPair { reading: v[i].reading.clone(), form: v[i].form.clone() });
        i += 1;
        assert(r@.map_values(|k: KunPair| k@) == before.map_values(|k: KunPair| k@).push(v@[i - 1]@));
        assert(v@.take(i as int).map_values(|k: KunPair| k@) == v@.take(i - 1).map_values(
            |k: KunPair| k@,
        ).push(v@[i - 1]@));
    }
    assert(v@.take(v.len() as int) == v@);
    r
}

impl KanjidicChar {
    /// A copy of this record.
    pub fn clone_record(&self) -> (r: Self)
        ensures
            r@ == self@,
    {
        KanjidicChar {
            literal: self.literal,
            grade: self.grade,
            stroke_count: self.stroke_count,
            korean_h: copy_strings(&self.korean_h),
            on: copy_strings(&self.on),
            kun: copy_kun(&self.kun),
            meanings_en: copy_strings(&self.meanings_en),
        }
    }
}

/// The models of a list of records.
pub open spec fn char_models(v: Seq<KanjidicChar>) -> Seq<CharModel> {
    v.map_values(|c: KanjidicChar| c@)
}

// ── kun readings ───────────────────────────────────────────────────

/// `i` is the position of the first `.` in `s`.
pub open spec fn first_dot_at(s: Seq<char>, i: int) -> bool {
    &&& 0 <= i < s.len()
    &&& s[i] == '.'
    &&& forall|j: int| 0 <= j < i ==> s[j] != '.'
}

/// A raw `ja_kun` value split at its first `.`: the reading with `-` in place of
/// that dot, and the headword followed by the okurigana. Without a dot the
/// reading stays as it is and the form is the headword alone.
pub open spec fn split_kun_spec(literal: char, raw: Seq<char>) -> (Seq<char>, Seq<char>) {
    if exists|i: int| first_dot_at(raw, i) {
        let i = choose|i: int| first_dot_at(raw, i);
        (raw.take(i) + seq!['-'] + raw.skip(i + 1), seq![literal] + raw.skip(i + 1))
    } else {
        (raw, seq![literal])
    }
}

proof fn lemma_first_dot_unique(s: Seq<char>, i: int, k: int)
    requires
        first_dot_at(s, i),
        first_dot_at(s, k),
    ensures
        i == k,
{
    if i < k {
        assert(s[i] != '.');
    } else if k < i {
        assert(s[k] != '.');
    }
}

/// Converts a raw `ja_kun` value (`"まな.ぶ"`, `"いし"`) into its reading and
/// written form for the headword `literal`.
pub fn split_kun(literal: char, raw: &Vec<char>) -> (k: KunPair)
    ensures
        k@ == split_kun_spec(literal, raw@),
{
    let mut i: usize = 0;
    while i < raw.len() && raw[i] != '.'
        invariant
            i <= raw.len(),
            forall|j: int| 0 <= j < i ==> raw@[j] != '.',
        decreases raw.len() - i,
    {
        i += 1;
    }
    if i < raw.len() {
        let mut reading: Vec<char> = Vec::new();
        let mut form: Vec<char> = Vec::new();
        form.push(literal);
        let mut j: usize = 0;
        while j < i
            invariant
                j <= i < raw.len(),
                reading@ == raw@.take(j as int),
            decreases i - j,
        {
            reading.push(raw[j]);
            j += 1;
            assert(raw@.take(j as int) == raw@.take(j - 1).push(raw@[j - 1]));
        }
        reading.push('-');
        let mut j: usize = i + 1;
        while j < raw.len()
            invariant
                i < j <= raw.len(),
                reading@ == raw@.take(i as int) + seq!['-'] + raw@.subrange(i + 1, j as int),
                form@ == seq![literal] + raw@.subrange(i + 1, j as int),
            decreases raw.len() - j,
        {
            reading.push(raw[j]);
            form.push(raw[j]);
            j += 1;
            assert(raw@.subrange(i + 1, j as int) == raw@.subrange(i + 1, j - 1).push(
                raw@[j - 1],
            ));
        }
        proof {
            assert(first_dot_at(raw@, i as int));
            let k = choose|k: int| first_dot_at(raw@, k);
            lemma_first_dot_unique(raw@, i as int, k);
            assert(raw@.subrange(i + 1, raw@.len() as int) == raw@.skip(i + 1));
        }
        KunPair { reading: string_of(&reading), form: string_of(&form) }
    } else {
        proof {
            assert forall|k: int| !first_dot_at(raw@, k) by {
                if 0 <= k < raw@.len() {
                    assert(raw@[k] != '.');
                }
            }
        }
        let mut form: Vec<char> = Vec::new();
        form.push(literal);
        KunPair { reading: string_of(raw), form: string_of(&form) }
    }
}

// ── tags ───────────────────────────────────────────────────────────

/// The element names the scan reacts to.
#[derive(Clone, Copy, PartialEq, Eq, Structural, Debug)]
pub enum Tag {
    Character,
    Literal,
    Grade,
    StrokeCount,
    Reading,
    Meaning,
    Other,
}

/// The bytes of `name` spell the ASCII word `word`.
pub open spec fn spells(name: Seq<u8>, word: Seq<char>) -> bool {
    &&& name.len() == word.len()
    &&& forall|i: int| 0 <= i < name.len() ==> name[i] as u32 == #[trigger] word[i] as u32
}

/// Which element an element name denotes.
pub open spec fn tag_spec(name: Seq<u8>) -> Tag {
    if spells(name, "character"@) {
        Tag::Character
    } else if spells(name, "literal"@) {
        Tag::Literal
    } else if spells(name, "grade"@) {
        Tag::Grade
    } else if spells(name, "stroke_count"@) {
        Tag::StrokeCount
    } else if spells(name, "reading"@) {
        Tag::Reading
    } else if spells(name, "meaning"@) {
        Tag::Meaning
    } else {
        Tag::Other
    }
}

fn spells_exec(name: &Vec<u8>, word: &str) -> (r: bool)
    ensures
        r == spells(name@, word@),
{
    let w = chars_of(word);
    if name.len() != w.len() {
        return false;
    }
    let mut i: usize = 0;
    while i < name.len()
        invariant
            i <= name.len(),
            name@.len() == w@.len(),
            w@ == word@,
            forall|j: int| 0 <= j < i ==> name@[j] as u32 == #[trigger] w@[j] as u32,
        decreases name.len() - i,
    {
        if name[i] as u32 != w[i] as u32 {
            return false;
        }
        i += 1;
    }
    true
}

/// Classifies an element name.
pub fn tag_of(name: &Vec<u8>) -> (t: Tag)
    ensures
        t == tag_spec(name@),
{
    if spells_exec(name, "character") {
        Tag::Character
    } else if spells_exec(name, "literal") {
        Tag::Literal
    } else if spells_exec(name, "grade") {
        Tag::Grade
    } else if spells_exec(name, "stroke_count") {
        Tag::StrokeCount
    } else if spells_exec(name, "reading") {
        Tag::Reading
    } else if spells_exec(name, "meaning") {
        Tag::Meaning
    } else {
        Tag::Other
    }
}

// ── filling one record ─────────────────────────────────────────────

/// Which field the next text fills.
pub enum Pending {
    Idle,
    Literal,
    Grade,
    StrokeCount,
    /// The `r_type` attribute of the `<reading>` (empty when absent).
    Reading(String),
    /// The `m_lang` attribute of the `<meaning>`; text in another language is dropped.
    Meaning(Option<String>),
}

pub enum PendingModel {
    Idle,
    Literal,
    Grade,
    StrokeCount,
    Reading(Seq<char>),
    Meaning(Option<Seq<char>>),
}

impl View for Pending {
    type V = PendingModel;

    open spec fn view(&self) -> PendingModel {
        match self {
            Pending::Idle => PendingModel::Idle,
            Pending::Literal => PendingModel::Literal,
            Pending::Grade => PendingModel::Grade,
            Pending::StrokeCount => PendingModel::StrokeCount,
            Pending::Reading(r) => PendingModel::Reading(r@),
            Pending::Meaning(m) => PendingModel::Meaning(
                match m {
                    Some(l) => Some(l@),
                    None => None,
                },
            ),
        }
    }
}

/// A meaning counts as English when `m_lang` is absent, empty or `"en"`.
pub open spec fn is_english(m_lang: Option<Seq<char>>) -> bool {
    match m_lang {
        None => true,
        Some(l) => l == ""@ || l == "en"@,
    }
}

/// What a non-empty trimmed text does to the record under construction.
pub open spec fn apply_text_spec(c: CharModel, p: PendingModel, text: Seq<char>) -> CharModel {
    match p {
        PendingModel::Idle => c,
        PendingModel::Literal => if text.len() > 0 {
            CharModel { literal: text[0], ..c }
        } else {
            c
        },
        PendingModel::Grade => match parse_unsigned(text) {
            Some(v) => if v <= 255 {
                CharModel { grade: Some(v as u8), ..c }
            } else {
                c
            },
            None => c,
        },
        PendingModel::StrokeCount => if c.stroke_count is None {
            match parse_unsigned(text) {
                Some(v) => if v <= u32::MAX {
                    CharModel { stroke_count: Some(v as u32), ..c }
                } else {
                    c
                },
                None => c,
            }
        } else {
            c
        },
        PendingModel::Reading(r) => if r == "ja_on"@ {
            CharModel { on: c.on.push(text), ..c }
        } else if r == "ja_kun"@ {
            CharModel { kun: c.kun.push(split_kun_spec(c.literal, text)), ..c }
        } else if r == "korean_h"@ {
            CharModel { korean_h: c.korean_h.push(text), ..c }
        } else {
            c
        },
        PendingModel::Meaning(m) => if is_english(m) {
            CharModel { meanings_en: c.meanings_en.push(text), ..c }
        } else {
            c
        },
    }
}

fn is_english_exec(m: &Option<String>) -> (r: bool)
    ensures
        r == is_english(
            match m {
                Some(l) => Some(l@),
                None => None,
            },
        ),
{
    match m {
        None => true,
        Some(l) => str_eq(l.as_str(), "") || str_eq(l.as_str(), "en"),
    }
}

/// Stores a non-empty trimmed text into the field that `pending` names.
pub fn apply_text(cur: &mut KanjidicChar, pending: &Pending, text: &Vec<char>)
    ensures
        final(cur)@ == apply_text_spec(old(cur)@, pending@, text@),
{
    match pending {
        Pending::Idle => {},
        Pending::Literal => {
            if text.len() > 0 {
                cur.literal = text[0];
            }
        },
        Pending::Grade => {
            let s = string_of(text);
            match parse_bounded(s.as_str(), 255) {
                Some(v) => {
                    cur.grade = Some(v as u8);
                },
                None => {},
            }
        },
        Pending::StrokeCount => {
            if cur.stroke_count.is_none() {
                let s = string_of(text);
                match parse_bounded(s.as_str(), 0xffff_ffff) {
                    Some(v) => {
                        cur.stroke_count = Some(v as u32);
                    },
                    None => {},
                }
            }
        },
        Pending::Reading(r) => {
            if str_eq(r.as_str(), "ja_on") {
                let ghost before = cur.on.deep_view();
                cur.on.push(string_of(text));
                assert(cur.on.deep_view() == before.push(text@));
            } else if str_eq(r.as_str(), "ja_kun") {
                let k = split_kun(cur.literal, text);
                let ghost before = cur.kun@;
                cur.kun.push(k);
                assert(cur.kun@.map_values(|k: KunPair| k@) == before.map_values(
                    |k: KunPair| k@,
                ).push(k@));
            } else if str_eq(r.as_str(), "korean_h") {
                let ghost before = cur.korean_h.deep_view();
                cur.korean_h.push(string_of(text));
                assert(cur.korean_h.deep_view() == before.push(text@));
            }
        },
        Pending::Meaning(m) => {
            if is_english_exec(m) {
                let ghost before = cur.meanings_en.deep_view();
                cur.meanings_en.push(string_of(text));
                assert(cur.meanings_en.deep_view() == before.push(text@));
            }
        },
    }
}

// ── the scan ───────────────────────────────────────────────────────

/// One XML event, reduced to what the scan reads. Both `<tag>` and `<tag/>`
/// arrive as `Start`.
pub enum XmlEvent {
    /// An opening or empty element: its name, its `r_type` attribute (empty
    /// when absent) and its `m_lang` attribute.
    Start { name: Vec<u8>, r_type: String, m_lang: Option<String> },
    /// A closing element.
    End { name: Vec<u8> },
    /// Text content, unescaped (empty when it could not be unescaped).
    Text(String),
    /// Anything else (comments, CDATA, declarations, processing instructions).
    Other,
}

pub enum EventModel {
    Start { name: Seq<u8>, r_type: Seq<char>, m_lang: Option<Seq<char>> },
    End { name: Seq<u8> },
    Text(Seq<char>),
    Other,
}

impl View for XmlEvent {
    type V = EventModel;

    open spec fn view(&self) -> EventModel {
        match self {
            XmlEvent::Start { name, r_type, m_lang } => EventModel::Start {
                name: name@,
                r_type: r_type@,
                m_lang: match m_lang {
                    Some(l) => Some(l@),
                    None => None,
                },
            },
            XmlEvent::End { name } => EventModel::End { name: name@ },
            XmlEvent::Text(t) => EventModel::Text(t@),
            XmlEvent::Other => EventModel::Other,
        }
    }
}

/// The scan state: the record under construction, the field the next text
/// fills, and the wanted records found so far.
pub struct KanjidicScan {
    current: Option<KanjidicChar>,
    pending: Pending,
    found: Vec<KanjidicChar>,
}

pub struct ScanModel {
    pub current: Option<CharModel>,
    pub pending: PendingModel,
    pub found: Seq<CharModel>,
}

impl View for KanjidicScan {
    type V = ScanModel;

    closed spec fn view(&self) -> ScanModel {
        ScanModel {
            current: match self.current {
                Some(c) => Some(c@),
                None => None,
            },
            pending: self.pending@,
            found: char_models(self.found@),
        }
    }
}

/// The state before the first event.
pub open spec fn initial_scan() -> ScanModel {
    ScanModel { current: None, pending: PendingModel::Idle, found: Seq::empty() }
}

/// `i` is the first position in `found` whose literal is `ch`.
pub open spec fn first_literal_at(found: Seq<CharModel>, ch: char, i: int) -> bool {
    &&& 0 <= i < found.len()
    &&& found[i].literal == ch
    &&& forall|j: int| 0 <= j < i ==> found[j].literal != ch
}

/// Keeps a finished record: it replaces the one with the same literal, or is
/// appended when there is none.
pub open spec fn insert_found(found: Seq<CharModel>, c: CharModel) -> Seq<CharModel> {
    if exists|i: int| first_literal_at(found, c.literal, i) {
        found.update(choose|i: int| first_literal_at(found, c.literal, i), c)
    } else {
        found.push(c)
    }
}

/// The pending field that an opening element sets while a record is open.
pub open spec fn pending_for(t: Tag, r_type: Seq<char>, m_lang: Option<Seq<char>>) -> PendingModel {
    match t {
        Tag::Literal => PendingModel::Literal,
        Tag::Grade => PendingModel::Grade,
        Tag::StrokeCount => PendingModel::StrokeCount,
        Tag::Reading => PendingModel::Reading(r_type),
        Tag::Meaning => PendingModel::Meaning(m_lang),
        _ => PendingModel::Idle,
    }
}

/// The effect of one event on the scan.
/// - `<character>` opens a fresh record and clears the pending field;
/// - another opening element sets the pending field while a record is open,
///   and clears it otherwise;
/// - text that is non-empty once trimmed fills the pending field of the open
///   record and clears it; other text changes nothing;
/// - `</character>` closes the record and keeps it when its literal was read
///   and is wanted; closing one of the field elements clears the pending field.
pub open spec fn step_spec(s: ScanModel, e: EventModel, wanted: Seq<char>) -> ScanModel {
    match e {
        EventModel::Start { name, r_type, m_lang } => if tag_spec(name) == Tag::Character {
            ScanModel { current: Some(empty_char()), pending: PendingModel::Idle, found: s.found }
        } else if s.current is Some {
            ScanModel { pending: pending_for(tag_spec(name), r_type, m_lang), ..s }
        } else {
            ScanModel { pending: PendingModel::Idle, ..s }
        },
        EventModel::Text(raw) => if s.pending is Idle || trim_seq(raw).len() == 0 {
            s
        } else {
            ScanModel {
                current: match s.current {
                    Some(c) => Some(apply_text_spec(c, s.pending, trim_seq(raw))),
                    None => None,
                },
                pending: PendingModel::Idle,
                found: s.found,
            }
        },
        EventModel::End { name } => if tag_spec(name) == Tag::Character {
            ScanModel {
                current: None,
                pending: PendingModel::Idle,
                found: match s.current {
                    Some(c) => if c.literal != '\0' && wanted.contains(c.literal) {
                        insert_found(s.found, c)
                    } else {
                        s.found
                    },
                    None => s.found,
                },
            }
        } else if tag_spec(name) == Tag::Other {
            s
        } else {
            ScanModel { pending: PendingModel::Idle, ..s }
        },
        EventModel::Other => s,
    }
}

/// The state after a sequence of events.
pub open spec fn scan_events(evs: Seq<EventModel>, wanted: Seq<char>) -> ScanModel
    decreases evs.len(),
{
    if evs.len() == 0 {
        initial_scan()
    } else {
        step_spec(scan_events(evs.drop_last(), wanted), evs.last(), wanted)
    }
}

/// The models of a list of events.
pub open spec fn event_models(v: Seq<XmlEvent>) -> Seq<EventModel> {
    v.map_values(|e: XmlEvent| e@)
}

fn clone_opt_string(s: &Option<String>) -> (r: Option<String>)
    ensures
        match (s, r) {
            (Some(a), Some(b)) => a@ == b@,
            (None, None) => true,
            _ => false,
        },
{
    match s {
        Some(a) => Some(a.clone()),
        None => None,
    }
}

proof fn lemma_insert_found_at(found: Seq<CharModel>, c: CharModel, i: int)
    requires
        first_literal_at(found, c.literal, i),
    ensures
        insert_found(found, c) == found.update(i, c),
{
    let k = choose|k: int| first_literal_at(found, c.literal, k);
    assert(first_literal_at(found, c.literal, k));
    if k < i {
        assert(found[k].literal != c.literal);
    } else if i < k {
        assert(found[i].literal != c.literal);
    }
}

fn keep_found(found: &mut Vec<KanjidicChar>, c: KanjidicChar)
    ensures
        char_models(final(found)@) == insert_found(char_models(old(found)@), c@),
{
    let ghost models = char_models(found@);
    let mut i: usize = 0;
    while i < found.len()
        invariant
            i <= found.len(),
            found@ == old(found)@,
            models == char_models(found@),
            forall|j: int| 0 <= j < i ==> models[j].literal != c.literal,
        decreases found.len() - i,
    {
        if found[i].literal == c.literal {
            proof {
                assert(models[i as int] == found@[i as int]@);
                lemma_insert_found_at(models, c@, i as int);
            }
            found.set(i, c);
            assert(char_models(found@) == models.update(i as int, c@));
            return;
        }
        i += 1;
    }
    proof {
        assert forall|k: int| !first_literal_at(models, c.literal, k) by {
            if 0 <= k < models.len() {
                assert(models[k].literal != c.literal);
            }
        }
    }
    found.push(c);
    assert(char_models(found@) == models.push(c@));
}

impl KanjidicScan {
    /// A scan that has seen no event yet.
    pub fn new() -> (s: Self)
        ensures
            s@ == initial_scan(),
    {
        let s = KanjidicScan { current: None, pending: Pending::Idle, found: Vec::new() };
        assert(char_models(s.found@) == Seq::<CharModel>::empty());
        s
    }

    /// Moves the scan over one event. Records are kept only when their literal
    /// occurs in `wanted`.
    pub fn step(self, event: &XmlEvent, wanted: &Vec<char>) -> (next: Self)
        ensures
            next@ == step_spec(self@, event@, wanted@),
    {
        let KanjidicScan { current, pending, mut found } = self;
        match event {
            XmlEvent::Start { name, r_type, m_lang } => {
                let t = tag_of(name);
                if t == Tag::Character {
                    KanjidicScan { current: Some(KanjidicChar::default()), pending: Pending::Idle, found }
                } else if current.is_some() {
                    let p = match t {
                        Tag::Literal => Pending::Literal,
                        Tag::Grade => Pending::Grade,
                        Tag::StrokeCount => Pending::StrokeCount,
                        Tag::Reading => Pending::Reading(r_type.clone()),
                        Tag::Meaning => Pending::Meaning(clone_opt_string(m_lang)),
                        _ => Pending::Idle,
                    };
                    KanjidicScan { current, pending: p, found }
                } else {
                    KanjidicScan { current, pending: Pending::Idle, found }
                }
            },
            XmlEvent::Text(raw) => {
                if let Pending::Idle = pending {
                    return KanjidicScan { current, pending, found };
                }
                let text = trimmed(raw.as_str());
                if text.len() == 0 {
                    return KanjidicScan { current, pending, found };
                }
                let current = match current {
                    Some(mut c) => {
                        apply_text(&mut c, &pending, &text);
                        Some(c)
                    },
                    None => None,
                };
                KanjidicScan { current, pending: Pending::Idle, found }
            },
            XmlEvent::End { name } => {
                let t = tag_of(name);
                if t == Tag::Character {
                    match current {
                        Some(c) => {
                            if c.literal != '\0' && contains_char(wanted, c.literal) {
                                keep_found(&mut found, c);
                            }
                        },
                        None => {},
                    }
                    KanjidicScan { current: None, pending: Pending::Idle, found }
                } else if t == Tag::Other {
                    KanjidicScan { current, pending, found }
                } else {
                    KanjidicScan { current, pending: Pending::Idle, found }
                }
            },
            XmlEvent::Other => KanjidicScan { current, pending, found },
        }
    }

    /// The wanted records found so far.
    pub fn finish(self) -> (found: Vec<KanjidicChar>)
        ensures
            char_models(found@) == self@.found,
    {
        self.found
    }
}

/// Runs the scan over a whole event sequence and returns the wanted records.
pub fn collect_wanted(events: &Vec<XmlEvent>, wanted: &Vec<char>) -> (found: Vec<KanjidicChar>)
    ensures
        char_models(found@) == scan_events(event_models(events@), wanted@).found,
{
    let mut scan = KanjidicScan::new();
    let mut i: usize = 0;
    while i < events.len()
        invariant
            i <= events.len(),
            scan@ == scan_events(event_models(events@).take(i as int), wanted@),
        decreases events.len() - i,
    {
        scan = scan.step(&events[i], wanted);
        i += 1;
        proof {
            let evs = event_models(events@).take(i as int);
            assert(evs.drop_last() == event_models(events@).take(i - 1));
            assert(evs.last() == events@[i - 1]@);
        }
    }
    assert(event_models(events@).take(events.len() as int) == event_models(events@));
    scan.finish()
}

// ── what every scan keeps ──────────────────────────────────────────

/// The records found are wanted, have a literal, and no literal occurs twice.
pub open spec fn found_ok(found: Seq<CharModel>, wanted: Seq<char>) -> bool {
    &&& forall|i: int|
        0 <= i < found.len() ==> #[trigger] found[i].literal != '\0' && wanted.contains(
            found[i].literal,
        )
    &&& forall|i: int, j: int|
        0 <= i < j < found.len() ==> #[trigger] found[i].literal != #[trigger] found[j].literal
}

proof fn lemma_first_literal_exists(found: Seq<CharModel>, ch: char, k: int)
    requires
        0 <= k < found.len(),
        found[k].literal == ch,
    ensures
        exists|i: int| first_literal_at(found, ch, i),
    decreases k,
{
    if forall|j: int| 0 <= j < k ==> found[j].literal != ch {
        assert(first_literal_at(found, ch, k));
    } else {
        let j = choose|j: int| 0 <= j < k && found[j].literal == ch;
        lemma_first_literal_exists(found, ch, j);
    }
}

/// One event keeps the found records wanted, with a literal, and distinct.
pub proof fn lemma_step_keeps_found_ok(s: ScanModel, e: EventModel, wanted: Seq<char>)
    requires
        found_ok(s.found, wanted),
    ensures
        found_ok(step_spec(s, e, wanted).found, wanted),
{
    if let EventModel::End { name } = e {
        if tag_spec(name) == Tag::Character {
            if let Some(c) = s.current {
                if c.literal != '\0' && wanted.contains(c.literal) {
                    let f = s.found;
                    if exists|i: int| first_literal_at(f, c.literal, i) {
                        let i = choose|i: int| first_literal_at(f, c.literal, i);
                        lemma_insert_found_at(f, c, i);
                        let g = f.update(i, c);
                        assert forall|a: int, b: int| 0 <= a < b < g.len() implies #[trigger] g[a].literal
                            != #[trigger] g[b].literal by {
                            assert(g[a].literal == f[a].literal);
                            assert(g[b].literal == f[b].literal);
                        }
                    } else {
                        assert forall|k: int| 0 <= k < f.len() implies f[k].literal != c.literal by {
                            if f[k].literal == c.literal {
                                lemma_first_literal_exists(f, c.literal, k);
                            }
                        }
                        let g = f.push(c);
                        assert forall|a: int, b: int| 0 <= a < b < g.len() implies #[trigger] g[a].literal
                            != #[trigger] g[b].literal by {
                            if b == f.len() {
                                assert(g[a].literal == f[a].literal);
                            } else {
                                assert(g[a].literal == f[a].literal);
                                assert(g[b].literal == f[b].literal);
                            }
                        }
                        assert forall|a: int| 0 <= a < g.len() implies #[trigger] g[a].literal != '\0'
                            && wanted.contains(g[a].literal) by {
                            if a < f.len() {
                                assert(g[a] == f[a]);
                            }
                        }
                    }
                }
            }
        }
    }
}

/// Whatever the events, the records a scan keeps are wanted, have a literal,
/// and no literal occurs twice.
pub proof fn lemma_scan_found_ok(evs: Seq<EventModel>, wanted: Seq<char>)
    ensures
        found_ok(scan_events(evs, wanted).found, wanted),
    decreases evs.len(),
{
    if evs.len() > 0 {
        lemma_scan_found_ok(evs.drop_last(), wanted);
        lemma_step_keeps_found_ok(scan_events(evs.drop_last(), wanted), evs.last(), wanted);
    }
}

// ── what the element and attribute names mean ──────────────────────

/// The element names the scan reads, spelled out in bytes; any other name
/// (`jlpt`, `misc`, …) is ignored.
pub proof fn lemma_tag_names()
    ensures
        tag_spec(seq![99u8, 104, 97, 114, 97, 99, 116, 101, 114]) == Tag::Character,
        tag_spec(seq![108u8, 105, 116, 101, 114, 97, 108]) == Tag::Literal,
        tag_spec(seq![103u8, 114, 97, 100, 101]) == Tag::Grade,
        tag_spec(seq![115u8, 116, 114, 111, 107, 101, 95, 99, 111, 117, 110, 116]) == Tag::StrokeCount,
        tag_spec(seq![114u8, 101, 97, 100, 105, 110, 103]) == Tag::Reading,
        tag_spec(seq![109u8, 101, 97, 110, 105, 110, 103]) == Tag::Meaning,
        tag_spec(seq![106u8, 108, 112, 116]) == Tag::Other,
        tag_spec(seq![109u8, 105, 115, 99]) == Tag::Other,
{
    reveal_strlit("character");
    reveal_strlit("literal");
    reveal_strlit("grade");
    reveal_strlit("stroke_count");
    reveal_strlit("reading");
    reveal_strlit("meaning");
    assert("character"@ == seq!['c', 'h', 'a', 'r', 'a', 'c', 't', 'e', 'r']);
    assert("literal"@ == seq!['l', 'i', 't', 'e', 'r', 'a', 'l']);
    assert("grade"@ == seq!['g', 'r', 'a', 'd', 'e']);
    assert("stroke_count"@ == seq!['s', 't', 'r', 'o', 'k', 'e', '_', 'c', 'o', 'u', 'n', 't']);
    assert("reading"@ == seq!['r', 'e', 'a', 'd', 'i', 'n', 'g']);
    assert("meaning"@ == seq!['m', 'e', 'a', 'n', 'i', 'n', 'g']);
    assert(!spells(seq![108u8, 105, 116, 101, 114, 97, 108], "reading"@)) by {
        assert(seq![108u8, 105, 116, 101, 114, 97, 108][0] as u32 != "reading"@[0] as u32);
    }
    assert(!spells(seq![108u8, 105, 116, 101, 114, 97, 108], "meaning"@)) by {
        assert(seq![108u8, 105, 116, 101, 114, 97, 108][0] as u32 != "meaning"@[0] as u32);
    }
    assert(!spells(seq![114u8, 101, 97, 100, 105, 110, 103], "literal"@)) by {
        assert(seq![114u8, 101, 97, 100, 105, 110, 103][0] as u32 != "literal"@[0] as u32);
    }
    assert(!spells(seq![114u8, 101, 97, 100, 105, 110, 103], "meaning"@)) by {
        assert(seq![114u8, 101, 97, 100, 105, 110, 103][0] as u32 != "meaning"@[0] as u32);
    }
    assert(!spells(seq![109u8, 101, 97, 110, 105, 110, 103], "literal"@)) by {
        assert(seq![109u8, 101, 97, 110, 105, 110, 103][0] as u32 != "literal"@[0] as u32);
    }
    assert(!spells(seq![109u8, 101, 97, 110, 105, 110, 103], "reading"@)) by {
        assert(seq![109u8, 101, 97, 110, 105, 110, 103][0] as u32 != "reading"@[0] as u32);
    }
}

/// The `r_type` of a reading decides its field: `ja_on` appends to the on
/// readings, `ja_kun` to the kun readings, `korean_h` to the Korean readings;
/// a meaning counts when its `m_lang` is absent, empty or `en`, and not when
/// it is, say, `fr`.
pub proof fn lemma_field_routing(c: CharModel, text: Seq<char>)
    ensures
        apply_text_spec(c, PendingModel::Reading(seq!['j', 'a', '_', 'o', 'n']), text).on == c.on.push(text),
        apply_text_spec(c, PendingModel::Reading(seq!['j', 'a', '_', 'k', 'u', 'n']), text).kun == c.kun.push(
            split_kun_spec(c.literal, text),
        ),
        apply_text_spec(c, PendingModel::Reading(seq!['k', 'o', 'r', 'e', 'a', 'n', '_', 'h']), text).korean_h
            == c.korean_h.push(text),
        apply_text_spec(c, PendingModel::Reading(seq!['p', 'i', 'n', 'y', 'i', 'n']), text) == c,
        apply_text_spec(c, PendingModel::Meaning(None), text).meanings_en == c.meanings_en.push(
            text,
        ),
        apply_text_spec(c, PendingModel::Meaning(Some(seq!['e', 'n'])), text).meanings_en
            == c.meanings_en.push(text),
        apply_text_spec(c, PendingModel::Meaning(Some(Seq::empty())), text).meanings_en
            == c.meanings_en.push(text),
        apply_text_spec(c, PendingModel::Meaning(Some(seq!['f', 'r'])), text) == c,
{
    reveal_strlit("ja_on");
    reveal_strlit("ja_kun");
    reveal_strlit("korean_h");
    reveal_strlit("en");
    reveal_strlit("");
    assert("ja_on"@ == seq!['j', 'a', '_', 'o', 'n']);
    assert("ja_kun"@ == seq!['j', 'a', '_', 'k', 'u', 'n']);
    assert("korean_h"@ == seq!['k', 'o', 'r', 'e', 'a', 'n', '_', 'h']);
    assert("en"@ == seq!['e', 'n']);
    assert(""@ == Seq::<char>::empty());
}

// ── reading the XML ────────────────────────────────────────────────

/// One event of the XML reader, as plain values.
pub enum XmlToken {
    /// `<name ...>` or `<name .../>`: the raw content of the tag (the qualified
    /// name, then the attributes) and the length of the name in bytes.
    Start { content: Vec<u8>, name_len: usize },
    /// `</name>`: the raw bytes of the qualified name.
    End { name: Vec<u8> },
    /// Text content, unescaped (empty when it cannot be unescaped).
    Text(String),
    /// Anything else (comments, CDATA, declarations, processing instructions,
    /// doctypes).
    Other,
}

pub enum TokenModel {
    Start { content: Seq<u8>, name_len: nat },
    End { name: Seq<u8> },
    Text(Seq<char>),
    Other,
}

impl View for XmlToken {
    type V = TokenModel;

    open spec fn view(&self) -> TokenModel {
        match self {
            XmlToken::Start { content, name_len } => TokenModel::Start {
                content: content@,
                name_len: *name_len as nat,
            },
            XmlToken::End { name } => TokenModel::End { name: name@ },
            XmlToken::Text(t) => TokenModel::Text(t@),
            XmlToken::Other => TokenModel::Other,
        }
    }
}

/// The models of a list of tokens.
pub open spec fn token_models(v: Seq<XmlToken>) -> Seq<TokenModel> {
    v.map_values(|t: XmlToken| t@)
}

/// The models of a list of attributes.
pub open spec fn attribute_models(v: Seq<(Vec<u8>, String)>) -> Seq<(Seq<u8>, Seq<char>)> {
    v.map_values(|a: (Vec<u8>, String)| (a.0@, a.1@))
}

/// The tokens that quick-xml's reader, with text trimming on, yields for the
/// document `xml` from its start to the end of input; `None` when the reader
/// stops with an error before the end.
pub uninterp spec fn xml_tokens(xml: Seq<char>) -> Option<Seq<TokenModel>>;

/// The attributes that quick-xml reads from the content of a tag whose name
/// takes its first `name_len` bytes, in document order, as raw key bytes and
/// unescaped value.
pub uninterp spec fn start_attributes(content: Seq<u8>, name_len: nat) -> Seq<(Seq<u8>, Seq<char>)>;

/// The value of the first attribute whose key spells `key`.
pub open spec fn first_attribute(attributes: Seq<(Seq<u8>, Seq<char>)>, key: Seq<char>) -> Option<
    Seq<char>,
>
    decreases attributes.len(),
{
    if attributes.len() == 0 {
        None
    } else if spells(attributes[0].0, key) {
        Some(attributes[0].1)
    } else {
        first_attribute(attributes.drop_first(), key)
    }
}

/// The event the scan sees for a token: an opening element carries its name,
/// its `r_type` attribute (empty when absent) and its `m_lang` attribute. A
/// start token whose name length exceeds its content (which the reader never
/// yields) counts as an element named by the whole content, without attributes.
pub open spec fn event_of_token(t: TokenModel) -> EventModel {
    match t {
        TokenModel::Start { content, name_len } => if name_len <= content.len() {
            let attributes = start_attributes(content, name_len);
            EventModel::Start {
                name: content.take(name_len as int),
                r_type: match first_attribute(attributes, "r_type"@) {
                    Some(v) => v,
                    None => Seq::empty(),
                },
                m_lang: first_attribute(attributes, "m_lang"@),
            }
        } else {
            EventModel::Start { name: content, r_type: Seq::empty(), m_lang: None }
        },
        TokenModel::End { name } => EventModel::End { name },
        TokenModel::Text(t) => EventModel::Text(t),
        TokenModel::Other => EventModel::Other,
    }
}

/// The events the scan sees for a list of tokens.
pub open spec fn token_events(ts: Seq<TokenModel>) -> Seq<EventModel> {
    ts.map_values(|t: TokenModel| event_of_token(t))
}

/// The records that a scan of the document `xml` keeps for `wanted`, when the
/// document reads to its end.
pub open spec fn wanted_records(xml: Seq<char>, wanted: Seq<char>) -> Seq<CharModel> {
    scan_events(token_events(xml_tokens(xml)->0), wanted).found
}

/// Reads the document `xml` with `quick_xml::Reader::from_str`, text trimming
/// on (`Config::trim_text`), calling `read_event` up to the end of input. A
/// start or empty element becomes its raw content (`BytesStart` dereferenced)
/// and the length of `BytesStart::name`, which slices that content; an end
/// element its `BytesEnd::name`; text its `BytesText::unescape`.
/// Claimed: the tokens are those `xml_tokens` names for `xml`, an error comes
/// exactly when `xml_tokens` is `None`, and a name never outruns its content.
/// On an error the `Display` text of `quick_xml::Error` is returned; what it
/// says is not stated.
#[verifier::external_body]
fn read_tokens(xml: &str) -> (r: Result<Vec<XmlToken>, String>)
    ensures
        r is Ok <==> xml_tokens(xml@) is Some,
        r matches Ok(v) ==> xml_tokens(xml@) == Some(token_models(v@)),
        r matches Ok(v) ==> forall|i: int|
            0 <= i < v@.len() ==> (#[trigger] v@[i] matches XmlToken::Start { content, name_len }
                ==> name_len <= content@.len()),
{
    let mut reader = Reader::from_str(xml);
    reader.config_mut().trim_text(true);
    let mut tokens = Vec::new();
    loop {
        tokens.push(match reader.read_event() {
            Ok(Event::Start(t) | Event::Empty(t)) => XmlToken::Start { content: t.to_vec(), name_len: t.name().0.len() },
            Ok(Event::End(t)) => XmlToken::End { name: t.name().0.to_vec() },
            Ok(Event::Text(t)) => XmlToken::Text(t.unescape().unwrap_or_default().into_owned()),
            Ok(Event::Eof) => return Ok(tokens),
            Ok(_) => XmlToken::Other,
            Err(e) => return Err(e.to_string()),
        });
    }
}

/// The attributes of a tag with `BytesStart::from_content` (the content taken
/// as text, `String::from_utf8_lossy`) and `BytesStart::attributes` without
/// checks, up to the first malformed one; each as its raw key and its
/// `Attribute::unescape_value` (empty when the value cannot be unescaped).
/// Claimed: the result is what `start_attributes` names for the arguments.
/// `name_len` must not exceed the content, where the iterator slices it.
#[verifier::external_body]
fn tag_attributes(content: &Vec<u8>, name_len: usize) -> (r: Vec<(Vec<u8>, String)>)
    requires
        name_len <= content@.len(),
    ensures
        attribute_models(r@) == start_attributes(content@, name_len as nat),
{
    let tag = BytesStart::from_content(String::from_utf8_lossy(content), name_len);
    tag.attributes().with_checks(false).map_while(Result::ok).map(|a| (a.key.0.to_vec(), a.unescape_value().unwrap_or_default().into_owned())).collect()
}

/// The first `n` bytes of `v`.
fn prefix_bytes(v: &Vec<u8>, n: usize) -> (r: Vec<u8>)
    requires
        n <= v@.len(),
    ensures
        r@ == v@.take(n as int),
{
    let mut r: Vec<u8> = Vec::new();
    let mut i: usize = 0;
    while i < n
        invariant
            i <= n,
            n <= v@.len(),
            r@ == v@.take(i as int),
        decreases n - i,
    {
        r.push(v[i]);
        i += 1;
        assert(r@ == v@.take(i as int));
    }
    r
}

/// The value of the first attribute whose key spells `key`.
fn attribute_value(attributes: &Vec<(Vec<u8>, String)>, key: &str) -> (r: Option<String>)
    ensures
        match (r, first_attribute(attribute_models(attributes@), key@)) {
            (Some(a), Some(b)) => a@ == b,
            (None, None) => true,
            _ => false,
        },
{
    let ghost models = attribute_models(attributes@);
    assert(models.subrange(0, models.len() as int) == models);
    let mut i: usize = 0;
    while i < attributes.len()
        invariant
            i <= attributes.len(),
            models == attribute_models(attributes@),
            first_attribute(models, key@) == first_attribute(
                models.subrange(i as int, models.len() as int),
                key@,
            ),
        decreases attributes.len() - i,
    {
        proof {
            let rest = models.subrange(i as int, models.len() as int);
            assert(rest[0] == models[i as int]);
            assert(rest.drop_first() == models.subrange(i + 1, models.len() as int));
        }
        if spells_exec(&attributes[i].0, key) {
            return Some(attributes[i].1.clone());
        }
        i += 1;
    }
    assert(models.subrange(i as int, models.len() as int).len() == 0);
    None
}

/// The event the scan sees for one token.
pub fn event_from_token(t: &XmlToken) -> (e: XmlEvent)
    ensures
        e@ == event_of_token(t@),
{
    match t {
        XmlToken::Start { content, name_len } => {
            if *name_len <= content.len() {
                let attributes = tag_attributes(content, *name_len);
                let r_type = match attribute_value(&attributes, "r_type") {
                    Some(v) => v,
                    None => String::new(),
                };
                let m_lang = attribute_value(&attributes, "m_lang");
                let name = prefix_bytes(content, *name_len);
                XmlEvent::Start { name, r_type, m_lang }
            } else {
                let name = content.clone();
                XmlEvent::Start { name, r_type: String::new(), m_lang: None }
            }
        },
        XmlToken::End { name } => XmlEvent::End { name: name.clone() },
        XmlToken::Text(s) => XmlEvent::Text(s.clone()),
        XmlToken::Other => XmlEvent::Other,
    }
}

/// Scans a list of tokens and returns the wanted records: those the scan keeps
/// from the events of the tokens.
pub fn wanted_from_tokens(tokens: &Vec<XmlToken>, wanted: &Vec<char>) -> (found: Vec<KanjidicChar>)
    ensures
        char_models(found@) == scan_events(token_events(token_models(tokens@)), wanted@).found,
        found_ok(char_models(found@), wanted@),
{
    let mut events: Vec<XmlEvent> = Vec::new();
    let mut i: usize = 0;
    while i < tokens.len()
        invariant
            i <= tokens.len(),
            event_models(events@) == token_events(token_models(tokens@)).take(i as int),
        decreases tokens.len() - i,
    {
        let e = event_from_token(&tokens[i]);
        let ghost before = events@;
        let ghost em = e@;
        events.push(e);
        proof {
            let ts = token_events(token_models(tokens@));
            assert(ts[i as int] == em);
            assert(ts.take(i + 1) == ts.take(i as int).push(em));
            assert(event_models(events@) == event_models(before).push(em));
        }
        i += 1;
    }
    assert(token_events(token_models(tokens@)).take(tokens.len() as int) == token_events(
        token_models(tokens@),
    ));
    let found = collect_wanted(&events, wanted);
    proof {
        lemma_scan_found_ok(event_models(events@), wanted@);
    }
    found
}

/// Why the dictionary could not be read.
#[derive(Debug, Clone, PartialEq, Eq)]
pub enum KanjidicError {
    /// The XML reader stopped with this error.
    Xml(String),
}

impl KanjidicError {
    /// The error as the command line reports it.
    pub fn message(&self) -> (m: String)
        ensures
            match self {
                KanjidicError::Xml(detail) => m@ == "KANJIDIC2 XML 파싱 중 오류가 발생했습니다: "@
                    + detail@,
            },
    {
        match self {
            KanjidicError::Xml(detail) => {
                let mut m = String::from_str("KANJIDIC2 XML 파싱 중 오류가 발생했습니다: ");
                m.append(detail.as_str());
                m
            },
        }
    }
}

/// Reads the KANJIDIC2 XML `xml` and returns the records whose literal occurs
/// in `wanted`, each once (a later record with the same literal replaces the
/// earlier one). Unwanted records are read and dropped, so the whole
/// dictionary can be scanned for a few characters.
pub fn parse_wanted(xml: &str, wanted: &Vec<char>) -> (r: Result<Vec<KanjidicChar>, KanjidicError>)
    ensures
        r is Ok <==> xml_tokens(xml@) is Some,
        r matches Ok(found) ==> char_models(found@) == wanted_records(xml@, wanted@),
        r matches Ok(found) ==> found_ok(char_models(found@), wanted@),
{
    let tokens = match read_tokens(xml) {
        Ok(t) => t,
        Err(detail) => {
            return Err(KanjidicError::Xml(detail));
        },
    };
    Ok(wanted_from_tokens(&tokens, wanted))
}

} // verus!
