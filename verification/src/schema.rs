//! The content data model: the YAML frontmatter of `content/kanji/{character}.md`
//! and `content/radicals/{radical}.md`, shared by the build pipeline and the
//! web app.

use vstd::prelude::*;

verus! {

/// Frontmatter of a kanji page.
#[derive(Debug, Clone, PartialEq)]
pub struct KanjiEntry {
    /// The headword kanji (the representative form); must match the file name.
    pub character: String,
    /// Variant forms (old forms and the like).
    pub variants: Vec<String>,
    /// JLPT level, such as "N5".
    pub jlpt: Option<String>,
    /// School grade.
    pub grade: Option<u8>,
    /// Total stroke count.
    pub stroke_count: Option<u32>,
    /// Korean sound and gloss.
    pub korean: Korean,
    /// Japanese on and kun readings.
    pub readings: Readings,
    /// Korean meanings.
    pub meanings: Vec<String>,
    /// Components the character decomposes into.
    pub components: Vec<Component>,
    /// Historical forms.
    pub evolution: Vec<Evolution>,
    /// Related kanji.
    pub related: Vec<Related>,
    /// Example words.
    pub words: Vec<Word>,
    /// How well attested the etymology is.
    pub confidence: Confidence,
    /// Sources.
    pub sources: Vec<Source>,
    /// Last edit date (YYYY-MM-DD).
    pub last_updated: String,
}

/// Korean sound and gloss of a kanji.
#[derive(Debug, Clone, PartialEq)]
pub struct Korean {
    /// Korean sound, such as "학".
    pub reading: String,
    /// Gloss followed by the sound, such as "배울 학".
    pub meaning: String,
}

/// Japanese readings.
#[derive(Debug, Clone, PartialEq)]
pub struct Readings {
    /// On readings, in katakana.
    pub on: Vec<String>,
    /// Kun readings.
    pub kun: Vec<KunReading>,
}

/// One kun reading. `reading` may separate stem and okurigana with `-`
/// (such as "まな-ぶ"); `form` is the written form with okurigana ("学ぶ").
#[derive(Debug, Clone, PartialEq)]
pub struct KunReading {
    pub reading: String,
    pub form: String,
}

/// One component of a kanji.
#[derive(Debug, Clone, PartialEq)]
pub struct Component {
    /// The component's form.
    pub form: String,
    /// Its role or meaning.
    pub role: String,
    /// A link, `/kanji/{kanji}` or `/radical/{radical}`, if any.
    pub link: Option<String>,
}

/// One stage of a kanji's historical forms.
#[derive(Debug, Clone, PartialEq)]
pub struct Evolution {
    /// The era, such as "갑골문".
    pub era: String,
    /// The form in that era.
    pub form: String,
    /// Identifier of the glyph's source.
    pub source: String,
}

/// A related kanji.
#[derive(Debug, Clone, PartialEq)]
pub struct Related {
    pub kanji: String,
    /// How it is related.
    pub relation: String,
}

/// An example word containing the kanji.
#[derive(Debug, Clone, PartialEq)]
pub struct Word {
    pub word: String,
    /// Its reading in kana.
    pub reading: String,
    /// Korean gloss.
    pub gloss: String,
}

/// How well attested an etymology is.
#[derive(Debug, Clone, Copy, PartialEq, Eq, Structural)]
pub enum Confidence {
    /// Widely accepted.
    WellAttested,
    /// One interpretation among several.
    Interpretation,
    /// A weakly supported conjecture.
    Tentative,
}

/// One source.
#[derive(Debug, Clone, PartialEq)]
pub struct Source {
    /// Name of the source, such as "說文解字" or "KANJIDIC2".
    pub name: String,
    /// Volume, chapter or other detail (the `ref` key of the frontmatter).
    pub reference: Option<String>,
    /// License, such as "CC-BY-SA".
    pub license: Option<String>,
    pub url: Option<String>,
    /// Year of publication.
    pub year: Option<i32>,
}

/// Frontmatter of a radical page.
#[derive(Debug, Clone, PartialEq)]
pub struct RadicalEntry {
    /// The radical; must match the file name.
    pub radical: String,
    /// Its Korean name, such as "삼수변".
    pub name: String,
    /// What it means.
    pub meaning: String,
    pub stroke_count: u32,
    /// Variant forms.
    pub variants: Vec<String>,
    /// Last edit date (YYYY-MM-DD).
    pub last_updated: String,
}

} // verus!
