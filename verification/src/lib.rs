//! Verified core of the kanji etymology dictionary: content parsing and
//! validation, search-index construction, kana/romaji conversion, search
//! ranking, and the feedback proxy's request logic.

pub mod feedback;
pub mod text;
pub mod kana;
pub mod keyed;
pub mod search;
pub mod schema;
pub mod index;
pub mod frontmatter;
pub mod feedback_flow;
pub mod kanjidic;
pub mod skeleton;
pub mod pipeline;
pub mod import;
pub mod web;
pub mod cli;
