//! The realized section and search-match records that the store and the
//! search index hand out.

use vstd::prelude::*;

verus! {

/// One realized section: its original reference, its derived heading and
/// its linearized text. Immutable once produced.
#[derive(Debug, Clone)]
pub struct Chapter {
    pub content: String,
    pub id: String,
    pub title: String,
}

/// The ghost shape of one realized section.
pub struct ChapterV {
    pub content: Seq<char>,
    pub id: Seq<char>,
    pub title: Seq<char>,
}

impl View for Chapter {
    type V = ChapterV;

    open spec fn view(&self) -> ChapterV {
        ChapterV { content: self.content@, id: self.id@, title: self.title@ }
    }
}

impl Chapter {
    /// A field-for-field copy whose view is provably the original's.
    pub fn duplicate(&self) -> (r: Chapter)
        ensures
            r@ == self@,
    {
        Chapter { content: self.content.clone(), id: self.id.clone(), title: self.title.clone() }
    }
}

/// One search hit: which section, which line, the UTF-8 byte offset where
/// that line starts within the section's text, and the surrounding context
/// window.
#[derive(Debug, Clone)]
pub struct SearchResult {
    pub chapter_index: usize,
    pub context: String,
    pub line_number: usize,
    pub position: usize,
}

/// The ghost shape of one search hit.
pub struct SearchResultV {
    pub chapter_index: int,
    pub context: Seq<char>,
    pub line_number: int,
    pub position: int,
}

impl View for SearchResult {
    type V = SearchResultV;

    open spec fn view(&self) -> SearchResultV {
        SearchResultV {
            chapter_index: self.chapter_index as int,
            context: self.context@,
            line_number: self.line_number as int,
            position: self.position as int,
        }
    }
}

impl DeepView for SearchResult {
    type V = SearchResultV;

    open spec fn deep_view(&self) -> SearchResultV {
        self@
    }
}

} // verus!
