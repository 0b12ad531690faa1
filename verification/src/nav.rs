//! The navigation state a presentation layer keeps per open document:
//! which section is shown, how far it is scrolled, and which search term,
//! if any, is highlighted.

use vstd::prelude::*;

verus! {

/// Where the reader stands within the document.
#[derive(Debug)]
pub struct NavigationState {
    pub current_chapter: usize,
    pub scroll_offset: usize,
    pub highlighted_search_term: Option<String>,
}

impl NavigationState {
    /// Starts at the first section, unscrolled, with nothing highlighted.
    pub fn new() -> (s: NavigationState)
        ensures
            s.current_chapter == 0,
            s.scroll_offset == 0,
            s.highlighted_search_term is None,
    {
        NavigationState { current_chapter: 0, scroll_offset: 0, highlighted_search_term: None }
    }

    /// Drops the highlighted search term; position is untouched.
    pub fn clear_highlight(&mut self)
        ensures
            final(self).highlighted_search_term is None,
            final(self).current_chapter == old(self).current_chapter,
            final(self).scroll_offset == old(self).scroll_offset,
    {
        self.highlighted_search_term = None;
    }

    /// Returns to the top of the current section; the rest is untouched.
    pub fn reset_scroll(&mut self)
        ensures
            final(self).scroll_offset == 0,
            final(self).current_chapter == old(self).current_chapter,
            final(self).highlighted_search_term == old(self).highlighted_search_term,
    {
        self.scroll_offset = 0;
    }
}

} // verus!
