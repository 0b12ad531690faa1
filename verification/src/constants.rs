//! The fixed sizing and safety limits of the document pipeline.

use vstd::prelude::*;

verus! {

/// A section whose trimmed text is shorter than this receives no descriptor.
pub const MIN_CONTENT_LENGTH: usize = 50;

/// The column width sections are wrapped to.
pub const HTML_TEXT_WIDTH: usize = 80;

/// Lines of leading context around a search match.
pub const SEARCH_CONTEXT_LINES: usize = 1;

/// Lines of context from the matching line on.
pub const SEARCH_CONTEXT_AFTER_LINES: usize = 2;

/// The hard ceiling on the archive file itself.
pub const MAX_EPUB_SIZE: u64 = 100 * 1024 * 1024;

/// The hard ceiling on one section's linearized text, in UTF-8 bytes.
pub const MAX_CHAPTER_SIZE: usize = 5 * 1024 * 1024;

/// An entry expanding beyond this ratio is treated as hostile.
pub const MAX_DECOMPRESSED_RATIO: usize = 100;

/// How many realized sections the store keeps at once.
pub const CHAPTER_CACHE_SIZE: usize = 5;

} // verus!
