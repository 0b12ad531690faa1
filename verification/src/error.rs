//! The error taxonomy of the document pipeline: structural-format errors that
//! abort an open, resource-limit rejections of hostile input, and lookup
//! errors for entries and indices.

use vstd::prelude::*;

verus! {

/// What can go wrong while opening a document or realizing a section.
#[derive(Debug)]
pub enum EpubError {
    /// An archive entry exists but its payload could not be read as text;
    /// carries the entry name.
    Io(String),
    /// The container could not be opened as an archive; carries the archive
    /// library's message.
    Zip(String),
    /// The pointer or manifest markup is malformed; carries the reader's
    /// message or the offending raw text.
    Xml(String),
    /// The archive holds no `META-INF/container.xml`.
    ContainerNotFound,
    /// The container names no manifest, or the named manifest entry is
    /// missing.
    OpfNotFound,
    /// The manifest declares no reading order.
    InvalidOpfStructure,
    /// No archive entry could be resolved for this reference; carries the
    /// reference.
    ChapterNotFound(String),
    /// The archive file itself is over the hard ceiling.
    FileTooLarge { size: u64, max: u64 },
    /// One section's linearized text is over the hard ceiling, counted in
    /// UTF-8 bytes.
    ChapterTooLarge { size: usize, max: usize },
    /// An entry expands suspiciously far beyond its compressed size.
    DecompressionBomb { compressed: u64, decompressed: u64, ratio: u64 },
    /// The requested section index is outside the valid range.
    InvalidChapterIndex(usize),
}

} // verus!
