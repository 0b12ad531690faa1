//! The section store and search index: one reader owns the archive, the
//! descriptor list built at load time, and the bounded cache. Its contract
//! is exact: which error opening a document yields, that every valid index
//! realizes the same section every time, and which matches a search yields.

use vstd::prelude::*;
use crate::archive::{open_archive, read_entry, zip_contents, zip_entries_of, zip_sizes, Archive,
    EntryFault};
use crate::cache::{cache_get, cache_new, cache_put, lru_cap, lru_map, SectionCache};
use crate::chars::{
    chars_byte_len, chars_contain, chars_vec, join_range, lemma_byte_len_bounds,
    lemma_byte_round_trip, lemma_byte_start_bound, lemma_byte_start_is_prefix, lemma_dv_seq_push,
    lemma_line_verbatim, lowercase, lower_of, seq_contains, spec_byte_len, spec_byte_start,
    spec_join, spec_line_start, spec_lines, spec_trim, split_lines, string_of_chars,
};
use crate::constants::{CHAPTER_CACHE_SIZE, MAX_CHAPTER_SIZE, MAX_EPUB_SIZE, MIN_CONTENT_LENGTH};
use crate::error::EpubError;
use crate::extract::{fetch_rendered, spec_accepted, spec_fetch, try_descriptor, ChapterInfo,
    FetchOutcome, InfoV};
use crate::opf::{find_rootfile_path, parse_opf_events, spec_opf_init, spec_opf_scan,
    spec_rootfile, OpfOutcome, OpfState, RootfileOutcome};
use crate::section::{Chapter, ChapterV, SearchResult, SearchResultV};
use crate::xml::{scan_xml, xml_events_of};

verus! {

/// The name of the fixed pointer entry every container must hold.
pub open spec fn container_name() -> Seq<char> {
    "META-INF/container.xml"@
}

/// The descriptor list load time produces for one spine: a fold over the
/// spine in reading order, where each accepted reference is numbered by its
/// 1-based position among those accepted so far.
pub open spec fn spec_infos(
    entries: Map<Seq<char>, Option<Seq<char>>>,
    sizes: Map<Seq<char>, (u64, u64)>,
    opf_path: Seq<char>,
    spine: Seq<Seq<char>>,
) -> Seq<InfoV>
    decreases spine.len(),
{
    if spine.len() == 0 {
        Seq::empty()
    } else {
        let prefix = spec_infos(entries, sizes, opf_path, spine.drop_last());
        match spec_accepted(entries, sizes, opf_path, spine.last(), prefix.len() as int + 1) {
            Some(tr) => prefix.push(InfoV { href: spine.last(), title: tr.0 }),
            None => prefix,
        }
    }
}

/// The ghost document one reader realizes sections of.
pub struct DocView {
    pub entries: Map<Seq<char>, Option<Seq<char>>>,
    pub sizes: Map<Seq<char>, (u64, u64)>,
    pub opf_path: Seq<char>,
    pub infos: Seq<InfoV>,
    pub title: Seq<char>,
    pub author: Seq<char>,
}

/// Whether descriptor `i` re-extracts cleanly: its fetch succeeds, its text
/// reaches the minimum length, and its stored heading is the derived one.
pub open spec fn info_ok(doc: DocView, i: int) -> bool {
    match spec_accepted(doc.entries, doc.sizes, doc.opf_path, doc.infos[i].href, i + 1) {
        Some(tr) => doc.infos[i].title == tr.0,
        None => false,
    }
}

/// The text that index `i` realizes: the rendered form of its entry.
pub open spec fn spec_content(doc: DocView, i: int) -> Seq<char> {
    match spec_fetch(doc.entries, doc.sizes, doc.opf_path, doc.infos[i].href) {
        FetchOutcome::Fetched { rendered, .. } => rendered,
        _ => Seq::empty(),
    }
}

/// The section that index `i` realizes: the stored reference and heading,
/// and the re-rendered text. Realization is a pure function of the
/// document, so realizing twice yields the same section.
pub open spec fn spec_chapter(doc: DocView, i: int) -> ChapterV {
    ChapterV {
        content: spec_content(doc, i),
        id: doc.infos[i].href,
        title: doc.infos[i].title,
    }
}

/// How opening a document can end, as a function of the container's
/// entries, before any section is extracted.
pub enum LoadOutcome {
    /// The fixed pointer entry is absent.
    ContainerMissing,
    /// The pointer entry cannot be read as text.
    ContainerUnreadable,
    /// The pointer markup is malformed.
    ContainerFault,
    /// No manifest path is declared, or the declared entry is absent.
    OpfMissing,
    /// The manifest entry cannot be read as text.
    OpfUnreadable,
    /// The manifest markup is malformed.
    OpfFault,
    /// The manifest declares no reading order.
    NoSpine,
    /// The manifest path and the parsed manifest state.
    Loaded { opf_path: Seq<char>, fin: OpfState },
}

/// The load pipeline over the archive's entries: pointer entry, manifest
/// path, manifest scan, non-empty reading order.
pub open spec fn spec_load(entries: Map<Seq<char>, Option<Seq<char>>>) -> LoadOutcome {
    if !entries.contains_key(container_name()) {
        LoadOutcome::ContainerMissing
    } else {
        match entries[container_name()] {
            None => LoadOutcome::ContainerUnreadable,
            Some(ctext) => match spec_rootfile(xml_events_of(ctext), 0) {
                RootfileOutcome::Fault => LoadOutcome::ContainerFault,
                RootfileOutcome::Missing => LoadOutcome::OpfMissing,
                RootfileOutcome::Found(p) => {
                    if !entries.contains_key(p) {
                        LoadOutcome::OpfMissing
                    } else {
                        match entries[p] {
                            None => LoadOutcome::OpfUnreadable,
                            Some(otext) => match spec_opf_scan(
                                xml_events_of(otext),
                                0,
                                spec_opf_init(),
                            ) {
                                OpfOutcome::Fault => LoadOutcome::OpfFault,
                                OpfOutcome::Parsed(fin) => {
                                    if fin.spine.len() == 0 {
                                        LoadOutcome::NoSpine
                                    } else {
                                        LoadOutcome::Loaded { opf_path: p, fin }
                                    }
                                },
                            },
                        }
                    }
                },
            },
        }
    }
}

/// The open document: the archive, the immutable descriptor list and
/// metadata, and the bounded cache of realized sections.
#[derive(Debug)]
pub struct EpubReader {
    archive: Archive,
    chapter_cache: SectionCache,
    chapter_info: Vec<ChapterInfo>,
    opf_path: String,
    pub title: String,
    pub author: String,
}

proof fn lemma_infos_ok(
    entries: Map<Seq<char>, Option<Seq<char>>>,
    sizes: Map<Seq<char>, (u64, u64)>,
    opf_path: Seq<char>,
    spine: Seq<Seq<char>>,
)
    ensures
        ({
            let infos = spec_infos(entries, sizes, opf_path, spine);
            forall|i: int|
                0 <= i < infos.len() ==> match spec_accepted(
                    entries,
                    sizes,
                    opf_path,
                    (#[trigger] infos[i]).href,
                    i + 1,
                ) {
                    Some(tr) => infos[i].title == tr.0,
                    None => false,
                }
        }),
    decreases spine.len(),
{
    if spine.len() > 0 {
        lemma_infos_ok(entries, sizes, opf_path, spine.drop_last());
        let prefix = spec_infos(entries, sizes, opf_path, spine.drop_last());
        let infos = spec_infos(entries, sizes, opf_path, spine);
        match spec_accepted(entries, sizes, opf_path, spine.last(), prefix.len() as int + 1) {
            Some(tr) => {
                assert(infos == prefix.push(InfoV { href: spine.last(), title: tr.0 }));
                assert(forall|i: int| 0 <= i < prefix.len() ==> infos[i] == prefix[i]);
                assert(infos[prefix.len() as int] == InfoV { href: spine.last(), title: tr.0 });
            },
            None => {
                assert(infos == prefix);
            },
        }
    }
}

impl EpubReader {
    /// The ghost document this reader stands for.
    pub closed spec fn doc(&self) -> DocView {
        DocView {
            entries: zip_contents(self.archive),
            sizes: zip_sizes(self.archive),
            opf_path: self.opf_path@,
            infos: self.chapter_info.deep_view(),
            title: self.title@,
            author: self.author@,
        }
    }

    /// Well-formed: every descriptor re-extracts cleanly, the cache keeps
    /// its fixed capacity and never holds more sections than that, and
    /// everything cached is the section its index realizes.
    pub closed spec fn wf(&self) -> bool {
        &&& forall|i: int| 0 <= i < self.doc().infos.len() ==> info_ok(self.doc(), i)
        &&& lru_cap(self.chapter_cache) == CHAPTER_CACHE_SIZE as int
        &&& lru_map(self.chapter_cache).len() <= CHAPTER_CACHE_SIZE as int
        &&& forall|k: int| #[trigger]
            lru_map(self.chapter_cache).contains_key(k) ==> 0 <= k < self.doc().infos.len()
                && lru_map(self.chapter_cache)[k] == spec_chapter(self.doc(), k)
    }

    /// How many sections were accepted at load time; fixed afterwards.
    pub fn chapter_count(&self) -> (n: usize)
        ensures
            n == self.doc().infos.len(),
    {
        proof {
            assert(self.chapter_info.deep_view().len() == self.chapter_info@.len());
        }
        self.chapter_info.len()
    }

    /// Opens a document from the container's bytes: checks the size
    /// ceiling, opens the archive, resolves and parses the manifest, and
    /// accepts descriptors for every spine reference that extracts cleanly.
    /// Every error case is pinned to the load pipeline's outcome.
    pub fn new(bytes: Vec<u8>) -> (r: Result<EpubReader, EpubError>)
        ensures
            ({
                match r {
                    Ok(rd) => {
                        &&& rd.wf()
                        &&& bytes@.len() <= MAX_EPUB_SIZE
                        &&& zip_entries_of(bytes@) == Some(rd.doc().entries)
                        &&& spec_load(rd.doc().entries) matches LoadOutcome::Loaded {
                            opf_path,
                            fin,
                        } && rd.doc().opf_path == opf_path && rd.doc().infos == spec_infos(
                            rd.doc().entries,
                            rd.doc().sizes,
                            opf_path,
                            fin.spine,
                        ) && rd.doc().title == (match fin.title {
                            Some(t) => t,
                            None => "Unknown"@,
                        }) && rd.doc().author == (match fin.creator {
                            Some(t) => t,
                            None => "Unknown"@,
                        })
                    },
                    Err(e) => {
                        if bytes@.len() > MAX_EPUB_SIZE {
                            e matches EpubError::FileTooLarge { size, max } && size == bytes@.len()
                                && max == MAX_EPUB_SIZE
                        } else {
                            match zip_entries_of(bytes@) {
                                None => e matches EpubError::Zip(_),
                                Some(entries) => match spec_load(entries) {
                                    LoadOutcome::ContainerMissing => (
                                    e matches EpubError::ContainerNotFound),
                                    LoadOutcome::ContainerUnreadable => (
                                    e matches EpubError::Io(_)),
                                    LoadOutcome::ContainerFault => e matches EpubError::Xml(_),
                                    LoadOutcome::OpfMissing => e matches EpubError::OpfNotFound,
                                    LoadOutcome::OpfUnreadable => e matches EpubError::Io(_),
                                    LoadOutcome::OpfFault => e matches EpubError::Xml(_),
                                    LoadOutcome::NoSpine => (
                                    e matches EpubError::InvalidOpfStructure),
                                    LoadOutcome::Loaded { .. } => false,
                                },
                            }
                        }
                    },
                }
            }),
    {
        let size = bytes.len();
        if size as u64 > MAX_EPUB_SIZE {
            return Err(EpubError::FileTooLarge { size: size as u64, max: MAX_EPUB_SIZE });
        }
        let mut archive = match open_archive(bytes) {
            Ok(a) => a,
            Err(m) => {
                return Err(EpubError::Zip(m));
            },
        };
        let ghost entries = zip_contents(archive);
        let ghost sizes = zip_sizes(archive);
        let container = match read_entry(&mut archive, "META-INF/container.xml") {
            Ok(t) => t,
            Err(EntryFault::Missing) => {
                return Err(EpubError::ContainerNotFound);
            },
            Err(EntryFault::Unreadable) => {
                return Err(EpubError::Io(String::from_str("META-INF/container.xml")));
            },
        };
        let cevents = scan_xml(container.as_str());
        let opf_path = match find_rootfile_path(&cevents) {
            Ok(p) => p,
            Err(e) => {
                return Err(e);
            },
        };
        let opf_text = match read_entry(&mut archive, opf_path.as_str()) {
            Ok(t) => t,
            Err(EntryFault::Missing) => {
                return Err(EpubError::OpfNotFound);
            },
            Err(EntryFault::Unreadable) => {
                return Err(EpubError::Io(opf_path));
            },
        };
        let oevents = scan_xml(opf_text.as_str());
        let parsed = match parse_opf_events(&oevents) {
            Ok(p) => p,
            Err(e) => {
                return Err(e);
            },
        };
        let spine = parsed.spine;
        let ghost spine_dv = spine.deep_view();
        let mut infos: Vec<ChapterInfo> = Vec::new();
        proof {
            assert(spine_dv.subrange(0, 0) =~= Seq::<Seq<char>>::empty());
            assert(infos.deep_view() =~= Seq::<InfoV>::empty());
        }
        let mut si: usize = 0;
        while si < spine.len()
            invariant
                spine_dv == spine.deep_view(),
                spine_dv.len() == spine@.len(),
                si <= spine@.len(),
                entries == zip_contents(archive),
                sizes == zip_sizes(archive),
                infos@.len() <= si,
                infos.deep_view() == spec_infos(
                    entries,
                    sizes,
                    opf_path@,
                    spine_dv.subrange(0, si as int),
                ),
            decreases spine@.len() - si,
        {
            proof {
                assert(spine_dv[si as int] == spine@[si as int]@);
            }
            let n_next = infos.len() + 1;
            let ghost prefix = infos.deep_view();
            match try_descriptor(&mut archive, &opf_path, &spine[si], n_next) {
                Some(ci) => {
                    let ghost ci_dv = ci@;
                    let ghost old_vs = infos@;
                    infos.push(ci);
                    proof {
                        let pushed = infos@.last();
                        assert(infos@ == old_vs.push(pushed));
                        assert(pushed.deep_view() == ci_dv);
                        lemma_dv_seq_push(old_vs, pushed);
                        assert(infos.deep_view() =~= crate::chars::dv_seq(infos@));
                        assert(prefix =~= crate::chars::dv_seq(old_vs));
                        assert(infos.deep_view() =~= prefix.push(ci_dv));
                    }
                },
                None => {},
            }
            si = si + 1;
            proof {
                let sub = spine_dv.subrange(0, si as int);
                assert(sub.drop_last() =~= spine_dv.subrange(0, si as int - 1));
                assert(sub.last() == spine_dv[si as int - 1]);
                assert(infos.deep_view() == spec_infos(entries, sizes, opf_path@, sub));
            }
        }
        proof {
            assert(spine_dv.subrange(0, spine_dv.len() as int) =~= spine_dv);
        }
        let title = match parsed.title {
            Some(t) => t,
            None => String::from_str("Unknown"),
        };
        let author = match parsed.creator {
            Some(t) => t,
            None => String::from_str("Unknown"),
        };
        let chapter_cache = cache_new(CHAPTER_CACHE_SIZE);
        let rd = EpubReader { archive, chapter_cache, chapter_info: infos, opf_path, title, author };
        proof {
            lemma_infos_ok(entries, sizes, rd.opf_path@, spine_dv);
            assert(rd.wf());
        }
        Ok(rd)
    }

    /// Hands the section at `index` out: from the cache on a hit, else
    /// re-extracted and cached, evicting the least recently used section at
    /// capacity. For a valid index this always succeeds with the one
    /// section that index realizes; past the end it always fails with the
    /// offending index.
    pub fn get_chapter(&mut self, index: usize) -> (r: Result<Chapter, EpubError>)
        requires
            old(self).wf(),
        ensures
            final(self).wf(),
            final(self).doc() == old(self).doc(),
            if index < old(self).doc().infos.len() {
                r matches Ok(c) && c@ == spec_chapter(old(self).doc(), index as int)
            } else {
                r matches Err(e) && (e matches EpubError::InvalidChapterIndex(ix) && ix == index)
            },
    {
        let count = self.chapter_info.len();
        proof {
            assert(self.chapter_info.deep_view().len() == self.chapter_info@.len());
        }
        if index >= count {
            return Err(EpubError::InvalidChapterIndex(index));
        }
        let hit = match cache_get(&mut self.chapter_cache, index) {
            Some(ch) => Some(ch.duplicate()),
            None => None,
        };
        match hit {
            Some(c) => {
                return Ok(c);
            },
            None => {},
        }
        let info_href = self.chapter_info[index].href.clone();
        let info_title = self.chapter_info[index].title.clone();
        proof {
            assert(self.chapter_info.deep_view()[index as int] == self.chapter_info@[
                index as int ].deep_view());
            assert(info_ok(self.doc(), index as int));
        }
        let fetched = fetch_rendered(&mut self.archive, &self.opf_path, &info_href);
        let t = match fetched {
            Ok(t) => t,
            Err(e) => {
                // A descriptor only exists because this very fetch succeeded
                // at load time, and the archive has not changed since.
                proof {
                    assert(false);
                }
                return Err(e);
            },
        };
        let chapter = Chapter { content: t.2, id: info_href, title: info_title };
        let copy = chapter.duplicate();
        let ghost old_map = lru_map(self.chapter_cache);
        let ghost chv = chapter@;
        let _evicted = cache_put(&mut self.chapter_cache, index, chapter);
        proof {
            assert(chv == spec_chapter(self.doc(), index as int));
            assert forall|k: int| #[trigger]
                lru_map(self.chapter_cache).contains_key(k) implies 0 <= k
                < self.doc().infos.len() && lru_map(self.chapter_cache)[k] == spec_chapter(
                self.doc(),
                k,
            ) by {
                if k != index as int {
                    assert(old_map.contains_key(k));
                    assert(lru_map(self.chapter_cache)[k] == old_map[k]);
                }
            }
            assert(self.wf());
        }
        Ok(copy)
    }
}

/// Whether one line matches the lowered query: case-insensitive substring
/// containment, the line lowered the same way as the query.
pub open spec fn spec_line_matches(line: Seq<char>, q_lower: Seq<char>) -> bool {
    seq_contains(lower_of(line), q_lower)
}

/// The match record for line `k` of section `ci`: the line's UTF-8 byte
/// offset within the section's text, and a context window of one line
/// before through one line after the match.
pub open spec fn spec_match_at(ci: int, lines: Seq<Seq<char>>, k: int) -> SearchResultV {
    let start = if k == 0 {
        0
    } else {
        k - 1
    };
    let end = if lines.len() - k > 2 {
        k + 2
    } else {
        lines.len() as int
    };
    SearchResultV {
        chapter_index: ci,
        context: spec_join(lines.subrange(start, end)),
        line_number: k,
        position: spec_byte_start(lines, k),
    }
}

/// The matches among the first `k` lines of section `ci`, in line order.
pub open spec fn spec_matches_upto(
    ci: int,
    lines: Seq<Seq<char>>,
    q_lower: Seq<char>,
    k: int,
) -> Seq<SearchResultV>
    decreases k,
{
    if k <= 0 {
        Seq::empty()
    } else {
        let prev = spec_matches_upto(ci, lines, q_lower, k - 1);
        if spec_line_matches(lines[k - 1], q_lower) {
            prev.push(spec_match_at(ci, lines, k - 1))
        } else {
            prev
        }
    }
}

/// All matches within one section's text.
pub open spec fn spec_section_matches(ci: int, content: Seq<char>, q_lower: Seq<char>) -> Seq<
    SearchResultV,
> {
    spec_matches_upto(ci, spec_lines(content), q_lower, spec_lines(content).len() as int)
}

/// All matches of the first `n` sections, in section order.
pub open spec fn spec_search_upto(doc: DocView, q_lower: Seq<char>, n: int) -> Seq<SearchResultV>
    decreases n,
{
    if n <= 0 {
        Seq::empty()
    } else {
        spec_search_upto(doc, q_lower, n - 1) + spec_section_matches(
            n - 1,
            spec_content(doc, n - 1),
            q_lower,
        )
    }
}

/// What searching the document for `query` yields: the document's matches
/// against the query's lowercase form, in section-then-line order. The
/// query enters only through `lower_of`, so search is case-insensitive.
pub open spec fn spec_search(doc: DocView, query: Seq<char>) -> Seq<SearchResultV> {
    spec_search_upto(doc, lower_of(query), doc.infos.len() as int)
}

/// A clean descriptor's text stays under the hard byte ceiling, and so
/// does its character count.
proof fn lemma_content_bounded(doc: DocView, i: int)
    requires
        info_ok(doc, i),
    ensures
        spec_byte_len(spec_content(doc, i)) <= MAX_CHAPTER_SIZE,
        spec_content(doc, i).len() <= MAX_CHAPTER_SIZE,
{
    match spec_fetch(doc.entries, doc.sizes, doc.opf_path, doc.infos[i].href) {
        FetchOutcome::Fetched { name, text, rendered } => {
            lemma_byte_len_bounds(rendered);
        },
        _ => {
            assert(false);
        },
    }
}

impl EpubReader {
    /// Scans every section in order for the query, case-insensitively:
    /// each matching line yields one match with its line number, the byte
    /// offset of its start within the section's text and a window of
    /// surrounding lines. A query that matches nowhere yields the empty
    /// sequence.
    pub fn search(&mut self, query: &str) -> (r: Vec<SearchResult>)
        requires
            old(self).wf(),
        ensures
            final(self).wf(),
            final(self).doc() == old(self).doc(),
            r.deep_view() == spec_search(old(self).doc(), query@),
    {
        let ghost doc = old(self).doc();
        let ghost ql = lower_of(query@);
        let q_lower_string = lowercase(query);
        let q_lower = chars_vec(q_lower_string.as_str());
        let mut results: Vec<SearchResult> = Vec::new();
        let count = self.chapter_count();
        proof {
            assert(results.deep_view() =~= Seq::<SearchResultV>::empty());
        }
        let mut ci: usize = 0;
        while ci < count
            invariant
                self.wf(),
                self.doc() == doc,
                count == doc.infos.len(),
                ci <= count,
                q_lower@ == ql,
                ql == lower_of(query@),
                results.deep_view() == spec_search_upto(doc, ql, ci as int),
            decreases count - ci,
        {
            let chapter = match self.get_chapter(ci) {
                Ok(c) => c,
                Err(_) => {
                    // Every index below the count realizes its section.
                    proof {
                        assert(false);
                    }
                    return results;
                },
            };
            let content_chars = chars_vec(chapter.content.as_str());
            let lines = split_lines(&content_chars);
            let ghost ldv = lines.deep_view();
            proof {
                assert(chapter@ == spec_chapter(doc, ci as int));
                assert(content_chars@ == spec_content(doc, ci as int));
                assert(lines@.len() == ldv.len());
            }
            let mut pos: usize = 0;
            let mut li: usize = 0;
            while li < lines.len()
                invariant
                    self.wf(),
                    self.doc() == doc,
                    count == doc.infos.len(),
                    ci < count,
                    q_lower@ == ql,
                    ql == lower_of(query@),
                    ldv == lines.deep_view(),
                    lines@.len() == ldv.len(),
                    content_chars@ == spec_content(doc, ci as int),
                    ldv == spec_lines(content_chars@),
                    li <= ldv.len(),
                    pos == spec_byte_start(ldv, li as int),
                    results.deep_view() == spec_search_upto(doc, ql, ci as int)
                        + spec_matches_upto(ci as int, ldv, ql, li as int),
                decreases ldv.len() - li,
            {
                proof {
                    assert(ldv[li as int] == lines@[li as int]@);
                }
                let line_string = string_of_chars(&lines[li]);
                let line_lower = lowercase(line_string.as_str());
                let ll = chars_vec(line_lower.as_str());
                if chars_contain(&ll, &q_lower) {
                    let start = if li == 0 {
                        0
                    } else {
                        li - 1
                    };
                    let end = if lines.len() - li > 2 {
                        li + 2
                    } else {
                        lines.len()
                    };
                    let ctx_chars = join_range(&lines, start, end);
                    let ctx = string_of_chars(&ctx_chars);
                    let sr = SearchResult {
                        chapter_index: ci,
                        context: ctx,
                        line_number: li,
                        position: pos,
                    };
                    let ghost old_rs = results@;
                    let ghost old_dv = results.deep_view();
                    let ghost srv = sr@;
                    results.push(sr);
                    proof {
                        let pushed = results@.last();
                        assert(results@ == old_rs.push(pushed));
                        assert(pushed.deep_view() == srv);
                        lemma_dv_seq_push(old_rs, pushed);
                        assert(results.deep_view() =~= crate::chars::dv_seq(results@));
                        assert(old_dv =~= crate::chars::dv_seq(old_rs));
                        assert(results.deep_view() =~= old_dv.push(srv));
                        assert(srv == spec_match_at(ci as int, ldv, li as int));
                        assert(spec_matches_upto(ci as int, ldv, ql, li as int + 1)
                            == spec_matches_upto(ci as int, ldv, ql, li as int).push(
                            spec_match_at(ci as int, ldv, li as int),
                        ));
                        assert(results.deep_view() =~= spec_search_upto(doc, ql, ci as int)
                            + spec_matches_upto(ci as int, ldv, ql, li as int + 1));
                    }
                } else {
                    proof {
                        assert(!spec_line_matches(ldv[li as int], ql));
                        assert(spec_matches_upto(ci as int, ldv, ql, li as int + 1)
                            == spec_matches_upto(ci as int, ldv, ql, li as int));
                    }
                }
                proof {
                    lemma_content_bounded(doc, ci as int);
                    lemma_byte_start_bound(content_chars@, li as int);
                }
                let w = chars_byte_len(&lines[li]);
                proof {
                    assert(spec_byte_start(ldv, li as int + 1) == pos + spec_byte_len(
                        ldv[li as int],
                    ) + 1);
                }
                pos = pos + w + 1;
                li = li + 1;
            }
            proof {
                assert(results.deep_view() == spec_search_upto(doc, ql, ci as int)
                    + spec_section_matches(ci as int, spec_content(doc, ci as int), ql));
                assert(results.deep_view() == spec_search_upto(doc, ql, ci as int + 1));
            }
            ci = ci + 1;
        }
        results
    }

    /// The number of lines of one section's text, and 0 for an invalid
    /// index rather than an error.
    pub fn get_chapter_line_count(&mut self, chapter_index: usize) -> (n: usize)
        requires
            old(self).wf(),
        ensures
            final(self).wf(),
            final(self).doc() == old(self).doc(),
            n == if chapter_index < old(self).doc().infos.len() {
                spec_lines(spec_content(old(self).doc(), chapter_index as int)).len()
            } else {
                0
            },
    {
        match self.get_chapter(chapter_index) {
            Ok(chapter) => {
                let content_chars = chars_vec(chapter.content.as_str());
                let lines = split_lines(&content_chars);
                proof {
                    assert(lines.deep_view().len() == lines@.len());
                }
                lines.len()
            },
            Err(_) => 0,
        }
    }
}

/// The number of spine references whose rendered, trimmed text reaches the
/// minimum content length.
pub open spec fn spec_count_long(
    entries: Map<Seq<char>, Option<Seq<char>>>,
    sizes: Map<Seq<char>, (u64, u64)>,
    opf_path: Seq<char>,
    spine: Seq<Seq<char>>,
) -> int
    decreases spine.len(),
{
    if spine.len() == 0 {
        0
    } else {
        spec_count_long(entries, sizes, opf_path, spine.drop_last()) + (
        match spec_fetch(entries, sizes, opf_path, spine.last()) {
            FetchOutcome::Fetched { rendered, .. } => {
                if spec_trim(rendered).len() >= MIN_CONTENT_LENGTH {
                    1int
                } else {
                    0int
                }
            },
            _ => 0int,
        })
    }
}

/// Law: for a document whose spine references all fetch cleanly, the
/// section count equals the number of spine references whose linearized,
/// trimmed text reaches the minimum content length.
pub proof fn lemma_chapter_count(
    entries: Map<Seq<char>, Option<Seq<char>>>,
    sizes: Map<Seq<char>, (u64, u64)>,
    opf_path: Seq<char>,
    spine: Seq<Seq<char>>,
)
    requires
        forall|i: int|
            0 <= i < spine.len() ==> (#[trigger] spec_fetch(entries, sizes, opf_path, spine[i]))
                is Fetched,
    ensures
        spec_infos(entries, sizes, opf_path, spine).len() == spec_count_long(
            entries,
            sizes,
            opf_path,
            spine,
        ),
    decreases spine.len(),
{
    if spine.len() > 0 {
        assert(forall|i: int|
            0 <= i < spine.drop_last().len() ==> spine.drop_last()[i] == spine[i]);
        lemma_chapter_count(entries, sizes, opf_path, spine.drop_last());
        assert(spec_fetch(entries, sizes, opf_path, spine[spine.len() - 1]) is Fetched);
        assert(spine.last() == spine[spine.len() - 1]);
    }
}

/// Law: realizing the same section of an unchanged document twice yields
/// identical text and heading, whether it came from the cache or was
/// re-extracted after an eviction.
pub proof fn lemma_get_chapter_idempotent(doc: DocView, i: int, c1: ChapterV, c2: ChapterV)
    requires
        c1 == spec_chapter(doc, i),
        c2 == spec_chapter(doc, i),
    ensures
        c1.content == c2.content,
        c1.title == c2.title,
        c1.id == c2.id,
{
}

/// Law: search sees the query only through its lowercase form, so two
/// queries with the same lowercase form yield exactly the same matches on
/// every document.
pub proof fn lemma_search_case_insensitive(doc: DocView, q1: Seq<char>, q2: Seq<char>)
    requires
        lower_of(q1) == lower_of(q2),
    ensures
        spec_search(doc, q1) == spec_search(doc, q2),
{
}

proof fn lemma_matches_upto_empty(ci: int, lines: Seq<Seq<char>>, ql: Seq<char>, k: int)
    requires
        forall|j: int| 0 <= j < k ==> !spec_line_matches(#[trigger] lines[j], ql),
    ensures
        spec_matches_upto(ci, lines, ql, k) == Seq::<SearchResultV>::empty(),
    decreases k,
{
    if k > 0 {
        lemma_matches_upto_empty(ci, lines, ql, k - 1);
    }
}

proof fn lemma_search_upto_empty(doc: DocView, ql: Seq<char>, n: int)
    requires
        n <= doc.infos.len(),
        forall|i: int, j: int|
            0 <= i < doc.infos.len() && 0 <= j < spec_lines(spec_content(doc, i)).len()
                ==> !spec_line_matches(#[trigger] spec_lines(spec_content(doc, i))[j], ql),
    ensures
        spec_search_upto(doc, ql, n) == Seq::<SearchResultV>::empty(),
    decreases n,
{
    if n > 0 {
        lemma_search_upto_empty(doc, ql, n - 1);
        let lines = spec_lines(spec_content(doc, n - 1));
        assert(forall|j: int| 0 <= j < lines.len() ==> !spec_line_matches(#[trigger] lines[j], ql));
        lemma_matches_upto_empty(n - 1, lines, ql, lines.len() as int);
        assert(spec_search_upto(doc, ql, n) =~= Seq::<SearchResultV>::empty());
    }
}

/// Law: a query whose lowercase form no line of any section contains
/// yields the empty sequence of matches — and never an error, since search
/// returns a plain vector of matches.
pub proof fn lemma_search_no_match_empty(doc: DocView, query: Seq<char>)
    requires
        forall|i: int, j: int|
            0 <= i < doc.infos.len() && 0 <= j < spec_lines(spec_content(doc, i)).len()
                ==> !spec_line_matches(
                #[trigger] spec_lines(spec_content(doc, i))[j],
                lower_of(query),
            ),
    ensures
        spec_search(doc, query).len() == 0,
{
    lemma_search_upto_empty(doc, lower_of(query), doc.infos.len() as int);
}

proof fn lemma_matches_upto_member(ci: int, lines: Seq<Seq<char>>, ql: Seq<char>, k: int, j: int)
    requires
        0 <= j < spec_matches_upto(ci, lines, ql, k).len(),
    ensures
        ({
            let m = spec_matches_upto(ci, lines, ql, k)[j];
            &&& m.chapter_index == ci
            &&& 0 <= m.line_number < k
            &&& m == spec_match_at(ci, lines, m.line_number)
        }),
    decreases k,
{
    if k > 0 {
        let prev = spec_matches_upto(ci, lines, ql, k - 1);
        if spec_line_matches(lines[k - 1], ql) {
            if j < prev.len() {
                lemma_matches_upto_member(ci, lines, ql, k - 1, j);
                assert(spec_matches_upto(ci, lines, ql, k)[j] == prev[j]);
            } else {
                assert(spec_matches_upto(ci, lines, ql, k)[j] == spec_match_at(ci, lines, k - 1));
            }
        } else {
            lemma_matches_upto_member(ci, lines, ql, k - 1, j);
        }
    }
}

proof fn lemma_search_upto_member(doc: DocView, ql: Seq<char>, n: int, j: int)
    requires
        n <= doc.infos.len(),
        0 <= j < spec_search_upto(doc, ql, n).len(),
    ensures
        ({
            let m = spec_search_upto(doc, ql, n)[j];
            &&& 0 <= m.chapter_index < n
            &&& 0 <= m.line_number < spec_lines(spec_content(doc, m.chapter_index)).len()
            &&& m.position == spec_byte_start(
                spec_lines(spec_content(doc, m.chapter_index)),
                m.line_number,
            )
        }),
    decreases n,
{
    if n > 0 {
        let prev = spec_search_upto(doc, ql, n - 1);
        let lines = spec_lines(spec_content(doc, n - 1));
        let sect = spec_section_matches(n - 1, spec_content(doc, n - 1), ql);
        if j < prev.len() {
            lemma_search_upto_member(doc, ql, n - 1, j);
            assert(spec_search_upto(doc, ql, n)[j] == prev[j]);
        } else {
            let jj = j - prev.len();
            assert(spec_search_upto(doc, ql, n)[j] == sect[jj]);
            lemma_matches_upto_member(n - 1, lines, ql, lines.len() as int, jj);
        }
    }
}

proof fn lemma_matches_upto_ordered(
    ci: int,
    lines: Seq<Seq<char>>,
    ql: Seq<char>,
    k: int,
    j1: int,
    j2: int,
)
    requires
        0 <= j1 < j2 < spec_matches_upto(ci, lines, ql, k).len(),
    ensures
        spec_matches_upto(ci, lines, ql, k)[j1].line_number < spec_matches_upto(
            ci,
            lines,
            ql,
            k,
        )[j2].line_number,
    decreases k,
{
    if k > 0 {
        let prev = spec_matches_upto(ci, lines, ql, k - 1);
        if spec_line_matches(lines[k - 1], ql) && j2 == prev.len() {
            lemma_matches_upto_member(ci, lines, ql, k - 1, j1);
            assert(spec_matches_upto(ci, lines, ql, k)[j1] == prev[j1]);
            assert(spec_matches_upto(ci, lines, ql, k)[j2] == spec_match_at(ci, lines, k - 1));
        } else {
            lemma_matches_upto_ordered(ci, lines, ql, k - 1, j1, j2);
        }
    }
}

proof fn lemma_search_upto_ordered(doc: DocView, ql: Seq<char>, n: int, j1: int, j2: int)
    requires
        n <= doc.infos.len(),
        0 <= j1 < j2 < spec_search_upto(doc, ql, n).len(),
    ensures
        ({
            let m1 = spec_search_upto(doc, ql, n)[j1];
            let m2 = spec_search_upto(doc, ql, n)[j2];
            m1.chapter_index < m2.chapter_index || (m1.chapter_index == m2.chapter_index
                && m1.line_number < m2.line_number)
        }),
    decreases n,
{
    if n > 0 {
        let prev = spec_search_upto(doc, ql, n - 1);
        let lines = spec_lines(spec_content(doc, n - 1));
        let sect = spec_section_matches(n - 1, spec_content(doc, n - 1), ql);
        if j2 < prev.len() {
            lemma_search_upto_ordered(doc, ql, n - 1, j1, j2);
            assert(spec_search_upto(doc, ql, n)[j1] == prev[j1]);
            assert(spec_search_upto(doc, ql, n)[j2] == prev[j2]);
        } else if j1 < prev.len() {
            lemma_search_upto_member(doc, ql, n - 1, j1);
            lemma_matches_upto_member(n - 1, lines, ql, lines.len() as int, j2 - prev.len());
            assert(spec_search_upto(doc, ql, n)[j1] == prev[j1]);
            assert(spec_search_upto(doc, ql, n)[j2] == sect[j2 - prev.len()]);
        } else {
            lemma_matches_upto_ordered(
                n - 1,
                lines,
                ql,
                lines.len() as int,
                j1 - prev.len(),
                j2 - prev.len(),
            );
            lemma_matches_upto_member(n - 1, lines, ql, lines.len() as int, j1 - prev.len());
            lemma_matches_upto_member(n - 1, lines, ql, lines.len() as int, j2 - prev.len());
            assert(spec_search_upto(doc, ql, n)[j1] == sect[j1 - prev.len()]);
            assert(spec_search_upto(doc, ql, n)[j2] == sect[j2 - prev.len()]);
        }
    }
}

/// Law: matches come back in reading order — by section index first, then
/// by line number within one section.
pub proof fn lemma_search_ordered(doc: DocView, query: Seq<char>, j1: int, j2: int)
    requires
        0 <= j1 < j2 < spec_search(doc, query).len(),
    ensures
        ({
            let m1 = spec_search(doc, query)[j1];
            let m2 = spec_search(doc, query)[j2];
            m1.chapter_index < m2.chapter_index || (m1.chapter_index == m2.chapter_index
                && m1.line_number < m2.line_number)
        }),
{
    lemma_search_upto_ordered(doc, lower_of(query), doc.infos.len() as int, j1, j2);
}

/// Law: every match's reported offset is the UTF-8 byte offset of the
/// reported line's start within its section's text: it equals the byte
/// length of everything before the line, and the text's encoding holds the
/// line's encoding verbatim there; at the character level, the line itself
/// stands at its character offset.
pub proof fn lemma_match_round_trip(doc: DocView, query: Seq<char>, j: int)
    requires
        0 <= j < spec_search(doc, query).len(),
    ensures
        ({
            let m = spec_search(doc, query)[j];
            let content = spec_content(doc, m.chapter_index);
            let lines = spec_lines(content);
            let line = lines[m.line_number];
            let off = spec_line_start(lines, m.line_number);
            &&& 0 <= m.chapter_index < doc.infos.len()
            &&& 0 <= m.line_number < lines.len()
            &&& m.position == spec_byte_start(lines, m.line_number)
            &&& m.position == spec_byte_len(content.subrange(0, off))
            &&& m.position + spec_byte_len(line) <= spec_byte_len(content)
            &&& vstd::utf8::encode_utf8(content).subrange(
                m.position,
                m.position + spec_byte_len(line),
            ) == vstd::utf8::encode_utf8(line)
            &&& 0 <= off && off + line.len() <= content.len()
            &&& content.subrange(off, off + line.len() as int) == line
        }),
{
    lemma_search_upto_member(doc, lower_of(query), doc.infos.len() as int, j);
    let m = spec_search(doc, query)[j];
    let content = spec_content(doc, m.chapter_index);
    lemma_line_verbatim(content, m.line_number);
    lemma_byte_start_is_prefix(content, m.line_number);
    lemma_byte_round_trip(content, m.line_number);
}

} // verus!
