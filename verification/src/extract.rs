//! The section extractor: resolves one spine reference to an archive entry
//! through a fallback chain, guards against hostile payloads, renders the
//! markup to text and derives a heading. Everything here is verified over
//! the archive's named contents and the renderer's named result.

use vstd::prelude::*;
use crate::archive::{entry_sizes, read_entry, zip_contents, zip_sizes, Archive, EntryFault};
use crate::chars::{
    alpha_of, byte_len_capped, char_is_alpha, chars_vec, lemma_byte_len_is_encoding,
    lemma_find_break_exact, push_decimal, spec_byte_len, spec_decimal, spec_find_break, spec_trim,
    string_of_chars, trim_chars,
};
use crate::constants::{HTML_TEXT_WIDTH, MAX_CHAPTER_SIZE, MAX_DECOMPRESSED_RATIO,
    MIN_CONTENT_LENGTH};
use crate::error::EpubError;
use crate::markup::{capture_first, capture_of, render_text, rendered_of};

verus! {

/// The position of the last path separator in `path`, or `-1` where there
/// is none.
pub open spec fn spec_last_slash(path: Seq<char>) -> int
    decreases path.len(),
{
    if path.len() == 0 {
        -1
    } else if path.last() == '/' {
        path.len() - 1
    } else {
        spec_last_slash(path.drop_last())
    }
}

/// `href` resolved against the directory of `opf_path`: the manifest's own
/// directory prefix is kept, an absolute reference stands as it is, and a
/// manifest at the archive root adds nothing.
pub open spec fn spec_join_path(opf_path: Seq<char>, href: Seq<char>) -> Seq<char> {
    if href.len() > 0 && href[0] == '/' {
        href
    } else {
        let k = spec_last_slash(opf_path);
        if k < 0 {
            href
        } else {
            opf_path.subrange(0, k + 1) + href
        }
    }
}

proof fn lemma_last_slash_step(s: Seq<char>, j: int)
    requires
        0 < j <= s.len(),
        s[j - 1] != '/',
    ensures
        spec_last_slash(s.subrange(0, j)) == spec_last_slash(s.subrange(0, j - 1)),
{
    let sub = s.subrange(0, j);
    assert(sub.last() == s[j - 1]);
    assert(sub.drop_last() =~= s.subrange(0, j - 1));
}

/// Joins a reference onto the manifest's directory, verified against
/// `spec_join_path`.
fn join_path(opf_path: &Vec<char>, href: &Vec<char>) -> (r: Vec<char>)
    ensures
        r@ == spec_join_path(opf_path@, href@),
{
    if href.len() > 0 && href[0] == '/' {
        let mut r: Vec<char> = Vec::new();
        let mut k: usize = 0;
        while k < href.len()
            invariant
                k <= href@.len(),
                r@ == href@.subrange(0, k as int),
            decreases href@.len() - k,
        {
            r.push(href[k]);
            k = k + 1;
            proof {
                assert(r@ =~= href@.subrange(0, k as int));
            }
        }
        proof {
            assert(r@ =~= href@);
        }
        return r;
    }
    let n = opf_path.len();
    proof {
        assert(opf_path@.subrange(0, n as int) =~= opf_path@);
    }
    let mut j: usize = n;
    while j > 0 && opf_path[j - 1] != '/'
        invariant
            n == opf_path@.len(),
            j <= n,
            spec_last_slash(opf_path@) == spec_last_slash(opf_path@.subrange(0, j as int)),
        decreases j,
    {
        proof {
            lemma_last_slash_step(opf_path@, j as int);
        }
        j = j - 1;
    }
    proof {
        if j > 0 {
            let sub = opf_path@.subrange(0, j as int);
            assert(sub.last() == opf_path@[j - 1]);
            assert(spec_last_slash(opf_path@) == j - 1);
        } else {
            assert(spec_last_slash(opf_path@) == -1);
        }
    }
    let mut r: Vec<char> = Vec::new();
    let mut k: usize = 0;
    while k < j
        invariant
            j <= opf_path@.len(),
            k <= j,
            r@ == opf_path@.subrange(0, k as int),
        decreases j - k,
    {
        r.push(opf_path[k]);
        k = k + 1;
        proof {
            assert(r@ =~= opf_path@.subrange(0, k as int));
        }
    }
    let ghost dir = r@;
    let mut k2: usize = 0;
    while k2 < href.len()
        invariant
            k2 <= href@.len(),
            r@ == dir + href@.subrange(0, k2 as int),
        decreases href@.len() - k2,
    {
        r.push(href[k2]);
        k2 = k2 + 1;
        proof {
            assert(r@ =~= dir + href@.subrange(0, k2 as int));
        }
    }
    proof {
        assert(href@.subrange(0, href@.len() as int) =~= href@);
        if j > 0 {
            assert(r@ == opf_path@.subrange(0, j as int) + href@);
        } else {
            assert(dir =~= Seq::<char>::empty());
            assert(r@ =~= href@);
        }
    }
    r
}

/// The candidate entry names for one reference, in the order they are
/// tried: resolved against the manifest's directory, verbatim, then under
/// each conventional content directory.
pub open spec fn spec_candidates(opf_path: Seq<char>, href: Seq<char>) -> Seq<Seq<char>> {
    seq![
        spec_join_path(opf_path, href),
        href,
        "OEBPS/"@ + href,
        "OPS/"@ + href,
        "Text/"@ + href,
        "EPUB/"@ + href,
        "content/"@ + href,
    ]
}

/// The first candidate from `i` on that names an existing entry.
pub open spec fn spec_resolve_from(
    entries: Map<Seq<char>, Option<Seq<char>>>,
    cands: Seq<Seq<char>>,
    i: int,
) -> Option<Seq<char>>
    decreases cands.len() - i,
{
    if i < 0 || i >= cands.len() {
        None
    } else if entries.contains_key(cands[i]) {
        Some(cands[i])
    } else {
        spec_resolve_from(entries, cands, i + 1)
    }
}

proof fn lemma_resolve_from_contains(
    entries: Map<Seq<char>, Option<Seq<char>>>,
    cands: Seq<Seq<char>>,
    i: int,
)
    ensures
        match spec_resolve_from(entries, cands, i) {
            Some(n) => entries.contains_key(n),
            None => true,
        },
    decreases cands.len() - i,
{
    if 0 <= i < cands.len() && !entries.contains_key(cands[i]) {
        lemma_resolve_from_contains(entries, cands, i + 1);
    }
}

/// A resolved name always names an existing entry.
proof fn lemma_resolve_contains(
    entries: Map<Seq<char>, Option<Seq<char>>>,
    opf_path: Seq<char>,
    href: Seq<char>,
)
    ensures
        match spec_resolve(entries, opf_path, href) {
            Some(n) => entries.contains_key(n),
            None => true,
        },
{
    lemma_resolve_from_contains(entries, spec_candidates(opf_path, href), 0);
}

/// The entry name one reference resolves to, if any.
pub open spec fn spec_resolve(
    entries: Map<Seq<char>, Option<Seq<char>>>,
    opf_path: Seq<char>,
    href: Seq<char>,
) -> Option<Seq<char>> {
    spec_resolve_from(entries, spec_candidates(opf_path, href), 0)
}

fn prefixed(prefix: &str, href: &str) -> (r: String)
    ensures
        r@ == prefix@ + href@,
{
    let mut s = String::from_str(prefix);
    s.append(href);
    s
}

/// Resolves one reference through the fallback chain and reads the entry it
/// names. `ChapterNotFound` comes exactly where no candidate exists in the
/// archive, `Io` exactly where the resolved entry's payload cannot be read
/// as text.
pub fn resolve_and_read(a: &mut Archive, opf_path: &String, href: &String) -> (r: Result<
    (String, String),
    EpubError,
>)
    ensures
        zip_contents(*final(a)) == zip_contents(*old(a)),
        zip_sizes(*final(a)) == zip_sizes(*old(a)),
        ({
            let entries = zip_contents(*old(a));
            match spec_resolve(entries, opf_path@, href@) {
                None => r matches Err(e) && (e matches EpubError::ChapterNotFound(h) && h@
                    == href@),
                Some(name) => match entries[name] {
                    Some(text) => r matches Ok(p) && p.0@ == name && p.1@ == text,
                    None => r matches Err(e) && (e matches EpubError::Io(nm) && nm@ == name),
                },
            }
        }),
{
    let ghost entries = zip_contents(*a);
    let opf_chars = chars_vec(opf_path.as_str());
    let href_chars = chars_vec(href.as_str());
    let joined = join_path(&opf_chars, &href_chars);
    let mut cands: Vec<String> = Vec::new();
    cands.push(string_of_chars(&joined));
    cands.push(href.clone());
    cands.push(prefixed("OEBPS/", href.as_str()));
    cands.push(prefixed("OPS/", href.as_str()));
    cands.push(prefixed("Text/", href.as_str()));
    cands.push(prefixed("EPUB/", href.as_str()));
    cands.push(prefixed("content/", href.as_str()));
    let ghost cdv = cands.deep_view();
    proof {
        assert(cdv.len() == 7);
        assert(cdv =~= spec_candidates(opf_path@, href@));
    }
    let mut i: usize = 0;
    while i < 7
        invariant
            cands@.len() == 7,
            cdv == cands.deep_view(),
            cdv == spec_candidates(opf_path@, href@),
            i <= 7,
            entries == zip_contents(*a),
            zip_sizes(*a) == zip_sizes(*old(a)),
            zip_contents(*a) == zip_contents(*old(a)),
            spec_resolve_from(entries, cdv, 0) == spec_resolve_from(entries, cdv, i as int),
        decreases 7 - i,
    {
        proof {
            assert(cdv[i as int] == cands@[i as int]@);
        }
        match read_entry(a, cands[i].as_str()) {
            Ok(text) => {
                let name = cands[i].clone();
                return Ok((name, text));
            },
            Err(EntryFault::Unreadable) => {
                let name = cands[i].clone();
                return Err(EpubError::Io(name));
            },
            Err(EntryFault::Missing) => {},
        }
        i = i + 1;
    }
    Err(EpubError::ChapterNotFound(href.clone()))
}

/// The title-sniffing patterns, in priority order.
pub open spec fn spec_pattern(idx: int) -> Seq<char> {
    if idx == 0 {
        "<title[^>]*>([^<]+)</title>"@
    } else if idx == 1 {
        "<h1[^>]*>([^<]+)</h1>"@
    } else {
        "<h2[^>]*>([^<]+)</h2>"@
    }
}

/// What one pattern attempt yields: the captured text, trimmed, accepted
/// only when non-empty and under 100 characters, then re-rendered to strip
/// nested markup and trimmed again.
pub open spec fn spec_try_pattern(html: Seq<char>, pattern: Seq<char>) -> Option<Seq<char>> {
    match capture_of(pattern, html) {
        None => None,
        Some(cap) => {
            let t = spec_trim(cap);
            if t.len() > 0 && t.len() < 100 {
                match rendered_of(t, 200) {
                    Some(rt) => Some(spec_trim(rt)),
                    None => None,
                }
            } else {
                None
            }
        },
    }
}

/// The first pattern from `idx` on that yields a heading.
pub open spec fn spec_title_from_html(html: Seq<char>, idx: int) -> Option<Seq<char>>
    decreases 3 - idx,
{
    if idx < 0 || idx >= 3 {
        None
    } else {
        match spec_try_pattern(html, spec_pattern(idx)) {
            Some(t) => Some(t),
            None => spec_title_from_html(html, idx + 1),
        }
    }
}

/// Whether any character of `s` is alphabetic.
pub open spec fn spec_any_alpha(s: Seq<char>) -> bool {
    exists|j: int| 0 <= j < s.len() && #[trigger] alpha_of(s[j])
}

/// The first line of `text`, before any line break.
pub open spec fn spec_first_line(text: Seq<char>) -> Seq<char> {
    text.subrange(0, spec_find_break(text, 0))
}

/// The trimmed first line of the linearized text, accepted as a heading
/// when it is over 3 and under 100 characters, does not end in a period,
/// and holds at least one alphabetic character.
pub open spec fn spec_title_from_text(text: Seq<char>) -> Option<Seq<char>> {
    let t = spec_trim(spec_first_line(text));
    if t.len() > 3 && t.len() < 100 && t.last() != '.' && spec_any_alpha(t) {
        Some(t)
    } else {
        None
    }
}

/// The heading of one section: sniffed from the markup, else taken from the
/// first line of the text, else the literal fallback with the section's
/// 1-based position among accepted sections.
pub open spec fn spec_title(html: Seq<char>, rendered: Seq<char>, n: int) -> Seq<char> {
    match spec_title_from_html(html, 0) {
        Some(t) => t,
        None => match spec_title_from_text(rendered) {
            Some(t) => t,
            None => "Section "@ + spec_decimal(n),
        },
    }
}

/// One pattern attempt, verified against `spec_try_pattern`.
fn try_title_pattern(html: &str, pattern: &str) -> (r: Option<String>)
    ensures
        match r {
            Some(s) => spec_try_pattern(html@, pattern@) == Some(s@),
            None => spec_try_pattern(html@, pattern@) is None,
        },
{
    match capture_first(pattern, html) {
        None => None,
        Some(cap) => {
            let cv = chars_vec(cap.as_str());
            let t = trim_chars(&cv);
            if t.len() > 0 && t.len() < 100 {
                let ts = string_of_chars(&t);
                match render_text(ts.as_str(), 200) {
                    Some(rt) => {
                        let rc = chars_vec(rt.as_str());
                        let tt = trim_chars(&rc);
                        Some(string_of_chars(&tt))
                    },
                    None => None,
                }
            } else {
                None
            }
        },
    }
}

/// The heading sniffed from the markup, verified against
/// `spec_title_from_html`.
fn title_from_html(html: &str) -> (r: Option<String>)
    ensures
        match r {
            Some(s) => spec_title_from_html(html@, 0) == Some(s@),
            None => spec_title_from_html(html@, 0) is None,
        },
{
    proof {
        assert(spec_pattern(0) == "<title[^>]*>([^<]+)</title>"@);
        assert(spec_pattern(1) == "<h1[^>]*>([^<]+)</h1>"@);
        assert(spec_pattern(2) == "<h2[^>]*>([^<]+)</h2>"@);
    }
    match try_title_pattern(html, "<title[^>]*>([^<]+)</title>") {
        Some(t) => {
            return Some(t);
        },
        None => {},
    }
    proof {
        assert(spec_title_from_html(html@, 0) == spec_title_from_html(html@, 1));
    }
    match try_title_pattern(html, "<h1[^>]*>([^<]+)</h1>") {
        Some(t) => {
            return Some(t);
        },
        None => {},
    }
    proof {
        assert(spec_title_from_html(html@, 1) == spec_title_from_html(html@, 2));
        assert(spec_title_from_html(html@, 3) is None);
    }
    match try_title_pattern(html, "<h2[^>]*>([^<]+)</h2>") {
        Some(t) => Some(t),
        None => None,
    }
}

/// The heading taken from the text's first line, verified against
/// `spec_title_from_text`.
fn title_from_text(rendered: &Vec<char>) -> (r: Option<String>)
    ensures
        match r {
            Some(s) => spec_title_from_text(rendered@) == Some(s@),
            None => spec_title_from_text(rendered@) is None,
        },
{
    let n = rendered.len();
    let mut fb: usize = 0;
    while fb < n && rendered[fb] != '\n'
        invariant
            n == rendered@.len(),
            fb <= n,
            forall|m: int| 0 <= m < fb ==> rendered@[m] != '\n',
        decreases n - fb,
    {
        fb = fb + 1;
    }
    proof {
        lemma_find_break_exact(rendered@, 0, fb as int);
    }
    let mut first: Vec<char> = Vec::new();
    let mut k: usize = 0;
    while k < fb
        invariant
            fb <= rendered@.len(),
            k <= fb,
            first@ == rendered@.subrange(0, k as int),
        decreases fb - k,
    {
        first.push(rendered[k]);
        k = k + 1;
        proof {
            assert(first@ =~= rendered@.subrange(0, k as int));
        }
    }
    proof {
        assert(first@ == spec_first_line(rendered@));
    }
    let t = trim_chars(&first);
    if t.len() > 3 && t.len() < 100 {
        if t[t.len() - 1] != '.' {
            let mut j: usize = 0;
            while j < t.len()
                invariant
                    t@ == spec_trim(spec_first_line(rendered@)),
                    t@.len() > 3,
                    t@.len() < 100,
                    t@[t@.len() - 1] != '.',
                    j <= t@.len(),
                    forall|m: int| 0 <= m < j ==> !(#[trigger] alpha_of(t@[m])),
                decreases t@.len() - j,
            {
                if char_is_alpha(t[j]) {
                    proof {
                        let spec_t = spec_trim(spec_first_line(rendered@));
                        assert(t@ == spec_t);
                        assert(spec_t.len() > 3 && spec_t.len() < 100);
                        assert(spec_t.last() == t@[t@.len() - 1]);
                        assert(alpha_of(t@[j as int]));
                        assert(spec_any_alpha(spec_t));
                        assert(spec_title_from_text(rendered@) == Some(spec_t));
                    }
                    return Some(string_of_chars(&t));
                }
                j = j + 1;
            }
            proof {
                assert(!spec_any_alpha(t@));
            }
            return None;
        }
        return None;
    }
    None
}

/// The literal fallback heading for the `n`-th accepted section.
fn fallback_title(n: usize) -> (r: String)
    ensures
        r@ == "Section "@ + spec_decimal(n as int),
{
    let mut v = chars_vec("Section ");
    push_decimal(n, &mut v);
    string_of_chars(&v)
}

/// Derives one section's heading, verified against `spec_title`.
pub fn derive_title(html: &String, rendered: &Vec<char>, n: usize) -> (r: String)
    ensures
        r@ == spec_title(html@, rendered@, n as int),
{
    match title_from_html(html.as_str()) {
        Some(t) => t,
        None => match title_from_text(rendered) {
            Some(t) => t,
            None => fallback_title(n),
        },
    }
}

/// How fetching one reference's rendered text can end.
pub enum FetchOutcome {
    /// No candidate names an existing entry.
    NotFound,
    /// The resolved entry's payload cannot be read as text.
    Unreadable(Seq<char>),
    /// The resolved entry expands beyond the allowed ratio.
    Bomb { compressed: u64, decompressed: u64, ratio: u64 },
    /// The renderer failed on the entry's markup.
    RenderFail(Seq<char>),
    /// The rendered text is over the hard ceiling; `size` is its UTF-8
    /// byte length.
    TooBig { size: int },
    /// The entry's name, its markup text and its rendered text.
    Fetched { name: Seq<char>, text: Seq<char>, rendered: Seq<char> },
}

/// Resolving, reading, guarding and rendering one reference, as a function
/// of the archive's named contents and sizes.
pub open spec fn spec_fetch(
    entries: Map<Seq<char>, Option<Seq<char>>>,
    sizes: Map<Seq<char>, (u64, u64)>,
    opf_path: Seq<char>,
    href: Seq<char>,
) -> FetchOutcome {
    match spec_resolve(entries, opf_path, href) {
        None => FetchOutcome::NotFound,
        Some(name) => match entries[name] {
            None => FetchOutcome::Unreadable(name),
            Some(text) => {
                let cs = sizes[name].0;
                let ds = sizes[name].1;
                if cs > 0 && ds / cs > MAX_DECOMPRESSED_RATIO as u64 {
                    FetchOutcome::Bomb { compressed: cs, decompressed: ds, ratio: (ds / cs) as u64 }
                } else {
                    match rendered_of(text, HTML_TEXT_WIDTH) {
                        None => FetchOutcome::RenderFail(name),
                        Some(rend) => {
                            if spec_byte_len(rend) > MAX_CHAPTER_SIZE {
                                FetchOutcome::TooBig { size: spec_byte_len(rend) }
                            } else {
                                FetchOutcome::Fetched { name, text, rendered: rend }
                            }
                        },
                    }
                }
            },
        },
    }
}

/// Resolves one reference and realizes its text: read, decompression-ratio
/// guard, render, size guard. Each failure maps to exactly one error, per
/// `spec_fetch` over the archive's named contents.
pub fn fetch_rendered(a: &mut Archive, opf_path: &String, href: &String) -> (r: Result<
    (String, String, String),
    EpubError,
>)
    ensures
        zip_contents(*final(a)) == zip_contents(*old(a)),
        zip_sizes(*final(a)) == zip_sizes(*old(a)),
        ({
            let o = spec_fetch(
                zip_contents(*old(a)),
                zip_sizes(*old(a)),
                opf_path@,
                href@,
            );
            match r {
                Ok(t) => o matches FetchOutcome::Fetched { name, text, rendered } && t.0@ == name
                    && t.1@ == text && t.2@ == rendered,
                Err(e) => match o {
                    FetchOutcome::NotFound => e matches EpubError::ChapterNotFound(h) && h@
                        == href@,
                    FetchOutcome::Unreadable(name) => e matches EpubError::Io(nm) && nm@ == name,
                    FetchOutcome::Bomb { compressed, decompressed, ratio } => {
                        &&& e matches EpubError::DecompressionBomb {
                            compressed: c2,
                            decompressed: d2,
                            ratio: r2,
                        }
                        &&& c2 == compressed
                        &&& d2 == decompressed
                        &&& r2 == ratio
                    },
                    FetchOutcome::RenderFail(name) => e matches EpubError::Xml(nm) && nm@ == name,
                    FetchOutcome::TooBig { size } => {
                        &&& e matches EpubError::ChapterTooLarge { size: s2, max: m2 }
                        &&& m2 == MAX_CHAPTER_SIZE
                        &&& size <= usize::MAX ==> s2 == size
                    },
                    FetchOutcome::Fetched { .. } => false,
                },
            }
        }),
{
    let (name, text) = match resolve_and_read(a, opf_path, href) {
        Ok(p) => p,
        Err(e) => {
            return Err(e);
        },
    };
    proof {
        lemma_resolve_contains(zip_contents(*old(a)), opf_path@, href@);
    }
    match entry_sizes(a, name.as_str()) {
        Some(cd) => {
            let c = cd.0;
            let d = cd.1;
            if c > 0 {
                let ratio = d / c;
                if ratio > MAX_DECOMPRESSED_RATIO as u64 {
                    return Err(
                        EpubError::DecompressionBomb { compressed: c, decompressed: d, ratio },
                    );
                }
            }
        },
        None => {
            // The entry was just read as text, so its sizes are obtainable.
            proof {
                assert(false);
            }
        },
    }
    match render_text(text.as_str(), HTML_TEXT_WIDTH) {
        None => Err(EpubError::Xml(name)),
        Some(rendered) => {
            let rc = chars_vec(rendered.as_str());
            match byte_len_capped(&rc, MAX_CHAPTER_SIZE) {
                None => {
                    let size = rendered.as_str().len();
                    proof {
                        lemma_byte_len_is_encoding(rendered@);
                    }
                    Err(EpubError::ChapterTooLarge { size, max: MAX_CHAPTER_SIZE })
                },
                Some(_) => Ok((name, text, rendered)),
            }
        },
    }
}

/// The permanent record of one accepted section: its reference as the
/// manifest spelled it, and its derived heading.
#[derive(Debug, Clone)]
pub struct ChapterInfo {
    pub href: String,
    pub title: String,
}

/// The ghost shape of one descriptor.
pub struct InfoV {
    pub href: Seq<char>,
    pub title: Seq<char>,
}

impl View for ChapterInfo {
    type V = InfoV;

    open spec fn view(&self) -> InfoV {
        InfoV { href: self.href@, title: self.title@ }
    }
}

impl DeepView for ChapterInfo {
    type V = InfoV;

    open spec fn deep_view(&self) -> InfoV {
        self@
    }
}

/// Whether one spine reference earns a descriptor at load time, and then
/// its heading and rendered text; `n` is its 1-based position among the
/// accepted sections. A reference whose trimmed text is too short, or
/// whose fetch fails in any way, earns none.
pub open spec fn spec_accepted(
    entries: Map<Seq<char>, Option<Seq<char>>>,
    sizes: Map<Seq<char>, (u64, u64)>,
    opf_path: Seq<char>,
    href: Seq<char>,
    n: int,
) -> Option<(Seq<char>, Seq<char>)> {
    match spec_fetch(entries, sizes, opf_path, href) {
        FetchOutcome::Fetched { name, text, rendered } => {
            if spec_trim(rendered).len() < MIN_CONTENT_LENGTH {
                None
            } else {
                Some((spec_title(text, rendered, n), rendered))
            }
        },
        _ => None,
    }
}

/// One load-time attempt at a descriptor: any failure skips the reference
/// silently, exactly as `spec_accepted` decides.
pub fn try_descriptor(a: &mut Archive, opf_path: &String, href: &String, n: usize) -> (r: Option<
    ChapterInfo,
>)
    ensures
        zip_contents(*final(a)) == zip_contents(*old(a)),
        zip_sizes(*final(a)) == zip_sizes(*old(a)),
        ({
            let acc = spec_accepted(
                zip_contents(*old(a)),
                zip_sizes(*old(a)),
                opf_path@,
                href@,
                n as int,
            );
            match r {
                Some(ci) => acc matches Some(tr) && ci.href@ == href@ && ci.title@ == tr.0,
                None => acc is None,
            }
        }),
{
    match fetch_rendered(a, opf_path, href) {
        Err(_) => None,
        Ok(t) => {
            let name = t.0;
            let text = t.1;
            let rendered = t.2;
            let rc = chars_vec(rendered.as_str());
            let trimmed = trim_chars(&rc);
            if trimmed.len() < MIN_CONTENT_LENGTH {
                None
            } else {
                let title = derive_title(&text, &rc, n);
                Some(ChapterInfo { href: href.clone(), title })
            }
        },
    }
}

} // verus!
