//! Markup-to-text conversion and the title-sniffing pattern matcher, behind
//! trusted wrappers. Rendering and pattern capture are pure functions of
//! their text arguments, so their results carry names that the rest of the
//! library's contracts speak of.

use vstd::prelude::*;

verus! {

/// The linearized plain text that the renderer produces for `html` wrapped
/// at `width` columns, `None` where the renderer fails: a pure function of
/// the markup text and the width.
pub uninterp spec fn rendered_of(html: Seq<char>, width: usize) -> Option<Seq<char>>;

/// Relies on `html2text::from_read`: rendering depends on the markup text
/// and the column width alone.
#[verifier::external_body]
pub fn render_text(html: &str, width: usize) -> (r: Option<String>)
    ensures
        match r {
            Some(t) => rendered_of(html@, width) == Some(t@),
            None => rendered_of(html@, width) is None,
        },
{
    match html2text::from_read(html.as_bytes(), width) {
        Ok(t) => Some(t),
        Err(_) => None,
    }
}

/// The first capture group of the first match of `pattern` in `text`,
/// `None` where the pattern does not compile, does not match, or has no
/// first group: a pure function of pattern and text.
pub uninterp spec fn capture_of(pattern: Seq<char>, text: Seq<char>) -> Option<Seq<char>>;

/// Relies on `regex::Regex::new` and `Regex::captures`: the first capture
/// group of the first match depends on the pattern and the text alone.
#[verifier::external_body]
pub fn capture_first(pattern: &str, text: &str) -> (r: Option<String>)
    ensures
        match r {
            Some(s) => capture_of(pattern@, text@) == Some(s@),
            None => capture_of(pattern@, text@) is None,
        },
{
    match regex::Regex::new(pattern) {
        Ok(re) => re.captures(text).and_then(|c| c.get(1)).map(|m| m.as_str().to_string()),
        Err(_) => None,
    }
}

} // verus!
