//! Character-sequence utilities shared by the manifest parser, the section
//! extractor and the search index: trimming, line splitting and joining,
//! substring containment and decimal formatting, all stated over `Seq<char>`.

use vstd::prelude::*;

verus! {

/// The Unicode white-space property of one character, as `char::is_whitespace`
/// decides it.
pub uninterp spec fn white_of(c: char) -> bool;

/// Relies on `char::is_whitespace`: a pure classification of the character.
#[verifier::external_body]
pub fn char_is_white(c: char) -> (r: bool)
    ensures
        r == white_of(c),
{
    c.is_whitespace()
}

/// The Unicode alphabetic property of one character, as `char::is_alphabetic`
/// decides it.
pub uninterp spec fn alpha_of(c: char) -> bool;

/// Relies on `char::is_alphabetic`: a pure classification of the character.
#[verifier::external_body]
pub fn char_is_alpha(c: char) -> (r: bool)
    ensures
        r == alpha_of(c),
{
    c.is_alphabetic()
}

/// The Unicode lowercase mapping of a string, as `str::to_lowercase` computes
/// it; a pure function of the characters alone.
pub uninterp spec fn lower_of(s: Seq<char>) -> Seq<char>;

/// Relies on `str::to_lowercase`: the result depends on the characters alone,
/// and an empty string stays empty.
#[verifier::external_body]
pub fn lowercase(s: &str) -> (r: String)
    ensures
        r@ == lower_of(s@),
        s@.len() == 0 ==> r@.len() == 0,
{
    s.to_lowercase()
}

/// Relies on `Iterator::collect` for `String`: the collected string holds
/// exactly the characters of `v`, in order.
#[verifier::external_body]
pub fn string_of_chars(v: &Vec<char>) -> (r: String)
    ensures
        r@ == v@,
{
    v.iter().collect()
}

/// The characters of a string, as a vector; fully verified through
/// `unicode_len` and `get_char`.
pub fn chars_vec(s: &str) -> (r: Vec<char>)
    ensures
        r@ == s@,
{
    let n = s.unicode_len();
    let mut r: Vec<char> = Vec::new();
    let mut i: usize = 0;
    while i < n
        invariant
            n == s@.len(),
            i <= n,
            r@ == s@.subrange(0, i as int),
        decreases n - i,
    {
        r.push(s.get_char(i));
        i = i + 1;
        proof {
            assert(r@ =~= s@.subrange(0, i as int));
        }
    }
    proof {
        assert(r@ =~= s@);
    }
    r
}

/// String equality on views, fully verified through `unicode_len` and
/// `get_char`.
pub fn str_eq(a: &str, b: &str) -> (r: bool)
    ensures
        r == (a@ == b@),
{
    let la = a.unicode_len();
    let lb = b.unicode_len();
    if la != lb {
        return false;
    }
    let mut i: usize = 0;
    while i < la
        invariant
            la == a@.len(),
            la == b@.len(),
            i <= la,
            forall|j: int| 0 <= j < i ==> a@[j] == b@[j],
        decreases la - i,
    {
        if a.get_char(i) != b.get_char(i) {
            return false;
        }
        i = i + 1;
    }
    proof {
        assert(a@ =~= b@);
    }
    true
}

/// What is left of `s` after removing its leading white space.
pub open spec fn spec_trim_front(s: Seq<char>) -> Seq<char>
    decreases s.len(),
{
    if s.len() == 0 {
        s
    } else if white_of(s[0]) {
        spec_trim_front(s.drop_first())
    } else {
        s
    }
}

/// What is left of `s` after removing its trailing white space.
pub open spec fn spec_trim_back(s: Seq<char>) -> Seq<char>
    decreases s.len(),
{
    if s.len() == 0 {
        s
    } else if white_of(s.last()) {
        spec_trim_back(s.drop_last())
    } else {
        s
    }
}

/// `s` with leading and trailing white space removed, as `str::trim` leaves it.
pub open spec fn spec_trim(s: Seq<char>) -> Seq<char> {
    spec_trim_back(spec_trim_front(s))
}

proof fn lemma_trim_front_step(s: Seq<char>, i: int)
    requires
        0 <= i < s.len(),
        white_of(s[i]),
    ensures
        spec_trim_front(s.subrange(i, s.len() as int)) == spec_trim_front(
            s.subrange(i + 1, s.len() as int),
        ),
{
    let sub = s.subrange(i, s.len() as int);
    assert(sub.drop_first() =~= s.subrange(i + 1, s.len() as int));
}

proof fn lemma_trim_back_step(s: Seq<char>, j: int)
    requires
        0 < j <= s.len(),
        white_of(s[j - 1]),
    ensures
        spec_trim_back(s.subrange(0, j)) == spec_trim_back(s.subrange(0, j - 1)),
{
    let sub = s.subrange(0, j);
    assert(sub.drop_last() =~= s.subrange(0, j - 1));
}

/// Removes leading and trailing white space, verified against `spec_trim`.
pub fn trim_chars(s: &Vec<char>) -> (r: Vec<char>)
    ensures
        r@ == spec_trim(s@),
{
    let n = s.len();
    proof {
        assert(s@.subrange(0, n as int) =~= s@);
    }
    let mut i: usize = 0;
    while i < n && char_is_white(s[i])
        invariant
            n == s@.len(),
            i <= n,
            spec_trim_front(s@) == spec_trim_front(s@.subrange(i as int, n as int)),
        decreases n - i,
    {
        proof {
            lemma_trim_front_step(s@, i as int);
        }
        i = i + 1;
    }
    proof {
        assert(s@.subrange(0, n as int) =~= s@);
        if i < n {
            assert(s@.subrange(i as int, n as int)[0] == s@[i as int]);
        }
        assert(spec_trim_front(s@) == s@.subrange(i as int, n as int));
    }
    let mut j: usize = n;
    while j > i && char_is_white(s[j - 1])
        invariant
            n == s@.len(),
            i <= j <= n,
            spec_trim_front(s@) == s@.subrange(i as int, n as int),
            spec_trim_back(s@.subrange(i as int, n as int)) == spec_trim_back(
                s@.subrange(i as int, j as int),
            ),
        decreases j,
    {
        proof {
            let front = s@.subrange(i as int, n as int);
            let k = j - i;
            assert(front.subrange(0, k as int) =~= s@.subrange(i as int, j as int));
            assert(front.subrange(0, k - 1) =~= s@.subrange(i as int, j as int - 1));
            assert(front[k - 1] == s@[j as int - 1]);
            lemma_trim_back_step(front, k as int);
        }
        j = j - 1;
    }
    proof {
        let front = s@.subrange(i as int, n as int);
        assert(front.subrange(0, n as int - i) =~= front);
        let kept = s@.subrange(i as int, j as int);
        if i < j {
            assert(kept.last() == s@[j as int - 1]);
        }
        assert(spec_trim_back(kept) == kept);
        assert(spec_trim(s@) == kept);
    }
    let mut r: Vec<char> = Vec::new();
    let mut k: usize = i;
    while k < j
        invariant
            i <= k <= j <= s@.len(),
            r@ == s@.subrange(i as int, k as int),
        decreases j - k,
    {
        r.push(s[k]);
        k = k + 1;
        proof {
            assert(r@ =~= s@.subrange(i as int, k as int));
        }
    }
    r
}

/// The first position at or after `start` where `s` holds a line break, or
/// `s.len()` where none follows.
pub open spec fn spec_find_break(s: Seq<char>, start: int) -> int
    decreases s.len() - start,
{
    if start < 0 || start >= s.len() {
        s.len() as int
    } else if s[start] == '\n' {
        start
    } else {
        spec_find_break(s, start + 1)
    }
}

pub proof fn lemma_find_break_bounds(s: Seq<char>, start: int)
    requires
        0 <= start <= s.len(),
    ensures
        start <= spec_find_break(s, start) <= s.len(),
        spec_find_break(s, start) < s.len() ==> s[spec_find_break(s, start)] == '\n',
        forall|m: int|
            start <= m < spec_find_break(s, start) ==> s[m] != '\n',
    decreases s.len() - start,
{
    if start < s.len() && s[start] != '\n' {
        lemma_find_break_bounds(s, start + 1);
    }
}

/// `s` split at every line break from `start` on; every break separates two
/// segments, so the result always holds at least one segment.
pub open spec fn spec_split_from(s: Seq<char>, start: int) -> Seq<Seq<char>>
    decreases s.len() - start,
    via spec_split_from_decreases
{
    if start < 0 || start > s.len() {
        Seq::empty()
    } else {
        let i = spec_find_break(s, start);
        if i >= s.len() {
            seq![s.subrange(start, s.len() as int)]
        } else {
            seq![s.subrange(start, i)] + spec_split_from(s, i + 1)
        }
    }
}

#[via_fn]
proof fn spec_split_from_decreases(s: Seq<char>, start: int) {
    if 0 <= start <= s.len() {
        lemma_find_break_bounds(s, start);
    }
}

/// The lines of `s`: segments between line breaks, without a final empty
/// segment when `s` ends in a break, and no lines at all for an empty `s`.
pub open spec fn spec_lines(s: Seq<char>) -> Seq<Seq<char>> {
    if s.len() == 0 {
        Seq::empty()
    } else if s.last() == '\n' {
        spec_split_from(s.drop_last(), 0)
    } else {
        spec_split_from(s, 0)
    }
}

/// The offset of line `k` within the text the lines were split from: each
/// earlier line contributes its length plus one separator.
pub open spec fn spec_line_start(lines: Seq<Seq<char>>, k: int) -> int
    decreases k,
{
    if k <= 0 {
        0
    } else {
        spec_line_start(lines, k - 1) + lines[k - 1].len() + 1
    }
}

proof fn lemma_line_start_shift(first: Seq<char>, rest: Seq<Seq<char>>, k: int)
    requires
        1 <= k <= rest.len() + 1,
    ensures
        spec_line_start(seq![first] + rest, k) == first.len() + 1 + spec_line_start(rest, k - 1),
    decreases k,
{
    let lines = seq![first] + rest;
    if k == 1 {
        assert(lines[0] == first);
        assert(spec_line_start(lines, 0) == 0);
        assert(spec_line_start(rest, 0) == 0);
    } else {
        lemma_line_start_shift(first, rest, k - 1);
        assert(lines[k - 1] == rest[k - 2]);
        assert(spec_line_start(lines, k) == spec_line_start(lines, k - 1) + lines[k - 1].len()
            + 1);
        assert(spec_line_start(rest, k - 1) == spec_line_start(rest, k - 2) + rest[k - 2].len()
            + 1);
    }
}

/// Each segment of `spec_split_from` stands verbatim in `s`, at the offset
/// that `spec_line_start` gives it.
pub proof fn lemma_split_from_index(s: Seq<char>, start: int, k: int)
    requires
        0 <= start <= s.len(),
        0 <= k < spec_split_from(s, start).len(),
    ensures
        ({
            let lines = spec_split_from(s, start);
            let off = start + spec_line_start(lines, k);
            &&& off + lines[k].len() <= s.len()
            &&& s.subrange(off, off + lines[k].len() as int) == lines[k]
        }),
    decreases s.len() - start,
{
    lemma_find_break_bounds(s, start);
    let i = spec_find_break(s, start);
    let lines = spec_split_from(s, start);
    if i >= s.len() {
        assert(k == 0);
        assert(s.subrange(start, s.len() as int) =~= s.subrange(
            start + 0,
            start + 0 + lines[0].len() as int,
        ));
    } else {
        let rest = spec_split_from(s, i + 1);
        assert(lines == seq![s.subrange(start, i)] + rest);
        if k == 0 {
            assert(lines[0] == s.subrange(start, i));
            assert(s.subrange(start, i) =~= s.subrange(start + 0, start + 0 + lines[0].len() as int));
        } else {
            lemma_split_from_index(s, i + 1, k - 1);
            lemma_line_start_shift(s.subrange(start, i), rest, k);
            assert(lines[k] == rest[k - 1]);
            assert(start + spec_line_start(lines, k) == i + 1 + spec_line_start(rest, k - 1));
        }
    }
}

pub proof fn lemma_line_start_nonneg(lines: Seq<Seq<char>>, k: int)
    ensures
        spec_line_start(lines, k) >= 0,
    decreases k,
{
    if k > 0 {
        lemma_line_start_nonneg(lines, k - 1);
    }
}

/// The byte offset of line `k` within the text the lines were split from:
/// each earlier line contributes its UTF-8 byte length plus one separator
/// byte.
pub open spec fn spec_byte_start(lines: Seq<Seq<char>>, k: int) -> int
    decreases k,
{
    if k <= 0 {
        0
    } else {
        spec_byte_start(lines, k - 1) + spec_byte_len(lines[k - 1]) + 1
    }
}

/// Every segment but the last is followed by a line break in `s`.
pub proof fn lemma_split_from_sep(s: Seq<char>, start: int, k: int)
    requires
        0 <= start <= s.len(),
        0 <= k < spec_split_from(s, start).len() - 1,
    ensures
        ({
            let lines = spec_split_from(s, start);
            let off = start + spec_line_start(lines, k);
            off + lines[k].len() < s.len() && s[off + lines[k].len()] == '\n'
        }),
    decreases s.len() - start,
{
    lemma_find_break_bounds(s, start);
    let i = spec_find_break(s, start);
    let lines = spec_split_from(s, start);
    if i >= s.len() {
        assert(false);
    } else {
        let rest = spec_split_from(s, i + 1);
        assert(lines == seq![s.subrange(start, i)] + rest);
        if k == 0 {
            assert(lines[0] == s.subrange(start, i));
        } else {
            lemma_split_from_sep(s, i + 1, k - 1);
            lemma_line_start_shift(s.subrange(start, i), rest, k);
            assert(lines[k] == rest[k - 1]);
            assert(start + spec_line_start(lines, k) == i + 1 + spec_line_start(rest, k - 1));
        }
    }
}

/// The UTF-8 byte length of one line break.
proof fn lemma_newline_byte(c: char)
    requires
        c == '\n',
    ensures
        spec_byte_len(seq![c]) == 1,
{
    assert(seq![c].drop_first() =~= Seq::<char>::empty());
    assert(spec_byte_len(Seq::<char>::empty()) == 0);
    assert(seq![c][0] == c);
    assert(utf8_width('\n') == 1);
}

proof fn lemma_byte_start_prefix_from(t: Seq<char>, k: int)
    requires
        0 <= k < spec_split_from(t, 0).len(),
    ensures
        spec_byte_start(spec_split_from(t, 0), k) == spec_byte_len(
            t.subrange(0, spec_line_start(spec_split_from(t, 0), k)),
        ),
    decreases k,
{
    let lines = spec_split_from(t, 0);
    if k == 0 {
        assert(t.subrange(0, 0) =~= Seq::<char>::empty());
        assert(spec_byte_len(Seq::<char>::empty()) == 0);
    } else {
        lemma_byte_start_prefix_from(t, k - 1);
        lemma_split_from_index(t, 0, k - 1);
        lemma_split_from_sep(t, 0, k - 1);
        lemma_line_start_nonneg(lines, k - 1);
        let off0 = spec_line_start(lines, k - 1);
        let len0 = lines[k - 1].len() as int;
        let off1 = spec_line_start(lines, k);
        assert(off1 == off0 + len0 + 1);
        let pre0 = t.subrange(0, off0);
        let pre1 = t.subrange(0, off1);
        assert(t.subrange(off0, off0 + len0) == lines[k - 1]);
        assert(pre1 =~= (pre0 + lines[k - 1]) + seq![t[off0 + len0]]);
        lemma_byte_len_concat(pre0 + lines[k - 1], seq![t[off0 + len0]]);
        lemma_byte_len_concat(pre0, lines[k - 1]);
        lemma_newline_byte(t[off0 + len0]);
    }
}

/// A line's byte offset equals the UTF-8 byte length of everything in the
/// text before the line's first character.
pub proof fn lemma_byte_start_is_prefix(content: Seq<char>, k: int)
    requires
        0 <= k < spec_lines(content).len(),
    ensures
        spec_byte_start(spec_lines(content), k) == spec_byte_len(
            content.subrange(0, spec_line_start(spec_lines(content), k)),
        ),
{
    let lines = spec_lines(content);
    let off = spec_line_start(lines, k);
    lemma_line_start_nonneg(lines, k);
    if content.len() == 0 {
        assert(false);
    } else if content.last() == '\n' {
        let t = content.drop_last();
        lemma_byte_start_prefix_from(t, k);
        lemma_split_from_index(t, 0, k);
        assert(t.subrange(0, off) =~= content.subrange(0, off));
    } else {
        lemma_byte_start_prefix_from(content, k);
    }
}

/// A line's byte offset and byte length stay within the text's byte length.
pub proof fn lemma_byte_start_bound(content: Seq<char>, k: int)
    requires
        0 <= k < spec_lines(content).len(),
    ensures
        0 <= spec_byte_start(spec_lines(content), k),
        spec_byte_start(spec_lines(content), k) + spec_byte_len(spec_lines(content)[k])
            <= spec_byte_len(content),
{
    let lines = spec_lines(content);
    let off = spec_line_start(lines, k);
    let line = lines[k];
    lemma_byte_start_is_prefix(content, k);
    lemma_line_start_nonneg(lines, k);
    lemma_line_verbatim(content, k);
    let pre = content.subrange(0, off);
    lemma_byte_len_bounds(pre);
    assert(content.subrange(0, off + line.len() as int) =~= pre + line);
    lemma_byte_len_concat(pre, line);
    lemma_byte_len_prefix(content, off + line.len() as int);
}

/// Each line stands verbatim in the text, at its character offset.
pub proof fn lemma_line_verbatim(content: Seq<char>, k: int)
    requires
        0 <= k < spec_lines(content).len(),
    ensures
        ({
            let lines = spec_lines(content);
            let off = spec_line_start(lines, k);
            &&& 0 <= off
            &&& off + lines[k].len() <= content.len()
            &&& content.subrange(off, off + lines[k].len() as int) == lines[k]
        }),
{
    lemma_line_start_nonneg(spec_lines(content), k);
    let lines = spec_lines(content);
    let off = spec_line_start(lines, k);
    if content.len() == 0 {
        assert(false);
    } else if content.last() == '\n' {
        let t = content.drop_last();
        lemma_split_from_index(t, 0, k);
        assert(t.subrange(off, off + lines[k].len() as int) =~= content.subrange(
            off,
            off + lines[k].len() as int,
        ));
    } else {
        lemma_split_from_index(content, 0, k);
    }
}

/// The UTF-8 encoding of the text holds the encoding of line `k` verbatim,
/// starting at the line's byte offset.
pub proof fn lemma_byte_round_trip(content: Seq<char>, k: int)
    requires
        0 <= k < spec_lines(content).len(),
    ensures
        ({
            let lines = spec_lines(content);
            let bo = spec_byte_start(lines, k);
            let blen = spec_byte_len(lines[k]);
            &&& 0 <= bo
            &&& bo + blen <= spec_byte_len(content)
            &&& vstd::utf8::encode_utf8(content).subrange(bo, bo + blen)
                == vstd::utf8::encode_utf8(lines[k])
        }),
{
    let lines = spec_lines(content);
    let off = spec_line_start(lines, k);
    let line = lines[k];
    let bo = spec_byte_start(lines, k);
    let blen = spec_byte_len(line);
    lemma_line_verbatim(content, k);
    lemma_byte_start_is_prefix(content, k);
    lemma_byte_start_bound(content, k);
    let pre = content.subrange(0, off);
    let post = content.subrange(off + line.len() as int, content.len() as int);
    assert(content =~= (pre + line) + post);
    lemma_encode_concat(pre + line, post);
    lemma_encode_concat(pre, line);
    lemma_byte_len_is_encoding(pre);
    lemma_byte_len_is_encoding(line);
    let enc = vstd::utf8::encode_utf8(content);
    let ep = vstd::utf8::encode_utf8(pre);
    let el = vstd::utf8::encode_utf8(line);
    let eo = vstd::utf8::encode_utf8(post);
    assert(enc =~= (ep + el) + eo);
    assert forall|p: int| 0 <= p < blen implies enc[bo + p] == el[p] by {
        assert(enc[bo + p] == ((ep + el) + eo)[bo + p]);
    }
    assert(enc.subrange(bo, bo + blen) =~= el);
}

/// The UTF-8 byte length of a bounded sequence, verified against
/// `spec_byte_len`.
pub fn chars_byte_len(s: &Vec<char>) -> (n: usize)
    requires
        spec_byte_len(s@) <= usize::MAX,
    ensures
        n == spec_byte_len(s@),
{
    let mut acc: usize = 0;
    let mut i: usize = 0;
    while i < s.len()
        invariant
            spec_byte_len(s@) <= usize::MAX,
            i <= s@.len(),
            acc == spec_byte_len(s@.subrange(0, i as int)),
        decreases s@.len() - i,
    {
        let w = char_utf8_width(s[i]);
        proof {
            lemma_utf8_width_bounds(s@[i as int]);
            let pre = s@.subrange(0, i as int);
            let pre1 = s@.subrange(0, i as int + 1);
            assert(pre1 =~= pre + seq![s@[i as int]]);
            lemma_byte_len_concat(pre, seq![s@[i as int]]);
            assert(seq![s@[i as int]].drop_first() =~= Seq::<char>::empty());
            assert(spec_byte_len(Seq::<char>::empty()) == 0);
            assert(seq![s@[i as int]][0] == s@[i as int]);
            assert(spec_byte_len(seq![s@[i as int]]) == utf8_width(s@[i as int]));
            lemma_byte_len_prefix(s@, i as int + 1);
        }
        acc = acc + w;
        i = i + 1;
    }
    proof {
        assert(s@.subrange(0, s@.len() as int) =~= s@);
    }
    acc
}

pub proof fn lemma_find_break_exact(s: Seq<char>, from: int, to: int)
    requires
        0 <= from <= to <= s.len(),
        forall|m: int| from <= m < to ==> s[m] != '\n',
        to == s.len() || s[to] == '\n',
    ensures
        spec_find_break(s, from) == to,
    decreases to - from,
{
    if from < to {
        lemma_find_break_exact(s, from + 1, to);
    }
}

/// Splits `content` into lines, verified against `spec_lines`.
pub fn split_lines(content: &Vec<char>) -> (r: Vec<Vec<char>>)
    ensures
        r.deep_view() == spec_lines(content@),
{
    let n = content.len();
    if n == 0 {
        let r: Vec<Vec<char>> = Vec::new();
        proof {
            assert(r.deep_view() =~= spec_lines(content@));
        }
        return r;
    }
    let m: usize = if content[n - 1] == '\n' {
        n - 1
    } else {
        n
    };
    let ghost t: Seq<char> = content@.subrange(0, m as int);
    proof {
        if content@.last() == '\n' {
            assert(t =~= content@.drop_last());
        } else {
            assert(t =~= content@);
        }
    }
    let mut done: Vec<Vec<char>> = Vec::new();
    let mut cur: Vec<char> = Vec::new();
    let ghost mut cur_start: int = 0;
    let mut idx: usize = 0;
    while idx < m
        invariant
            m <= n == content@.len(),
            t == content@.subrange(0, m as int),
            idx <= m,
            0 <= cur_start <= idx,
            cur@ == t.subrange(cur_start, idx as int),
            forall|p: int| cur_start <= p < idx ==> t[p] != '\n',
            spec_split_from(t, 0) == done.deep_view() + spec_split_from(t, cur_start),
        decreases m - idx,
    {
        let c = content[idx];
        proof {
            assert(t[idx as int] == content@[idx as int]);
        }
        if c == '\n' {
            let ghost old_dv = done.deep_view();
            let ghost old_vs = done@;
            let ghost cur_seq = cur@;
            proof {
                lemma_find_break_exact(t, cur_start, idx as int);
                assert(spec_split_from(t, cur_start) == seq![t.subrange(cur_start, idx as int)]
                    + spec_split_from(t, idx + 1));
                assert(seq![t.subrange(cur_start, idx as int)] =~= seq![cur_seq]);
            }
            done.push(cur);
            cur = Vec::new();
            proof {
                cur_start = idx + 1;
                assert forall|p: int| 0 <= p < done.deep_view().len() implies done.deep_view()[p]
                    == (old_dv + seq![cur_seq])[p] by {
                    assert(done.deep_view()[p] == done@[p].deep_view());
                    if p < old_dv.len() {
                        assert(done@[p] == old_vs[p]);
                        assert(old_dv[p] == old_vs[p].deep_view());
                    }
                }
                assert(done.deep_view() =~= old_dv + seq![cur_seq]);
                assert((old_dv + seq![cur_seq]) + spec_split_from(t, cur_start) =~= old_dv + (
                seq![cur_seq] + spec_split_from(t, cur_start)));
                assert(spec_split_from(t, 0) == done.deep_view() + spec_split_from(t, cur_start));
                assert(cur@ =~= t.subrange(cur_start, idx + 1));
            }
        } else {
            cur.push(c);
            proof {
                assert(cur@ =~= t.subrange(cur_start, idx + 1));
            }
        }
        idx = idx + 1;
    }
    let ghost old_dv = done.deep_view();
    let ghost old_vs = done@;
    let ghost cur_seq = cur@;
    proof {
        lemma_find_break_exact(t, cur_start, m as int);
        assert(spec_split_from(t, cur_start) == seq![t.subrange(cur_start, m as int)]);
        assert(cur_seq == t.subrange(cur_start, m as int));
    }
    done.push(cur);
    proof {
        assert forall|p: int| 0 <= p < done.deep_view().len() implies done.deep_view()[p] == (old_dv
            + seq![cur_seq])[p] by {
            assert(done.deep_view()[p] == done@[p].deep_view());
            if p < old_dv.len() {
                assert(done@[p] == old_vs[p]);
                assert(old_dv[p] == old_vs[p].deep_view());
            }
        }
        assert(done.deep_view() =~= old_dv + seq![cur_seq]);
        assert(seq![t.subrange(cur_start, m as int)] =~= seq![cur_seq]);
        assert(done.deep_view() == spec_split_from(t, 0));
        assert(done.deep_view() == spec_lines(content@));
    }
    done
}

/// The lines joined back with one line break between neighbours.
pub open spec fn spec_join(lines: Seq<Seq<char>>) -> Seq<char>
    decreases lines.len(),
{
    if lines.len() == 0 {
        Seq::empty()
    } else if lines.len() == 1 {
        lines[0]
    } else {
        lines[0] + seq!['\n'] + spec_join(lines.drop_first())
    }
}

proof fn lemma_join_push(lines: Seq<Seq<char>>, x: Seq<char>)
    ensures
        spec_join(lines.push(x)) == if lines.len() == 0 {
            x
        } else {
            spec_join(lines) + seq!['\n'] + x
        },
    decreases lines.len(),
{
    if lines.len() == 0 {
        assert(lines.push(x)[0] == x);
        assert(lines.push(x).len() == 1);
    } else {
        lemma_join_push(lines.drop_first(), x);
        assert(lines.push(x).drop_first() =~= lines.drop_first().push(x));
        assert(lines.push(x)[0] == lines[0]);
        if lines.len() == 1 {
            assert(lines.drop_first().len() == 0);
            assert(spec_join(lines) == lines[0]);
        }
    }
}

/// Joins the lines `start .. end` with line breaks, verified against
/// `spec_join` of that window.
pub fn join_range(lines: &Vec<Vec<char>>, start: usize, end: usize) -> (r: Vec<char>)
    requires
        start <= end <= lines@.len(),
    ensures
        r@ == spec_join(lines.deep_view().subrange(start as int, end as int)),
{
    let mut r: Vec<char> = Vec::new();
    let mut k: usize = start;
    while k < end
        invariant
            start <= k <= end <= lines@.len(),
            lines.deep_view().len() == lines@.len(),
            r@ == spec_join(lines.deep_view().subrange(start as int, k as int)),
        decreases end - k,
    {
        if k > start {
            r.push('\n');
        }
        let line = &lines[k];
        let mut j: usize = 0;
        let ghost before: Seq<char> = r@;
        while j < line.len()
            invariant
                j <= line@.len(),
                r@ == before + line@.subrange(0, j as int),
            decreases line@.len() - j,
        {
            r.push(line[j]);
            j = j + 1;
            proof {
                assert(r@ =~= before + line@.subrange(0, j as int));
            }
        }
        proof {
            let win = lines.deep_view().subrange(start as int, k as int);
            let next = lines.deep_view()[k as int];
            assert(line@.subrange(0, line@.len() as int) =~= next);
            lemma_join_push(win, next);
            assert(lines.deep_view().subrange(start as int, k + 1) =~= win.push(next));
        }
        k = k + 1;
    }
    r
}

/// Whether `needle` stands in `hay` starting at position `k`.
pub open spec fn seq_contains_at(hay: Seq<char>, needle: Seq<char>, k: int) -> bool {
    0 <= k && k + needle.len() <= hay.len() && hay.subrange(k, k + needle.len() as int) == needle
}

/// Whether `needle` stands anywhere in `hay`.
pub open spec fn seq_contains(hay: Seq<char>, needle: Seq<char>) -> bool {
    exists|k: int| seq_contains_at(hay, needle, k)
}

/// Substring containment, verified against `seq_contains`.
pub fn chars_contain(hay: &Vec<char>, needle: &Vec<char>) -> (r: bool)
    ensures
        r == seq_contains(hay@, needle@),
{
    let hn = hay.len();
    let nn = needle.len();
    if nn > hn {
        proof {
            assert(forall|k: int| !seq_contains_at(hay@, needle@, k));
        }
        return false;
    }
    let mut k: usize = 0;
    while k <= hn - nn
        invariant
            nn <= hn == hay@.len(),
            nn == needle@.len(),
            k <= hn - nn + 1,
            forall|k2: int| k2 < k ==> !seq_contains_at(hay@, needle@, k2),
        decreases hn - nn + 1 - k,
    {
        let mut j: usize = 0;
        let mut all: bool = true;
        while j < nn
            invariant
                nn <= hn == hay@.len(),
                nn == needle@.len(),
                k + nn <= hn,
                j <= nn,
                all <==> (forall|j2: int| 0 <= j2 < j ==> hay@[k + j2] == needle@[j2]),
            decreases nn - j,
        {
            if hay[k + j] != needle[j] {
                all = false;
                proof {
                    assert(!(hay@[k + j] == needle@[j as int]));
                }
                j = nn;
            } else {
                j = j + 1;
            }
        }
        if all {
            proof {
                assert(hay@.subrange(k as int, k + nn) =~= needle@);
                assert(seq_contains_at(hay@, needle@, k as int));
            }
            return true;
        }
        proof {
            let sub = hay@.subrange(k as int, k + nn);
            let bad = choose|j2: int| !(0 <= j2 < nn ==> hay@[k + j2] == needle@[j2]);
            assert(sub[bad] == hay@[k + bad]);
            assert(!seq_contains_at(hay@, needle@, k as int));
        }
        k = k + 1;
    }
    proof {
        assert(forall|k2: int| !seq_contains_at(hay@, needle@, k2));
    }
    false
}

/// The width of one character's UTF-8 encoding, in bytes.
pub open spec fn utf8_width(c: char) -> int {
    vstd::utf8::encode_scalar(c as u32).len() as int
}

/// The UTF-8 byte length of a character sequence.
pub open spec fn spec_byte_len(s: Seq<char>) -> int
    decreases s.len(),
{
    if s.len() == 0 {
        0
    } else {
        utf8_width(s[0]) + spec_byte_len(s.drop_first())
    }
}

/// The byte length of a sequence is the length of its UTF-8 encoding.
pub proof fn lemma_byte_len_is_encoding(s: Seq<char>)
    ensures
        spec_byte_len(s) == vstd::utf8::encode_utf8(s).len(),
    decreases s.len(),
{
    if s.len() > 0 {
        lemma_byte_len_is_encoding(s.drop_first());
    }
}

/// A character encodes to one through four bytes.
pub proof fn lemma_utf8_width_bounds(c: char)
    ensures
        1 <= utf8_width(c) <= 4,
{
}

/// A sequence's byte length covers at least one byte per character and at
/// most four.
pub proof fn lemma_byte_len_bounds(s: Seq<char>)
    ensures
        s.len() <= spec_byte_len(s) <= 4 * s.len(),
    decreases s.len(),
{
    if s.len() > 0 {
        lemma_utf8_width_bounds(s[0]);
        lemma_byte_len_bounds(s.drop_first());
    }
}

/// Byte lengths add over concatenation.
pub proof fn lemma_byte_len_concat(a: Seq<char>, b: Seq<char>)
    ensures
        spec_byte_len(a + b) == spec_byte_len(a) + spec_byte_len(b),
    decreases a.len(),
{
    if a.len() == 0 {
        assert(a + b =~= b);
    } else {
        assert((a + b)[0] == a[0]);
        assert((a + b).drop_first() =~= a.drop_first() + b);
        lemma_byte_len_concat(a.drop_first(), b);
    }
}

/// A prefix's byte length never exceeds the whole sequence's.
pub proof fn lemma_byte_len_prefix(s: Seq<char>, i: int)
    requires
        0 <= i <= s.len(),
    ensures
        spec_byte_len(s.subrange(0, i)) <= spec_byte_len(s),
{
    assert(s =~= s.subrange(0, i) + s.subrange(i, s.len() as int));
    lemma_byte_len_concat(s.subrange(0, i), s.subrange(i, s.len() as int));
    lemma_byte_len_bounds(s.subrange(i, s.len() as int));
}

/// The UTF-8 encoding of a concatenation is the concatenation of the
/// encodings.
pub proof fn lemma_encode_concat(a: Seq<char>, b: Seq<char>)
    ensures
        vstd::utf8::encode_utf8(a + b) =~= vstd::utf8::encode_utf8(a) + vstd::utf8::encode_utf8(
            b,
        ),
    decreases a.len(),
{
    if a.len() == 0 {
        assert(a + b =~= b);
    } else {
        assert((a + b)[0] == a[0]);
        assert((a + b).drop_first() =~= a.drop_first() + b);
        lemma_encode_concat(a.drop_first(), b);
    }
}

/// The UTF-8 width of one character, verified against `utf8_width`.
pub fn char_utf8_width(c: char) -> (n: usize)
    ensures
        n == utf8_width(c),
{
    proof {
        vstd::utf8::char_is_scalar(c);
    }
    let v = c as u32;
    if v < 0x80 {
        1
    } else if v < 0x800 {
        2
    } else if v < 0x10000 {
        3
    } else {
        4
    }
}

/// The exact UTF-8 byte length where it stays within `cap`, or the bare
/// fact that it exceeds it, without ever summing past the cap.
pub fn byte_len_capped(s: &Vec<char>, cap: usize) -> (r: Option<usize>)
    requires
        cap <= usize::MAX - 4,
    ensures
        match r {
            Some(n) => n == spec_byte_len(s@) && n <= cap,
            None => spec_byte_len(s@) > cap,
        },
{
    let mut acc: usize = 0;
    let mut i: usize = 0;
    while i < s.len()
        invariant
            cap <= usize::MAX - 4,
            i <= s@.len(),
            acc == spec_byte_len(s@.subrange(0, i as int)),
            acc <= cap,
        decreases s@.len() - i,
    {
        let w = char_utf8_width(s[i]);
        proof {
            lemma_utf8_width_bounds(s@[i as int]);
            let pre = s@.subrange(0, i as int);
            let pre1 = s@.subrange(0, i as int + 1);
            assert(pre1 =~= pre + seq![s@[i as int]]);
            lemma_byte_len_concat(pre, seq![s@[i as int]]);
            assert(seq![s@[i as int]].drop_first() =~= Seq::<char>::empty());
            assert(spec_byte_len(Seq::<char>::empty()) == 0);
            assert(seq![s@[i as int]][0] == s@[i as int]);
            assert(spec_byte_len(seq![s@[i as int]]) == utf8_width(s@[i as int]));
        }
        acc = acc + w;
        i = i + 1;
        if acc > cap {
            proof {
                lemma_byte_len_prefix(s@, i as int);
            }
            return None;
        }
    }
    proof {
        assert(s@.subrange(0, s@.len() as int) =~= s@);
    }
    Some(acc)
}

/// The deep view of a sequence of viewable values.
pub open spec fn dv_seq<T: DeepView>(s: Seq<T>) -> Seq<T::V> {
    Seq::new(s.len(), |i: int| s[i].deep_view())
}

/// Pushing commutes with taking deep views.
pub proof fn lemma_dv_seq_push<T: DeepView>(s: Seq<T>, x: T)
    ensures
        dv_seq(s.push(x)) =~= dv_seq(s).push(x.deep_view()),
{
    assert forall|i: int| 0 <= i < s.len() + 1 implies dv_seq(s.push(x))[i] == dv_seq(s).push(
        x.deep_view(),
    )[i] by {
        if i < s.len() {
            assert(s.push(x)[i] == s[i]);
        } else {
            assert(s.push(x)[i] == x);
        }
    }
}

/// The decimal form of `n`, most significant digit first.
pub open spec fn spec_decimal(n: int) -> Seq<char>
    decreases n,
{
    if n < 0 {
        Seq::empty()
    } else if n < 10 {
        seq![spec_digit(n)]
    } else {
        spec_decimal(n / 10).push(spec_digit(n % 10))
    }
}

/// The digit character for one value `0 .. 9`.
pub open spec fn spec_digit(d: int) -> char {
    if d == 0 {
        '0'
    } else if d == 1 {
        '1'
    } else if d == 2 {
        '2'
    } else if d == 3 {
        '3'
    } else if d == 4 {
        '4'
    } else if d == 5 {
        '5'
    } else if d == 6 {
        '6'
    } else if d == 7 {
        '7'
    } else if d == 8 {
        '8'
    } else {
        '9'
    }
}

fn digit_char(d: usize) -> (c: char)
    requires
        d < 10,
    ensures
        c == spec_digit(d as int),
{
    if d == 0 {
        '0'
    } else if d == 1 {
        '1'
    } else if d == 2 {
        '2'
    } else if d == 3 {
        '3'
    } else if d == 4 {
        '4'
    } else if d == 5 {
        '5'
    } else if d == 6 {
        '6'
    } else if d == 7 {
        '7'
    } else if d == 8 {
        '8'
    } else {
        '9'
    }
}

/// Appends the decimal form of `n` to `out`, verified against `spec_decimal`.
pub fn push_decimal(n: usize, out: &mut Vec<char>)
    ensures
        final(out)@ == old(out)@ + spec_decimal(n as int),
    decreases n,
{
    if n < 10 {
        out.push(digit_char(n));
        proof {
            assert(out@ =~= old(out)@ + spec_decimal(n as int));
        }
    } else {
        push_decimal(n / 10, out);
        out.push(digit_char(n % 10));
        proof {
            assert(out@ =~= old(out)@ + spec_decimal(n as int));
        }
    }
}

} // verus!
