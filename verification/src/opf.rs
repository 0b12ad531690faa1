//! The manifest resolver: finds the package manifest through the container's
//! pointer file, then walks the manifest's three regions to collect metadata
//! and the declared reading order. All interpretation of the event stream is
//! verified; the stream itself comes from the trusted scanner in `xml`.

use vstd::prelude::*;
use crate::chars::{chars_vec, spec_trim, str_eq, string_of_chars, trim_chars};
use crate::error::EpubError;
use crate::xml::{tag_attrs_of, unescaped_of, XmlEvent, XmlEventV};

verus! {

/// The value of the first attribute named `key`.
pub open spec fn spec_attr_lookup(attrs: Seq<(Seq<char>, Seq<char>)>, key: Seq<char>) -> Option<
    Seq<char>,
>
    decreases attrs.len(),
{
    if attrs.len() == 0 {
        None
    } else if attrs[0].0 == key {
        Some(attrs[0].1)
    } else {
        spec_attr_lookup(attrs.drop_first(), key)
    }
}

proof fn lemma_attr_lookup_step(attrs: Seq<(Seq<char>, Seq<char>)>, key: Seq<char>, i: int)
    requires
        0 <= i < attrs.len(),
        attrs[i].0 != key,
    ensures
        spec_attr_lookup(attrs.subrange(i, attrs.len() as int), key) == spec_attr_lookup(
            attrs.subrange(i + 1, attrs.len() as int),
            key,
        ),
{
    let sub = attrs.subrange(i, attrs.len() as int);
    assert(sub[0] == attrs[i]);
    assert(sub.drop_first() =~= attrs.subrange(i + 1, attrs.len() as int));
}

/// Looks an attribute up by key, verified against `spec_attr_lookup`.
fn attr_lookup(attrs: &Vec<(String, String)>, key: &str) -> (r: Option<String>)
    ensures
        match r {
            Some(v) => spec_attr_lookup(attrs.deep_view(), key@) == Some(v@),
            None => spec_attr_lookup(attrs.deep_view(), key@) is None,
        },
{
    let ghost dv = attrs.deep_view();
    let n = attrs.len();
    proof {
        assert(dv.len() == n);
        assert(dv.subrange(0, n as int) =~= dv);
    }
    let mut i: usize = 0;
    while i < n
        invariant
            n == attrs@.len(),
            dv == attrs.deep_view(),
            dv.len() == n,
            i <= n,
            spec_attr_lookup(dv, key@) == spec_attr_lookup(dv.subrange(i as int, n as int), key@),
        decreases n - i,
    {
        proof {
            assert(dv[i as int] == attrs@[i as int].deep_view());
        }
        if str_eq(attrs[i].0.as_str(), key) {
            let v = attrs[i].1.clone();
            proof {
                let sub = dv.subrange(i as int, n as int);
                assert(sub[0] == dv[i as int]);
                assert(dv[i as int].0 == attrs@[i as int].0@);
                assert(dv[i as int].1 == attrs@[i as int].1@);
            }
            return Some(v);
        }
        proof {
            assert(dv[i as int].0 == attrs@[i as int].0@);
            lemma_attr_lookup_step(dv, key@, i as int);
        }
        i = i + 1;
    }
    proof {
        assert(dv.subrange(n as int, n as int) =~= Seq::<(Seq<char>, Seq<char>)>::empty());
    }
    None
}

/// The value of the last pair recorded under `key`, as a map that overwrites
/// on insertion would hand it back.
pub open spec fn spec_assoc_last(items: Seq<(Seq<char>, Seq<char>)>, key: Seq<char>) -> Option<
    Seq<char>,
>
    decreases items.len(),
{
    if items.len() == 0 {
        None
    } else if items.last().0 == key {
        Some(items.last().1)
    } else {
        spec_assoc_last(items.drop_last(), key)
    }
}

proof fn lemma_assoc_last_step(items: Seq<(Seq<char>, Seq<char>)>, key: Seq<char>, j: int)
    requires
        0 < j <= items.len(),
        items[j - 1].0 != key,
    ensures
        spec_assoc_last(items.subrange(0, j), key) == spec_assoc_last(
            items.subrange(0, j - 1),
            key,
        ),
{
    let sub = items.subrange(0, j);
    assert(sub.last() == items[j - 1]);
    assert(sub.drop_last() =~= items.subrange(0, j - 1));
}

/// Looks a recorded item up by identifier, last record winning, verified
/// against `spec_assoc_last`.
fn assoc_last(items: &Vec<(String, String)>, key: &str) -> (r: Option<String>)
    ensures
        match r {
            Some(v) => spec_assoc_last(items.deep_view(), key@) == Some(v@),
            None => spec_assoc_last(items.deep_view(), key@) is None,
        },
{
    let ghost dv = items.deep_view();
    let n = items.len();
    proof {
        assert(dv.len() == n);
        assert(dv.subrange(0, n as int) =~= dv);
    }
    let mut j: usize = n;
    while j > 0
        invariant
            n == items@.len(),
            dv == items.deep_view(),
            dv.len() == n,
            j <= n,
            spec_assoc_last(dv, key@) == spec_assoc_last(dv.subrange(0, j as int), key@),
        decreases j,
    {
        proof {
            assert(dv[j - 1] == items@[j - 1].deep_view());
        }
        if str_eq(items[j - 1].0.as_str(), key) {
            let v = items[j - 1].1.clone();
            proof {
                let sub = dv.subrange(0, j as int);
                assert(sub.last() == dv[j - 1]);
            }
            return Some(v);
        }
        proof {
            lemma_assoc_last_step(dv, key@, j as int);
        }
        j = j - 1;
    }
    proof {
        assert(dv.subrange(0, 0) =~= Seq::<(Seq<char>, Seq<char>)>::empty());
    }
    None
}

/// What scanning the container pointer file yields: the first `rootfile`
/// element's `full-path` value, a scan fault, or nothing.
pub enum RootfileOutcome {
    Found(Seq<char>),
    Fault,
    Missing,
}

/// The outcome of the scan for the manifest path, from event `i` on.
pub open spec fn spec_rootfile(evs: Seq<XmlEventV>, i: int) -> RootfileOutcome
    decreases evs.len() - i,
{
    if i < 0 || i >= evs.len() {
        RootfileOutcome::Missing
    } else {
        match evs[i] {
            XmlEventV::Fault { .. } => RootfileOutcome::Fault,
            XmlEventV::Open { name, content, name_len } => {
                if name == "rootfile"@ {
                    match tag_attrs_of(content, name_len) {
                        None => RootfileOutcome::Fault,
                        Some(attrs) => match spec_attr_lookup(attrs, "full-path"@) {
                            Some(v) => RootfileOutcome::Found(v),
                            None => spec_rootfile(evs, i + 1),
                        },
                    }
                } else {
                    spec_rootfile(evs, i + 1)
                }
            },
            _ => spec_rootfile(evs, i + 1),
        }
    }
}

/// Finds the manifest path in the container's events: the first `rootfile`
/// element that carries a `full-path` attribute. Fails with `OpfNotFound`
/// where no such attribute appears before the end, and with `Xml` where the
/// scan faulted first.
pub fn find_rootfile_path(events: &Vec<XmlEvent>) -> (r: Result<String, EpubError>)
    ensures
        ({
            let o = spec_rootfile(events.deep_view(), 0);
            match r {
                Ok(s) => o == RootfileOutcome::Found(s@),
                Err(e) => match o {
                    RootfileOutcome::Found(_) => false,
                    RootfileOutcome::Fault => e matches EpubError::Xml(_),
                    RootfileOutcome::Missing => e matches EpubError::OpfNotFound,
                },
            }
        }),
{
    let ghost dv = events.deep_view();
    let n = events.len();
    proof {
        assert(dv.len() == n);
    }
    let mut i: usize = 0;
    while i < n
        invariant
            n == events@.len(),
            dv == events.deep_view(),
            dv.len() == n,
            i <= n,
            spec_rootfile(dv, 0) == spec_rootfile(dv, i as int),
        decreases n - i,
    {
        proof {
            assert(dv[i as int] == events@[i as int].deep_view());
        }
        match &events[i] {
            XmlEvent::Fault { detail } => {
                return Err(EpubError::Xml(detail.clone()));
            },
            XmlEvent::Open { name, content, name_len } => {
                if str_eq(name.as_str(), "rootfile") {
                    match split_tag_checked(content, *name_len) {
                        None => {
                            return Err(EpubError::Xml(content.clone()));
                        },
                        Some(attrs) => {
                            match attr_lookup(&attrs, "full-path") {
                                Some(v) => {
                                    return Ok(v);
                                },
                                None => {},
                            }
                        },
                    }
                }
            },
            _ => {},
        }
        i = i + 1;
    }
    Err(EpubError::OpfNotFound)
}

/// Which of the manifest's three named regions the scan stands in.
#[derive(PartialEq, Eq, Structural, Clone, Copy)]
pub enum Region {
    Outside,
    Metadata,
    Manifest,
    Spine,
}

/// Which metadata field the scan is waiting on a text node for.
#[derive(PartialEq, Eq, Structural, Clone, Copy)]
pub enum MetaField {
    TitleField,
    CreatorField,
}

/// The scan state over the manifest's events. While a metadata field is
/// pending, `acc` gathers the unescaped text parts of its element.
pub struct OpfState {
    pub region: Region,
    pub pending: Option<MetaField>,
    pub acc: Seq<char>,
    pub items: Seq<(Seq<char>, Seq<char>)>,
    pub title: Option<Seq<char>>,
    pub creator: Option<Seq<char>>,
    pub spine: Seq<Seq<char>>,
}

/// The scan state before any event.
pub open spec fn spec_opf_init() -> OpfState {
    OpfState {
        region: Region::Outside,
        pending: None,
        acc: Seq::empty(),
        items: Seq::empty(),
        title: None,
        creator: None,
        spine: Seq::empty(),
    }
}

/// Closes a pending metadata field: the gathered text is trimmed and, if
/// anything is left, recorded, the first occurrence of each field winning.
pub open spec fn spec_commit(st: OpfState) -> OpfState {
    match st.pending {
        None => st,
        Some(f) => {
            let t = spec_trim(st.acc);
            let st1 = if t.len() > 0 {
                match f {
                    MetaField::TitleField => OpfState {
                        title: if st.title is None {
                            Some(t)
                        } else {
                            st.title
                        },
                        ..st
                    },
                    MetaField::CreatorField => OpfState {
                        creator: if st.creator is None {
                            Some(t)
                        } else {
                            st.creator
                        },
                        ..st
                    },
                }
            } else {
                st
            };
            OpfState { pending: None, acc: Seq::empty(), ..st1 }
        },
    }
}

/// What scanning the manifest yields: its final state, or a fault.
pub enum OpfOutcome {
    Parsed(OpfState),
    Fault,
}

/// One pass over the manifest's events from `i` on, carrying the state
/// forward: regions open and close, `item` records identifiers against
/// references, `itemref` resolves them onto the spine, and the first title
/// and creator text nodes fill the metadata.
pub open spec fn spec_opf_scan(evs: Seq<XmlEventV>, i: int, st: OpfState) -> OpfOutcome
    decreases evs.len() - i, (if st.pending is Some { 1int } else { 0int }),
{
    if i < 0 || i >= evs.len() {
        OpfOutcome::Parsed(spec_commit(st))
    } else {
        match st.pending {
            Some(f) => match evs[i] {
                XmlEventV::Fault { .. } => OpfOutcome::Fault,
                XmlEventV::Text { raw } => match unescaped_of(raw) {
                    None => OpfOutcome::Fault,
                    Some(t) => spec_opf_scan(evs, i + 1, OpfState { acc: st.acc + t, ..st }),
                },
                XmlEventV::Ref { raw } => match unescaped_of("&"@ + raw + ";"@) {
                    None => OpfOutcome::Fault,
                    Some(t) => spec_opf_scan(evs, i + 1, OpfState { acc: st.acc + t, ..st }),
                },
                _ => spec_opf_scan(evs, i, spec_commit(st)),
            },
            None => match evs[i] {
                XmlEventV::Fault { .. } => OpfOutcome::Fault,
                XmlEventV::Open { name, content, name_len } => {
                    if name == "metadata"@ {
                        spec_opf_scan(evs, i + 1, OpfState { region: Region::Metadata, ..st })
                    } else if name == "manifest"@ {
                        spec_opf_scan(evs, i + 1, OpfState { region: Region::Manifest, ..st })
                    } else if name == "spine"@ {
                        spec_opf_scan(evs, i + 1, OpfState { region: Region::Spine, ..st })
                    } else if name == "item"@ && st.region is Manifest {
                        match tag_attrs_of(content, name_len) {
                            None => OpfOutcome::Fault,
                            Some(attrs) => {
                                let id = spec_attr_lookup(attrs, "id"@);
                                let href = spec_attr_lookup(attrs, "href"@);
                                match (id, href) {
                                    (Some(x), Some(y)) => {
                                        if x.len() > 0 && y.len() > 0 {
                                            spec_opf_scan(
                                                evs,
                                                i + 1,
                                                OpfState { items: st.items.push((x, y)), ..st },
                                            )
                                        } else {
                                            spec_opf_scan(evs, i + 1, st)
                                        }
                                    },
                                    _ => spec_opf_scan(evs, i + 1, st),
                                }
                            },
                        }
                    } else if name == "itemref"@ && st.region is Spine {
                        match tag_attrs_of(content, name_len) {
                            None => OpfOutcome::Fault,
                            Some(attrs) => match spec_attr_lookup(attrs, "idref"@) {
                                Some(idr) => match spec_assoc_last(st.items, idr) {
                                    Some(href) => spec_opf_scan(
                                        evs,
                                        i + 1,
                                        OpfState { spine: st.spine.push(href), ..st },
                                    ),
                                    None => spec_opf_scan(evs, i + 1, st),
                                },
                                None => spec_opf_scan(evs, i + 1, st),
                            },
                        }
                    } else if name == "dc:title"@ && st.region is Metadata {
                        spec_opf_scan(
                            evs,
                            i + 1,
                            OpfState { pending: Some(MetaField::TitleField), ..st },
                        )
                    } else if name == "dc:creator"@ && st.region is Metadata {
                        spec_opf_scan(
                            evs,
                            i + 1,
                            OpfState { pending: Some(MetaField::CreatorField), ..st },
                        )
                    } else {
                        spec_opf_scan(evs, i + 1, st)
                    }
                },
                XmlEventV::Close { name } => {
                    if name == "metadata"@ || name == "manifest"@ || name == "spine"@ {
                        spec_opf_scan(evs, i + 1, OpfState { region: Region::Outside, ..st })
                    } else {
                        spec_opf_scan(evs, i + 1, st)
                    }
                },
                _ => spec_opf_scan(evs, i + 1, st),
            },
        }
    }
}

/// What the manifest declares: metadata fields as found, and the reading
/// order as resolved references.
pub struct OpfParse {
    pub title: Option<String>,
    pub creator: Option<String>,
    pub spine: Vec<String>,
}

/// Walks the manifest's events, verified against `spec_opf_scan` from the
/// initial state. Fails with `Xml` where the scan faulted, and with
/// `InvalidOpfStructure` where the resolved reading order is empty.
pub fn parse_opf_events(events: &Vec<XmlEvent>) -> (r: Result<OpfParse, EpubError>)
    ensures
        ({
            let o = spec_opf_scan(events.deep_view(), 0, spec_opf_init());
            match r {
                Ok(p) => o matches OpfOutcome::Parsed(fin) && fin.title == p.title.deep_view()
                    && fin.creator == p.creator.deep_view() && fin.spine == p.spine.deep_view()
                    && p.spine@.len() > 0,
                Err(e) => match o {
                    OpfOutcome::Fault => e matches EpubError::Xml(_),
                    OpfOutcome::Parsed(fin) => fin.spine.len() == 0 && (
                    e matches EpubError::InvalidOpfStructure),
                },
            }
        }),
{
    let ghost dv = events.deep_view();
    let n = events.len();
    proof {
        assert(dv.len() == n);
    }
    let mut region = Region::Outside;
    let mut pending: Option<MetaField> = None;
    let mut acc: String = String::new();
    let mut items: Vec<(String, String)> = Vec::new();
    let mut title: Option<String> = None;
    let mut creator: Option<String> = None;
    let mut spine: Vec<String> = Vec::new();
    proof {
        assert(items.deep_view() =~= Seq::<(Seq<char>, Seq<char>)>::empty());
        assert(spine.deep_view() =~= Seq::<Seq<char>>::empty());
    }
    let mut i: usize = 0;
    while i < n
        invariant
            n == events@.len(),
            dv == events.deep_view(),
            dv.len() == n,
            i <= n,
            pending is None ==> acc@.len() == 0,
            spec_opf_scan(dv, 0, spec_opf_init()) == spec_opf_scan(
                dv,
                i as int,
                OpfState {
                    region,
                    pending,
                    acc: acc@,
                    items: items.deep_view(),
                    title: title.deep_view(),
                    creator: creator.deep_view(),
                    spine: spine.deep_view(),
                },
            ),
        decreases n - i,
    {
        let ghost st = OpfState {
            region,
            pending,
            acc: acc@,
            items: items.deep_view(),
            title: title.deep_view(),
            creator: creator.deep_view(),
            spine: spine.deep_view(),
        };
        proof {
            assert(dv[i as int] == events@[i as int].deep_view());
        }
        let mut handled = false;
        if pending.is_some() {
            match &events[i] {
                XmlEvent::Fault { detail } => {
                    return Err(EpubError::Xml(detail.clone()));
                },
                XmlEvent::Text { raw } => {
                    match crate::xml::unescape_text(raw.as_str()) {
                        None => {
                            return Err(EpubError::Xml(raw.clone()));
                        },
                        Some(t) => {
                            let ghost t_dv = t@;
                            acc.append(t.as_str());
                            handled = true;
                            proof {
                                assert(acc@ == st.acc + t_dv);
                            }
                        },
                    }
                },
                XmlEvent::Ref { raw } => {
                    let mut ent = String::from_str("&");
                    ent.append(raw.as_str());
                    ent.append(";");
                    match crate::xml::unescape_text(ent.as_str()) {
                        None => {
                            return Err(EpubError::Xml(ent));
                        },
                        Some(t) => {
                            let ghost t_dv = t@;
                            acc.append(t.as_str());
                            handled = true;
                            proof {
                                assert(acc@ == st.acc + t_dv);
                            }
                        },
                    }
                },
                _ => {
                    let done = acc;
                    acc = String::new();
                    let p = pending;
                    pending = None;
                    let done_chars = chars_vec(done.as_str());
                    let trimmed = trim_chars(&done_chars);
                    if trimmed.len() > 0 {
                        let ts = string_of_chars(&trimmed);
                        match p {
                            Some(MetaField::TitleField) => {
                                if title.is_none() {
                                    title = Some(ts);
                                }
                            },
                            Some(MetaField::CreatorField) => {
                                if creator.is_none() {
                                    creator = Some(ts);
                                }
                            },
                            None => {},
                        }
                    }
                    proof {
                        assert(OpfState {
                            region,
                            pending,
                            acc: acc@,
                            items: items.deep_view(),
                            title: title.deep_view(),
                            creator: creator.deep_view(),
                            spine: spine.deep_view(),
                        } == spec_commit(st));
                        assert(spec_opf_scan(dv, i as int, st) == spec_opf_scan(
                            dv,
                            i as int,
                            spec_commit(st),
                        ));
                    }
                },
            }
        }
        if !handled {
            match &events[i] {
                XmlEvent::Fault { detail } => {
                    return Err(EpubError::Xml(detail.clone()));
                },
                XmlEvent::Open { name, content, name_len } => {
                    if str_eq(name.as_str(), "metadata") {
                        region = Region::Metadata;
                    } else if str_eq(name.as_str(), "manifest") {
                        region = Region::Manifest;
                    } else if str_eq(name.as_str(), "spine") {
                        region = Region::Spine;
                    } else if str_eq(name.as_str(), "item") && region == Region::Manifest {
                        match split_tag_checked(content, *name_len) {
                            None => {
                                return Err(EpubError::Xml(content.clone()));
                            },
                            Some(attrs) => {
                                let id = attr_lookup(&attrs, "id");
                                let href = attr_lookup(&attrs, "href");
                                match (id, href) {
                                    (Some(x), Some(y)) => {
                                        if !x.as_str().is_empty() && !y.as_str().is_empty() {
                                            let ghost old_items = items@;
                                            let ghost pair_dv = (x@, y@);
                                            items.push((x, y));
                                            proof {
                                                let pushed = items@.last();
                                                assert(items@ == old_items.push(pushed));
                                                assert(pushed.deep_view() == pair_dv);
                                                crate::chars::lemma_dv_seq_push(
                                                    old_items,
                                                    pushed,
                                                );
                                                assert(items.deep_view() =~= crate::chars::dv_seq(
                                                    items@,
                                                ));
                                                assert(st.items =~= crate::chars::dv_seq(
                                                    old_items,
                                                ));
                                                assert(items.deep_view() =~= st.items.push(
                                                    pair_dv,
                                                ));
                                            }
                                        }
                                    },
                                    _ => {},
                                }
                            },
                        }
                    } else if str_eq(name.as_str(), "itemref") && region == Region::Spine {
                        match split_tag_checked(content, *name_len) {
                            None => {
                                return Err(EpubError::Xml(content.clone()));
                            },
                            Some(attrs) => {
                                match attr_lookup(&attrs, "idref") {
                                    Some(idr) => {
                                        match assoc_last(&items, idr.as_str()) {
                                            Some(href) => {
                                                let ghost old_spine = spine@;
                                                let ghost href_dv = href@;
                                                spine.push(href);
                                                proof {
                                                    let pushed = spine@.last();
                                                    assert(spine@ == old_spine.push(pushed));
                                                    assert(pushed.deep_view() == href_dv);
                                                    crate::chars::lemma_dv_seq_push(
                                                        old_spine,
                                                        pushed,
                                                    );
                                                    assert(spine.deep_view()
                                                        =~= crate::chars::dv_seq(spine@));
                                                    assert(st.spine =~= crate::chars::dv_seq(
                                                        old_spine,
                                                    ));
                                                    assert(spine.deep_view() =~= st.spine.push(
                                                        href_dv,
                                                    ));
                                                }
                                            },
                                            None => {},
                                        }
                                    },
                                    None => {},
                                }
                            },
                        }
                    } else if str_eq(name.as_str(), "dc:title") && region == Region::Metadata {
                        pending = Some(MetaField::TitleField);
                    } else if str_eq(name.as_str(), "dc:creator") && region == Region::Metadata {
                        pending = Some(MetaField::CreatorField);
                    }
                },
                XmlEvent::Close { name } => {
                    if str_eq(name.as_str(), "metadata") || str_eq(name.as_str(), "manifest")
                        || str_eq(name.as_str(), "spine") {
                        region = Region::Outside;
                    }
                },
                _ => {},
            }
        }
        i = i + 1;
    }
    let ghost st_end = OpfState {
        region,
        pending,
        acc: acc@,
        items: items.deep_view(),
        title: title.deep_view(),
        creator: creator.deep_view(),
        spine: spine.deep_view(),
    };
    let done = acc;
    let p = pending;
    let done_chars = chars_vec(done.as_str());
    let trimmed = trim_chars(&done_chars);
    if trimmed.len() > 0 {
        let ts = string_of_chars(&trimmed);
        match p {
            Some(MetaField::TitleField) => {
                if title.is_none() {
                    title = Some(ts);
                }
            },
            Some(MetaField::CreatorField) => {
                if creator.is_none() {
                    creator = Some(ts);
                }
            },
            None => {},
        }
    }
    let spine_empty = spine.len() == 0;
    proof {
        let fin = spec_commit(st_end);
        assert(spec_opf_scan(dv, 0, spec_opf_init()) == OpfOutcome::Parsed(fin));
        assert(fin.title == title.deep_view());
        assert(fin.creator == creator.deep_view());
        assert(fin.spine == spine.deep_view());
        assert(spine.deep_view().len() == spine@.len());
    }
    if spine_empty {
        return Err(EpubError::InvalidOpfStructure);
    }
    Ok(OpfParse { title, creator, spine })
}

/// Re-reads one raw tag's attributes through the trusted splitter.
fn split_tag_checked(content: &String, name_len: usize) -> (r: Option<Vec<(String, String)>>)
    ensures
        match r {
            Some(v) => tag_attrs_of(content@, name_len as int) == Some(v.deep_view()),
            None => tag_attrs_of(content@, name_len as int) is None,
        },
{
    crate::xml::split_tag(content.as_str(), name_len)
}

} // verus!
