//! Markup events, reduced to plain values. The event stream itself comes from
//! the `quick_xml` reader behind trusted wrappers; everything that interprets
//! the events is verified against the named stream `xml_events_of`.

use vstd::prelude::*;
use quick_xml::events::Event;

verus! {

/// One markup event as the manifest parser consumes it.
pub enum XmlEvent {
    /// An opening or self-closing tag: its name, the raw tag content (name
    /// and attributes together) and the length of the name within it.
    Open { name: String, content: String, name_len: usize },
    /// A closing tag.
    Close { name: String },
    /// A text node, still carrying its escapes.
    Text { raw: String },
    /// An entity or character reference standing in text, by its bare name.
    Ref { raw: String },
    /// An event of no interest here (a comment, a declaration, CDATA).
    Skip,
    /// The scan failed at this point; nothing follows it in the stream.
    Fault { detail: String },
}

/// The ghost shape of one markup event.
pub enum XmlEventV {
    Open { name: Seq<char>, content: Seq<char>, name_len: int },
    Close { name: Seq<char> },
    Text { raw: Seq<char> },
    Ref { raw: Seq<char> },
    Skip,
    Fault { detail: Seq<char> },
}

impl DeepView for XmlEvent {
    type V = XmlEventV;

    open spec fn deep_view(&self) -> XmlEventV {
        match self {
            XmlEvent::Open { name, content, name_len } => XmlEventV::Open {
                name: name@,
                content: content@,
                name_len: *name_len as int,
            },
            XmlEvent::Close { name } => XmlEventV::Close { name: name@ },
            XmlEvent::Text { raw } => XmlEventV::Text { raw: raw@ },
            XmlEvent::Ref { raw } => XmlEventV::Ref { raw: raw@ },
            XmlEvent::Skip => XmlEventV::Skip,
            XmlEvent::Fault { detail } => XmlEventV::Fault { detail: detail@ },
        }
    }
}

/// The event stream that the markup reader produces for `text`: a pure
/// function of the text. A malformed document yields a stream ending in
/// one `Fault`.
pub uninterp spec fn xml_events_of(text: Seq<char>) -> Seq<XmlEventV>;

#[verifier::external_type_specification]
#[verifier::external_body]
pub struct ExXmlRawEvent<'a>(Event<'a>);

/// Relies on `BytesStart::name` and the `AsRef` views of the reader's
/// events: moves one event's pieces into a plain event. Start and Empty
/// tags both come out as `Open`.
#[verifier::external_body]
fn convert_event(ev: &Event<'_>) -> (r: XmlEvent) {
    match ev {
        Event::Start(e) | Event::Empty(e) => {
            let nm = e.name().into_inner();
            XmlEvent::Open { name: nm.to_string(), content: e.as_ref().to_string(), name_len: nm.len() }
        },
        Event::End(e) => XmlEvent::Close { name: e.name().into_inner().to_string() },
        Event::Text(t) => XmlEvent::Text { raw: t.as_ref().to_string() },
        Event::GeneralRef(r) => XmlEvent::Ref { raw: r.as_ref().to_string() },
        _ => XmlEvent::Skip,
    }
}

/// Relies on `quick_xml::Reader`: the event stream of a document is a pure
/// function of its text, and a read error ends the stream with one `Fault`.
#[verifier::external_body]
pub fn scan_xml(text: &str) -> (r: Vec<XmlEvent>)
    ensures
        r.deep_view() == xml_events_of(text@),
{
    let mut rd = quick_xml::Reader::from_str(text);
    let mut out: Vec<XmlEvent> = Vec::new();
    loop {
        match rd.read_event() {
            Ok(Event::Eof) => return out,
            Ok(ev) => out.push(convert_event(&ev)),
            Err(err) => { out.push(XmlEvent::Fault { detail: err.to_string() }); return out; }
        }
    }
}

/// What the attribute iterator yields for one tag: keys and values as they
/// stand in the text (values still escaped), a pure function of the raw tag
/// content and its name length; `None` where an attribute is malformed.
pub uninterp spec fn tag_attrs_of(content: Seq<char>, name_len: int) -> Option<
    Seq<(Seq<char>, Seq<char>)>,
>;

/// Relies on `BytesStart::from_content` and its `Attributes` iterator:
/// re-reads a raw tag and hands its attributes out as plain pairs.
#[verifier::external_body]
pub fn split_tag(content: &str, name_len: usize) -> (r: Option<Vec<(String, String)>>)
    ensures
        match r {
            Some(v) => tag_attrs_of(content@, name_len as int) == Some(v.deep_view()),
            None => tag_attrs_of(content@, name_len as int) is None,
        },
{
    let bs = quick_xml::events::BytesStart::from_content(content, name_len);
    let mut attrs: Vec<(String, String)> = Vec::new();
    for a in bs.attributes() {
        match a {
            Ok(at) => attrs.push((at.key.into_inner().to_string(), at.value.into_owned())),
            Err(_) => return None,
        }
    }
    Some(attrs)
}

/// What unescaping one text node yields, `None` on a bad escape: a pure
/// function of the raw text.
pub uninterp spec fn unescaped_of(raw: Seq<char>) -> Option<Seq<char>>;

/// Relies on `quick_xml::escape::unescape`.
#[verifier::external_body]
pub fn unescape_text(raw: &str) -> (r: Option<String>)
    ensures
        match r {
            Some(s) => unescaped_of(raw@) == Some(s@),
            None => unescaped_of(raw@) is None,
        },
{
    match quick_xml::escape::unescape(raw) {
        Ok(c) => Some(c.into_owned()),
        Err(_) => None,
    }
}

} // verus!
