//! Markup documents as a flat run of events.
//!
//! The documents are read by the `xml-rs` crate. What it makes of a
//! document is a named result of that crate; the library's own reading of
//! rule sets starts from the events.
use vstd::prelude::*;
use xml::reader::{EventReader, ParserConfig, XmlEvent};

verus! {

/// An attribute of an element: its local name and its value.
pub struct Attribute {
    pub name: String,
    pub value: String,
}

pub struct AttributeView {
    pub name: Seq<char>,
    pub value: Seq<char>,
}

impl View for Attribute {
    type V = AttributeView;

    open spec fn view(&self) -> AttributeView {
        AttributeView { name: self.name@, value: self.value@ }
    }
}

impl Attribute {
    /// An attribute with the given name and value.
    pub fn new(name: String, value: String) -> (r: Attribute)
        ensures
            r@ == (AttributeView { name: name@, value: value@ }),
    {
        Attribute { name, value }
    }
}

/// The views of a list of attributes, in order.
pub open spec fn attribute_views(attributes: Seq<Attribute>) -> Seq<AttributeView> {
    Seq::new(attributes.len(), |i: int| attributes[i]@)
}

/// One step through a document.
pub enum MarkupEvent {
    /// An element opens, with its local name and its attributes in order.
    Open { name: String, attributes: Vec<Attribute> },
    /// The element that was opened last and is still open closes.
    Close,
    /// Character data, with entities resolved.
    Text(String),
    /// Anything else: the start and end of the document, a processing
    /// instruction, a comment.
    Other,
}

pub enum MarkupEventView {
    Open { name: Seq<char>, attributes: Seq<AttributeView> },
    Close,
    Text(Seq<char>),
    Other,
}

impl View for MarkupEvent {
    type V = MarkupEventView;

    open spec fn view(&self) -> MarkupEventView {
        match self {
            MarkupEvent::Open { name, attributes } => MarkupEventView::Open {
                name: name@,
                attributes: attribute_views(attributes@),
            },
            MarkupEvent::Close => MarkupEventView::Close,
            MarkupEvent::Text(text) => MarkupEventView::Text(text@),
            MarkupEvent::Other => MarkupEventView::Other,
        }
    }
}

/// The views of a list of events, in order.
pub open spec fn event_views(events: Seq<MarkupEvent>) -> Seq<MarkupEventView> {
    Seq::new(events.len(), |i: int| events[i]@)
}

/// What the reader of `xml-rs` makes of a document, with surrounding
/// whitespace trimmed from character data and CDATA read as character data:
/// its events up to the end of the document, or the text of its error where
/// the document is not well-formed.
pub uninterp spec fn markup_of(document: Seq<char>) -> Result<Seq<MarkupEventView>, Seq<char>>;

/// Runs `xml::reader::EventReader` over a document and hands out its
/// events one for one. Trusted: the outcome depends on the document alone.
/// Of what the events hold nothing is claimed.
#[verifier::external_body]
pub(crate) fn read_markup(document: &str) -> (r: Result<Vec<MarkupEvent>, String>)
    ensures
        match r {
            Ok(events) => markup_of(document@) == Ok::<Seq<MarkupEventView>, Seq<char>>(
                event_views(events@),
            ),
            Err(message) => markup_of(document@) == Err::<Seq<MarkupEventView>, Seq<char>>(
                message@,
            ),
        },
{
    let config = ParserConfig::new().trim_whitespace(true).whitespace_to_characters(true)
        .cdata_to_characters(true);
    let mut events = Vec::new();
    for event in EventReader::new_with_config(document.as_bytes(), config) {
        events.push(match event.map_err(|error| error.to_string())? {
            XmlEvent::StartElement { name, attributes, .. } => MarkupEvent::Open {
                name: name.local_name,
                attributes: attributes.into_iter().map(|a| Attribute::new(a.name.local_name, a.value)).collect(),
            },
            XmlEvent::EndElement { .. } => MarkupEvent::Close,
            XmlEvent::Characters(text) => MarkupEvent::Text(text),
            _ => MarkupEvent::Other,
        });
    }
    Ok(events)
}

} // verus!
