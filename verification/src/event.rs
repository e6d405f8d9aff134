//! Structural events: what a markup tokenizer hands to the recognizer.

use vstd::prelude::*;
use xml::common::XmlVersion;
use xml::reader::{ParserConfig, XmlEvent};

verus! {

/// The version that a document declares.
#[derive(Debug, Clone, Copy, PartialEq, Eq)]
pub enum Version {
    V10,
    V11,
}

/// One attribute of a start tag, by local name.
#[derive(Debug, Clone, PartialEq, Eq)]
pub struct Attribute {
    pub name: String,
    pub value: String,
}

/// One structural event. Elements are known by their local names.
#[derive(Debug, Clone, PartialEq, Eq)]
pub enum Event {
    StartDocument { version: Version, encoding: String, standalone: Option<bool> },
    EndDocument,
    StartElement { name: String, attributes: Vec<Attribute> },
    EndElement { name: String },
    /// Anything else: text, comments, processing instructions.
    Other,
}

/// Model of an attribute.
pub struct AttributeModel {
    pub name: Seq<char>,
    pub value: Seq<char>,
}

/// Model of an event.
pub enum EventModel {
    StartDocument { version: Version, encoding: Seq<char>, standalone: Option<bool> },
    EndDocument,
    StartElement { name: Seq<char>, attributes: Seq<AttributeModel> },
    EndElement { name: Seq<char> },
    Other,
}

impl View for Attribute {
    type V = AttributeModel;

    open spec fn view(&self) -> AttributeModel {
        AttributeModel { name: self.name@, value: self.value@ }
    }
}

/// The models of a list of attributes, in order.
pub open spec fn attributes_view(attrs: Seq<Attribute>) -> Seq<AttributeModel> {
    attrs.map_values(|a: Attribute| a@)
}

impl View for Event {
    type V = EventModel;

    open spec fn view(&self) -> EventModel {
        match self {
            Event::StartDocument { version, encoding, standalone } => EventModel::StartDocument {
                version: *version,
                encoding: encoding@,
                standalone: *standalone,
            },
            Event::EndDocument => EventModel::EndDocument,
            Event::StartElement { name, attributes } => EventModel::StartElement {
                name: name@,
                attributes: attributes_view(attributes@),
            },
            Event::EndElement { name } => EventModel::EndElement { name: name@ },
            Event::Other => EventModel::Other,
        }
    }
}

/// The models of a list of events, in order.
pub open spec fn events_view(events: Seq<Event>) -> Seq<EventModel> {
    events.map_values(|e: Event| e@)
}

/// The events that the tokenizer reads from `input` with surrounding
/// whitespace trimmed: every event up to and including the end of the
/// document, or up to the first place where the text is not well formed.
pub uninterp spec fn tokenized(input: Seq<u8>) -> Seq<EventModel>;

/// Builds a reader with `xml::reader::ParserConfig::new()`, its setter
/// `trim_whitespace(true)` and `create_reader`, and collects what the
/// iterator of that `xml::reader::EventReader` yields before its first error;
/// the iterator ends by itself behind the end of the document or an error.
/// Names are reduced to their local part, and events other than document and
/// element boundaries become `Event::Other`. Nothing is proved of this
/// function: the contract claims only that the events are a function of the
/// input bytes, and gives that function its name.
#[verifier::external_body]
pub(crate) fn read_events(input: &[u8]) -> (events: Vec<Event>)
    ensures
        events_view(events@) == tokenized(input@),
{
    let config = ParserConfig::new().trim_whitespace(true);
    config.create_reader(input).into_iter().map_while(|r| r.ok()).map(|e| match e {
        XmlEvent::StartDocument { version, encoding, standalone } => Event::StartDocument {
            version: match version { XmlVersion::Version10 => Version::V10, XmlVersion::Version11 => Version::V11 },
            encoding,
            standalone,
        },
        XmlEvent::EndDocument => Event::EndDocument,
        XmlEvent::StartElement { name, attributes, .. } => Event::StartElement {
            name: name.local_name,
            attributes: attributes.into_iter().map(|a| Attribute { name: a.name.local_name, value: a.value }).collect(),
        },
        XmlEvent::EndElement { name } => Event::EndElement { name: name.local_name },
        _ => Event::Other,
    }).collect()
}

} // verus!
