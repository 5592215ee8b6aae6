//! The XML events this library reads and writes, and the calls into the
//! `xml-rs` reader and writer that turn bytes into events and back.
use crate::error::InkmlError;
use vstd::prelude::*;
use xml::reader::XmlEvent as ReaderEvent;
use self::WriteEvent::{EndElement, StartDocument, StartElement, Vertex};
use self::XmlVersion::{Version10, Version11};
use xml::common::XmlVersion as V;
use xml::writer::XmlEvent as WriterEvent;
use xml::EmitterConfig;

verus! {

/// An event of the XML reader, reduced to what the document builder reads.
#[derive(Debug)]
pub enum XmlIn {
    /// An opening tag, by its local name (the namespace prefix dropped).
    StartElement(String),
    /// A closing tag, by its local name.
    EndElement(String),
    /// Character data between tags.
    Characters(String),
    /// Anything else: the declaration, the end of the document, comments,
    /// CDATA, processing instructions and whitespace-only text.
    Other,
}

/// The value of an `XmlIn`, its strings taken as character sequences.
pub enum XmlInView {
    StartElement(Seq<char>),
    EndElement(Seq<char>),
    Characters(Seq<char>),
    Other,
}

impl View for XmlIn {
    type V = XmlInView;

    open spec fn view(&self) -> XmlInView {
        match self {
            XmlIn::StartElement(n) => XmlInView::StartElement(n@),
            XmlIn::EndElement(n) => XmlInView::EndElement(n@),
            XmlIn::Characters(t) => XmlInView::Characters(t@),
            XmlIn::Other => XmlInView::Other,
        }
    }
}

pub open spec fn xml_in_views(s: Seq<XmlIn>) -> Seq<XmlInView> {
    s.map_values(|e: XmlIn| e@)
}

/// The version named in an XML declaration.
#[derive(Debug, Clone, Copy, PartialEq, Eq, Structural)]
pub enum XmlVersion {
    Version10,
    Version11,
}

/// An opening tag to write: its name, the namespace prefixes it declares
/// and its attributes, each in the order given.
#[derive(Debug)]
pub struct StartTag {
    pub name: String,
    pub namespaces: Vec<(String, String)>,
    pub attributes: Vec<(String, String)>,
}

/// An event to hand to the XML writer.  `Vertex` carries one vertex of a
/// trace; once the vertex is rendered as text, it is written as character
/// data.
#[derive(Debug)]
pub enum WriteEvent<T> {
    StartDocument { version: XmlVersion, encoding: Option<String>, standalone: Option<bool> },
    StartElement(StartTag),
    Vertex(T),
    EndElement,
}

/// The value of a `WriteEvent`, its strings taken as character sequences.
pub enum EventView<T> {
    StartDocument {
        version: XmlVersion,
        encoding: Option<Seq<char>>,
        standalone: Option<bool>,
    },
    StartElement {
        name: Seq<char>,
        namespaces: Seq<(Seq<char>, Seq<char>)>,
        attributes: Seq<(Seq<char>, Seq<char>)>,
    },
    Vertex(T),
    EndElement,
}

pub open spec fn pair_views(s: Seq<(String, String)>) -> Seq<(Seq<char>, Seq<char>)> {
    s.map_values(|p: (String, String)| (p.0@, p.1@))
}

impl<T> View for WriteEvent<T> {
    type V = EventView<T>;

    open spec fn view(&self) -> EventView<T> {
        match self {
            WriteEvent::StartDocument { version, encoding, standalone } => EventView::StartDocument {
                version: *version,
                encoding: match encoding {
                    Some(e) => Some(e@),
                    None => None,
                },
                standalone: *standalone,
            },
            WriteEvent::StartElement(tag) => EventView::StartElement {
                name: tag.name@,
                namespaces: pair_views(tag.namespaces@),
                attributes: pair_views(tag.attributes@),
            },
            WriteEvent::Vertex(t) => EventView::Vertex(*t),
            WriteEvent::EndElement => EventView::EndElement,
        }
    }
}

pub open spec fn event_views<T>(s: Seq<WriteEvent<T>>) -> Seq<EventView<T>> {
    s.map_values(|e: WriteEvent<T>| e@)
}

/// What `xml::EventReader` yields for `bytes` (default reader settings)
/// until it stops, each event reduced as `XmlIn` reduces it: the events
/// before it stops, and whether it stopped on an error (rather than after
/// the end of the document).
pub uninterp spec fn xml_reader_events(bytes: Seq<u8>) -> (Seq<XmlInView>, bool);

/// What an `xml::EventWriter` made with `perform_indent(true)` and writing
/// into an empty `Vec<u8>` holds after it is given `events` in order, each
/// `Vertex` as character data; `None` where it refuses one of them.
pub uninterp spec fn xml_writer_output(events: Seq<EventView<String>>) -> Option<Seq<u8>>;

/// Runs `xml::EventReader::new(bytes)` until it stops, keeping of each
/// event what `XmlIn` keeps, and the error it stopped on if any.  Trusted:
/// the events and whether an error came are `xml_reader_events` of the
/// bytes; which error came is not stated.
#[verifier::external_body]
fn reader_events(bytes: &[u8]) -> (r: (Vec<XmlIn>, Option<xml::reader::Error>))
    ensures
        xml_reader_events(bytes@) == (xml_in_views(r.0@), r.1 is Some),
{
    let mut events = Vec::new();
    for e in xml::EventReader::new(bytes) {
        events.push(match e {
            Err(error) => return (events, Some(error)),
            Ok(ReaderEvent::StartElement { name, .. }) => XmlIn::StartElement(name.local_name),
            Ok(ReaderEvent::EndElement { name }) => XmlIn::EndElement(name.local_name),
            Ok(ReaderEvent::Characters(text)) => XmlIn::Characters(text),
            Ok(ReaderEvent::StartDocument { .. } | ReaderEvent::EndDocument | ReaderEvent::CData(_)
            | ReaderEvent::ProcessingInstruction { .. } | ReaderEvent::Comment(_)
            | ReaderEvent::Whitespace(_)) => XmlIn::Other,
        });
    }
    (events, None)
}

/// Feeds `events` in order to an `xml::EventWriter` over an empty `Vec<u8>`
/// (`EmitterConfig::new().perform_indent(true)`), then takes the bytes out.
/// Trusted: the bytes, or the fact that an error came back, are
/// `xml_writer_output` of the events; which error came back is not stated.
#[verifier::external_body]
fn writer_output(events: &Vec<WriteEvent<String>>) -> (r: Result<Vec<u8>, xml::writer::Error>)
    ensures
        match r {
            Ok(b) => xml_writer_output(event_views(events@)) == Some(b@),
            Err(_) => xml_writer_output(event_views(events@)) is None,
        },
{
    let mut w = EmitterConfig::new().perform_indent(true).create_writer(Vec::new());
    for e in events {
        w.write(match e {
            StartDocument { version, encoding, standalone } => WriterEvent::StartDocument { version: match version { Version10 => V::Version10, Version11 => V::Version11 }, encoding: encoding.as_deref(), standalone: *standalone },
            StartElement(tag) => {
                let mut b = WriterEvent::start_element(tag.name.as_str());
                for (prefix, uri) in &tag.namespaces { b = b.ns(prefix, uri); }
                for (key, value) in &tag.attributes { b = b.attr(key.as_str(), value); }
                b.into()
            },
            Vertex(text) => WriterEvent::characters(text),
            EndElement => WriterEvent::end_element().into(),
        })?;
    }
    Ok(w.into_inner())
}

/// Reads the XML events of a document: the events the reader yields
/// before it stops, and, if it stopped on an error, that error as
/// `XmlReaderError`.
pub fn read_xml(bytes: &[u8]) -> (r: (Vec<XmlIn>, Option<InkmlError>))
    ensures
        xml_reader_events(bytes@).0 == xml_in_views(r.0@),
        xml_reader_events(bytes@).1 <==> r.1 is Some,
        r.1 matches Some(e) ==> e is XmlReaderError,
{
    let (events, error) = reader_events(bytes);
    match error {
        None => (events, None),
        Some(e) => (events, Some(InkmlError::XmlReaderError(e))),
    }
}

/// Writes `events` as an indented XML document.  `Ok` exactly when the XML
/// writer accepts them all; an error of the writer comes back as
/// `XmlWriterError`.
pub fn write_xml(events: &Vec<WriteEvent<String>>) -> (r: Result<Vec<u8>, InkmlError>)
    ensures
        match r {
            Ok(b) => xml_writer_output(event_views(events@)) == Some(b@),
            Err(e) => xml_writer_output(event_views(events@)) is None && e is XmlWriterError,
        },
{
    match writer_output(events) {
        Ok(b) => Ok(b),
        Err(e) => Err(InkmlError::XmlWriterError(e)),
    }
}

} // verus!
