//! The events of a character document, and the reader that yields them.
//!
//! The document is read by `quick_xml`. What the reader hands out is copied
//! into the plain types of this module, so that the rules of extraction can be
//! stated and proved over them.

use quick_xml::events::Event;
use quick_xml::Reader;
use vstd::prelude::*;

verus! {

/// One item of a start tag's attribute list, as the reader hands it out.
#[derive(Debug, Clone)]
pub enum AttributeItem {
    /// An attribute: its key and its raw value, both as written in the tag.
    Pair { key: Vec<u8>, value: Vec<u8> },
    /// The place where the attribute list stopped being well formed.
    Malformed,
}

/// One event of a document.
#[derive(Debug, Clone)]
pub enum XmlEvent {
    /// The opening of an element: a start tag, or a tag that closes itself.
    Start { name: Vec<u8>, attributes: Vec<AttributeItem> },
    /// Anything else: an end tag, text, a comment, a declaration.
    Other,
}

/// What an [`AttributeItem`] holds.
pub enum AttributeModel {
    Pair { key: Seq<u8>, value: Seq<u8> },
    Malformed,
}

/// What an [`XmlEvent`] holds.
pub enum EventModel {
    Start { name: Seq<u8>, attributes: Seq<AttributeModel> },
    Other,
}

/// One step of reading a document.
pub enum ReadStep {
    /// The reader handed out an event.
    Event(EventModel),
    /// The reader met markup that is not well formed, and stopped.
    Malformed,
}

impl View for AttributeItem {
    type V = AttributeModel;

    open spec fn view(&self) -> AttributeModel {
        match *self {
            AttributeItem::Pair { key, value } => AttributeModel::Pair { key: key@, value: value@ },
            AttributeItem::Malformed => AttributeModel::Malformed,
        }
    }
}

/// What a list of attribute items holds, item by item.
pub open spec fn attribute_models(items: Seq<AttributeItem>) -> Seq<AttributeModel> {
    Seq::new(items.len(), |i: int| items[i]@)
}

impl View for XmlEvent {
    type V = EventModel;

    open spec fn view(&self) -> EventModel {
        match *self {
            XmlEvent::Start { name, attributes } => EventModel::Start {
                name: name@,
                attributes: attribute_models(attributes@),
            },
            XmlEvent::Other => EventModel::Other,
        }
    }
}

/// A `quick_xml::Reader` over the bytes of one document. What is known of it
/// is the steps that it has still to take: see [`pending_steps`].
#[verifier::external_body]
pub struct DocumentReader<'a> {
    inner: Reader<&'a [u8]>,
}

/// `quick_xml::Error`: why the reader stopped.
#[verifier::external_type_specification]
#[verifier::external_body]
pub struct ExXmlError(quick_xml::Error);

/// The steps in which `quick_xml` reads a document from its first byte, with
/// surrounding whitespace trimmed from text and a tag that closes itself
/// read as a start tag followed by an end tag: one step for each event
/// before the end of the document, in the order of the document, and a last
/// step [`ReadStep::Malformed`] where the reader stops at an error instead
/// of reaching the end.
pub uninterp spec fn document_steps(document: Seq<u8>) -> Seq<ReadStep>;

/// The steps that a reader has still to take.
pub uninterp spec fn pending_steps(reader: DocumentReader) -> Seq<ReadStep>;

/// `Reader::from_reader` on a byte slice, followed by `trim_text(true)` and
/// `expand_empty_elements(true)`: a reader at the start of the document,
/// with all of the document's steps before it.
#[verifier::external_body]
pub(crate) fn open_reader<'a>(document: &'a [u8]) -> (reader: DocumentReader<'a>)
    ensures
        pending_steps(reader) == document_steps(document@),
{
    let mut inner = Reader::from_reader(document);
    inner.trim_text(true);
    inner.expand_empty_elements(true);
    DocumentReader { inner }
}

/// `Reader::read_event`, with the event copied into an [`XmlEvent`]: for a
/// start event, which the reader also gives for a tag that closes itself,
/// the name from `BytesStart::name` and the attribute items from the
/// iterator that `BytesStart::attributes` gives, keys and raw values as they
/// stand.
///
/// The reader takes its next pending step. An event is handed out as
/// `Ok(Some(..))`, an error of the reader as `Err(..)`. After an error, and
/// at the end of the document, no step is pending, and every further call
/// returns `Ok(None)`.
#[verifier::external_body]
pub(crate) fn next_event(reader: &mut DocumentReader) -> (step: Result<Option<XmlEvent>, quick_xml::Error>)
    ensures
        match step {
            Ok(Some(event)) => {
                &&& pending_steps(*old(reader)).len() > 0
                &&& pending_steps(*old(reader))[0] == ReadStep::Event(event@)
                &&& pending_steps(*final(reader)) == pending_steps(*old(reader)).drop_first()
            },
            Ok(None) => {
                &&& pending_steps(*old(reader)).len() == 0
                &&& pending_steps(*final(reader)).len() == 0
            },
            Err(_) => {
                &&& pending_steps(*old(reader)).len() > 0
                &&& pending_steps(*old(reader))[0] == ReadStep::Malformed
                &&& pending_steps(*final(reader)).len() == 0
            },
        },
{
    let mut buffer = Vec::new();
    Ok(match reader.inner.read_event(&mut buffer)? {
        Event::Start(tag) => Some(XmlEvent::Start {
            name: tag.name().to_vec(),
            attributes: tag.attributes().map(|item| match item {
                Ok(a) => AttributeItem::Pair { key: a.key.to_vec(), value: a.value.into_owned() },
                Err(_) => AttributeItem::Malformed,
            }).collect(),
        }),
        Event::Eof => None,
        _ => Some(XmlEvent::Other),
    })
}

} // verus!
