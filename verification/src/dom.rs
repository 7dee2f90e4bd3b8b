//! The stored markup of a power as a tree, and the element in it that is
//! rewritten.
//!
//! The markup is parsed, searched and written out again by `kuchikiki`. This
//! module states what the rewriting relies on. A document comes from
//! [`parse_document`] alone and is used up by [`select_first`]; an element
//! comes from [`select_first`] alone and is changed by [`set_attribute`]
//! alone. So an element is known by the markup it was found in, by the
//! selector that found it, and by the attributes it carries now.

use crate::attributes::{with_entry, AttributeList};
use kuchikiki::traits::TendrilSink;
use kuchikiki::{ElementData, NodeDataRef, NodeRef};
use vstd::prelude::*;
use vstd::utf8::encode_utf8;

verus! {

/// `kuchikiki::NodeRef`: a node of a parsed tree. Here it is always the
/// root of a document.
#[verifier::external_type_specification]
#[verifier::external_body]
pub struct ExNodeRef(NodeRef);

/// `kuchikiki::ElementData`: what a node holds when it is an element.
#[verifier::external_type_specification]
#[verifier::external_body]
pub struct ExElementData(ElementData);

/// `kuchikiki::NodeDataRef`: a node, held by what it holds. With
/// `ElementData` it is an element of a parsed tree.
#[verifier::external_type_specification]
#[verifier::external_body]
#[verifier::reject_recursive_types(T)]
pub struct ExNodeDataRef<T>(NodeDataRef<T>);

/// `std::io::Error`: why writing an element out failed.
#[verifier::external_type_specification]
#[verifier::external_body]
pub struct ExIoError(std::io::Error);

/// The longest markup that is parsed, in bytes. The parser keeps text in
/// buffers that hold less than 4 GiB and panics beyond that; it may write
/// three bytes in place of one. A markup of at most 256 MiB stays well clear
/// of the limit, however it is written.
pub const MAX_MARKUP_BYTES: usize = 0x1000_0000;

/// The most `<` that a markup may hold. The writer calls itself once for
/// each level of nesting, and the parser sets no limit to the nesting. Every
/// element is opened by a tag, and a tag opens at most three levels at once
/// (a table cell brings the body and the row of its table): a markup with
/// no more `<` than this nests less than a thousand deep, which takes the
/// writer a few hundred kilobytes of stack.
pub const MAX_OPENINGS: usize = 300;

/// How many `<` a run of bytes holds.
pub open spec fn openings(bytes: Seq<u8>) -> nat
    decreases bytes.len(),
{
    if bytes.len() == 0 {
        0
    } else if bytes.last() == 0x3c {
        openings(bytes.drop_last()) + 1
    } else {
        openings(bytes.drop_last())
    }
}

/// Whether a markup can be parsed and written out again: it is at most
/// [`MAX_MARKUP_BYTES`] long and holds at most [`MAX_OPENINGS`] `<`.
pub open spec fn markup_fits(markup: Seq<char>) -> bool {
    &&& encode_utf8(markup).len() <= MAX_MARKUP_BYTES
    &&& openings(encode_utf8(markup)) <= MAX_OPENINGS
}

/// The markup that a document was parsed from.
pub uninterp spec fn document_source(document: NodeRef) -> Seq<char>;

/// The attributes of the first element, in the order of the document, that
/// matches a selector in the tree that `kuchikiki` parses a markup into;
/// `None` where no element matches, or the text is no selector.
pub uninterp spec fn first_match(markup: Seq<char>, selector: Seq<char>) -> Option<AttributeList>;

/// The markup of the document in which an element was found.
pub uninterp spec fn element_source(element: NodeDataRef<ElementData>) -> Seq<char>;

/// The selector that found an element.
pub uninterp spec fn element_selector(element: NodeDataRef<ElementData>) -> Seq<char>;

/// The attributes that an element carries now: those that stand in no
/// namespace, as pairs of name and value, in their order.
pub uninterp spec fn element_attributes(element: NodeDataRef<ElementData>) -> AttributeList;

/// The bytes that `kuchikiki` writes for the first match of a selector in a
/// markup, its subtree included, once the element carries the given
/// attributes; `None` where writing fails.
pub uninterp spec fn serialized(
    markup: Seq<char>,
    selector: Seq<char>,
    attributes: AttributeList,
) -> Option<Seq<u8>>;

/// `kuchikiki::parse_html`, fed one string: the tree of the markup. Parsing
/// does not fail: markup that is not well formed is mended as a browser
/// mends it. A markup beyond [`MAX_MARKUP_BYTES`] is kept out, because the
/// parser panics where its buffers overflow; one beyond [`MAX_OPENINGS`],
/// because its tree may be too deep to be written out.
#[verifier::external_body]
pub(crate) fn parse_document(markup: &str) -> (document: NodeRef)
    requires
        markup_fits(markup@),
    ensures
        document_source(document) == markup@,
{
    kuchikiki::parse_html().one(markup)
}

/// `NodeRef::select_first`: the first element of the document that matches
/// the selector, or `None` where there is none. The element is known by the
/// markup and the selector, and carries the attributes that the markup gave
/// it. The document is used up: the element keeps its own subtree alive.
#[verifier::external_body]
pub(crate) fn select_first(document: NodeRef, selector: &str) -> (found: Option<
    NodeDataRef<ElementData>,
>)
    ensures
        match found {
            Some(element) => {
                &&& first_match(document_source(document), selector@) == Some(
                    element_attributes(element),
                )
                &&& element_source(element) == document_source(document)
                &&& element_selector(element) == selector@
            },
            None => first_match(document_source(document), selector@) is None,
        },
{
    document.select_first(selector).ok()
}

/// `Attributes::insert` on the attributes of the element: the attribute of
/// that name, in no namespace, gets the value. An attribute that is there
/// keeps its place, a new one comes last; nothing else of the element
/// changes.
#[verifier::external_body]
pub(crate) fn set_attribute(element: &mut NodeDataRef<ElementData>, name: &str, value: String)
    ensures
        element_attributes(*final(element)) == with_entry(
            element_attributes(*old(element)),
            name@,
            value@,
        ),
        element_source(*final(element)) == element_source(*old(element)),
        element_selector(*final(element)) == element_selector(*old(element)),
{
    element.attributes.borrow_mut().insert(name, value);
}

/// `NodeRef::serialize` on the node of the element, into a vector of bytes:
/// the element and its subtree in HTML syntax. The writer calls itself once
/// for each level of nesting, so an element from a markup that may nest
/// without limit is kept out: see [`MAX_OPENINGS`].
#[verifier::external_body]
pub(crate) fn serialize_element(element: &NodeDataRef<ElementData>) -> (written: Result<
    Vec<u8>,
    std::io::Error,
>)
    requires
        markup_fits(element_source(*element)),
    ensures
        match written {
            Ok(bytes) => serialized(
                element_source(*element),
                element_selector(*element),
                element_attributes(*element),
            ) == Some(bytes@),
            Err(_) => serialized(
                element_source(*element),
                element_selector(*element),
                element_attributes(*element),
            ) is None,
        },
{
    let mut bytes = Vec::new();
    element.as_node().serialize(&mut bytes)?;
    Ok(bytes)
}

} // verus!
