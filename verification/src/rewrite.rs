//! Retagging the stored markup of a power.
//!
//! The stored markup holds one element marked with a sentinel identity. That
//! element is given the name of the power as its identity and the usage
//! category of the power among its classes, and is written out alone, with
//! its subtree.

use crate::attributes::{
    lemma_other_value_kept, lemma_set_value_again, lemma_value_after_set, value_of, with_entry,
    AttributeList,
};
use crate::dom::{
    first_match, markup_fits, openings, parse_document, select_first, serialize_element,
    serialized, set_attribute, MAX_MARKUP_BYTES, MAX_OPENINGS,
};
use crate::repository::{PowerRecord, PowerRecordView};
use vstd::prelude::*;
use vstd::string::StringExecFns;
use vstd::utf8::{decode_utf8, valid_utf8};

verus! {

/// The selector of the element that is rewritten: the one whose identity is
/// the sentinel `detail`.
pub const SENTINEL_SELECTOR: &'static str = "#detail";

/// The name of the identity attribute.
pub const IDENTITY_ATTRIBUTE: &'static str = "id";

/// The name of the class attribute.
pub const CLASS_ATTRIBUTE: &'static str = "class";

/// The class that every rewritten fragment carries, and the space that
/// parts it from the usage category.
pub const CLASS_PREFIX: &'static str = "Power ";

/// Why a record gave no fragment.
#[derive(Debug, Clone, Copy, PartialEq, Eq, Structural)]
pub enum RewriteError {
    /// The stored markup holds no element with the sentinel identity.
    FragmentStructure,
    /// The rewritten element could not be written out as text.
    Serialization,
}

/// The classes of a rewritten fragment: `Power`, then the usage category.
pub open spec fn class_list_text(usage_category: Seq<char>) -> Seq<char> {
    CLASS_PREFIX@ + usage_category
}

/// The attributes of the designated element after rewriting: the identity is
/// the name of the power and the class attribute is the class list, whatever
/// either was before, and whether or not the element had them.
pub open spec fn retagged(
    attributes: AttributeList,
    name: Seq<char>,
    usage_category: Seq<char>,
) -> AttributeList {
    with_entry(
        with_entry(attributes, IDENTITY_ATTRIBUTE@, name),
        CLASS_ATTRIBUTE@,
        class_list_text(usage_category),
    )
}

/// The fragment that written bytes stand for: their text, where the element
/// was written and the bytes are valid UTF-8.
pub open spec fn fragment_text(written: Option<Seq<u8>>) -> Result<Seq<char>, RewriteError> {
    match written {
        Some(bytes) => if valid_utf8(bytes) {
            Ok(decode_utf8(bytes))
        } else {
            Err(RewriteError::Serialization)
        },
        None => Err(RewriteError::Serialization),
    }
}

/// The fragment of a record: the designated element of its markup, written
/// out with the retagged attributes.
pub open spec fn rewritten(record: PowerRecordView) -> Result<Seq<char>, RewriteError> {
    match first_match(record.raw_markup, SENTINEL_SELECTOR@) {
        None => Err(RewriteError::FragmentStructure),
        Some(attributes) => fragment_text(
            serialized(
                record.raw_markup,
                SENTINEL_SELECTOR@,
                retagged(attributes, record.name, record.usage_category),
            ),
        ),
    }
}

/// What the outcome of a rewrite holds.
pub open spec fn fragment_view(outcome: Result<String, RewriteError>) -> Result<
    Seq<char>,
    RewriteError,
> {
    match outcome {
        Ok(fragment) => Ok(fragment@),
        Err(e) => Err(e),
    }
}

/// The two attributes that rewriting sets are two: setting the one leaves
/// the other alone.
pub proof fn lemma_identity_is_not_class()
    ensures
        IDENTITY_ATTRIBUTE@ != CLASS_ATTRIBUTE@,
{
    reveal_strlit("id");
    reveal_strlit("class");
    assert(IDENTITY_ATTRIBUTE@.len() == 2);
    assert(CLASS_ATTRIBUTE@.len() == 5);
}

/// After rewriting, the element has the name of the power as its identity
/// and `Power`, followed by the usage category, as its class attribute,
/// whatever attributes it had before; and every other attribute is as it
/// was.
pub proof fn lemma_retagged_attributes(
    attributes: AttributeList,
    name: Seq<char>,
    usage_category: Seq<char>,
)
    ensures
        value_of(retagged(attributes, name, usage_category), IDENTITY_ATTRIBUTE@) == Some(name),
        value_of(retagged(attributes, name, usage_category), CLASS_ATTRIBUTE@) == Some(
            CLASS_PREFIX@ + usage_category,
        ),
        forall|other: Seq<char>|
            other != IDENTITY_ATTRIBUTE@ && other != CLASS_ATTRIBUTE@ ==> #[trigger] value_of(
                retagged(attributes, name, usage_category),
                other,
            ) == value_of(attributes, other),
{
    let with_identity = with_entry(attributes, IDENTITY_ATTRIBUTE@, name);
    let classes = class_list_text(usage_category);
    lemma_identity_is_not_class();
    lemma_value_after_set(attributes, IDENTITY_ATTRIBUTE@, name);
    lemma_value_after_set(with_identity, CLASS_ATTRIBUTE@, classes);
    lemma_other_value_kept(with_identity, CLASS_ATTRIBUTE@, classes, IDENTITY_ATTRIBUTE@);
    assert forall|other: Seq<char>|
        other != IDENTITY_ATTRIBUTE@ && other != CLASS_ATTRIBUTE@ implies #[trigger] value_of(
        retagged(attributes, name, usage_category),
        other,
    ) == value_of(attributes, other) by {
        lemma_other_value_kept(attributes, IDENTITY_ATTRIBUTE@, name, other);
        lemma_other_value_kept(with_identity, CLASS_ATTRIBUTE@, classes, other);
    }
}

/// Rewriting the attributes a second time with the same name and category
/// changes nothing: the rewrite is idempotent on the identity and the class
/// attribute.
pub proof fn lemma_retag_is_idempotent(
    attributes: AttributeList,
    name: Seq<char>,
    usage_category: Seq<char>,
)
    ensures
        retagged(retagged(attributes, name, usage_category), name, usage_category) == retagged(
            attributes,
            name,
            usage_category,
        ),
{
    let once = retagged(attributes, name, usage_category);
    lemma_retagged_attributes(attributes, name, usage_category);
    lemma_set_value_again(once, IDENTITY_ATTRIBUTE@, name);
    lemma_set_value_again(once, CLASS_ATTRIBUTE@, class_list_text(usage_category));
}

/// Two records that hold the same name, category and markup have the same
/// fragment, or fail alike: rewriting a record again yields the same text,
/// byte for byte.
pub proof fn lemma_rewrite_is_repeatable(first: PowerRecord, second: PowerRecord)
    requires
        first.name@ == second.name@,
        first.usage_category@ == second.usage_category@,
        first.raw_markup@ == second.raw_markup@,
    ensures
        rewritten(first@) == rewritten(second@),
{
}

/// The class list for a usage category.
pub fn class_list(usage_category: &str) -> (classes: String)
    ensures
        classes@ == class_list_text(usage_category@),
{
    let mut classes = String::from_str(CLASS_PREFIX);
    classes.append(usage_category);
    classes
}

/// Turns the bytes of a written element into the fragment: their text where
/// they are valid UTF-8, `RewriteError::Serialization` where they are not.
pub fn fragment_from_bytes(bytes: Vec<u8>) -> (outcome: Result<String, RewriteError>)
    ensures
        fragment_view(outcome) == fragment_text(Some(bytes@)),
{
    match String::from_utf8(bytes) {
        Ok(fragment) => Ok(fragment),
        Err(_) => Err(RewriteError::Serialization),
    }
}

/// Whether the markup of a record can be rewritten: it is at most
/// [`MAX_MARKUP_BYTES`] long and holds at most [`MAX_OPENINGS`] `<`, so that
/// neither the parser nor the writer runs out of room.
pub fn can_rewrite(record: &PowerRecord) -> (fits: bool)
    ensures
        fits == markup_fits(record.raw_markup@),
{
    let bytes = record.raw_markup.as_str().as_bytes();
    if bytes.len() > MAX_MARKUP_BYTES {
        return false;
    }
    let mut found: usize = 0;
    let mut at: usize = 0;
    while at < bytes.len()
        invariant
            at <= bytes.len(),
            found <= at,
            found == openings(bytes@.take(at as int)),
        decreases bytes.len() - at,
    {
        proof {
            assert(bytes@.take(at as int + 1).drop_last() == bytes@.take(at as int));
        }
        if bytes[at] == 0x3c {
            found = found + 1;
        }
        at = at + 1;
    }
    proof {
        assert(bytes@.take(at as int) == bytes@);
    }
    found <= MAX_OPENINGS
}

/// Rewrites the stored markup of a power into its fragment.
///
/// The first element of the markup whose identity is the sentinel gets the
/// name of the power as its identity and `Power`, followed by the usage
/// category, as its classes. The fragment is that element with its subtree,
/// as text. A markup without such an element is refused with
/// `RewriteError::FragmentStructure`; an element that cannot be written out
/// as text, with `RewriteError::Serialization`. The markup has to be one
/// that can be parsed and written out again: see [`can_rewrite`].
pub fn rewrite(record: &PowerRecord) -> (outcome: Result<String, RewriteError>)
    requires
        markup_fits(record.raw_markup@),
    ensures
        fragment_view(outcome) == rewritten(record@),
{
    let document = parse_document(record.raw_markup.as_str());
    let mut element = match select_first(document, SENTINEL_SELECTOR) {
        Some(element) => element,
        None => {
            return Err(RewriteError::FragmentStructure);
        },
    };
    set_attribute(&mut element, IDENTITY_ATTRIBUTE, record.name.clone());
    set_attribute(&mut element, CLASS_ATTRIBUTE, class_list(record.usage_category.as_str()));
    match serialize_element(&element) {
        Ok(bytes) => fragment_from_bytes(bytes),
        Err(_) => Err(RewriteError::Serialization),
    }
}

} // verus!
