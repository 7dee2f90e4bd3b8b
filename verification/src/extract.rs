//! Reading the names of a character's powers from a character document.
//!
//! Every element `Power` that carries an attribute `name` contributes the
//! value of that attribute, whether it has content or closes itself. The
//! names come out in the order of the document, and a name that occurs twice
//! comes out twice.

use crate::text::{same_bytes, texts_of};
use crate::xml::{
    attribute_models, document_steps, next_event, open_reader, pending_steps, AttributeItem,
    AttributeModel, EventModel, ReadStep, XmlEvent,
};
use vstd::prelude::*;
use vstd::slice::slice_to_vec;
use vstd::utf8::{decode_utf8, valid_utf8};

verus! {

/// The tag of the elements that name a power: the bytes of `Power`.
pub const POWER_TAG: [u8; 5] = [0x50, 0x6f, 0x77, 0x65, 0x72];

/// The key of the attribute that holds the name: the bytes of `name`.
pub const NAME_KEY: [u8; 4] = [0x6e, 0x61, 0x6d, 0x65];

/// Why a document was refused.
#[derive(Debug, Clone, Copy, PartialEq, Eq, Structural)]
pub enum MalformedInputError {
    /// The markup of the document is not well formed.
    Markup,
    /// The attribute list of a `Power` tag is not well formed.
    Attribute,
    /// The name of a power is not valid UTF-8.
    Encoding,
}

/// The raw value of the first attribute `name` in an attribute list, if there
/// is one. The list is read from the left, and reading stops at the first
/// attribute `name`: an item that is not well formed is an error where it is
/// reached, and goes unnoticed behind the name.
pub open spec fn name_attribute(attributes: Seq<AttributeModel>) -> Result<
    Option<Seq<u8>>,
    MalformedInputError,
>
    decreases attributes.len(),
{
    if attributes.len() == 0 {
        Ok(None)
    } else {
        match attributes[0] {
            AttributeModel::Malformed => Err(MalformedInputError::Attribute),
            AttributeModel::Pair { key, value } => if key == NAME_KEY@ {
                Ok(Some(value))
            } else {
                name_attribute(attributes.drop_first())
            },
        }
    }
}

/// The text that the raw value of a name stands for: the bytes decoded as
/// UTF-8, nothing unescaped.
pub open spec fn decoded_name(value: Seq<u8>) -> Result<Seq<char>, MalformedInputError> {
    if valid_utf8(value) {
        Ok(decode_utf8(value))
    } else {
        Err(MalformedInputError::Encoding)
    }
}

/// What one event contributes: the name of a power, nothing, or an error.
pub open spec fn contribution(event: EventModel) -> Result<Option<Seq<char>>, MalformedInputError> {
    match event {
        EventModel::Start { name, attributes } => if name == POWER_TAG@ {
            match name_attribute(attributes) {
                Err(e) => Err(e),
                Ok(None) => Ok(None),
                Ok(Some(value)) => match decoded_name(value) {
                    Err(e) => Err(e),
                    Ok(text) => Ok(Some(text)),
                },
            }
        } else {
            Ok(None)
        },
        EventModel::Other => Ok(None),
    }
}

/// The names found so far, with what one more step adds to them.
pub open spec fn after_step(names: Seq<Seq<char>>, step: ReadStep) -> Result<
    Seq<Seq<char>>,
    MalformedInputError,
> {
    match step {
        ReadStep::Malformed => Err(MalformedInputError::Markup),
        ReadStep::Event(event) => match contribution(event) {
            Err(e) => Err(e),
            Ok(None) => Ok(names),
            Ok(Some(name)) => Ok(names.push(name)),
        },
    }
}

/// The names that a run of steps yields, taken in order. The first step that
/// fails decides: what follows it is not looked at.
pub open spec fn names_in(steps: Seq<ReadStep>) -> Result<Seq<Seq<char>>, MalformedInputError>
    decreases steps.len(),
{
    if steps.len() == 0 {
        Ok(Seq::empty())
    } else {
        match names_in(steps.drop_last()) {
            Err(e) => Err(e),
            Ok(names) => after_step(names, steps.last()),
        }
    }
}

/// What a result of extraction holds.
pub open spec fn names_view(outcome: Result<Vec<String>, MalformedInputError>) -> Result<
    Seq<Seq<char>>,
    MalformedInputError,
> {
    match outcome {
        Ok(names) => Ok(texts_of(names@)),
        Err(e) => Err(e),
    }
}

/// What an optional string holds.
pub open spec fn optional_text(text: Option<String>) -> Option<Seq<char>> {
    match text {
        Some(s) => Some(s@),
        None => None,
    }
}

/// The raw value of the first attribute `name` among the items, copied out.
fn find_name(attributes: &Vec<AttributeItem>) -> (found: Result<
    Option<Vec<u8>>,
    MalformedInputError,
>)
    ensures
        match found {
            Ok(Some(value)) => name_attribute(attribute_models(attributes@)) == Ok::<
                Option<Seq<u8>>,
                MalformedInputError,
            >(Some(value@)),
            Ok(None) => name_attribute(attribute_models(attributes@)) == Ok::<
                Option<Seq<u8>>,
                MalformedInputError,
            >(None),
            Err(e) => name_attribute(attribute_models(attributes@)) == Err::<
                Option<Seq<u8>>,
                MalformedInputError,
            >(e),
        },
{
    let ghost all = attribute_models(attributes@);
    let mut at: usize = 0;
    proof {
        assert(all.skip(0) == all);
    }
    while at < attributes.len()
        invariant
            at <= attributes.len(),
            all == attribute_models(attributes@),
            name_attribute(all) == name_attribute(all.skip(at as int)),
        decreases attributes.len() - at,
    {
        proof {
            assert(all.skip(at as int)[0] == attributes@[at as int]@);
            assert(all.skip(at as int).drop_first() == all.skip(at as int + 1));
        }
        match &attributes[at] {
            AttributeItem::Malformed => {
                return Err(MalformedInputError::Attribute);
            },
            AttributeItem::Pair { key, value } => {
                if same_bytes(key.as_slice(), &NAME_KEY) {
                    return Ok(Some(slice_to_vec(value.as_slice())));
                }
            },
        }
        at = at + 1;
    }
    Ok(None)
}

/// What one event contributes to the names: `Ok(Some(name))` for the opening
/// of an element `Power` with an attribute `name`, `Ok(None)` for any other
/// event and for a `Power` tag without that attribute, and an error where
/// the attribute list of a `Power` tag breaks off before a name is found, or
/// the name is not valid UTF-8.
pub fn power_name(event: &XmlEvent) -> (found: Result<Option<String>, MalformedInputError>)
    ensures
        match found {
            Ok(name) => contribution(event@) == Ok::<Option<Seq<char>>, MalformedInputError>(
                optional_text(name),
            ),
            Err(e) => contribution(event@) == Err::<Option<Seq<char>>, MalformedInputError>(e),
        },
{
    match event {
        XmlEvent::Start { name, attributes } => {
            if !same_bytes(name.as_slice(), &POWER_TAG) {
                return Ok(None);
            }
            match find_name(attributes) {
                Err(e) => Err(e),
                Ok(None) => Ok(None),
                Ok(Some(value)) => match String::from_utf8(value) {
                    Ok(text) => Ok(Some(text)),
                    Err(_) => Err(MalformedInputError::Encoding),
                },
            }
        },
        XmlEvent::Other => Ok(None),
    }
}

/// Whether a step yields a name: an event `Power` that carries a well-formed
/// attribute `name`.
pub open spec fn carries_name(step: ReadStep) -> bool {
    step matches ReadStep::Event(event) && contribution(event) matches Ok(Some(_))
}

/// The name that a step yields, where it yields one.
pub open spec fn name_carried(step: ReadStep) -> Seq<char> {
    match step {
        ReadStep::Event(event) => match contribution(event) {
            Ok(Some(name)) => name,
            _ => Seq::empty(),
        },
        ReadStep::Malformed => Seq::empty(),
    }
}

/// Whether a step succeeds: an event that is no `Power` tag, or a `Power` tag
/// whose attribute list and name are in order.
pub open spec fn step_succeeds(step: ReadStep) -> bool {
    step matches ReadStep::Event(event) && contribution(event) is Ok
}

/// The steps that yield a name, in their order.
pub open spec fn naming_steps(steps: Seq<ReadStep>) -> Seq<ReadStep> {
    steps.filter(|step: ReadStep| carries_name(step))
}

/// In an attribute list, the first item that is either not well formed or an
/// attribute `name` decides: the one is an error, the other gives the name.
pub proof fn lemma_first_decisive_attribute(attributes: Seq<AttributeModel>, at: int)
    requires
        0 <= at < attributes.len(),
        forall|j: int|
            0 <= j < at ==> (#[trigger] attributes[j] matches AttributeModel::Pair { key, .. }
                && key != NAME_KEY@),
    ensures
        attributes[at] is Malformed ==> name_attribute(attributes) == Err::<
            Option<Seq<u8>>,
            MalformedInputError,
        >(MalformedInputError::Attribute),
        attributes[at] matches AttributeModel::Pair { key, value } ==> key == NAME_KEY@
            ==> name_attribute(attributes) == Ok::<Option<Seq<u8>>, MalformedInputError>(
            Some(value),
        ),
    decreases at,
{
    if at > 0 {
        let rest = attributes.drop_first();
        assert forall|j: int| 0 <= j < at - 1 implies (#[trigger] rest[j] matches AttributeModel::Pair {
            key,
            ..
        } && key != NAME_KEY@) by {
            assert(rest[j] == attributes[j + 1]);
        }
        assert(rest[at - 1] == attributes[at]);
        lemma_first_decisive_attribute(rest, at - 1);
    }
}

/// A well-formed attribute list without an attribute `name` gives no name,
/// and no error.
pub proof fn lemma_no_name_attribute(attributes: Seq<AttributeModel>)
    requires
        forall|j: int|
            0 <= j < attributes.len() ==> (#[trigger] attributes[j] matches AttributeModel::Pair {
                key,
                ..
            } && key != NAME_KEY@),
    ensures
        name_attribute(attributes) == Ok::<Option<Seq<u8>>, MalformedInputError>(None),
    decreases attributes.len(),
{
    if attributes.len() > 0 {
        let rest = attributes.drop_first();
        assert forall|j: int| 0 <= j < rest.len() implies (#[trigger] rest[j] matches AttributeModel::Pair {
            key,
            ..
        } && key != NAME_KEY@) by {
            assert(rest[j] == attributes[j + 1]);
        }
        lemma_no_name_attribute(rest);
    }
}

/// The opening of an element `Power` carries a name where its attribute
/// list holds an attribute `name` with a value in valid UTF-8, and before it
/// only well-formed attributes of other names. The name it carries is the
/// text of that value.
pub proof fn lemma_named_power_carries_name(attributes: Seq<AttributeModel>, at: int)
    requires
        0 <= at < attributes.len(),
        forall|j: int|
            0 <= j < at ==> (#[trigger] attributes[j] matches AttributeModel::Pair { key, .. }
                && key != NAME_KEY@),
        attributes[at] matches AttributeModel::Pair { key, value } && key == NAME_KEY@
            && valid_utf8(value),
    ensures
        contribution(EventModel::Start { name: POWER_TAG@, attributes }) == Ok::<
            Option<Seq<char>>,
            MalformedInputError,
        >(Some(decode_utf8(attributes[at]->Pair_value))),
        carries_name(ReadStep::Event(EventModel::Start { name: POWER_TAG@, attributes })),
{
    lemma_first_decisive_attribute(attributes, at);
}

/// Reading two runs of steps one after the other gives the names of the first
/// followed by the names of the second, and the first error in reading order.
/// So the names keep the order of the document, and none is merged or dropped.
pub proof fn lemma_names_concat(first: Seq<ReadStep>, second: Seq<ReadStep>)
    ensures
        names_in(first + second) == match names_in(first) {
            Err(e) => Err(e),
            Ok(head) => match names_in(second) {
                Err(e) => Err(e),
                Ok(tail) => Ok(head + tail),
            },
        },
    decreases second.len(),
{
    if second.len() == 0 {
        assert(first + second == first);
        if let Ok(head) = names_in(first) {
            assert(head + Seq::<Seq<char>>::empty() == head);
        }
    } else {
        lemma_names_concat(first, second.drop_last());
        assert((first + second).drop_last() == first + second.drop_last());
        assert((first + second).last() == second.last());
        if let Ok(head) = names_in(first) {
            if let Ok(tail) = names_in(second.drop_last()) {
                if carries_name(second.last()) {
                    let name = name_carried(second.last());
                    assert((head + tail).push(name) == head + tail.push(name));
                }
            }
        }
    }
}

/// Extraction succeeds on the documents in which every step succeeds, and on
/// no others.
pub proof fn lemma_success_iff_every_step_succeeds(steps: Seq<ReadStep>)
    ensures
        names_in(steps) is Ok <==> forall|i: int|
            0 <= i < steps.len() ==> step_succeeds(#[trigger] steps[i]),
    decreases steps.len(),
{
    if steps.len() > 0 {
        let front = steps.drop_last();
        lemma_success_iff_every_step_succeeds(front);
        if names_in(steps) is Ok {
            assert forall|i: int| 0 <= i < steps.len() implies step_succeeds(
                #[trigger] steps[i],
            ) by {
                if i < front.len() {
                    assert(front[i] == steps[i]);
                }
            }
        } else if names_in(front) is Ok {
            assert(!step_succeeds(steps[steps.len() - 1]));
        } else {
            let i = choose|i: int| 0 <= i < front.len() && !step_succeeds(#[trigger] front[i]);
            assert(front[i] == steps[i]);
        }
    }
}

/// Where extraction succeeds, it yields one name for each step that carries
/// one: as many names as there are `Power` tags with an attribute `name`,
/// each the name of its tag, in the order of the document, duplicates kept.
pub proof fn lemma_one_name_per_naming_step(steps: Seq<ReadStep>)
    requires
        names_in(steps) is Ok,
    ensures
        names_in(steps)->Ok_0.len() == naming_steps(steps).len(),
        forall|i: int|
            0 <= i < naming_steps(steps).len() ==> #[trigger] names_in(steps)->Ok_0[i]
                == name_carried(naming_steps(steps)[i]),
    decreases steps.len(),
{
    reveal(Seq::filter);
    if steps.len() > 0 {
        lemma_one_name_per_naming_step(steps.drop_last());
        assert(naming_steps(steps.drop_last()) == steps.drop_last().filter(
            |step: ReadStep| carries_name(step),
        ));
    }
}

/// A `Power` tag without an attribute `name` contributes nothing: with it or
/// without it, a document yields the same names.
pub proof fn lemma_nameless_power_adds_nothing(
    before: Seq<ReadStep>,
    attributes: Seq<AttributeModel>,
    after: Seq<ReadStep>,
)
    requires
        forall|j: int|
            0 <= j < attributes.len() ==> (#[trigger] attributes[j] matches AttributeModel::Pair {
                key,
                ..
            } && key != NAME_KEY@),
    ensures
        names_in(
            before.push(ReadStep::Event(EventModel::Start { name: POWER_TAG@, attributes })) + after,
        ) == names_in(before + after),
{
    let nameless = ReadStep::Event(EventModel::Start { name: POWER_TAG@, attributes });
    lemma_no_name_attribute(attributes);
    assert(before.push(nameless).drop_last() == before);
    lemma_names_concat(before.push(nameless), after);
    lemma_names_concat(before, after);
}

/// An error is final: steps that follow a failing run change nothing.
pub proof fn lemma_error_is_final(steps: Seq<ReadStep>, more: Seq<ReadStep>)
    requires
        names_in(steps) is Err,
    ensures
        names_in(steps + more) == names_in(steps),
    decreases more.len(),
{
    if more.len() == 0 {
        assert(steps + more == steps);
    } else {
        lemma_error_is_final(steps, more.drop_last());
        assert((steps + more).drop_last() == steps + more.drop_last());
    }
}

/// Reads the names of the powers from a character document.
///
/// The document is read event by event to its end. The result is the names
/// that its steps yield, in the order of the document, duplicates included;
/// it is an error as soon as a step fails, be it the markup, the attribute
/// list of a `Power` tag, or the encoding of a name.
pub fn extract_power_names(document: &[u8]) -> (outcome: Result<Vec<String>, MalformedInputError>)
    ensures
        names_view(outcome) == names_in(document_steps(document@)),
{
    let mut reader = open_reader(document);
    let mut power_names: Vec<String> = Vec::new();
    let ghost mut read: Seq<ReadStep> = Seq::empty();
    proof {
        assert(texts_of(power_names@) == Seq::<Seq<char>>::empty());
        assert(read + pending_steps(reader) == pending_steps(reader));
    }
    loop
        invariant
            read + pending_steps(reader) == document_steps(document@),
            names_in(read) == Ok::<Seq<Seq<char>>, MalformedInputError>(texts_of(power_names@)),
        decreases pending_steps(reader).len(),
    {
        let ghost before = pending_steps(reader);
        let ghost names_before = texts_of(power_names@);
        match next_event(&mut reader) {
            Ok(Some(event)) => {
                proof {
                    assert(read.push(before[0]) + before.drop_first() == read + before);
                    assert(read.push(before[0]).drop_last() == read);
                }
                match power_name(&event) {
                    Ok(Some(name)) => {
                        power_names.push(name);
                        proof {
                            assert(texts_of(power_names@) == names_before.push(name@));
                        }
                    },
                    Ok(None) => {},
                    Err(e) => {
                        proof {
                            lemma_error_is_final(read.push(before[0]), before.drop_first());
                        }
                        return Err(e);
                    },
                }
                proof {
                    read = read.push(before[0]);
                }
            },
            Ok(None) => {
                proof {
                    assert(read + before == read);
                }
                return Ok(power_names);
            },
            Err(_) => {
                proof {
                    assert(read.push(before[0]) + before.drop_first() == read + before);
                    assert(read.push(before[0]).drop_last() == read);
                    lemma_error_is_final(read.push(before[0]), before.drop_first());
                }
                return Err(MalformedInputError::Markup);
            },
        }
    }
}

} // verus!
