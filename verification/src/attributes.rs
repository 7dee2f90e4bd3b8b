//! The attribute list of an element, as pairs of name and value.

use vstd::prelude::*;

verus! {

/// The attributes of an element that stand in no namespace, as pairs of name
/// and value, in the order in which the element carries them.
pub type AttributeList = Seq<(Seq<char>, Seq<char>)>;

/// The value that a list holds for a name, if it holds one.
pub open spec fn value_of(attributes: AttributeList, name: Seq<char>) -> Option<Seq<char>>
    decreases attributes.len(),
{
    if attributes.len() == 0 {
        None
    } else if attributes[0].0 == name {
        Some(attributes[0].1)
    } else {
        value_of(attributes.drop_first(), name)
    }
}

/// A list after an attribute is set: the value takes the place of the old one
/// where the list holds the name, and the pair goes to the end where it does
/// not.
pub open spec fn with_entry(attributes: AttributeList, name: Seq<char>, value: Seq<char>) -> AttributeList
    decreases attributes.len(),
{
    if attributes.len() == 0 {
        seq![(name, value)]
    } else if attributes[0].0 == name {
        seq![(name, value)] + attributes.drop_first()
    } else {
        seq![attributes[0]] + with_entry(attributes.drop_first(), name, value)
    }
}

/// An attribute that was set has the value it was set to, whether the list
/// held it before or not.
pub proof fn lemma_value_after_set(attributes: AttributeList, name: Seq<char>, value: Seq<char>)
    ensures
        value_of(with_entry(attributes, name, value), name) == Some(value),
    decreases attributes.len(),
{
    if attributes.len() > 0 && attributes[0].0 != name {
        let rest = with_entry(attributes.drop_first(), name, value);
        lemma_value_after_set(attributes.drop_first(), name, value);
        assert((seq![attributes[0]] + rest).drop_first() == rest);
    }
}

/// Setting one attribute leaves the value of every other as it was.
pub proof fn lemma_other_value_kept(
    attributes: AttributeList,
    name: Seq<char>,
    value: Seq<char>,
    other: Seq<char>,
)
    requires
        other != name,
    ensures
        value_of(with_entry(attributes, name, value), other) == value_of(attributes, other),
    decreases attributes.len(),
{
    let set = with_entry(attributes, name, value);
    if attributes.len() == 0 {
        assert(set.drop_first() == attributes);
        assert(value_of(set, other) == value_of(set.drop_first(), other));
    } else if attributes[0].0 == name {
        assert(set.drop_first() == attributes.drop_first());
        assert(value_of(set, other) == value_of(set.drop_first(), other));
    } else {
        let rest = with_entry(attributes.drop_first(), name, value);
        lemma_other_value_kept(attributes.drop_first(), name, value, other);
        assert(set.drop_first() == rest);
        assert(set[0] == attributes[0]);
    }
}

/// Setting an attribute to the value it has changes nothing.
pub proof fn lemma_set_value_again(attributes: AttributeList, name: Seq<char>, value: Seq<char>)
    requires
        value_of(attributes, name) == Some(value),
    ensures
        with_entry(attributes, name, value) == attributes,
    decreases attributes.len(),
{
    if attributes.len() > 0 {
        if attributes[0].0 == name {
            assert(seq![(name, value)] + attributes.drop_first() == attributes);
        } else {
            lemma_set_value_again(attributes.drop_first(), name, value);
            assert(seq![attributes[0]] + attributes.drop_first() == attributes);
        }
    }
}

/// Setting an attribute never shortens the list, and lengthens it by one
/// where the attribute is new.
pub proof fn lemma_length_after_set(attributes: AttributeList, name: Seq<char>, value: Seq<char>)
    ensures
        with_entry(attributes, name, value).len() == if value_of(attributes, name) is Some {
            attributes.len()
        } else {
            attributes.len() + 1
        },
    decreases attributes.len(),
{
    if attributes.len() > 0 && attributes[0].0 != name {
        lemma_length_after_set(attributes.drop_first(), name, value);
    }
}

} // verus!
