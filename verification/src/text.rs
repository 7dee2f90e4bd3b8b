//! Bytes and strings: what the other modules share.

use vstd::prelude::*;
use vstd::utf8::{decode_utf8, valid_utf8};

verus! {

/// The texts that a run of strings holds, one for one.
pub open spec fn texts_of(strings: Seq<String>) -> Seq<Seq<char>> {
    Seq::new(strings.len(), |i: int| strings[i]@)
}

/// `std::string::FromUtf8Error`: why bytes are no text.
#[verifier::external_type_specification]
#[verifier::external_body]
pub struct ExFromUtf8Error(std::string::FromUtf8Error);

/// `String::from_utf8` succeeds on the byte sequences that are valid UTF-8,
/// and on no others; the string it gives is the text that the bytes encode.
pub assume_specification[ String::from_utf8 ](bytes: Vec<u8>) -> (text: Result<
    String,
    std::string::FromUtf8Error,
>)
    ensures
        text is Ok <==> valid_utf8(bytes@),
        text matches Ok(s) ==> s@ == decode_utf8(bytes@),
;

/// Whether two runs of bytes are the same, byte for byte.
pub fn same_bytes(left: &[u8], right: &[u8]) -> (same: bool)
    ensures
        same <==> left@ == right@,
{
    if left.len() != right.len() {
        return false;
    }
    let mut at: usize = 0;
    while at < left.len()
        invariant
            left.len() == right.len(),
            at <= left.len(),
            forall|i: int| 0 <= i < at ==> left@[i] == right@[i],
        decreases left.len() - at,
    {
        if left[at] != right[at] {
            return false;
        }
        at = at + 1;
    }
    assert(left@ =~= right@);
    true
}

/// Whether a pattern stands in a text at a place: the text holds the pattern
/// there, letter for letter.
pub open spec fn occurs_at(text: Seq<char>, pattern: Seq<char>, at: int) -> bool {
    &&& 0 <= at
    &&& at + pattern.len() <= text.len()
    &&& text.subrange(at, at + pattern.len()) == pattern
}

/// At how many places from `from` on a pattern stands in a text.
pub open spec fn occurrences_from(text: Seq<char>, pattern: Seq<char>, from: int) -> nat
    decreases text.len() - from,
{
    if from >= text.len() {
        0
    } else if occurs_at(text, pattern, from) {
        occurrences_from(text, pattern, from + 1) + 1
    } else {
        occurrences_from(text, pattern, from + 1)
    }
}

/// At how many places a pattern stands in a text.
pub open spec fn occurrences(text: Seq<char>, pattern: Seq<char>) -> nat {
    occurrences_from(text, pattern, 0)
}

/// Where a pattern stands at no place from `from` on, it is counted there no
/// time.
pub proof fn lemma_no_occurrence_from(text: Seq<char>, pattern: Seq<char>, from: int)
    requires
        forall|at: int| from <= at ==> !occurs_at(text, pattern, at),
    ensures
        occurrences_from(text, pattern, from) == 0,
    decreases text.len() - from,
{
    if from < text.len() {
        lemma_no_occurrence_from(text, pattern, from + 1);
    }
}

/// Behind a first part, a pattern stands in a joined text where it stands in
/// the second part.
pub proof fn lemma_occurrences_behind(
    first: Seq<char>,
    second: Seq<char>,
    pattern: Seq<char>,
    from: int,
)
    requires
        0 <= from,
    ensures
        occurrences_from(first + second, pattern, first.len() + from) == occurrences_from(
            second,
            pattern,
            from,
        ),
    decreases second.len() - from,
{
    let joined = first + second;
    if from < second.len() {
        lemma_occurrences_behind(first, second, pattern, from + 1);
        if from + pattern.len() <= second.len() {
            assert(joined.subrange(first.len() + from, first.len() + from + pattern.len())
                == second.subrange(from, from + pattern.len()));
        }
    }
}

/// A pattern that cannot run into the second of two texts stands in the
/// joined text as often as in the first and in the second together. It
/// cannot run into the second where the second is empty, or begins with a
/// letter that the pattern holds at its start alone.
pub proof fn lemma_occurrences_concat(first: Seq<char>, second: Seq<char>, pattern: Seq<char>)
    requires
        second.len() > 0 ==> forall|j: int| 1 <= j < pattern.len() ==> pattern[j] != second[0],
    ensures
        occurrences(first + second, pattern) == occurrences(first, pattern) + occurrences(
            second,
            pattern,
        ),
{
    lemma_occurrences_before(first, second, pattern, 0);
}

/// The same from any place of the first text on.
proof fn lemma_occurrences_before(
    first: Seq<char>,
    second: Seq<char>,
    pattern: Seq<char>,
    from: int,
)
    requires
        0 <= from <= first.len(),
        second.len() > 0 ==> forall|j: int| 1 <= j < pattern.len() ==> pattern[j] != second[0],
    ensures
        occurrences_from(first + second, pattern, from) == occurrences_from(first, pattern, from)
            + occurrences(second, pattern),
    decreases first.len() - from,
{
    let joined = first + second;
    if from == first.len() {
        lemma_occurrences_behind(first, second, pattern, 0);
    } else {
        lemma_occurrences_before(first, second, pattern, from + 1);
        if from + pattern.len() <= first.len() {
            assert(joined.subrange(from, from + pattern.len()) == first.subrange(
                from,
                from + pattern.len(),
            ));
        } else if occurs_at(joined, pattern, from) {
            let j = first.len() - from;
            assert(joined.subrange(from, from + pattern.len())[j] == joined[first.len() as int]);
            assert(joined[first.len() as int] == second[0]);
            assert(false);
        }
    }
}

} // verus!
