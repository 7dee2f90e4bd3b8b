//! Laying rewritten fragments out in one printable HTML document.

use crate::text::{
    lemma_no_occurrence_from, lemma_occurrences_concat, occurrences, occurs_at, texts_of,
};
use vstd::prelude::*;
use vstd::string::StringExecFns;

verus! {

/// Everything of the document that comes before the first fragment: the head
/// with its stylesheet, and the opening of the grid that holds the fragments.
pub const SHELL_OPEN: &'static str = "<html>
    <head>
        <title>Power Texts</title>
        <style>
        @media print {
          .grid {
            display: block !important;
            column-count: 3;
            column-gap: 20px; /* Adjust the gap between columns as needed */
            print-color-adjust: exact;
          }

          .Power {
            margin-bottom: 20px;
            page-break-inside: avoid;
            break-inside: avoid;
          }
        }
        .grid {
          display: grid;
          grid-template-columns: repeat(4, 1fr); /* Set the number of columns here */
          grid-gap: 20px;
        }
        .Power {
          border: 1px solid #ddd;
          display: flex;
          flex-direction: column;
        }
        .Power h1 {
          font-size: 1.5em;
          margin: 0;
          padding: 3px 10px;
        }
        .Power h1 span {
          font-size: 0.4em;
          font-weight: normal;
          display: block;
          opacity: 0.8;
        }
        .Power p {
          padding: 0px 10px;
          margin: 0;
          margin-bottom: 10px;
          padding-top: 3px;
          padding-bottom: 3px;
        }
        .Power .publishedIn {
          justify-self: flex-end;
        }
        .Power .flavor {
          background: rgb(215,213,198);
          background: linear-gradient(90deg, rgba(215,213,198,1) 0%, rgba(215,213,198,0) 100%);
        }
        .At-Will h1 {
          background-color: rgb(108, 150, 109);
          color: white;
        }
        .Encounter h1 {
          background-color: rgb(137, 35, 54);
          color: white;
        }
        .Daily h1 {
          background-color: rgb(77, 77, 79);
          color: white;
        }
        </style>
      </head>
    <body>
        <div class='grid'>";

/// Everything of the document that comes after the last fragment.
pub const SHELL_CLOSE: &'static str = "</div></body></html>";

/// The opening of the container that holds one fragment.
pub const CONTAINER_OPEN: &'static str = "<div class='power'>";

/// The closing of the container that holds one fragment.
pub const CONTAINER_CLOSE: &'static str = "</div>";

/// One fragment inside its container.
pub open spec fn wrapped(fragment: Seq<char>) -> Seq<char> {
    CONTAINER_OPEN@ + fragment + CONTAINER_CLOSE@
}

/// The content area of the document: each fragment in its container, in the
/// order given.
pub open spec fn content_area(fragments: Seq<Seq<char>>) -> Seq<char>
    decreases fragments.len(),
{
    if fragments.len() == 0 {
        Seq::empty()
    } else {
        content_area(fragments.drop_last()) + wrapped(fragments.last())
    }
}

/// The whole document: the shell around the content area.
pub open spec fn document_text(fragments: Seq<Seq<char>>) -> Seq<char> {
    SHELL_OPEN@ + content_area(fragments) + SHELL_CLOSE@
}

/// Lays the fragments out in one HTML document: the fixed shell, and inside
/// it every fragment in its own container, in the order given. Nothing is
/// dropped, reordered or merged, and no input is refused.
pub fn generate_html(texts: &[String]) -> (html: String)
    ensures
        html@ == document_text(texts_of(texts@)),
{
    let mut html = String::from_str(SHELL_OPEN);
    let mut done: usize = 0;
    while done < texts.len()
        invariant
            done <= texts.len(),
            html@ == SHELL_OPEN@ + content_area(texts_of(texts@).take(done as int)),
        decreases texts.len() - done,
    {
        let ghost before = texts_of(texts@).take(done as int);
        let ghost after = texts_of(texts@).take(done as int + 1);
        html.append(CONTAINER_OPEN);
        html.append(texts[done].as_str());
        html.append(CONTAINER_CLOSE);
        proof {
            assert(after.drop_last() == before);
            assert(after.last() == texts@[done as int]@);
        }
        done = done + 1;
    }
    proof {
        assert(texts_of(texts@).take(done as int) == texts_of(texts@));
    }
    html.append(SHELL_CLOSE);
    html
}

/// A document without fragments is the shell alone: its content area is
/// empty, and the head with the stylesheet and the grid are still there.
pub proof fn lemma_empty_document()
    ensures
        content_area(Seq::empty()) == Seq::<char>::empty(),
        document_text(Seq::empty()) == SHELL_OPEN@ + SHELL_CLOSE@,
{
    assert(SHELL_OPEN@ + Seq::<char>::empty() == SHELL_OPEN@);
}

/// Laying out two runs of fragments one after the other gives the content of
/// the first followed by the content of the second: the order of the
/// fragments is the order of their containers.
pub proof fn lemma_content_area_concat(first: Seq<Seq<char>>, second: Seq<Seq<char>>)
    ensures
        content_area(first + second) == content_area(first) + content_area(second),
    decreases second.len(),
{
    if second.len() == 0 {
        assert(first + second == first);
        assert(content_area(first) + Seq::<char>::empty() == content_area(first));
    } else {
        lemma_content_area_concat(first, second.drop_last());
        assert((first + second).drop_last() == first + second.drop_last());
        assert((first + second).last() == second.last());
    }
}

/// Whether a text holds the start tag of a container nowhere.
pub open spec fn free_of_containers(text: Seq<char>) -> bool {
    forall|at: int| !occurs_at(text, CONTAINER_OPEN@, at)
}

/// The start tag of a container begins with `<` and holds no other.
proof fn lemma_container_open_letters()
    ensures
        CONTAINER_OPEN@.len() == 19,
        CONTAINER_OPEN@[0] == '<',
        CONTAINER_OPEN@[1] == 'd',
        CONTAINER_OPEN@[12] == 'p',
        forall|j: int| 1 <= j < 19 ==> CONTAINER_OPEN@[j] != '<',
{
    reveal_strlit("<div class='power'>");
}

/// What of a text stands where the start tag of a container stands in it.
proof fn lemma_letters_of_an_occurrence(text: Seq<char>, at: int)
    requires
        occurs_at(text, CONTAINER_OPEN@, at),
    ensures
        at + 19 <= text.len(),
        text[at] == '<',
        text[at + 1] == 'd',
        text[at + 12] == 'p',
        forall|k: int| at < k < at + 19 ==> text[k] != '<',
{
    lemma_container_open_letters();
    let found = text.subrange(at, at + 19);
    assert(found[0] == text[at]);
    assert(found[1] == text[at + 1]);
    assert(found[12] == text[at + 12]);
    assert forall|k: int| at < k < at + 19 implies text[k] != '<' by {
        assert(found[k - at] == text[k]);
    }
}

/// The shell before the fragments holds no container.
proof fn lemma_shell_open_is_free()
    ensures
        occurrences(SHELL_OPEN@, CONTAINER_OPEN@) == 0,
{
    reveal_strlit("<html>
    <head>
        <title>Power Texts</title>
        <style>
        @media print {
          .grid {
            display: block !important;
            column-count: 3;
            column-gap: 20px; /* Adjust the gap between columns as needed */
            print-color-adjust: exact;
          }

          .Power {
            margin-bottom: 20px;
            page-break-inside: avoid;
            break-inside: avoid;
          }
        }
        .grid {
          display: grid;
          grid-template-columns: repeat(4, 1fr); /* Set the number of columns here */
          grid-gap: 20px;
        }
        .Power {
          border: 1px solid #ddd;
          display: flex;
          flex-direction: column;
        }
        .Power h1 {
          font-size: 1.5em;
          margin: 0;
          padding: 3px 10px;
        }
        .Power h1 span {
          font-size: 0.4em;
          font-weight: normal;
          display: block;
          opacity: 0.8;
        }
        .Power p {
          padding: 0px 10px;
          margin: 0;
          margin-bottom: 10px;
          padding-top: 3px;
          padding-bottom: 3px;
        }
        .Power .publishedIn {
          justify-self: flex-end;
        }
        .Power .flavor {
          background: rgb(215,213,198);
          background: linear-gradient(90deg, rgba(215,213,198,1) 0%, rgba(215,213,198,0) 100%);
        }
        .At-Will h1 {
          background-color: rgb(108, 150, 109);
          color: white;
        }
        .Encounter h1 {
          background-color: rgb(137, 35, 54);
          color: white;
        }
        .Daily h1 {
          background-color: rgb(77, 77, 79);
          color: white;
        }
        </style>
      </head>
    <body>
        <div class='grid'>");
    assert forall|at: int| 0 <= at implies !occurs_at(SHELL_OPEN@, CONTAINER_OPEN@, at) by {
        if occurs_at(SHELL_OPEN@, CONTAINER_OPEN@, at) {
            lemma_letters_of_an_occurrence(SHELL_OPEN@, at);
        }
    }
    lemma_no_occurrence_from(SHELL_OPEN@, CONTAINER_OPEN@, 0);
}

/// The shell behind the fragments begins with `<` and holds no container.
proof fn lemma_shell_close_is_free()
    ensures
        SHELL_CLOSE@.len() > 0,
        SHELL_CLOSE@[0] == '<',
        occurrences(SHELL_CLOSE@, CONTAINER_OPEN@) == 0,
{
    reveal_strlit("</div></body></html>");
    assert forall|at: int| 0 <= at implies !occurs_at(SHELL_CLOSE@, CONTAINER_OPEN@, at) by {
        if occurs_at(SHELL_CLOSE@, CONTAINER_OPEN@, at) {
            lemma_letters_of_an_occurrence(SHELL_CLOSE@, at);
        }
    }
    lemma_no_occurrence_from(SHELL_CLOSE@, CONTAINER_OPEN@, 0);
}

/// A fragment in its container holds the start tag of a container once, at
/// its start, provided that the fragment itself holds none.
proof fn lemma_wrapped_holds_one(fragment: Seq<char>)
    requires
        free_of_containers(fragment),
    ensures
        wrapped(fragment).len() > 0,
        wrapped(fragment)[0] == '<',
        occurrences(wrapped(fragment), CONTAINER_OPEN@) == 1,
{
    reveal_strlit("</div>");
    lemma_container_open_letters();
    let whole = wrapped(fragment);
    let end = 19 + fragment.len();
    assert(whole.subrange(0, 19) == CONTAINER_OPEN@);
    assert forall|at: int| 1 <= at implies !occurs_at(whole, CONTAINER_OPEN@, at) by {
        if occurs_at(whole, CONTAINER_OPEN@, at) {
            lemma_letters_of_an_occurrence(whole, at);
            if at < 19 {
                assert(whole[at] == CONTAINER_OPEN@[at]);
            } else if at + 19 <= end {
                assert(whole.subrange(at, at + 19) == fragment.subrange(at - 19, at));
                assert(occurs_at(fragment, CONTAINER_OPEN@, at - 19));
            } else if at < end {
                assert(whole[at + (end - at)] == CONTAINER_CLOSE@[0]);
            } else {
                assert(whole[at] == CONTAINER_CLOSE@[at - end]);
            }
        }
    }
    lemma_no_occurrence_from(whole, CONTAINER_OPEN@, 1);
}

/// The content area holds the start tag of a container once for each
/// fragment, provided that no fragment itself holds one.
proof fn lemma_content_holds_one_per_fragment(fragments: Seq<Seq<char>>)
    requires
        forall|i: int| 0 <= i < fragments.len() ==> free_of_containers(#[trigger] fragments[i]),
    ensures
        occurrences(content_area(fragments), CONTAINER_OPEN@) == fragments.len(),
        content_area(fragments).len() > 0 ==> content_area(fragments)[0] == '<',
    decreases fragments.len(),
{
    lemma_container_open_letters();
    if fragments.len() == 0 {
        lemma_no_occurrence_from(content_area(fragments), CONTAINER_OPEN@, 0);
    } else {
        let front = fragments.drop_last();
        assert forall|i: int| 0 <= i < front.len() implies free_of_containers(
            #[trigger] front[i],
        ) by {
            assert(front[i] == fragments[i]);
        }
        lemma_content_holds_one_per_fragment(front);
        lemma_wrapped_holds_one(fragments.last());
        lemma_occurrences_concat(content_area(front), wrapped(fragments.last()), CONTAINER_OPEN@);
    }
}

/// The document holds one container for each fragment, and no other: the
/// start tag of a container stands in its text as many times as there are
/// fragments, provided that no fragment itself holds one.
pub proof fn lemma_one_container_per_fragment(fragments: Seq<Seq<char>>)
    requires
        forall|i: int| 0 <= i < fragments.len() ==> free_of_containers(#[trigger] fragments[i]),
    ensures
        occurrences(document_text(fragments), CONTAINER_OPEN@) == fragments.len(),
{
    let content = content_area(fragments);
    lemma_container_open_letters();
    lemma_shell_open_is_free();
    lemma_shell_close_is_free();
    lemma_content_holds_one_per_fragment(fragments);
    lemma_occurrences_concat(SHELL_OPEN@, content, CONTAINER_OPEN@);
    lemma_occurrences_concat(SHELL_OPEN@ + content, SHELL_CLOSE@, CONTAINER_OPEN@);
}

} // verus!
