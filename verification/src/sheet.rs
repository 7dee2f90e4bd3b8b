//! The sheet of one character: the fragments of the powers that were found
//! and could be rewritten, in the order in which the character lists them.
//!
//! The store is queried by the caller, name by name. Each outcome is handed
//! to [`OutputDocument::absorb`], which adds a fragment or says why it adds
//! none; a power that gives no fragment is left out, and the sheet goes on
//! with the next.

use crate::compose::{
    document_text, free_of_containers, generate_html, lemma_one_container_per_fragment,
    CONTAINER_OPEN,
};
use crate::dom::markup_fits;
use crate::repository::{Lookup, LookupView, PowerRecordView};
use crate::rewrite::{fragment_view, rewrite, rewritten, RewriteError};
use crate::text::{occurrences, texts_of};
use vstd::prelude::*;
use vstd::string::StringExecFns;

verus! {

/// The start of the message for a power that the store does not hold.
pub const NOT_FOUND_OPEN: &'static str = "Power ";

/// The end of the message for a power that the store does not hold.
pub const NOT_FOUND_CLOSE: &'static str = " not found in the database";

/// The start of the message for a power whose markup lacks the designated
/// element.
pub const MISSING_DETAIL_OPEN: &'static str = "Power ";

/// The end of the message for a power whose markup lacks the designated
/// element.
pub const MISSING_DETAIL_CLOSE: &'static str = " has no detail element";

/// The start of the message for a power whose fragment could not be written
/// out.
pub const NOT_SERIALIZED_OPEN: &'static str = "Failed to serialize power ";

/// Why a power is missing from the sheet.
#[derive(Debug, Clone)]
pub enum Diagnostic {
    /// The store holds no record under the identifier.
    NotFound { identifier: String },
    /// The markup of the record holds no element with the sentinel identity.
    MissingDetail { name: String },
    /// The rewritten element could not be written out as text.
    NotSerialized { name: String },
}

/// What a [`Diagnostic`] holds.
pub enum DiagnosticView {
    NotFound { identifier: Seq<char> },
    MissingDetail { name: Seq<char> },
    NotSerialized { name: Seq<char> },
}

impl View for Diagnostic {
    type V = DiagnosticView;

    open spec fn view(&self) -> DiagnosticView {
        match *self {
            Diagnostic::NotFound { identifier } => DiagnosticView::NotFound {
                identifier: identifier@,
            },
            Diagnostic::MissingDetail { name } => DiagnosticView::MissingDetail { name: name@ },
            Diagnostic::NotSerialized { name } => DiagnosticView::NotSerialized { name: name@ },
        }
    }
}

/// What an optional diagnostic holds.
pub open spec fn optional_diagnostic(diagnostic: Option<Diagnostic>) -> Option<DiagnosticView> {
    match diagnostic {
        Some(d) => Some(d@),
        None => None,
    }
}

/// The line that reports a diagnostic.
pub open spec fn message_text(diagnostic: DiagnosticView) -> Seq<char> {
    match diagnostic {
        DiagnosticView::NotFound { identifier } => NOT_FOUND_OPEN@ + identifier + NOT_FOUND_CLOSE@,
        DiagnosticView::MissingDetail { name } => MISSING_DETAIL_OPEN@ + name
            + MISSING_DETAIL_CLOSE@,
        DiagnosticView::NotSerialized { name } => NOT_SERIALIZED_OPEN@ + name,
    }
}

impl Diagnostic {
    /// The line that reports the diagnostic.
    pub fn message(&self) -> (line: String)
        ensures
            line@ == message_text(self@),
    {
        match self {
            Diagnostic::NotFound { identifier } => {
                let mut line = String::from_str(NOT_FOUND_OPEN);
                line.append(identifier.as_str());
                line.append(NOT_FOUND_CLOSE);
                line
            },
            Diagnostic::MissingDetail { name } => {
                let mut line = String::from_str(MISSING_DETAIL_OPEN);
                line.append(name.as_str());
                line.append(MISSING_DETAIL_CLOSE);
                line
            },
            Diagnostic::NotSerialized { name } => {
                let mut line = String::from_str(NOT_SERIALIZED_OPEN);
                line.append(name.as_str());
                line
            },
        }
    }
}

/// The fragments after the outcome of one rewrite: one more where the
/// rewrite gave a fragment, the same where it failed.
pub open spec fn with_outcome(
    fragments: Seq<Seq<char>>,
    outcome: Result<Seq<char>, RewriteError>,
) -> Seq<Seq<char>> {
    match outcome {
        Ok(fragment) => fragments.push(fragment),
        Err(_) => fragments,
    }
}

/// The diagnostic for the outcome of one rewrite of the power of that name.
pub open spec fn outcome_diagnostic(
    name: Seq<char>,
    outcome: Result<Seq<char>, RewriteError>,
) -> Option<DiagnosticView> {
    match outcome {
        Ok(_) => None,
        Err(RewriteError::FragmentStructure) => Some(DiagnosticView::MissingDetail { name }),
        Err(RewriteError::Serialization) => Some(DiagnosticView::NotSerialized { name }),
    }
}

/// The fragments after one lookup: the fragment of the record is added where
/// a record was found and could be rewritten, and nothing changes otherwise.
pub open spec fn with_lookup(fragments: Seq<Seq<char>>, lookup: LookupView) -> Seq<Seq<char>> {
    match lookup {
        LookupView::NotFound => fragments,
        LookupView::Found(record) => with_outcome(fragments, rewritten(record)),
    }
}

/// The diagnostic for one lookup of an identifier.
pub open spec fn lookup_diagnostic(identifier: Seq<char>, lookup: LookupView) -> Option<
    DiagnosticView,
> {
    match lookup {
        LookupView::NotFound => Some(DiagnosticView::NotFound { identifier }),
        LookupView::Found(record) => outcome_diagnostic(record.name, rewritten(record)),
    }
}

/// The fragments of a run of lookups, taken in order from an empty sheet.
pub open spec fn fragments_of(lookups: Seq<LookupView>) -> Seq<Seq<char>>
    decreases lookups.len(),
{
    if lookups.len() == 0 {
        Seq::empty()
    } else {
        with_lookup(fragments_of(lookups.drop_last()), lookups.last())
    }
}

/// The sheet of one character while it is put together.
#[derive(Debug)]
pub struct OutputDocument {
    /// The fragments so far, in the order in which they were added.
    pub fragments: Vec<String>,
}

impl View for OutputDocument {
    type V = Seq<Seq<char>>;

    open spec fn view(&self) -> Seq<Seq<char>> {
        texts_of(self.fragments@)
    }
}

impl OutputDocument {
    /// A sheet without fragments.
    pub fn new() -> (document: OutputDocument)
        ensures
            document@ == Seq::<Seq<char>>::empty(),
    {
        let document = OutputDocument { fragments: Vec::new() };
        assert(document@ =~= Seq::<Seq<char>>::empty());
        document
    }

    /// How many fragments the sheet holds.
    pub fn fragment_count(&self) -> (count: usize)
        ensures
            count == self@.len(),
    {
        self.fragments.len()
    }

    /// Takes the outcome of rewriting the power of that name: a fragment goes
    /// to the end of the sheet, a failure leaves the sheet as it is and comes
    /// back as the diagnostic to report.
    pub fn settle(&mut self, name: &str, outcome: Result<String, RewriteError>) -> (diagnostic:
        Option<Diagnostic>)
        ensures
            final(self)@ == with_outcome(old(self)@, fragment_view(outcome)),
            optional_diagnostic(diagnostic) == outcome_diagnostic(name@, fragment_view(outcome)),
    {
        match outcome {
            Ok(fragment) => {
                let ghost before = self@;
                self.fragments.push(fragment);
                assert(self@ =~= before.push(fragment@));
                None
            },
            Err(RewriteError::FragmentStructure) => Some(
                Diagnostic::MissingDetail { name: String::from_str(name) },
            ),
            Err(RewriteError::Serialization) => Some(
                Diagnostic::NotSerialized { name: String::from_str(name) },
            ),
        }
    }

    /// Takes the outcome of looking one identifier up. A record that was
    /// found is rewritten and its fragment goes to the end of the sheet.
    /// Where the store holds no record, or the record gives no fragment, the
    /// sheet stays as it is and the diagnostic to report comes back.
    pub fn absorb(&mut self, identifier: &str, lookup: &Lookup) -> (diagnostic: Option<Diagnostic>)
        requires
            lookup matches Lookup::Found(record) ==> markup_fits(record.raw_markup@),
        ensures
            final(self)@ == with_lookup(old(self)@, lookup@),
            optional_diagnostic(diagnostic) == lookup_diagnostic(identifier@, lookup@),
    {
        match lookup {
            Lookup::NotFound => Some(
                Diagnostic::NotFound { identifier: String::from_str(identifier) },
            ),
            Lookup::Found(record) => {
                let outcome = rewrite(record);
                self.settle(record.name.as_str(), outcome)
            },
        }
    }

    /// The sheet as one HTML document: the fragments laid out in their order.
    pub fn render(&self) -> (html: String)
        ensures
            html@ == document_text(self@),
    {
        generate_html(self.fragments.as_slice())
    }
}

/// Whether a lookup gives a fragment.
pub open spec fn gives_fragment(lookup: LookupView) -> bool {
    lookup matches LookupView::Found(record) && rewritten(record) is Ok
}

/// The lookups that found nothing, in their order.
pub open spec fn not_found(lookups: Seq<LookupView>) -> Seq<LookupView> {
    lookups.filter(|lookup: LookupView| lookup is NotFound)
}

/// The lookups that give a fragment, in their order.
pub open spec fn giving(lookups: Seq<LookupView>) -> Seq<LookupView> {
    lookups.filter(|lookup: LookupView| gives_fragment(lookup))
}

/// An identifier that the store does not hold contributes no fragment: the
/// sheet is the same with its lookup as without.
pub proof fn lemma_not_found_adds_nothing(before: Seq<LookupView>, after: Seq<LookupView>)
    ensures
        fragments_of(before.push(LookupView::NotFound) + after) == fragments_of(before + after),
{
    assert(before.push(LookupView::NotFound).drop_last() == before);
    lemma_fragments_concat(before.push(LookupView::NotFound), after);
    lemma_fragments_concat(before, after);
}

/// The fragments of two runs of lookups, one after the other, are the
/// fragments of the first followed by the fragments of the second: the sheet
/// keeps the order of the identifiers.
pub proof fn lemma_fragments_concat(first: Seq<LookupView>, second: Seq<LookupView>)
    ensures
        fragments_of(first + second) == fragments_of(first) + fragments_of(second),
    decreases second.len(),
{
    if second.len() == 0 {
        assert(first + second == first);
        assert(fragments_of(first) + Seq::<Seq<char>>::empty() == fragments_of(first));
    } else {
        lemma_fragments_concat(first, second.drop_last());
        assert((first + second).drop_last() == first + second.drop_last());
        assert((first + second).last() == second.last());
        let head = fragments_of(first);
        let tail = fragments_of(second.drop_last());
        if gives_fragment(second.last()) {
            let fragment = rewritten(second.last()->Found_0)->Ok_0;
            assert((head + tail).push(fragment) == head + tail.push(fragment));
        }
    }
}

/// The sheet holds one fragment for each lookup that gives one, and no
/// other.
pub proof fn lemma_one_fragment_per_giving_lookup(lookups: Seq<LookupView>)
    ensures
        fragments_of(lookups).len() == giving(lookups).len(),
    decreases lookups.len(),
{
    reveal(Seq::filter);
    if lookups.len() > 0 {
        lemma_one_fragment_per_giving_lookup(lookups.drop_last());
        assert(giving(lookups.drop_last()) == lookups.drop_last().filter(
            |lookup: LookupView| gives_fragment(lookup),
        ));
    }
}

/// Of N identifiers of which M are not in the store, the sheet holds N - M
/// fragments, provided that every record that was found can be rewritten.
pub proof fn lemma_fragment_count(lookups: Seq<LookupView>)
    requires
        forall|i: int|
            0 <= i < lookups.len() ==> (#[trigger] lookups[i] matches LookupView::Found(record)
                ==> rewritten(record) is Ok),
    ensures
        fragments_of(lookups).len() == lookups.len() - not_found(lookups).len(),
    decreases lookups.len(),
{
    reveal(Seq::filter);
    if lookups.len() > 0 {
        let front = lookups.drop_last();
        assert forall|i: int| 0 <= i < front.len() implies (#[trigger] front[i] matches LookupView::Found(
            record,
        ) ==> rewritten(record) is Ok) by {
            assert(front[i] == lookups[i]);
        }
        lemma_fragment_count(front);
        assert(not_found(front) == front.filter(|lookup: LookupView| lookup is NotFound));
        assert(lookups.last() == lookups[lookups.len() - 1]);
    }
}

/// Of N identifiers of which M are not in the store, the document of the
/// sheet holds N - M containers, one for each fragment and none for an
/// identifier that is missing: the start tag of a container stands in its
/// text N - M times. This holds provided that every record that was found
/// can be rewritten, and that no fragment itself holds the start tag of a
/// container.
pub proof fn lemma_container_count(lookups: Seq<LookupView>)
    requires
        forall|i: int|
            0 <= i < lookups.len() ==> (#[trigger] lookups[i] matches LookupView::Found(record)
                ==> rewritten(record) is Ok),
        forall|i: int|
            0 <= i < fragments_of(lookups).len() ==> free_of_containers(
                #[trigger] fragments_of(lookups)[i],
            ),
    ensures
        occurrences(document_text(fragments_of(lookups)), CONTAINER_OPEN@) == lookups.len()
            - not_found(lookups).len(),
{
    lemma_fragment_count(lookups);
    lemma_one_container_per_fragment(fragments_of(lookups));
}

} // verus!
