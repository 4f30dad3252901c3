//! The documents of a run, each parsed once.

use vstd::prelude::*;
use skyscraper::xpath::{Xpath, XpathItemTree};
use crate::engine::parsed_tree;
use crate::evaluate::{
    applies, optional_selection, optional_text, request, settle, settled, CompiledQuery,
    CallLog, ParsedDocument,
};
use crate::input::{document_views, target_of, urls_of, DocumentRecord, DocumentView};
use crate::outcome::Outcome;
use crate::results::{entry_from, ResultEntry};
use crate::selection::{Selection, SelectionView};

verus! {

/// The documents of a run together with their parse results. Built once,
/// before any evaluation, and only read afterwards: every evaluation against
/// a document uses the tree that was parsed for it here.
pub struct DocumentSet {
    records: Vec<DocumentRecord>,
    parsed: Vec<ParsedDocument>,
    log: CallLog,
}

/// The markup of a sequence of documents, in order.
pub open spec fn contents_of(documents: Seq<DocumentView>) -> Seq<Seq<char>> {
    documents.map_values(|document: DocumentView| document.content)
}

/// Whether a query has to be applied to a document of a run, under a heading.
pub open spec fn unit_applies(
    compiled: Result<Xpath, Seq<char>>,
    heading: Seq<char>,
    document: DocumentView,
) -> bool {
    applies(compiled, parsed_tree(document.content), target_of(document.targets, heading))
}

/// The outcome of a query on one document of a run, under a heading, given
/// what the query selected.
pub open spec fn unit_settled(
    compiled: Result<Xpath, Seq<char>>,
    heading: Seq<char>,
    document: DocumentView,
    selected: Option<SelectionView>,
) -> Outcome {
    settled(
        compiled,
        parsed_tree(document.content),
        target_of(document.targets, heading),
        selected,
    )
}

impl View for DocumentSet {
    type V = Seq<DocumentView>;

    closed spec fn view(&self) -> Seq<DocumentView> {
        document_views(self.records@)
    }
}

impl DocumentSet {
    #[verifier::type_invariant]
    spec fn parsed_once(&self) -> bool {
        &&& self.parsed.len() == self.records.len()
        &&& self.log@ == contents_of(document_views(self.records@))
        &&& self.log.count() == self.records.len()
        &&& forall|j: int|
            0 <= j < self.records.len() ==> (#[trigger] self.parsed[j]).tree() == parsed_tree(
                self.records[j].content@,
            )
    }

    /// The markup that was handed to the parser to build this set.
    pub closed spec fn parse_log(&self) -> Seq<Seq<char>> {
        self.log@
    }

    /// Parses every document of a run: the parser is called once for each
    /// document, on its markup, in the order of the documents.
    pub fn prepare(documents: Vec<DocumentRecord>) -> (set: DocumentSet)
        ensures
            set@ == document_views(documents@),
            set.parse_log() == contents_of(document_views(documents@)),
    {
        let mut parsed: Vec<ParsedDocument> = Vec::new();
        let mut log = CallLog::new();
        let ghost contents = contents_of(document_views(documents@));
        let mut j: usize = 0;
        while j < documents.len()
            invariant
                j <= documents.len(),
                parsed.len() == j,
                contents == contents_of(document_views(documents@)),
                log@ == contents.take(j as int),
                log.count() == j,
                forall|k: int|
                    0 <= k < j ==> (#[trigger] parsed[k]).tree() == parsed_tree(
                        documents[k].content@,
                    ),
            decreases documents.len() - j,
        {
            let document = ParsedDocument::parse(documents[j].content.as_str(), &mut log);
            parsed.push(document);
            assert(contents.take(j + 1) =~= contents.take(j as int).push(contents[j as int]));
            j += 1;
        }
        assert(contents.take(j as int) =~= contents);
        DocumentSet { records: documents, parsed, log }
    }

    /// The number of documents.
    pub fn len(&self) -> (count: usize)
        ensures
            count == self@.len(),
    {
        self.records.len()
    }

    /// The documents as they were given.
    pub fn records(&self) -> (records: &Vec<DocumentRecord>)
        ensures
            document_views(records@) == self@,
    {
        &self.records
    }

    /// How many times the parser was called to build this set: once per
    /// document, however many expressions are evaluated against it. The log
    /// holds the markup of the documents, in order.
    pub fn parse_count(&self) -> (count: usize)
        ensures
            count == self.parse_log().len(),
            count == self@.len(),
            self.parse_log() == contents_of(self@),
    {
        proof {
            use_type_invariant(self);
        }
        self.log.len()
    }

    /// The description of the parse error of a document, where its markup
    /// could not be parsed.
    pub fn parse_error(&self, unit: usize) -> (description: Option<&String>)
        ensures
            optional_text(description) == if unit < self@.len() {
                match parsed_tree(self@[unit as int].content) {
                    Ok(_) => None,
                    Err(text) => Some(text),
                }
            } else {
                None
            },
    {
        proof {
            use_type_invariant(self);
        }
        if unit < self.parsed.len() {
            self.parsed[unit].error()
        } else {
            None
        }
    }

    /// Says whether a query has to be applied to a document, under a
    /// heading, and hands out what to apply to what. Nothing is applied
    /// where the document registers no target under the heading, nor where
    /// `unit` is not the position of a document.
    pub fn request<'a>(&'a self, query: &'a CompiledQuery, heading: &String, unit: usize) -> (asked:
        Option<(&'a Xpath, &'a XpathItemTree)>)
        ensures
            asked.is_some() == (unit < self@.len() && unit_applies(
                query.compiled(),
                heading@,
                self@[unit as int],
            )),
            asked matches Some(pair) ==> query.compiled() == Ok::<Xpath, Seq<char>>(*pair.0)
                && parsed_tree(self@[unit as int].content) == Ok::<XpathItemTree, Seq<char>>(
                *pair.1,
            ),
    {
        proof {
            use_type_invariant(self);
        }
        if unit < self.records.len() {
            request(query, &self.parsed[unit], self.records[unit].expected_target(heading))
        } else {
            None
        }
    }

    /// Settles the outcome of a query on a document, under a heading, from
    /// what the query selected. There is no outcome where `unit` is not the
    /// position of a document.
    pub fn settle(
        &self,
        query: &CompiledQuery,
        heading: &String,
        unit: usize,
        selected: Option<&Selection>,
    ) -> (outcome: Option<Outcome>)
        ensures
            outcome.is_some() == (unit < self@.len()),
            outcome matches Some(found) ==> found == unit_settled(
                query.compiled(),
                heading@,
                self@[unit as int],
                optional_selection(selected),
            ),
    {
        proof {
            use_type_invariant(self);
        }
        if unit < self.records.len() {
            Some(
                settle(
                    query,
                    &self.parsed[unit],
                    self.records[unit].expected_target(heading),
                    selected,
                ),
            )
        } else {
            None
        }
    }

    /// Builds the entry of an expression from one outcome per document of
    /// this set. There is no entry unless every document is accounted for.
    pub fn entry(&self, expression: &String, outcomes: &Vec<Outcome>) -> (entry: Option<
        ResultEntry,
    >)
        ensures
            entry.is_some() == (outcomes.len() == self@.len()),
            entry matches Some(built) ==> built@ == entry_from(
                expression@,
                urls_of(self@),
                outcomes@,
            ),
    {
        ResultEntry::from_outcomes(expression, &self.records, outcomes)
    }
}

} // verus!
