//! The match evaluator: compiled queries, parsed documents, and the outcome of
//! a query on a document.
//!
//! The evaluator does not apply a query itself. It says whether a query has
//! to be applied at all, and settles the outcome once it is told what the
//! query selected.

use vstd::prelude::*;
use skyscraper::xpath::{Xpath, XpathItemTree};
use crate::admission::{admitted, is_admitted};
use crate::engine::{compile_expression, compiled_query, described, parse_markup, parsed_tree};
use crate::outcome::{classification, classify, NoMatchReason, Outcome};
use crate::selection::{Selection, SelectionView};

verus! {

/// A record of the texts that were handed to the engine, in order: texts to
/// its parser, or expressions to its compiler.
pub struct CallLog {
    sizes: Vec<usize>,
    texts: Ghost<Seq<Seq<char>>>,
}

impl View for CallLog {
    type V = Seq<Seq<char>>;

    closed spec fn view(&self) -> Seq<Seq<char>> {
        self.texts@
    }
}

impl CallLog {
    /// The number of entries.
    pub closed spec fn count(&self) -> nat {
        self.sizes@.len()
    }

    /// An empty log.
    pub fn new() -> (log: CallLog)
        ensures
            log@ == Seq::<Seq<char>>::empty(),
            log.count() == 0,
    {
        CallLog { sizes: Vec::new(), texts: Ghost(Seq::empty()) }
    }

    /// The number of calls that are recorded.
    pub fn len(&self) -> (count: usize)
        ensures
            count == self.count(),
    {
        self.sizes.len()
    }

    /// Notes that a text is handed to the engine.
    fn record(&mut self, text: &str)
        ensures
            final(self)@ == old(self)@.push(text@),
            final(self).count() == old(self).count() + 1,
    {
        self.sizes.push(text.len());
        self.texts = Ghost(self.texts@.push(text@));
    }
}

/// An expression together with what compiling it gave.
pub struct CompiledQuery {
    expression: String,
    compiled: Result<Xpath, String>,
}

impl CompiledQuery {
    /// The expression's text.
    pub closed spec fn text(&self) -> Seq<char> {
        self.expression@
    }

    /// The compiled query, or the description of what is malformed in the
    /// expression.
    pub closed spec fn compiled(&self) -> Result<Xpath, Seq<char>> {
        described(self.compiled)
    }

    /// Compiles an expression, if it is admitted, and notes the call in the
    /// log; an expression that is not admitted is not handed to the engine,
    /// and there is no query. A malformed expression yields a query that
    /// matches no document.
    pub fn compile(expression: &str, log: &mut CallLog) -> (query: Option<CompiledQuery>)
        ensures
            query.is_some() == admitted(expression@),
            query matches Some(compiled) ==> compiled.text() == expression@
                && compiled.compiled() == compiled_query(expression@),
            final(log)@ == if admitted(expression@) {
                old(log)@.push(expression@)
            } else {
                old(log)@
            },
            final(log).count() == if admitted(expression@) {
                old(log).count() + 1
            } else {
                old(log).count()
            },
    {
        if is_admitted(expression) {
            log.record(expression);
            Some(
                CompiledQuery {
                    expression: expression.to_owned(),
                    compiled: compile_expression(expression),
                },
            )
        } else {
            None
        }
    }

    /// The expression's text.
    pub fn expression(&self) -> (text: &String)
        ensures
            text@ == self.text(),
    {
        &self.expression
    }

    /// Whether the expression compiled.
    pub fn is_valid(&self) -> (valid: bool)
        ensures
            valid == self.compiled().is_ok(),
    {
        self.compiled.is_ok()
    }

    /// The compiled query, for whoever applies it.
    pub fn query(&self) -> (query: Option<&Xpath>)
        ensures
            match query {
                Some(compiled) => self.compiled() == Ok::<Xpath, Seq<char>>(*compiled),
                None => self.compiled() is Err,
            },
    {
        match &self.compiled {
            Ok(compiled) => Some(compiled),
            Err(_) => None,
        }
    }

    /// The description of the compile error, where the expression is
    /// malformed.
    pub fn error(&self) -> (description: Option<&String>)
        ensures
            optional_text(description) == match self.compiled() {
                Ok(_) => None,
                Err(text) => Some(text),
            },
    {
        match &self.compiled {
            Ok(_) => None,
            Err(description) => Some(description),
        }
    }
}

/// What parsing a document's markup gave.
pub struct ParsedDocument {
    tree: Result<XpathItemTree, String>,
}

impl ParsedDocument {
    /// The document tree, or the description of why the markup could not be
    /// parsed.
    pub closed spec fn tree(&self) -> Result<XpathItemTree, Seq<char>> {
        described(self.tree)
    }

    /// Parses raw markup, and notes the call in the log. Markup that cannot
    /// be parsed yields a document that no query matches.
    pub fn parse(content: &str, log: &mut CallLog) -> (document: ParsedDocument)
        ensures
            document.tree() == parsed_tree(content@),
            final(log)@ == old(log)@.push(content@),
            final(log).count() == old(log).count() + 1,
    {
        log.record(content);
        ParsedDocument { tree: parse_markup(content) }
    }

    /// Whether the markup parsed.
    pub fn is_valid(&self) -> (valid: bool)
        ensures
            valid == self.tree().is_ok(),
    {
        self.tree.is_ok()
    }

    /// The document tree, for whoever applies a query to it.
    pub fn parsed(&self) -> (tree: Option<&XpathItemTree>)
        ensures
            match tree {
                Some(parsed) => self.tree() == Ok::<XpathItemTree, Seq<char>>(*parsed),
                None => self.tree() is Err,
            },
    {
        match &self.tree {
            Ok(tree) => Some(tree),
            Err(_) => None,
        }
    }

    /// The description of the parse error, where the markup could not be
    /// parsed.
    pub fn error(&self) -> (description: Option<&String>)
        ensures
            optional_text(description) == match self.tree() {
                Ok(_) => None,
                Err(text) => Some(text),
            },
    {
        match &self.tree {
            Ok(_) => None,
            Err(description) => Some(description),
        }
    }
}

/// Whether the query has to be applied to settle a pair: there is a target,
/// the expression compiled and the markup parsed.
pub open spec fn applies(
    compiled: Result<Xpath, Seq<char>>,
    tree: Result<XpathItemTree, Seq<char>>,
    target: Option<Seq<char>>,
) -> bool {
    target is Some && compiled is Ok && tree is Ok
}

/// The outcome of a pair, given what the query selected. A missing target
/// decides first, then a compile failure, then a parse failure: in these
/// cases what was selected plays no part. Otherwise the match policy decides
/// on the selection; where none is given, the unit has failed.
pub open spec fn settled(
    compiled: Result<Xpath, Seq<char>>,
    tree: Result<XpathItemTree, Seq<char>>,
    target: Option<Seq<char>>,
    selected: Option<SelectionView>,
) -> Outcome {
    match target {
        None => Outcome::NoMatch(NoMatchReason::MissingTarget),
        Some(expected) => match compiled {
            Err(_) => Outcome::NoMatch(NoMatchReason::CompileFailure),
            Ok(_) => match tree {
                Err(_) => Outcome::NoMatch(NoMatchReason::ParseFailure),
                Ok(_) => match selected {
                    None => Outcome::NoMatch(NoMatchReason::Fault),
                    Some(selection) => classification(selection, expected),
                },
            },
        },
    }
}

/// Compiling an expression again gives the same query: the two results agree,
/// and so do their outcomes on every document, target and selection.
pub proof fn lemma_recompilation_agrees(
    first: CompiledQuery,
    second: CompiledQuery,
    expression: Seq<char>,
)
    requires
        first.compiled() == compiled_query(expression),
        second.compiled() == compiled_query(expression),
    ensures
        first.compiled() == second.compiled(),
        forall|
            tree: Result<XpathItemTree, Seq<char>>,
            target: Option<Seq<char>>,
            selected: Option<SelectionView>,
        |
            #[trigger] settled(first.compiled(), tree, target, selected) == settled(
                second.compiled(),
                tree,
                target,
                selected,
            ),
{
}

/// A pair without a target never matches, whatever the expression, the
/// markup and the selection.
pub proof fn lemma_missing_target_never_matches(
    compiled: Result<Xpath, Seq<char>>,
    tree: Result<XpathItemTree, Seq<char>>,
    selected: Option<SelectionView>,
)
    ensures
        settled(compiled, tree, None, selected) == Outcome::NoMatch(NoMatchReason::MissingTarget),
        !applies(compiled, tree, None),
{
}

/// The character sequence of an optional string.
pub open spec fn optional_text(text: Option<&String>) -> Option<Seq<char>> {
    match text {
        None => None,
        Some(text) => Some(text@),
    }
}

/// The value of an optional selection.
pub open spec fn optional_selection(selected: Option<&Selection>) -> Option<SelectionView> {
    match selected {
        None => None,
        Some(selection) => Some(selection@),
    }
}

/// Says whether a query has to be applied to a document, and hands out what
/// to apply to what. Without a target nothing is applied.
pub fn request<'a>(
    query: &'a CompiledQuery,
    document: &'a ParsedDocument,
    target: Option<&String>,
) -> (asked: Option<(&'a Xpath, &'a XpathItemTree)>)
    ensures
        asked.is_some() == applies(query.compiled(), document.tree(), optional_text(target)),
        asked matches Some(pair) ==> query.compiled() == Ok::<Xpath, Seq<char>>(*pair.0)
            && document.tree() == Ok::<XpathItemTree, Seq<char>>(*pair.1),
{
    if target.is_none() {
        return None;
    }
    match (query.query(), document.parsed()) {
        (Some(compiled), Some(tree)) => Some((compiled, tree)),
        _ => None,
    }
}

/// Settles the outcome of a pair from what the query selected: `None` where
/// the query was not applied or its unit failed.
pub fn settle(
    query: &CompiledQuery,
    document: &ParsedDocument,
    target: Option<&String>,
    selected: Option<&Selection>,
) -> (outcome: Outcome)
    ensures
        outcome == settled(
            query.compiled(),
            document.tree(),
            optional_text(target),
            optional_selection(selected),
        ),
{
    let expected = match target {
        None => {
            return Outcome::NoMatch(NoMatchReason::MissingTarget);
        },
        Some(expected) => expected,
    };
    if !query.is_valid() {
        return Outcome::NoMatch(NoMatchReason::CompileFailure);
    }
    if !document.is_valid() {
        return Outcome::NoMatch(NoMatchReason::ParseFailure);
    }
    match selected {
        None => Outcome::NoMatch(NoMatchReason::Fault),
        Some(selection) => classify(selection, expected),
    }
}

} // verus!
