//! The boundary to the `skyscraper` crate, which parses HTML and compiles
//! XPath expressions. Nothing in this file is proved: each contract states
//! what is taken on trust of the outside function that it names.
//!
//! Both functions are deterministic: what they return depends on their
//! argument alone. Their results are therefore given names, and the rest of
//! the library states its contracts over these names.
//!
//! Applying a compiled query to a document is not done here. The engine's
//! evaluator panics on some queries: `subsequence((1,2,3), -1e308, 1e308)`
//! and `format-integer(-9.223372036854775808E18, 'w')` overflow an integer on
//! any document. Nothing that can be said of an opaque query leaves those
//! out. Whoever drives a run applies the query behind a boundary of its own
//! and hands the library what was selected (see `BatchRun::report`).

use vstd::prelude::*;
use skyscraper::xpath::{Xpath, XpathItemTree};
use crate::admission::admitted;

verus! {

/// `skyscraper::xpath::Xpath`, a compiled XPath expression. Opaque here.
#[verifier::external_type_specification]
#[verifier::external_body]
pub struct ExXpath(Xpath);

/// `skyscraper::xpath::XpathItemTree`, a parsed HTML document. Opaque here.
#[verifier::external_type_specification]
#[verifier::external_body]
pub struct ExXpathItemTree(XpathItemTree);

/// What `skyscraper::xpath::parse` makes of an expression: the compiled query,
/// or the description of the parse error that it reports.
pub uninterp spec fn compiled_query(expression: Seq<char>) -> Result<Xpath, Seq<char>>;

/// What `skyscraper::html::parse` makes of markup: the document tree, or the
/// description of the parse error that it reports.
pub uninterp spec fn parsed_tree(content: Seq<char>) -> Result<XpathItemTree, Seq<char>>;

/// A result of the engine, its error description taken as a character
/// sequence.
pub open spec fn described<T>(result: Result<T, String>) -> Result<T, Seq<char>> {
    match result {
        Ok(value) => Ok(value),
        Err(description) => Err(description@),
    }
}

/// Calls `skyscraper::xpath::parse`, and renders an error as text. The parser
/// descends once per level of nesting, and exhausts the stack where brackets
/// nest deeply, so it is called only on admitted expressions. Trusted: on
/// those the call returns, and its result depends on the expression's text
/// alone, so it is the one that `compiled_query` names.
#[verifier::external_body]
pub(crate) fn compile_expression(expression: &str) -> (compiled: Result<Xpath, String>)
    requires
        admitted(expression@),
    ensures
        described(compiled) == compiled_query(expression@),
{
    skyscraper::xpath::parse(expression).map_err(|error| error.to_string())
}

/// Calls `skyscraper::html::parse`, and renders an error as text. Trusted:
/// the result depends on the markup alone, so it is the one that
/// `parsed_tree` names.
#[verifier::external_body]
pub(crate) fn parse_markup(content: &str) -> (tree: Result<XpathItemTree, String>)
    ensures
        described(tree) == parsed_tree(content@),
{
    skyscraper::html::parse(content).map_err(|error| error.to_string())
}

} // verus!
