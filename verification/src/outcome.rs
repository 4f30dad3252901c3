//! The match policy: how a selection and an expected target give an outcome.

use vstd::prelude::*;
use crate::selection::{canonical, Item, Selection, SelectionView};

verus! {

/// Why a pair was classified as not matching. Diagnostic only: the public
/// result records the classification, not the reason.
#[derive(Clone, Copy, PartialEq, Eq, Debug, Structural)]
pub enum NoMatchReason {
    /// The document registers no expected target under the heading.
    MissingTarget,
    /// The expression does not compile.
    CompileFailure,
    /// The document's markup does not parse.
    ParseFailure,
    /// The engine failed while applying the query to the document.
    EvaluationFailure,
    /// The query yielded a value that is neither a node nor a string.
    NotAString,
    /// The canonical value differs from the expected target.
    Mismatch,
    /// The evaluation unit ended without reporting an outcome.
    Fault,
}

/// The classification of one (expression, document) pair.
#[derive(Clone, Copy, PartialEq, Eq, Debug, Structural)]
pub enum Outcome {
    Match,
    NoMatch(NoMatchReason),
}

impl Outcome {
    /// Whether this outcome counts the document as matching.
    pub open spec fn matched(self) -> bool {
        self is Match
    }

    /// Whether this outcome counts the document as matching.
    pub fn is_match(&self) -> (matched: bool)
        ensures
            matched == self.matched(),
    {
        match self {
            Outcome::Match => true,
            Outcome::NoMatch(_) => false,
        }
    }
}

/// The outcome that the match policy assigns to a selection and a target:
/// exact equality between the canonical value and the target.
pub open spec fn classification(selected: SelectionView, target: Seq<char>) -> Outcome {
    match selected {
        SelectionView::Failed => Outcome::NoMatch(NoMatchReason::EvaluationFailure),
        SelectionView::Items(items) => match canonical(items) {
            None => Outcome::NoMatch(NoMatchReason::NotAString),
            Some(actual) => if actual == target {
                Outcome::Match
            } else {
                Outcome::NoMatch(NoMatchReason::Mismatch)
            },
        },
    }
}

/// Applies the match policy to what a query selected.
pub fn classify(selected: &Selection, target: &String) -> (outcome: Outcome)
    ensures
        outcome == classification(selected@, target@),
{
    match selected {
        Selection::Failed => Outcome::NoMatch(NoMatchReason::EvaluationFailure),
        Selection::Items(items) => {
            if items.len() == 0 {
                if target.as_str().is_empty() {
                    assert(target@ =~= Seq::<char>::empty());
                    Outcome::Match
                } else {
                    Outcome::NoMatch(NoMatchReason::Mismatch)
                }
            } else {
                match &items[0] {
                    Item::Node(text) => compare(text, target),
                    Item::Text(text) => compare(text, target),
                    Item::Other => Outcome::NoMatch(NoMatchReason::NotAString),
                }
            }
        },
    }
}

/// Compares a canonical value with the expected target, character for character.
fn compare(actual: &String, target: &String) -> (outcome: Outcome)
    ensures
        outcome == if actual@ == target@ {
            Outcome::Match
        } else {
            Outcome::NoMatch(NoMatchReason::Mismatch)
        },
{
    if *actual == *target {
        Outcome::Match
    } else {
        Outcome::NoMatch(NoMatchReason::Mismatch)
    }
}

} // verus!
