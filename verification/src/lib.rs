//! Checks, for a batch of HTML documents, whether the content that XPath
//! expressions select equals the value expected of each document.
//!
//! Expressions are grouped under headings, and each document records the
//! target that it expects under a heading. Every (expression, document) pair
//! is classified as a match or not, and the outcomes are gathered per
//! expression string: the documents that matched, and those that did not.
//!
//! [`BatchRun`] holds the decisions of a run: which expression is evaluated
//! next, whether a query has to be applied to a document, what outcome a
//! selection gives, and when an expression's entry is finalized. Applying a
//! compiled query to a parsed document is left to whoever drives the run,
//! who may do so concurrently and behind a boundary of its own, and reports
//! what was selected. [`process_input`] drives a run itself, one unit after
//! another, with the evaluator handed in.
//!
//! Where the same expression is registered under several headings, the
//! heading that registers it first decides: its entry is kept, and a later
//! one for the same expression is discarded.
//!
//! HTML parsing and XPath compilation are done by the `skyscraper` crate;
//! module [`engine`] holds what is assumed of it. An expression is handed to
//! its compiler only if module [`admission`] admits it: an input with an
//! expression that is longer or more deeply nested than the compiler can be
//! given is refused as invalid, like one in which a name occurs twice.

pub mod admission;
pub mod batch;
pub mod documents;
pub mod engine;
pub mod evaluate;
pub mod input;
pub mod outcome;
pub mod results;
pub mod run;
pub mod scheduler;
pub mod selection;

pub use batch::{process_input, RunReport};
pub use documents::DocumentSet;
pub use evaluate::{request, settle, CompiledQuery, CallLog, ParsedDocument};
pub use input::{validate, DocumentRecord, HeadingGroup, InputError, Target};
pub use outcome::{classify, NoMatchReason, Outcome};
pub use results::{ResultEntry, Results};
pub use run::{BatchRun, Job};
pub use scheduler::JoinGroup;
pub use selection::{canonical_value, Item, Selection};
