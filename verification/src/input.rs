//! The input of a run: headings with their expressions, and documents with
//! their markup and expected targets.

use vstd::prelude::*;
use crate::admission::{admitted, is_admitted};

verus! {

/// A named group of alternative expressions.
#[derive(Clone, Debug, PartialEq, Eq)]
pub struct HeadingGroup {
    pub name: String,
    pub expressions: Vec<String>,
}

/// The mathematical value of a [`HeadingGroup`].
pub struct HeadingView {
    pub name: Seq<char>,
    pub expressions: Seq<Seq<char>>,
}

impl View for HeadingGroup {
    type V = HeadingView;

    open spec fn view(&self) -> HeadingView {
        HeadingView { name: self.name@, expressions: texts(self.expressions@) }
    }
}

/// The value that a document is expected to yield under one heading.
#[derive(Clone, Debug, PartialEq, Eq)]
pub struct Target {
    pub heading: String,
    pub expected: String,
}

/// The mathematical value of a [`Target`].
pub struct TargetView {
    pub heading: Seq<char>,
    pub expected: Seq<char>,
}

impl View for Target {
    type V = TargetView;

    open spec fn view(&self) -> TargetView {
        TargetView { heading: self.heading@, expected: self.expected@ }
    }
}

/// A document of the batch: its key, its raw markup, and its expected targets.
#[derive(Clone, Debug, PartialEq, Eq)]
pub struct DocumentRecord {
    pub url: String,
    pub content: String,
    pub targets: Vec<Target>,
}

/// The mathematical value of a [`DocumentRecord`].
pub struct DocumentView {
    pub url: Seq<char>,
    pub content: Seq<char>,
    pub targets: Seq<TargetView>,
}

impl View for DocumentRecord {
    type V = DocumentView;

    open spec fn view(&self) -> DocumentView {
        DocumentView {
            url: self.url@,
            content: self.content@,
            targets: self.targets@.map_values(|target: Target| target@),
        }
    }
}

/// The character sequences of a sequence of strings, one for one.
pub open spec fn texts(strings: Seq<String>) -> Seq<Seq<char>> {
    strings.map_values(|text: String| text@)
}

/// The values of a sequence of headings, one for one.
pub open spec fn heading_views(headings: Seq<HeadingGroup>) -> Seq<HeadingView> {
    headings.map_values(|heading: HeadingGroup| heading@)
}

/// The values of a sequence of documents, one for one.
pub open spec fn document_views(documents: Seq<DocumentRecord>) -> Seq<DocumentView> {
    documents.map_values(|document: DocumentRecord| document@)
}

/// The keys of a sequence of documents, in order.
pub open spec fn urls_of(documents: Seq<DocumentView>) -> Seq<Seq<char>> {
    documents.map_values(|document: DocumentView| document.url)
}

/// The names of a sequence of headings, in order.
pub open spec fn names_of(headings: Seq<HeadingView>) -> Seq<Seq<char>> {
    headings.map_values(|heading: HeadingView| heading.name)
}

/// An expression as a heading registers it.
pub struct Registration {
    pub heading: Seq<char>,
    pub expression: Seq<char>,
}

/// The registrations of one heading, in the order of its expressions.
pub open spec fn heading_registrations(heading: HeadingView) -> Seq<Registration> {
    Seq::new(
        heading.expressions.len(),
        |e: int| Registration { heading: heading.name, expression: heading.expressions[e] },
    )
}

/// The registrations of a run: heading by heading, in order.
pub open spec fn registrations(headings: Seq<HeadingView>) -> Seq<Registration>
    decreases headings.len(),
{
    if headings.len() == 0 {
        Seq::empty()
    } else {
        registrations(headings.drop_last()) + heading_registrations(headings.last())
    }
}

/// The target registered under a heading: that of the first entry with the
/// heading's name, or `None` where no entry has it.
pub open spec fn target_of(targets: Seq<TargetView>, heading: Seq<char>) -> Option<Seq<char>>
    decreases targets.len(),
{
    if targets.len() == 0 {
        None
    } else if targets[0].heading == heading {
        Some(targets[0].expected)
    } else {
        target_of(targets.drop_first(), heading)
    }
}

/// Where no entry before `upto` has the heading's name, the lookup is decided
/// by the entries from `upto` on.
pub proof fn lemma_target_of_skips(targets: Seq<TargetView>, heading: Seq<char>, upto: int)
    requires
        0 <= upto <= targets.len(),
        forall|i: int| 0 <= i < upto ==> targets[i].heading != heading,
    ensures
        target_of(targets, heading) == target_of(targets.skip(upto), heading),
    decreases upto,
{
    if upto == 0 {
        assert(targets.skip(0) =~= targets);
    } else {
        assert(targets.drop_first().skip(upto - 1) =~= targets.skip(upto));
        lemma_target_of_skips(targets.drop_first(), heading, upto - 1);
    }
}

impl DocumentRecord {
    /// Looks up the target that this document registers under a heading.
    pub fn expected_target(&self, heading: &String) -> (target: Option<&String>)
        ensures
            target.is_some() == target_of(self@.targets, heading@).is_some(),
            target.is_some() ==> target.unwrap()@ == target_of(self@.targets, heading@).unwrap(),
    {
        let mut i: usize = 0;
        while i < self.targets.len()
            invariant
                i <= self.targets.len(),
                forall|k: int| 0 <= k < i ==> self@.targets[k].heading != heading@,
            decreases self.targets.len() - i,
        {
            if self.targets[i].heading == *heading {
                proof {
                    lemma_target_of_skips(self@.targets, heading@, i as int);
                }
                return Some(&self.targets[i].expected);
            }
            i += 1;
        }
        proof {
            lemma_target_of_skips(self@.targets, heading@, i as int);
        }
        None
    }
}

/// Something that a collection holds at most once, by its key.
pub trait Keyed {
    /// The key, as a character sequence.
    spec fn key(&self) -> Seq<char>;

    /// The key.
    fn key_text(&self) -> (text: &String)
        ensures
            text@ == self.key(),
    ;
}

impl Keyed for HeadingGroup {
    open spec fn key(&self) -> Seq<char> {
        self.name@
    }

    fn key_text(&self) -> (text: &String) {
        &self.name
    }
}

impl Keyed for DocumentRecord {
    open spec fn key(&self) -> Seq<char> {
        self.url@
    }

    fn key_text(&self) -> (text: &String) {
        &self.url
    }
}

impl Keyed for Target {
    open spec fn key(&self) -> Seq<char> {
        self.heading@
    }

    fn key_text(&self) -> (text: &String) {
        &self.heading
    }
}

/// The keys of a sequence of items, in order.
pub open spec fn keys_of<T: Keyed>(items: Seq<T>) -> Seq<Seq<char>> {
    items.map_values(|item: T| item.key())
}

/// Whether the key at position `i` already occurs before it.
pub open spec fn repeated_at(keys: Seq<Seq<char>>, i: int) -> bool {
    exists|j: int| 0 <= j < i && keys[j] == keys[i]
}

/// Whether no key occurs twice.
pub open spec fn distinct(keys: Seq<Seq<char>>) -> bool {
    forall|i: int| 0 <= i < keys.len() ==> !repeated_at(keys, i)
}

/// Whether `i` is the first position whose key occurs before it.
pub open spec fn first_repeat(keys: Seq<Seq<char>>, i: int) -> bool {
    &&& 0 <= i < keys.len()
    &&& repeated_at(keys, i)
    &&& forall|k: int| 0 <= k < i ==> !repeated_at(keys, k)
}

/// Finds the first item whose key an earlier item already has.
pub fn first_repeated<T: Keyed>(items: &Vec<T>) -> (found: Option<usize>)
    ensures
        match found {
            None => distinct(keys_of(items@)),
            Some(i) => first_repeat(keys_of(items@), i as int),
        },
{
    let mut i: usize = 0;
    while i < items.len()
        invariant
            i <= items.len(),
            forall|k: int| 0 <= k < i ==> !repeated_at(keys_of(items@), k),
        decreases items.len() - i,
    {
        let mut j: usize = 0;
        while j < i
            invariant
                j <= i < items.len(),
                forall|k: int| 0 <= k < i ==> !repeated_at(keys_of(items@), k),
                forall|k: int| 0 <= k < j ==> keys_of(items@)[k] != keys_of(items@)[i as int],
            decreases i - j,
        {
            if *items[j].key_text() == *items[i].key_text() {
                assert(keys_of(items@)[j as int] == keys_of(items@)[i as int]);
                return Some(i);
            }
            j += 1;
        }
        i += 1;
    }
    None
}

/// Why an input was refused before any evaluation.
#[derive(Clone, Copy, PartialEq, Eq, Debug, Structural)]
pub enum InputError {
    /// The heading at this position has the name of an earlier heading.
    DuplicateHeading(usize),
    /// The document at this position has the url of an earlier document.
    DuplicateUrl(usize),
    /// In the document at the first position, the target at the second names
    /// the heading of an earlier target.
    DuplicateTarget(usize, usize),
    /// In the heading at the first position, the expression at the second is
    /// longer or more deeply nested than the engine's compiler can be given.
    ExpressionNotAdmitted(usize, usize),
}

/// Whether every expression of a heading is admitted.
pub open spec fn heading_admitted(heading: HeadingView) -> bool {
    forall|e: int|
        0 <= e < heading.expressions.len() ==> admitted(#[trigger] heading.expressions[e])
}

/// The headings that a document's targets name, in order.
pub open spec fn target_headings(document: DocumentView) -> Seq<Seq<char>> {
    document.targets.map_values(|target: TargetView| target.heading)
}

/// Whether heading names, urls, and the headings of each document's targets
/// are unique.
pub open spec fn keyed_once(headings: Seq<HeadingView>, documents: Seq<DocumentView>) -> bool {
    &&& distinct(names_of(headings))
    &&& distinct(urls_of(documents))
    &&& forall|d: int|
        0 <= d < documents.len() ==> distinct(target_headings(#[trigger] documents[d]))
}

/// Whether an input is valid: heading names, urls, and the headings of each
/// document's targets are unique, and every expression is admitted.
pub open spec fn valid_input(headings: Seq<HeadingView>, documents: Seq<DocumentView>) -> bool {
    &&& keyed_once(headings, documents)
    &&& forall|h: int| 0 <= h < headings.len() ==> heading_admitted(#[trigger] headings[h])
}

/// Whether `error` names the first violation of an input: heading names are
/// examined first, then urls, then the targets of each document in order,
/// then the expressions of each heading in order.
pub open spec fn rejects(
    headings: Seq<HeadingView>,
    documents: Seq<DocumentView>,
    error: InputError,
) -> bool {
    match error {
        InputError::DuplicateHeading(h) => first_repeat(names_of(headings), h as int),
        InputError::DuplicateUrl(d) => {
            &&& distinct(names_of(headings))
            &&& first_repeat(urls_of(documents), d as int)
        },
        InputError::DuplicateTarget(d, t) => {
            &&& distinct(names_of(headings))
            &&& distinct(urls_of(documents))
            &&& d < documents.len()
            &&& forall|k: int| 0 <= k < d ==> distinct(target_headings(#[trigger] documents[k]))
            &&& first_repeat(target_headings(documents[d as int]), t as int)
        },
        InputError::ExpressionNotAdmitted(h, e) => {
            &&& keyed_once(headings, documents)
            &&& h < headings.len()
            &&& forall|k: int| 0 <= k < h ==> heading_admitted(#[trigger] headings[k])
            &&& e < headings[h as int].expressions.len()
            &&& forall|k: int|
                0 <= k < e ==> admitted(#[trigger] headings[h as int].expressions[k])
            &&& !admitted(headings[h as int].expressions[e as int])
        },
    }
}

/// An input that is rejected is not valid, and only one error names its first
/// violation.
pub proof fn lemma_rejection(
    headings: Seq<HeadingView>,
    documents: Seq<DocumentView>,
    error: InputError,
    other: InputError,
)
    requires
        rejects(headings, documents, error),
    ensures
        !valid_input(headings, documents),
        rejects(headings, documents, other) ==> other == error,
{
}

/// Checks that heading names, urls, and each document's target headings are
/// unique and that every expression is admitted, and reports the first
/// violation.
pub fn validate(headings: &Vec<HeadingGroup>, documents: &Vec<DocumentRecord>) -> (checked: Result<
    (),
    InputError,
>)
    ensures
        checked.is_ok() == valid_input(heading_views(headings@), document_views(documents@)),
        checked matches Err(error) ==> rejects(
            heading_views(headings@),
            document_views(documents@),
            error,
        ),
{
    let ghost hv = heading_views(headings@);
    let ghost dv = document_views(documents@);
    assert(keys_of(headings@) =~= names_of(hv));
    assert(keys_of(documents@) =~= urls_of(dv));
    if let Some(h) = first_repeated(headings) {
        return Err(InputError::DuplicateHeading(h));
    }
    if let Some(d) = first_repeated(documents) {
        return Err(InputError::DuplicateUrl(d));
    }
    let mut d: usize = 0;
    while d < documents.len()
        invariant
            d <= documents.len(),
            hv == heading_views(headings@),
            dv == document_views(documents@),
            distinct(names_of(hv)),
            distinct(urls_of(dv)),
            forall|k: int| 0 <= k < d ==> distinct(target_headings(#[trigger] dv[k])),
        decreases documents.len() - d,
    {
        assert(keys_of(documents[d as int].targets@) =~= target_headings(dv[d as int]));
        if let Some(t) = first_repeated(&documents[d].targets) {
            return Err(InputError::DuplicateTarget(d, t));
        }
        d += 1;
    }
    let mut h: usize = 0;
    while h < headings.len()
        invariant
            h <= headings.len(),
            hv == heading_views(headings@),
            dv == document_views(documents@),
            keyed_once(hv, dv),
            forall|k: int| 0 <= k < h ==> heading_admitted(#[trigger] hv[k]),
        decreases headings.len() - h,
    {
        let expressions = &headings[h].expressions;
        let mut e: usize = 0;
        while e < expressions.len()
            invariant
                h < headings.len(),
                expressions == &headings[h as int].expressions,
                e <= expressions.len(),
                hv == heading_views(headings@),
                dv == document_views(documents@),
                keyed_once(hv, dv),
                forall|k: int| 0 <= k < h ==> heading_admitted(#[trigger] hv[k]),
                forall|k: int| 0 <= k < e ==> admitted(#[trigger] hv[h as int].expressions[k]),
            decreases expressions.len() - e,
        {
            assert(hv[h as int].expressions[e as int] == expressions[e as int]@);
            if !is_admitted(expressions[e].as_str()) {
                return Err(InputError::ExpressionNotAdmitted(h, e));
            }
            e += 1;
        }
        h += 1;
    }
    Ok(())
}

} // verus!
