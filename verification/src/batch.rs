//! A whole run, one unit after another.

use vstd::prelude::*;
use skyscraper::xpath::{Xpath, XpathItemTree};
use crate::documents::{unit_applies, unit_settled};
use crate::engine::{compiled_query, parsed_tree};
use crate::input::{
    distinct, document_views, heading_views, registrations, rejects, target_of, urls_of,
    valid_input, DocumentRecord, DocumentView, HeadingGroup, InputError, Registration,
};
use crate::outcome::{classification, Outcome};
use crate::results::{
    expressions_of, holds, lemma_chosen_by_outcome, shares_out, EntryView, Results,
};
use crate::run::{holds_to, lemma_owner_is_first, owner, BatchRun, RunView};
use crate::scheduler::{complete, joined};
use crate::selection::{Selection, SelectionView};

verus! {

/// What a run produced.
pub struct RunReport {
    /// One entry per distinct expression, in the order of first registration.
    pub results: Results,
    /// How many times markup was handed to the parser during the run.
    pub parses: usize,
    /// How many times an expression was handed to the compiler during the
    /// run.
    pub compilations: usize,
}

/// Whether `results` are the results of a finished run: every registered
/// expression has an entry, and every entry shares out the urls and holds to
/// what needs no query under the heading that owns its expression.
pub open spec fn finished_results(
    registered: Seq<Registration>,
    documents: Seq<DocumentView>,
    results: Seq<EntryView>,
) -> bool {
    (RunView {
        registered,
        documents,
        results,
        position: registered.len(),
        in_flight: None,
        compiled: expressions_of(results),
        compilations: results.len(),
    }).sound()
}

/// Whether `selected` is what `apply` answered for a compiled query and a
/// parsed document.
pub open spec fn answered<F: Fn(&Xpath, &XpathItemTree) -> Selection>(
    apply: F,
    compiled: Result<Xpath, Seq<char>>,
    tree: Result<XpathItemTree, Seq<char>>,
    selected: SelectionView,
) -> bool {
    &&& compiled is Ok
    &&& tree is Ok
    &&& exists|selection: Selection|
        selection@ == selected && #[trigger] apply.ensures(
            (&compiled->Ok_0, &tree->Ok_0),
            selection,
        )
}

/// Whether an outcome is the one of a unit: where the query has to be
/// applied, the match policy on what `apply` answered.
pub open spec fn answers<F: Fn(&Xpath, &XpathItemTree) -> Selection>(
    apply: F,
    compiled: Result<Xpath, Seq<char>>,
    heading: Seq<char>,
    document: DocumentView,
    outcome: Outcome,
) -> bool {
    unit_applies(compiled, heading, document) ==> exists|selected: SelectionView|
        #[trigger] answered(apply, compiled, parsed_tree(document.content), selected) && outcome
            == classification(selected, target_of(document.targets, heading)->Some_0)
}

/// Whether an entry lists one document by what `apply` answered: where the
/// query is applied to it under the heading, it stands in `successful`
/// exactly if the canonical value of what was selected equals its target.
pub open spec fn follows_for<F: Fn(&Xpath, &XpathItemTree) -> Selection>(
    apply: F,
    entry: EntryView,
    heading: Seq<char>,
    document: DocumentView,
) -> bool {
    exists|outcome: Outcome|
        #[trigger] answers(apply, compiled_query(entry.expression), heading, document, outcome) && (
        unit_applies(compiled_query(entry.expression), heading, document)
            ==> entry.successful.contains(document.url) == outcome.matched())
}

/// Whether an entry follows what `apply` answered, for every document.
pub open spec fn follows<F: Fn(&Xpath, &XpathItemTree) -> Selection>(
    apply: F,
    entry: EntryView,
    heading: Seq<char>,
    documents: Seq<DocumentView>,
) -> bool {
    forall|j: int|
        0 <= j < documents.len() ==> follows_for(apply, entry, heading, #[trigger] documents[j])
}

/// Whether every entry follows what `apply` answered, under the heading
/// that owns its expression.
pub open spec fn all_follow<F: Fn(&Xpath, &XpathItemTree) -> Selection>(
    apply: F,
    registered: Seq<Registration>,
    documents: Seq<DocumentView>,
    results: Seq<EntryView>,
) -> bool {
    forall|k: int|
        0 <= k < results.len() ==> (owner(registered, (#[trigger] results[k]).expression)
            matches Some(heading) && follows(apply, results[k], heading, documents))
}

/// Whether an evaluator answers alike whenever it is asked the same.
pub open spec fn answers_alike<F: Fn(&Xpath, &XpathItemTree) -> Selection>(apply: F) -> bool {
    forall|query: Xpath, tree: XpathItemTree, first: Selection, second: Selection|
        #![trigger apply.ensures((&query, &tree), first), apply.ensures((&query, &tree), second)]
        apply.ensures((&query, &tree), first) && apply.ensures((&query, &tree), second)
            ==> first@ == second@
}

/// With an evaluator that answers alike, two entries for one expression
/// under one heading list like documents alike: documents with the same
/// markup and the same target stand in the same list.
pub proof fn lemma_listed_alike<F: Fn(&Xpath, &XpathItemTree) -> Selection>(
    apply: F,
    first: EntryView,
    second: EntryView,
    heading: Seq<char>,
    documents: Seq<DocumentView>,
    u: int,
    v: int,
)
    requires
        answers_alike(apply),
        first.expression == second.expression,
        shares_out(first, urls_of(documents)),
        shares_out(second, urls_of(documents)),
        holds_to(first, heading, documents),
        holds_to(second, heading, documents),
        follows(apply, first, heading, documents),
        follows(apply, second, heading, documents),
        0 <= u < documents.len(),
        0 <= v < documents.len(),
        documents[u].content == documents[v].content,
        target_of(documents[u].targets, heading) == target_of(documents[v].targets, heading),
    ensures
        first.successful.contains(documents[u].url) == second.successful.contains(
            documents[v].url,
        ),
        first.unsuccessful.contains(documents[u].url) == second.unsuccessful.contains(
            documents[v].url,
        ),
{
    let compiled = compiled_query(first.expression);
    let tree = parsed_tree(documents[u].content);
    let urls = urls_of(documents);
    assert(urls[u] == documents[u].url && urls[v] == documents[v].url);
    if unit_applies(compiled, heading, documents[u]) {
        assert(follows_for(apply, first, heading, documents[u]));
        assert(follows_for(apply, second, heading, documents[v]));
        let one = choose|outcome: Outcome|
            #[trigger] answers(apply, compiled, heading, documents[u], outcome)
                && first.successful.contains(documents[u].url) == outcome.matched();
        let other = choose|outcome: Outcome|
            #[trigger] answers(apply, compiled, heading, documents[v], outcome)
                && second.successful.contains(documents[v].url) == outcome.matched();
        let target = target_of(documents[u].targets, heading)->Some_0;
        let selected = choose|selected: SelectionView|
            #[trigger] answered(apply, compiled, tree, selected) && one == classification(
                selected,
                target,
            );
        let reselected = choose|selected: SelectionView|
            #[trigger] answered(apply, compiled, tree, selected) && other == classification(
                selected,
                target,
            );
        let selection = choose|selection: Selection|
            selection@ == selected && #[trigger] apply.ensures(
                (&compiled->Ok_0, &tree->Ok_0),
                selection,
            );
        let reselection = choose|selection: Selection|
            selection@ == reselected && #[trigger] apply.ensures(
                (&compiled->Ok_0, &tree->Ok_0),
                selection,
            );
        assert(selection@ == reselection@);
    }
}

/// With an evaluator that answers alike, any two results of the same input
/// list the same urls as successful and the same as unsuccessful, for every
/// expression.
pub proof fn lemma_runs_agree<F: Fn(&Xpath, &XpathItemTree) -> Selection>(
    apply: F,
    registered: Seq<Registration>,
    documents: Seq<DocumentView>,
    first: Seq<EntryView>,
    second: Seq<EntryView>,
    i: int,
    k: int,
    url: Seq<char>,
)
    requires
        answers_alike(apply),
        finished_results(registered, documents, first),
        finished_results(registered, documents, second),
        all_follow(apply, registered, documents, first),
        all_follow(apply, registered, documents, second),
        0 <= i < first.len(),
        0 <= k < second.len(),
        first[i].expression == second[k].expression,
    ensures
        first[i].successful.contains(url) == second[k].successful.contains(url),
        first[i].unsuccessful.contains(url) == second[k].unsuccessful.contains(url),
{
    let urls = urls_of(documents);
    let heading = owner(registered, first[i].expression)->Some_0;
    if urls.contains(url) {
        let j = choose|j: int| 0 <= j < urls.len() && urls[j] == url;
        lemma_listed_alike(apply, first[i], second[k], heading, documents, j, j);
    }
}

/// Runs the whole batch, one unit after another. The input is validated
/// first, and refused with the first violation before anything is evaluated.
/// Otherwise every document is parsed once, and every distinct expression is
/// compiled once and evaluated against every document under the heading that
/// registers it first. `apply` is called where a query has to be applied to a
/// document, and on nothing else: it stands for the engine's evaluator.
/// The report counts the calls of the parser and of the compiler: one for
/// each document, and one for each distinct expression.
pub fn process_input<F>(
    headings: Vec<HeadingGroup>,
    documents: Vec<DocumentRecord>,
    apply: F,
) -> (run: Result<RunReport, InputError>) where F: Fn(&Xpath, &XpathItemTree) -> Selection
    requires
        forall|query: &Xpath, tree: &XpathItemTree| apply.requires((query, tree)),
    ensures
        run.is_ok() == valid_input(heading_views(headings@), document_views(documents@)),
        run matches Err(error) ==> rejects(
            heading_views(headings@),
            document_views(documents@),
            error,
        ),
        run matches Ok(report) ==> {
            &&& finished_results(
                registrations(heading_views(headings@)),
                document_views(documents@),
                report.results@,
            )
            &&& all_follow(
                apply,
                registrations(heading_views(headings@)),
                document_views(documents@),
                report.results@,
            )
            &&& distinct(expressions_of(report.results@))
            &&& report.compilations == report.results@.len()
            &&& report.parses == documents.len()
        },
{
    let ghost registered = registrations(heading_views(headings@));
    let ghost dv = document_views(documents@);
    let mut run = match BatchRun::start(headings, documents) {
        Err(error) => {
            return Err(error);
        },
        Ok(run) => run,
    };
    loop
        invariant_except_break
            run@.in_flight is None,
        invariant
            run@.sound(),
            run@.registered == registered,
            run@.documents == dv,
            all_follow(apply, registered, dv, run@.results),
            forall|query: &Xpath, tree: &XpathItemTree| apply.requires((query, tree)),
        ensures
            run@.finished(),
        decreases registered.len() - run@.position,
    {
        if !run.next_job() {
            break;
        }
        let ghost position = run@.position;
        let ghost results = run@.results;
        let units = run.documents().len();
        let mut unit: usize = 0;
        while unit < units
            invariant
                unit <= units == dv.len(),
                run@.sound(),
                run@.registered == registered,
                run@.documents == dv,
                run@.position == position < registered.len(),
                run@.results == results,
                forall|query: &Xpath, tree: &XpathItemTree| apply.requires((query, tree)),
                run@.in_flight matches Some(flight) && flight.slots.len() == units && (forall|
                    k: int,
                |
                    0 <= k < unit ==> ((#[trigger] flight.slots[k]) matches Some(outcome)
                        && answers(
                        apply,
                        flight.job.compiled,
                        flight.job.heading,
                        dv[k],
                        outcome,
                    ))) && (forall|k: int| unit <= k < units ==> flight.slots[k].is_none()),
            decreases units - unit,
        {
            let ghost before = run@.in_flight->Some_0;
            let mut selected: Option<Selection> = None;
            if let Some(job) = run.job() {
                if let Some(pair) = job.request(run.documents(), unit) {
                    let selection = apply(pair.0, pair.1);
                    assert(apply.ensures(
                        (
                            &before.job.compiled->Ok_0,
                            &parsed_tree(dv[unit as int].content)->Ok_0,
                        ),
                        selection,
                    ));
                    assert(answered(
                        apply,
                        before.job.compiled,
                        parsed_tree(dv[unit as int].content),
                        selection@,
                    ));
                    selected = Some(selection);
                }
            }
            assert(unit_applies(before.job.compiled, before.job.heading, dv[unit as int])
                ==> selected is Some);
            run.report(unit, selected.as_ref());
            proof {
                let after = run@.in_flight->Some_0;
                let outcome = unit_settled(
                    before.job.compiled,
                    before.job.heading,
                    dv[unit as int],
                    match selected {
                        None => None,
                        Some(selection) => Some(selection@),
                    },
                );
                assert(after.slots[unit as int] == Some(outcome));
                assert(answers(
                    apply,
                    before.job.compiled,
                    before.job.heading,
                    dv[unit as int],
                    outcome,
                ));
                assert forall|k: int| 0 <= k < unit implies after.slots[k] == before.slots[k] by {}
            }
            unit += 1;
        }
        proof {
            let flight = run@.in_flight->Some_0;
            let registration = registered[position as int];
            let entry = run@.joined_entry();
            let urls = urls_of(dv);
            let outcomes = joined(flight.slots);
            assert forall|p: int| 0 <= p < position implies registered[p].expression
                != registration.expression by {
                assert(holds(results, registered[p].expression));
            }
            lemma_owner_is_first(registered, position as int);
            assert(follows(apply, entry, registration.heading, dv)) by {
                assert forall|j: int| 0 <= j < dv.len() implies follows_for(
                    apply,
                    entry,
                    registration.heading,
                    #[trigger] dv[j],
                ) by {
                    let outcome = flight.slots[j]->Some_0;
                    assert(answers(
                        apply,
                        compiled_query(entry.expression),
                        registration.heading,
                        dv[j],
                        outcome,
                    ));
                    assert(outcomes[j] == outcome);
                    assert(urls[j] == dv[j].url);
                    lemma_chosen_by_outcome(urls, outcomes, true, j);
                }
            }
            assert(complete(flight.slots));
        }
        run.finalize();
        proof {
            assert forall|k: int| 0 <= k < run@.results.len() implies (owner(
                registered,
                (#[trigger] run@.results[k]).expression,
            ) matches Some(heading) && follows(apply, run@.results[k], heading, dv)) by {
                if k < results.len() {
                    assert(run@.results[k] == results[k]);
                }
            }
        }
    }
    let parses = run.documents().parse_count();
    let compilations = run.compile_count();
    assert(run@.compiled_once() =~= expressions_of(run@.results));
    Ok(RunReport { results: run.into_results(), parses, compilations })
}

} // verus!
