//! A run as a sequence of decisions: which expression to evaluate next, what
//! a unit's report means, and when an expression's entry is finalized.
//!
//! The run applies no query itself. Whoever drives it takes a job, asks for
//! each document whether the job's query has to be applied, applies it where
//! it has to, in any order and behind a boundary of its own, reports what was
//! selected, and finalizes the job once every unit is accounted for. The run
//! settles every outcome itself: what is reported is a selection, never a
//! verdict.

use std::sync::Arc;
use vstd::prelude::*;
use skyscraper::xpath::{Xpath, XpathItemTree};
use crate::documents::{unit_applies, unit_settled, DocumentSet};
use crate::admission::admitted;
use crate::engine::{compiled_query, parsed_tree};
use crate::evaluate::{optional_selection, CallLog, CompiledQuery};
use crate::input::{
    distinct, document_views, heading_admitted, heading_registrations, heading_views,
    registrations, rejects, urls_of, valid_input, validate, DocumentRecord, DocumentView,
    HeadingGroup, HeadingView, InputError, Registration,
};
use crate::outcome::Outcome;
use crate::results::{
    entry_from, expressions_of, holds, lemma_chosen_by_outcome, lemma_entry_shares_out,
    lemma_retain_first, retain_first, shares_out, EntryView, Results,
};
use crate::scheduler::{complete, joined, pending, reported, JoinGroup};
use crate::selection::{Selection, SelectionView};

verus! {

/// An expression with the name of a heading that registers it.
pub struct Registered {
    pub heading: String,
    pub expression: String,
}

impl View for Registered {
    type V = Registration;

    open spec fn view(&self) -> Registration {
        Registration { heading: self.heading@, expression: self.expression@ }
    }
}

/// The values of a sequence of registered expressions, one for one.
pub open spec fn registered_views(plan: Seq<Registered>) -> Seq<Registration> {
    plan.map_values(|registered: Registered| registered@)
}

/// Lists the registrations of a run: heading by heading, each heading's
/// expressions in order.
pub fn plan_of(headings: &Vec<HeadingGroup>) -> (plan: Vec<Registered>)
    ensures
        registered_views(plan@) == registrations(heading_views(headings@)),
{
    let ghost hv = heading_views(headings@);
    let mut plan: Vec<Registered> = Vec::new();
    let mut h: usize = 0;
    assert(hv.take(0) =~= Seq::<HeadingView>::empty());
    while h < headings.len()
        invariant
            h <= headings.len(),
            hv == heading_views(headings@),
            registered_views(plan@) == registrations(hv.take(h as int)),
        decreases headings.len() - h,
    {
        let heading = &headings[h];
        let ghost before = registrations(hv.take(h as int));
        let ghost own = heading_registrations(hv[h as int]);
        let mut e: usize = 0;
        assert(before + own.take(0) =~= before);
        while e < heading.expressions.len()
            invariant
                h < headings.len(),
                heading == &headings[h as int],
                hv == heading_views(headings@),
                own == heading_registrations(hv[h as int]),
                e <= heading.expressions.len(),
                registered_views(plan@) == before + own.take(e as int),
            decreases heading.expressions.len() - e,
        {
            let registered = Registered {
                heading: heading.name.clone(),
                expression: heading.expressions[e].clone(),
            };
            assert(registered@ == own[e as int]);
            let ghost listed = registered_views(plan@);
            plan.push(registered);
            assert(registered_views(plan@) =~= listed.push(own[e as int]));
            assert(own.take(e + 1) =~= own.take(e as int).push(own[e as int]));
            assert(registered_views(plan@) =~= before + own.take(e + 1));
            e += 1;
        }
        proof {
            assert(own.take(e as int) =~= own);
            assert(hv.take(h + 1).drop_last() =~= hv.take(h as int));
            assert(hv.take(h + 1).last() == hv[h as int]);
        }
        h += 1;
    }
    assert(hv.take(h as int) =~= hv);
    plan
}

/// The work that one registration asks for: its compiled query, to be
/// evaluated against every document under its heading.
pub struct Job {
    pub query: CompiledQuery,
    pub heading: String,
}

/// The mathematical value of a [`Job`].
pub struct JobView {
    pub heading: Seq<char>,
    pub expression: Seq<char>,
    pub compiled: Result<Xpath, Seq<char>>,
}

impl View for Job {
    type V = JobView;

    open spec fn view(&self) -> JobView {
        JobView {
            heading: self.heading@,
            expression: self.query.text(),
            compiled: self.query.compiled(),
        }
    }
}

impl Job {
    /// Says whether the job's query has to be applied to a document, and
    /// hands out what to apply to what.
    pub fn request<'a>(&'a self, documents: &'a DocumentSet, unit: usize) -> (asked: Option<
        (&'a Xpath, &'a XpathItemTree),
    >)
        ensures
            asked.is_some() == (unit < documents@.len() && unit_applies(
                self@.compiled,
                self@.heading,
                documents@[unit as int],
            )),
            asked matches Some(pair) ==> self@.compiled == Ok::<Xpath, Seq<char>>(*pair.0)
                && parsed_tree(documents@[unit as int].content) == Ok::<XpathItemTree, Seq<char>>(
                *pair.1,
            ),
    {
        documents.request(&self.query, &self.heading, unit)
    }
}

/// Where every expression of every heading is admitted, so is that of every
/// registration.
pub proof fn lemma_registrations_admitted(headings: Seq<HeadingView>)
    requires
        forall|h: int| 0 <= h < headings.len() ==> heading_admitted(#[trigger] headings[h]),
    ensures
        forall|i: int|
            0 <= i < registrations(headings).len() ==> admitted(
                #[trigger] registrations(headings)[i].expression,
            ),
    decreases headings.len(),
{
    if headings.len() > 0 {
        let earlier = registrations(headings.drop_last());
        let own = heading_registrations(headings.last());
        assert forall|h: int| 0 <= h < headings.drop_last().len() implies heading_admitted(
            #[trigger] headings.drop_last()[h],
        ) by {
            assert(headings.drop_last()[h] == headings[h]);
        }
        lemma_registrations_admitted(headings.drop_last());
        assert(heading_admitted(headings[headings.len() - 1]));
        assert forall|i: int| 0 <= i < registrations(headings).len() implies admitted(
            #[trigger] registrations(headings)[i].expression,
        ) by {
            if i < earlier.len() {
                assert(registrations(headings)[i] == earlier[i]);
            } else {
                assert(registrations(headings)[i] == own[i - earlier.len()]);
                assert(own[i - earlier.len()].expression == headings.last().expressions[i
                    - earlier.len()]);
            }
        }
    }
}

/// The heading that owns an expression: the one of its first registration.
pub open spec fn owner(registered: Seq<Registration>, expression: Seq<char>) -> Option<Seq<char>>
    decreases registered.len(),
{
    if registered.len() == 0 {
        None
    } else {
        match owner(registered.drop_last(), expression) {
            Some(heading) => Some(heading),
            None => if registered.last().expression == expression {
                Some(registered.last().heading)
            } else {
                None
            },
        }
    }
}

/// An expression that nothing registers has no owner.
pub proof fn lemma_owner_none(registered: Seq<Registration>, expression: Seq<char>)
    requires
        forall|p: int| 0 <= p < registered.len() ==> registered[p].expression != expression,
    ensures
        owner(registered, expression) is None,
    decreases registered.len(),
{
    if registered.len() > 0 {
        lemma_owner_none(registered.drop_last(), expression);
    }
}

/// The owner of an expression is the heading of its first registration.
pub proof fn lemma_owner_is_first(registered: Seq<Registration>, origin: int)
    requires
        0 <= origin < registered.len(),
        forall|p: int|
            0 <= p < origin ==> registered[p].expression != registered[origin].expression,
    ensures
        owner(registered, registered[origin].expression) == Some(registered[origin].heading),
    decreases registered.len(),
{
    let expression = registered[origin].expression;
    if origin < registered.len() - 1 {
        lemma_owner_is_first(registered.drop_last(), origin);
    } else {
        lemma_owner_none(registered.drop_last(), expression);
    }
}

/// A pair that is settled without applying the query never matches, whatever
/// is reported for it.
pub proof fn lemma_unapplied_never_matches(
    compiled: Result<Xpath, Seq<char>>,
    heading: Seq<char>,
    document: DocumentView,
    selected: Option<SelectionView>,
)
    requires
        !unit_applies(compiled, heading, document),
    ensures
        !unit_settled(compiled, heading, document, selected).matched(),
{
}

/// Whether an entry holds to what needs no query: every document for which
/// the query is not applied under the heading (it registers no target there,
/// or the expression does not compile, or its markup does not parse) stands
/// in `unsuccessful` and not in `successful`.
pub open spec fn holds_to(
    entry: EntryView,
    heading: Seq<char>,
    documents: Seq<DocumentView>,
) -> bool {
    forall|j: int|
        0 <= j < documents.len() && !unit_applies(
            compiled_query(entry.expression),
            heading,
            #[trigger] documents[j],
        ) ==> entry.unsuccessful.contains(documents[j].url) && !entry.successful.contains(
            documents[j].url,
        )
}

/// A run in progress.
pub struct BatchRun {
    plan: Vec<Registered>,
    documents: Arc<DocumentSet>,
    results: Results,
    position: usize,
    job: Option<Arc<Job>>,
    group: Option<JoinGroup>,
    log: CallLog,
}

/// A job in flight: the job, and the outcomes settled so far, by unit.
pub struct Flight {
    pub job: JobView,
    pub slots: Seq<Option<Outcome>>,
}

/// The state of a run.
pub struct RunView {
    /// The registrations of the run, in order.
    pub registered: Seq<Registration>,
    /// The documents of the run, in order.
    pub documents: Seq<DocumentView>,
    /// The entries finalized so far.
    pub results: Seq<EntryView>,
    /// How many registrations are dealt with: finalized, or passed over
    /// because their expression already had an entry.
    pub position: nat,
    /// The job in flight; `None` between jobs.
    pub in_flight: Option<Flight>,
    /// The expressions that were handed to the compiler, in order.
    pub compiled: Seq<Seq<char>>,
    /// How many times the compiler was called.
    pub compilations: nat,
}

impl RunView {
    /// Whether every registration is dealt with.
    pub open spec fn finished(self) -> bool {
        self.in_flight is None && self.position >= self.registered.len()
    }

    /// Whether a report for a unit is recorded: a job is in flight, and the
    /// unit is one of its units that is not yet accounted for.
    pub open spec fn accepts(self, unit: int) -> bool {
        &&& self.in_flight matches Some(flight)
        &&& 0 <= unit < self.documents.len()
        &&& unit < flight.slots.len()
        &&& flight.slots[unit].is_none()
    }

    /// The state after a unit reports what its query selected: the outcome
    /// that the run settles for the unit is recorded. A report that is not
    /// accepted changes nothing.
    pub open spec fn after_report(self, unit: int, selected: Option<SelectionView>) -> RunView {
        match self.in_flight {
            Some(flight) => if 0 <= unit < self.documents.len() {
                RunView {
                    in_flight: Some(
                        Flight {
                            slots: reported(
                                flight.slots,
                                unit,
                                unit_settled(
                                    flight.job.compiled,
                                    flight.job.heading,
                                    self.documents[unit],
                                    selected,
                                ),
                            ),
                            ..flight
                        },
                    ),
                    ..self
                }
            } else {
                self
            },
            None => self,
        }
    }

    /// The expressions that a sound run has compiled: one for each entry, in
    /// order, and that of the job in flight.
    pub open spec fn compiled_once(self) -> Seq<Seq<char>> {
        expressions_of(self.results) + match self.in_flight {
            Some(_) => seq![self.registered[self.position as int].expression],
            None => Seq::empty(),
        }
    }

    /// What holds of every state of a run, from its start on:
    /// - no url occurs twice, every registered expression is admitted, and
    ///   every registration before the position has an entry;
    /// - no two entries are keyed by the same expression, and the compiler
    ///   was called once for each entry and once for the job in flight, on
    ///   their expressions;
    /// - every entry shares out the urls of the run, each url in exactly one
    ///   of its lists, and holds to what needs no query under the heading
    ///   that owns its expression;
    /// - the job in flight is that of the registration at the position,
    ///   which has no entry yet, and no unit for which the query is not
    ///   applied is settled as a match.
    pub open spec fn sound(self) -> bool {
        &&& distinct(urls_of(self.documents))
        &&& self.position <= self.registered.len()
        &&& forall|i: int|
            0 <= i < self.registered.len() ==> admitted(#[trigger] self.registered[i].expression)
        &&& distinct(expressions_of(self.results))
        &&& self.compiled == self.compiled_once()
        &&& self.compilations == self.compiled.len()
        &&& forall|i: int|
            0 <= i < self.position ==> holds(self.results, #[trigger] self.registered[i].expression)
        &&& forall|k: int|
            0 <= k < self.results.len() ==> {
                let entry = #[trigger] self.results[k];
                &&& shares_out(entry, urls_of(self.documents))
                &&& owner(self.registered, entry.expression) matches Some(heading)
                &&& holds_to(entry, heading, self.documents)
            }
        &&& self.in_flight matches Some(flight) ==> {
            &&& self.position < self.registered.len()
            &&& flight.job.heading == self.registered[self.position as int].heading
            &&& flight.job.compiled == compiled_query(
                self.registered[self.position as int].expression,
            )
            &&& !holds(self.results, self.registered[self.position as int].expression)
            &&& forall|j: int|
                0 <= j < flight.slots.len() && j < self.documents.len() && !unit_applies(
                    flight.job.compiled,
                    flight.job.heading,
                    self.documents[j],
                ) ==> ((#[trigger] flight.slots[j]) matches Some(outcome) ==> !outcome.matched())
        }
    }

    /// Whether the job in flight can be finalized: it has one unit per
    /// document, and every unit is accounted for.
    pub open spec fn joinable(self) -> bool {
        &&& self.in_flight matches Some(flight)
        &&& self.position < self.registered.len()
        &&& flight.slots.len() == self.documents.len()
        &&& complete(flight.slots)
    }

    /// The entry that finalizing the job in flight adds.
    pub open spec fn joined_entry(self) -> EntryView {
        entry_from(
            self.registered[self.position as int].expression,
            urls_of(self.documents),
            joined(self.in_flight.unwrap().slots),
        )
    }
}

impl View for BatchRun {
    type V = RunView;

    closed spec fn view(&self) -> RunView {
        RunView {
            registered: registered_views(self.plan@),
            documents: self.documents@,
            results: self.results@,
            position: self.position as nat,
            in_flight: match (self.job, self.group) {
                (Some(job), Some(group)) => Some(Flight { job: job@, slots: group@ }),
                _ => None,
            },
            compiled: self.log@,
            compilations: self.log.count(),
        }
    }
}

/// Finalizing the job in flight keeps a run sound.
pub proof fn lemma_finalize_keeps_sound(run: RunView)
    requires
        run.sound(),
        run.joinable(),
    ensures
        (RunView {
            results: retain_first(run.results, run.joined_entry()),
            position: run.position + 1,
            in_flight: None,
            ..run
        }).sound(),
{
    let flight = run.in_flight.unwrap();
    let position = run.position as int;
    let registration = run.registered[position];
    let urls = urls_of(run.documents);
    let outcomes = joined(flight.slots);
    let entry = run.joined_entry();
    let after = RunView {
        results: retain_first(run.results, entry),
        position: run.position + 1,
        in_flight: None,
        ..run
    };
    assert(after.results == run.results.push(entry));
    assert(after.compiled_once() =~= run.compiled_once());
    lemma_retain_first(run.results, entry);
    lemma_entry_shares_out(registration.expression, urls, outcomes);
    assert forall|p: int| 0 <= p < position implies run.registered[p].expression
        != registration.expression by {
        assert(holds(run.results, run.registered[p].expression));
    }
    lemma_owner_is_first(run.registered, position);
    assert(holds_to(entry, registration.heading, run.documents)) by {
        assert forall|j: int|
            0 <= j < run.documents.len() && !unit_applies(
                compiled_query(entry.expression),
                registration.heading,
                #[trigger] run.documents[j],
            ) implies entry.unsuccessful.contains(run.documents[j].url)
            && !entry.successful.contains(run.documents[j].url) by {
            assert(flight.slots[j] is Some);
            assert(!outcomes[j].matched());
            assert(urls[j] == run.documents[j].url);
            lemma_chosen_by_outcome(urls, outcomes, true, j);
            lemma_chosen_by_outcome(urls, outcomes, false, j);
        }
    }
    assert forall|i: int| 0 <= i < after.position implies holds(
        after.results,
        #[trigger] after.registered[i].expression,
    ) by {
        if i < position {
            let k = choose|k: int|
                0 <= k < run.results.len() && run.results[k].expression
                    == run.registered[i].expression;
            assert(after.results[k].expression == run.registered[i].expression);
        } else {
            assert(after.results[run.results.len() as int].expression == registration.expression);
        }
    }
    assert forall|k: int| 0 <= k < after.results.len() implies {
        let listed = #[trigger] after.results[k];
        &&& shares_out(listed, urls_of(after.documents))
        &&& owner(after.registered, listed.expression) matches Some(heading)
        &&& holds_to(listed, heading, after.documents)
    } by {
        if k < run.results.len() {
            assert(after.results[k] == run.results[k]);
        }
    }
}

impl BatchRun {
    /// Starts a run. The input is validated first, and refused with its first
    /// violation. Otherwise every document is parsed, once, and the run
    /// stands before its first registration.
    pub fn start(headings: Vec<HeadingGroup>, documents: Vec<DocumentRecord>) -> (run: Result<
        BatchRun,
        InputError,
    >)
        ensures
            run.is_ok() == valid_input(heading_views(headings@), document_views(documents@)),
            run matches Err(error) ==> rejects(
                heading_views(headings@),
                document_views(documents@),
                error,
            ),
            run matches Ok(started) ==> started@ == (RunView {
                registered: registrations(heading_views(headings@)),
                documents: document_views(documents@),
                results: Seq::empty(),
                position: 0,
                in_flight: None,
                compiled: Seq::empty(),
                compilations: 0,
            }) && started@.sound(),
    {
        if let Err(error) = validate(&headings, &documents) {
            return Err(error);
        }
        proof {
            lemma_registrations_admitted(heading_views(headings@));
        }
        let plan = plan_of(&headings);
        let set = DocumentSet::prepare(documents);
        Ok(
            BatchRun {
                plan,
                documents: Arc::new(set),
                results: Results::new(),
                position: 0,
                job: None,
                group: None,
                log: CallLog::new(),
            },
        )
    }

    /// The documents of the run, parsed.
    pub fn documents(&self) -> (documents: &Arc<DocumentSet>)
        ensures
            documents@ == self@.documents,
    {
        &self.documents
    }

    /// The job in flight, if there is one.
    pub fn job(&self) -> (job: Option<&Arc<Job>>)
        ensures
            match job {
                Some(job) => self@.in_flight matches Some(flight) && flight.job == job@,
                None => self@.in_flight is None,
            },
    {
        if self.group.is_some() {
            self.job.as_ref()
        } else {
            None
        }
    }

    /// How many times the compiler was called so far.
    pub fn compile_count(&self) -> (count: usize)
        ensures
            count == self@.compilations,
    {
        self.log.len()
    }

    /// Whether every registration is dealt with.
    pub fn is_finished(&self) -> (finished: bool)
        ensures
            finished == self@.finished(),
    {
        !(self.job.is_some() && self.group.is_some()) && self.position >= self.plan.len()
    }

    /// Takes the next job, and says whether there is one. Registrations
    /// whose expression already has an entry are passed over: the first
    /// registration of an expression decides. So is one whose expression is
    /// not admitted; a run that was started has none. For the first registration
    /// that has none, the expression is compiled and a join group of one
    /// unit per document is opened. There is no new job while another is in
    /// flight, nor when the run is finished.
    pub fn next_job(&mut self) -> (started: bool)
        ensures
            old(self)@.sound() ==> final(self)@.sound(),
            old(self)@.in_flight is Some ==> !started && final(self)@ == old(self)@,
            old(self)@.in_flight is None ==> {
                &&& final(self)@.registered == old(self)@.registered
                &&& final(self)@.documents == old(self)@.documents
                &&& final(self)@.results == old(self)@.results
                &&& final(self)@.compiled == if started {
                    old(self)@.compiled.push(
                        final(self)@.registered[final(self)@.position as int].expression,
                    )
                } else {
                    old(self)@.compiled
                }
                &&& final(self)@.compilations == if started {
                    old(self)@.compilations + 1
                } else {
                    old(self)@.compilations
                }
                &&& old(self)@.position <= final(self)@.position
                &&& final(self)@.position <= old(self)@.position || final(self)@.position <= old(
                    self,
                )@.registered.len()
                &&& forall|i: int|
                    old(self)@.position <= i < final(self)@.position && i < old(
                        self,
                    )@.registered.len() ==> holds(
                        old(self)@.results,
                        #[trigger] old(self)@.registered[i].expression,
                    ) || !admitted(old(self)@.registered[i].expression)
                &&& if started {
                    let registration = final(self)@.registered[final(self)@.position as int];
                    &&& final(self)@.position < final(self)@.registered.len()
                    &&& !holds(final(self)@.results, registration.expression)
                    &&& final(self)@.in_flight == Some(
                        Flight {
                            job: JobView {
                                heading: registration.heading,
                                expression: registration.expression,
                                compiled: compiled_query(registration.expression),
                            },
                            slots: Seq::new(
                                final(self)@.documents.len(),
                                |unit: int| None::<Outcome>,
                            ),
                        },
                    )
                } else {
                    final(self)@.finished()
                }
            },
    {
        if self.job.is_some() && self.group.is_some() {
            return false;
        }
        self.job = None;
        self.group = None;
        while self.position < self.plan.len()
            invariant
                old(self)@.in_flight is None,
                self.job is None,
                self.group is None,
                self.plan == old(self).plan,
                self.documents == old(self).documents,
                self.results == old(self).results,
                self.log@ == old(self).log@,
                self.log.count() == old(self).log.count(),
                old(self).position <= self.position,
                self.position <= old(self).position || self.position <= self.plan.len(),
                forall|i: int|
                    old(self).position <= i < self.position && i < self.plan.len() ==> holds(
                        self.results@,
                        #[trigger] registered_views(self.plan@)[i].expression,
                    ) || !admitted(registered_views(self.plan@)[i].expression),
            decreases self.plan.len() - self.position,
        {
            let registered = &self.plan[self.position];
            if !self.results.contains(&registered.expression) {
                let compiled = CompiledQuery::compile(
                    registered.expression.as_str(),
                    &mut self.log,
                );
                if let Some(query) = compiled {
                    let job = Job { query, heading: registered.heading.clone() };
                    self.job = Some(Arc::new(job));
                    self.group = Some(JoinGroup::new(self.documents.len()));
                    return true;
                }
            }
            self.position += 1;
        }
        false
    }

    /// Records what the query of the job in flight selected from a document:
    /// the run settles the unit's outcome from it. `None` reports that the
    /// query was not applied, or that the unit failed. Returns whether the
    /// report was the unit's first, and so was recorded.
    pub fn report(&mut self, unit: usize, selected: Option<&Selection>) -> (accepted: bool)
        ensures
            final(self)@ == old(self)@.after_report(unit as int, optional_selection(selected)),
            accepted == old(self)@.accepts(unit as int),
            old(self)@.sound() ==> final(self)@.sound(),
    {
        proof {
            if unit < self@.documents.len() && self@.in_flight is Some {
                let flight = self@.in_flight.unwrap();
                let document = self@.documents[unit as int];
                if !unit_applies(flight.job.compiled, flight.job.heading, document) {
                    lemma_unapplied_never_matches(
                        flight.job.compiled,
                        flight.job.heading,
                        self@.documents[unit as int],
                        optional_selection(selected),
                    );
                }
            }
        }
        let outcome = match &self.job {
            None => {
                return false;
            },
            Some(job) => match self.documents.settle(&job.query, &job.heading, unit, selected) {
                None => {
                    return false;
                },
                Some(outcome) => outcome,
            },
        };
        match self.group.as_mut() {
            None => false,
            Some(group) => group.report(unit, outcome),
        }
    }

    /// Records that a unit of the job in flight ended without a selection.
    pub fn fault(&mut self, unit: usize) -> (accepted: bool)
        ensures
            final(self)@ == old(self)@.after_report(unit as int, None),
            accepted == old(self)@.accepts(unit as int),
            old(self)@.sound() ==> final(self)@.sound(),
    {
        self.report(unit, None)
    }

    /// The number of units of the job in flight that are not accounted for.
    pub fn pending(&self) -> (count: usize)
        ensures
            count == match self@.in_flight {
                None => 0,
                Some(flight) => pending(flight.slots),
            },
    {
        if self.job.is_none() {
            return 0;
        }
        match &self.group {
            None => 0,
            Some(group) => group.pending(),
        }
    }

    /// Finalizes the job in flight, once every unit is accounted for: its
    /// entry is handed to the results, and the run moves on. Until then, and
    /// between jobs, nothing changes.
    pub fn finalize(&mut self) -> (finalized: bool)
        ensures
            finalized == old(self)@.joinable(),
            finalized ==> final(self)@ == (RunView {
                results: retain_first(old(self)@.results, old(self)@.joined_entry()),
                position: old(self)@.position + 1,
                in_flight: None,
                ..old(self)@
            }),
            !finalized ==> final(self)@ == old(self)@,
            old(self)@.sound() ==> final(self)@.sound(),
    {
        proof {
            if self@.sound() && self@.joinable() {
                lemma_finalize_keeps_sound(self@);
            }
        }
        if self.position >= self.plan.len() || self.job.is_none() {
            return false;
        }
        let outcomes = match &self.group {
            None => {
                return false;
            },
            Some(group) => match group.join() {
                None => {
                    return false;
                },
                Some(outcomes) => outcomes,
            },
        };
        match self.documents.entry(&self.plan[self.position].expression, &outcomes) {
            None => false,
            Some(entry) => {
                self.results.finalize(entry);
                self.job = None;
                self.group = None;
                self.position += 1;
                true
            },
        }
    }

    /// Ends the run and gives up the entries finalized so far.
    pub fn into_results(self) -> (results: Results)
        ensures
            results@ == self@.results,
    {
        self.results
    }
}

} // verus!
