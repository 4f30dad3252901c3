//! Result entries, and the aggregator that keeps one entry per expression.

use vstd::prelude::*;
use crate::input::{distinct, document_views, repeated_at, urls_of, DocumentRecord};
use crate::outcome::Outcome;

verus! {

/// The result for one expression: the documents that matched and those that
/// did not, each list in the order of the input's documents.
#[derive(Clone, Debug, PartialEq, Eq)]
pub struct ResultEntry {
    pub expression: String,
    pub successful: Vec<String>,
    pub unsuccessful: Vec<String>,
}

/// The mathematical value of a [`ResultEntry`].
pub struct EntryView {
    pub expression: Seq<char>,
    pub successful: Seq<Seq<char>>,
    pub unsuccessful: Seq<Seq<char>>,
}

impl View for ResultEntry {
    type V = EntryView;

    open spec fn view(&self) -> EntryView {
        EntryView {
            expression: self.expression@,
            successful: self.successful@.map_values(|url: String| url@),
            unsuccessful: self.unsuccessful@.map_values(|url: String| url@),
        }
    }
}

/// The values of a sequence of entries, one for one.
pub open spec fn entry_views(entries: Seq<ResultEntry>) -> Seq<EntryView> {
    entries.map_values(|entry: ResultEntry| entry@)
}

/// The urls whose outcome is a match (`matched`) or is not (`!matched`), in
/// the order of `urls`. The outcome at a position belongs to the url there.
pub open spec fn chosen(urls: Seq<Seq<char>>, outcomes: Seq<Outcome>, matched: bool) -> Seq<
    Seq<char>,
>
    recommends
        urls.len() == outcomes.len(),
    decreases urls.len(),
{
    if urls.len() == 0 {
        Seq::empty()
    } else {
        let earlier = chosen(urls.drop_last(), outcomes.drop_last(), matched);
        if outcomes.last().matched() == matched {
            earlier.push(urls.last())
        } else {
            earlier
        }
    }
}

/// The entry that a complete sequence of outcomes gives an expression.
pub open spec fn entry_from(
    expression: Seq<char>,
    urls: Seq<Seq<char>>,
    outcomes: Seq<Outcome>,
) -> EntryView {
    EntryView {
        expression,
        successful: chosen(urls, outcomes, true),
        unsuccessful: chosen(urls, outcomes, false),
    }
}

/// A url is chosen exactly if it stands at a position with such an outcome.
pub proof fn lemma_chosen_members(
    urls: Seq<Seq<char>>,
    outcomes: Seq<Outcome>,
    matched: bool,
    url: Seq<char>,
)
    requires
        urls.len() == outcomes.len(),
    ensures
        chosen(urls, outcomes, matched).contains(url) <==> exists|j: int|
            0 <= j < urls.len() && urls[j] == url && outcomes[j].matched() == matched,
    decreases urls.len(),
{
    if urls.len() > 0 {
        let earlier = chosen(urls.drop_last(), outcomes.drop_last(), matched);
        let last = urls.len() - 1;
        lemma_chosen_members(urls.drop_last(), outcomes.drop_last(), matched, url);
        if chosen(urls, outcomes, matched).contains(url) {
            if outcomes.last().matched() == matched && urls.last() == url {
                assert(urls[last] == url && outcomes[last].matched() == matched);
            } else {
                assert(earlier.contains(url)) by {
                    if outcomes.last().matched() == matched {
                        let at = choose|at: int|
                            0 <= at < earlier.push(urls.last()).len() && earlier.push(
                                urls.last(),
                            )[at] == url;
                        assert(earlier[at] == url);
                    }
                }
                let j = choose|j: int|
                    0 <= j < urls.drop_last().len() && urls.drop_last()[j] == url
                        && outcomes.drop_last()[j].matched() == matched;
                assert(urls[j] == url && outcomes[j].matched() == matched);
            }
        }
        if exists|j: int|
            0 <= j < urls.len() && urls[j] == url && outcomes[j].matched() == matched {
            let j = choose|j: int|
                0 <= j < urls.len() && urls[j] == url && outcomes[j].matched() == matched;
            if j == last {
                assert(earlier.push(urls.last())[earlier.len() as int] == url);
            } else {
                assert(urls.drop_last()[j] == url && outcomes.drop_last()[j].matched() == matched);
                assert(earlier.contains(url));
                if outcomes.last().matched() == matched {
                    let at = choose|at: int| 0 <= at < earlier.len() && earlier[at] == url;
                    assert(earlier.push(urls.last())[at] == url);
                }
            }
        }
    }
}

/// Among distinct urls, the url at a position is chosen exactly if the outcome
/// at that position is such.
pub proof fn lemma_chosen_by_outcome(
    urls: Seq<Seq<char>>,
    outcomes: Seq<Outcome>,
    matched: bool,
    i: int,
)
    requires
        urls.len() == outcomes.len(),
        distinct(urls),
        0 <= i < urls.len(),
    ensures
        chosen(urls, outcomes, matched).contains(urls[i]) == (outcomes[i].matched() == matched),
{
    lemma_chosen_members(urls, outcomes, matched, urls[i]);
    if chosen(urls, outcomes, matched).contains(urls[i]) {
        let j = choose|j: int|
            0 <= j < urls.len() && urls[j] == urls[i] && outcomes[j].matched() == matched;
        if j < i {
            assert(repeated_at(urls, i));
        } else if i < j {
            assert(repeated_at(urls, j));
        }
    }
}

/// The two lists of an entry share out the urls: their lengths add up.
pub proof fn lemma_chosen_lengths(urls: Seq<Seq<char>>, outcomes: Seq<Outcome>)
    requires
        urls.len() == outcomes.len(),
    ensures
        chosen(urls, outcomes, true).len() + chosen(urls, outcomes, false).len() == urls.len(),
    decreases urls.len(),
{
    if urls.len() > 0 {
        lemma_chosen_lengths(urls.drop_last(), outcomes.drop_last());
    }
}

/// Whether an entry shares out the urls of a run: every url stands in
/// exactly one of its two lists, and the lists hold nothing else.
pub open spec fn shares_out(entry: EntryView, urls: Seq<Seq<char>>) -> bool {
    &&& entry.successful.len() + entry.unsuccessful.len() == urls.len()
    &&& forall|j: int|
        0 <= j < urls.len() ==> entry.successful.contains(#[trigger] urls[j])
            != entry.unsuccessful.contains(urls[j])
    &&& forall|url: Seq<char>|
        #![trigger entry.successful.contains(url)]
        #![trigger entry.unsuccessful.contains(url)]
        entry.successful.contains(url) || entry.unsuccessful.contains(url) ==> urls.contains(url)
}

/// An entry built from one outcome per url shares out the urls, as long as
/// no url occurs twice.
pub proof fn lemma_entry_shares_out(
    expression: Seq<char>,
    urls: Seq<Seq<char>>,
    outcomes: Seq<Outcome>,
)
    requires
        urls.len() == outcomes.len(),
        distinct(urls),
    ensures
        shares_out(entry_from(expression, urls, outcomes), urls),
{
    let entry = entry_from(expression, urls, outcomes);
    lemma_chosen_lengths(urls, outcomes);
    assert forall|j: int| 0 <= j < urls.len() implies entry.successful.contains(#[trigger] urls[j])
        != entry.unsuccessful.contains(urls[j]) by {
        lemma_chosen_by_outcome(urls, outcomes, true, j);
        lemma_chosen_by_outcome(urls, outcomes, false, j);
    }
    assert forall|url: Seq<char>|
        #![trigger entry.successful.contains(url)]
        #![trigger entry.unsuccessful.contains(url)]
        entry.successful.contains(url) || entry.unsuccessful.contains(url) implies urls.contains(
        url,
    ) by {
        lemma_chosen_members(urls, outcomes, true, url);
        lemma_chosen_members(urls, outcomes, false, url);
    }
}

/// Where no outcome is a match, nothing is successful and every url is
/// unsuccessful.
pub proof fn lemma_chosen_none_matched(urls: Seq<Seq<char>>, outcomes: Seq<Outcome>)
    requires
        urls.len() == outcomes.len(),
        forall|j: int| 0 <= j < outcomes.len() ==> !outcomes[j].matched(),
    ensures
        chosen(urls, outcomes, true) == Seq::<Seq<char>>::empty(),
        chosen(urls, outcomes, false) == urls,
    decreases urls.len(),
{
    if urls.len() > 0 {
        lemma_chosen_none_matched(urls.drop_last(), outcomes.drop_last());
        assert(urls.drop_last().push(urls.last()) =~= urls);
    }
}

impl ResultEntry {
    /// Builds the entry of an expression from one outcome per document. The
    /// outcomes must account for every document: otherwise there is no entry.
    pub fn from_outcomes(
        expression: &String,
        documents: &Vec<DocumentRecord>,
        outcomes: &Vec<Outcome>,
    ) -> (entry: Option<ResultEntry>)
        ensures
            entry.is_some() == (outcomes.len() == documents.len()),
            entry matches Some(built) ==> built@ == entry_from(
                expression@,
                urls_of(document_views(documents@)),
                outcomes@,
            ),
    {
        if outcomes.len() != documents.len() {
            return None;
        }
        let ghost urls = urls_of(document_views(documents@));
        let mut successful: Vec<String> = Vec::new();
        let mut unsuccessful: Vec<String> = Vec::new();
        let mut j: usize = 0;
        while j < documents.len()
            invariant
                j <= documents.len(),
                outcomes.len() == documents.len(),
                urls == urls_of(document_views(documents@)),
                successful@.map_values(|url: String| url@) == chosen(
                    urls.take(j as int),
                    outcomes@.take(j as int),
                    true,
                ),
                unsuccessful@.map_values(|url: String| url@) == chosen(
                    urls.take(j as int),
                    outcomes@.take(j as int),
                    false,
                ),
            decreases documents.len() - j,
        {
            proof {
                assert(urls.take(j + 1).drop_last() =~= urls.take(j as int));
                assert(outcomes@.take(j + 1).drop_last() =~= outcomes@.take(j as int));
            }
            let url = documents[j].url.clone();
            if outcomes[j].is_match() {
                successful.push(url);
            } else {
                unsuccessful.push(url);
            }
            j += 1;
        }
        proof {
            assert(urls.take(j as int) =~= urls);
            assert(outcomes@.take(j as int) =~= outcomes@);
        }
        Some(ResultEntry { expression: expression.clone(), successful, unsuccessful })
    }
}

/// Whether some entry is keyed by the expression.
pub open spec fn holds(entries: Seq<EntryView>, expression: Seq<char>) -> bool {
    exists|k: int| 0 <= k < entries.len() && entries[k].expression == expression
}

/// The aggregation policy: the first entry finalized for an expression is
/// kept, and a later one for the same expression is discarded.
pub open spec fn retain_first(entries: Seq<EntryView>, entry: EntryView) -> Seq<EntryView> {
    if holds(entries, entry.expression) {
        entries
    } else {
        entries.push(entry)
    }
}

/// The expressions that key a sequence of entries, in order.
pub open spec fn expressions_of(entries: Seq<EntryView>) -> Seq<Seq<char>> {
    entries.map_values(|entry: EntryView| entry.expression)
}

/// Finalizing keeps the keys distinct, and an entry once kept stays as it is.
pub proof fn lemma_retain_first(entries: Seq<EntryView>, entry: EntryView)
    requires
        distinct(expressions_of(entries)),
    ensures
        distinct(expressions_of(retain_first(entries, entry))),
        holds(retain_first(entries, entry), entry.expression),
        forall|k: int| 0 <= k < entries.len() ==> retain_first(entries, entry)[k] == entries[k],
{
    let after = retain_first(entries, entry);
    if holds(entries, entry.expression) {
    } else {
        assert(after[entries.len() as int].expression == entry.expression);
        assert forall|i: int| 0 <= i < after.len() implies !repeated_at(
            expressions_of(after),
            i,
        ) by {
            if repeated_at(expressions_of(after), i) {
                let j = choose|j: int|
                    0 <= j < i && expressions_of(after)[j] == expressions_of(after)[i];
                if i < entries.len() {
                    assert(expressions_of(entries)[j] == expressions_of(entries)[i]);
                    assert(repeated_at(expressions_of(entries), i));
                } else {
                    assert(entries[j].expression == entry.expression);
                }
            }
        }
    }
}

/// The result mapping of a run: entries keyed by expression string, in the
/// order in which the expressions were first finalized.
#[derive(Debug, PartialEq, Eq)]
pub struct Results {
    entries: Vec<ResultEntry>,
}

impl View for Results {
    type V = Seq<EntryView>;

    closed spec fn view(&self) -> Seq<EntryView> {
        entry_views(self.entries@)
    }
}

impl Results {
    /// No expression keys two entries.
    #[verifier::type_invariant]
    spec fn keyed_once(&self) -> bool {
        distinct(expressions_of(entry_views(self.entries@)))
    }

    /// An empty mapping.
    pub fn new() -> (results: Results)
        ensures
            results@ == Seq::<EntryView>::empty(),
    {
        let results = Results { entries: Vec::new() };
        assert(results@ =~= Seq::<EntryView>::empty());
        results
    }

    /// The number of entries.
    pub fn len(&self) -> (count: usize)
        ensures
            count == self@.len(),
    {
        self.entries.len()
    }

    /// Whether the mapping has no entry.
    pub fn is_empty(&self) -> (empty: bool)
        ensures
            empty == (self@.len() == 0),
    {
        self.entries.len() == 0
    }

    /// Finds the entry that an expression keys. There is at most one.
    pub fn get(&self, expression: &String) -> (found: Option<&ResultEntry>)
        ensures
            found.is_some() == holds(self@, expression@),
            found matches Some(entry) ==> entry@.expression == expression@ && self@.contains(
                entry@,
            ),
            distinct(expressions_of(self@)),
    {
        proof {
            use_type_invariant(self);
        }
        let mut k: usize = 0;
        while k < self.entries.len()
            invariant
                k <= self.entries.len(),
                distinct(expressions_of(self@)),
                forall|i: int| 0 <= i < k ==> self@[i].expression != expression@,
            decreases self.entries.len() - k,
        {
            if self.entries[k].expression == *expression {
                assert(self@[k as int] == self.entries[k as int]@);
                return Some(&self.entries[k]);
            }
            k += 1;
        }
        None
    }

    /// Whether an entry is already finalized for the expression.
    pub fn contains(&self, expression: &String) -> (present: bool)
        ensures
            present == holds(self@, expression@),
    {
        self.get(expression).is_some()
    }

    /// Hands an expression's entry to the mapping. The first entry for an
    /// expression is retained; a later one is discarded, and the mapping
    /// stays as it was.
    pub fn finalize(&mut self, entry: ResultEntry) -> (retained: bool)
        ensures
            final(self)@ == retain_first(old(self)@, entry@),
            retained == !holds(old(self)@, entry@.expression),
    {
        proof {
            use_type_invariant(&*self);
            lemma_retain_first(self@, entry@);
        }
        if self.contains(&entry.expression) {
            false
        } else {
            let mut entries: Vec<ResultEntry> = Vec::new();
            assert(entry_views(entries@) =~= Seq::<EntryView>::empty());
            std::mem::swap(&mut self.entries, &mut entries);
            assert(entry_views(entries@.push(entry)) =~= old(self)@.push(entry@));
            entries.push(entry);
            self.entries = entries;
            true
        }
    }

    /// The entries, in the order in which they were retained. No two of
    /// them are keyed by the same expression.
    pub fn entries(&self) -> (entries: &Vec<ResultEntry>)
        ensures
            entry_views(entries@) == self@,
            distinct(expressions_of(self@)),
    {
        proof {
            use_type_invariant(self);
        }
        &self.entries
    }

    /// Gives up the entries, in the order in which they were retained. No
    /// two of them are keyed by the same expression.
    pub fn into_entries(self) -> (entries: Vec<ResultEntry>)
        ensures
            entry_views(entries@) == self@,
            distinct(expressions_of(self@)),
    {
        proof {
            use_type_invariant(&self);
        }
        self.entries
    }
}

} // verus!
