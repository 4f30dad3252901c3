//! The join point of the evaluation units of one expression.
//!
//! One unit runs per document. Units may finish in any order, and a unit may
//! end by a fault instead of an outcome. The group accounts for each unit
//! once, and hands the outcomes out only when every unit is accounted for.

use vstd::prelude::*;
use crate::outcome::{NoMatchReason, Outcome};

verus! {

/// The outcomes reported so far for the units of one expression, by position.
#[derive(Clone, Debug)]
pub struct JoinGroup {
    slots: Vec<Option<Outcome>>,
}

impl View for JoinGroup {
    type V = Seq<Option<Outcome>>;

    closed spec fn view(&self) -> Seq<Option<Outcome>> {
        self.slots@
    }
}

/// Whether every unit is accounted for.
pub open spec fn complete(slots: Seq<Option<Outcome>>) -> bool {
    forall|unit: int| 0 <= unit < slots.len() ==> slots[unit].is_some()
}

/// The slots after a unit reports an outcome. The first report of a unit
/// counts; a report for a unit that is already accounted for, or for a
/// position that is no unit, changes nothing.
pub open spec fn reported(slots: Seq<Option<Outcome>>, unit: int, outcome: Outcome) -> Seq<
    Option<Outcome>,
> {
    if 0 <= unit < slots.len() && slots[unit].is_none() {
        slots.update(unit, Some(outcome))
    } else {
        slots
    }
}

/// The number of units that are not yet accounted for.
pub open spec fn pending(slots: Seq<Option<Outcome>>) -> nat
    decreases slots.len(),
{
    if slots.len() == 0 {
        0
    } else if slots.last().is_none() {
        pending(slots.drop_last()) + 1
    } else {
        pending(slots.drop_last())
    }
}

/// The outcomes of a complete group, by position.
pub open spec fn joined(slots: Seq<Option<Outcome>>) -> Seq<Outcome> {
    Seq::new(slots.len(), |unit: int| slots[unit].unwrap())
}

/// No unit is pending exactly when the group is complete.
pub proof fn lemma_pending_none(slots: Seq<Option<Outcome>>)
    ensures
        (pending(slots) == 0) == complete(slots),
    decreases slots.len(),
{
    if slots.len() > 0 {
        lemma_pending_none(slots.drop_last());
        if complete(slots) {
            assert forall|unit: int|
                0 <= unit < slots.drop_last().len() implies slots.drop_last()[unit].is_some() by {
                assert(slots[unit].is_some());
            }
        }
        if pending(slots) == 0 {
            assert forall|unit: int| 0 <= unit < slots.len() implies slots[unit].is_some() by {
                if unit < slots.len() - 1 {
                    assert(slots.drop_last()[unit].is_some());
                }
            }
        }
    }
}

/// The order in which two different units report does not matter.
pub proof fn lemma_report_order(
    slots: Seq<Option<Outcome>>,
    first: int,
    first_outcome: Outcome,
    second: int,
    second_outcome: Outcome,
)
    requires
        first != second,
    ensures
        reported(reported(slots, first, first_outcome), second, second_outcome) == reported(
            reported(slots, second, second_outcome),
            first,
            first_outcome,
        ),
{
    assert(reported(reported(slots, first, first_outcome), second, second_outcome) =~= reported(
        reported(slots, second, second_outcome),
        first,
        first_outcome,
    ));
}

impl JoinGroup {
    /// A group of `units` units, none of them accounted for.
    pub fn new(units: usize) -> (group: JoinGroup)
        ensures
            group@ == Seq::new(units as nat, |unit: int| None::<Outcome>),
    {
        let mut slots: Vec<Option<Outcome>> = Vec::new();
        let mut unit: usize = 0;
        while unit < units
            invariant
                unit <= units,
                slots@ == Seq::new(unit as nat, |unit: int| None::<Outcome>),
            decreases units - unit,
        {
            slots.push(None);
            unit += 1;
            assert(slots@ =~= Seq::new(unit as nat, |unit: int| None::<Outcome>));
        }
        JoinGroup { slots }
    }

    /// The number of units in the group.
    pub fn units(&self) -> (count: usize)
        ensures
            count == self@.len(),
    {
        self.slots.len()
    }

    /// Records the outcome that a unit reports. Returns whether the report
    /// was the unit's first, and so was recorded.
    pub fn report(&mut self, unit: usize, outcome: Outcome) -> (accepted: bool)
        ensures
            final(self)@ == reported(old(self)@, unit as int, outcome),
            accepted == (unit < old(self)@.len() && old(self)@[unit as int].is_none()),
    {
        if unit < self.slots.len() && self.slots[unit].is_none() {
            self.slots.set(unit, Some(outcome));
            true
        } else {
            false
        }
    }

    /// Records that a unit ended without an outcome: the pair does not match.
    pub fn fault(&mut self, unit: usize) -> (accepted: bool)
        ensures
            final(self)@ == reported(
                old(self)@,
                unit as int,
                Outcome::NoMatch(NoMatchReason::Fault),
            ),
            accepted == (unit < old(self)@.len() && old(self)@[unit as int].is_none()),
    {
        self.report(unit, Outcome::NoMatch(NoMatchReason::Fault))
    }

    /// The number of units that are not yet accounted for.
    pub fn pending(&self) -> (count: usize)
        ensures
            count == pending(self@),
    {
        let mut count: usize = 0;
        let mut unit: usize = 0;
        while unit < self.slots.len()
            invariant
                unit <= self.slots.len(),
                count == pending(self.slots@.take(unit as int)),
                count <= unit,
            decreases self.slots.len() - unit,
        {
            assert(self.slots@.take(unit + 1).drop_last() =~= self.slots@.take(unit as int));
            if self.slots[unit].is_none() {
                count += 1;
            }
            unit += 1;
        }
        assert(self.slots@.take(unit as int) =~= self.slots@);
        count
    }

    /// Whether every unit is accounted for.
    pub fn is_complete(&self) -> (done: bool)
        ensures
            done == complete(self@),
    {
        proof {
            lemma_pending_none(self@);
        }
        self.pending() == 0
    }

    /// Hands out the outcomes, by position, once every unit is accounted
    /// for. Until then there is nothing to hand out.
    pub fn join(&self) -> (outcomes: Option<Vec<Outcome>>)
        ensures
            outcomes.is_some() == complete(self@),
            outcomes matches Some(all) ==> all@ == joined(self@),
    {
        let mut all: Vec<Outcome> = Vec::new();
        let mut unit: usize = 0;
        while unit < self.slots.len()
            invariant
                unit <= self.slots.len(),
                all.len() == unit,
                forall|k: int| 0 <= k < unit ==> (#[trigger] self.slots[k]) == Some(all[k]),
            decreases self.slots.len() - unit,
        {
            match self.slots[unit] {
                Some(outcome) => {
                    all.push(outcome);
                },
                None => {
                    return None;
                },
            }
            unit += 1;
        }
        assert(all@ =~= joined(self@));
        Some(all)
    }
}

} // verus!
