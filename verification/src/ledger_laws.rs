//! What holds of every ledger, and of every run of entries and releases.

use crate::ledger::{view_after_entry, view_after_release, LinkedList};
use vstd::prelude::*;

verus! {

/// One change to a ledger's amounts.
pub enum LedgerStep {
    /// `amount` is entered on `day`.
    Entry { day: u64, amount: u128 },
    /// `amount` is released from `day`.
    Release { day: u64, amount: u128 },
}

/// The amounts of a ledger that started empty and has taken `steps` in order.
pub open spec fn replay(steps: Seq<LedgerStep>) -> Map<u64, u128>
    decreases steps.len(),
{
    if steps.len() == 0 {
        Map::empty()
    } else {
        let before = replay(steps.drop_last());
        match steps.last() {
            LedgerStep::Entry { day, amount } => view_after_entry(before, day, amount),
            LedgerStep::Release { day, amount } => view_after_release(before, day, amount),
        }
    }
}

/// Whether each of `steps` can be taken when its turn comes: an entry keeps
/// the day's amount within 128 bits, and a release finds a bucket that holds
/// at least what it takes.
pub open spec fn admissible(steps: Seq<LedgerStep>) -> bool
    decreases steps.len(),
{
    if steps.len() == 0 {
        true
    } else {
        let before = replay(steps.drop_last());
        &&& admissible(steps.drop_last())
        &&& match steps.last() {
            LedgerStep::Entry { day, amount } => before.dom().contains(day) ==> before[day] + amount <= u128::MAX,
            LedgerStep::Release { day, amount } => before.dom().contains(day) && before[day] >= amount,
        }
    }
}

/// Everything that `steps` enter on `day`, added up.
pub open spec fn entered(steps: Seq<LedgerStep>, day: u64) -> int
    decreases steps.len(),
{
    if steps.len() == 0 {
        0
    } else {
        entered(steps.drop_last(), day) + match steps.last() {
            LedgerStep::Entry { day: d, amount } => if d == day { amount as int } else { 0 },
            LedgerStep::Release { .. } => 0,
        }
    }
}

/// Everything that `steps` release from `day`, added up.
pub open spec fn released(steps: Seq<LedgerStep>, day: u64) -> int
    decreases steps.len(),
{
    if steps.len() == 0 {
        0
    } else {
        released(steps.drop_last(), day) + match steps.last() {
            LedgerStep::Entry { .. } => 0,
            LedgerStep::Release { day: d, amount } => if d == day { amount as int } else { 0 },
        }
    }
}

/// Everything that `steps` enter, on whatever day, added up.
pub open spec fn entered_in_all(steps: Seq<LedgerStep>) -> int
    decreases steps.len(),
{
    if steps.len() == 0 {
        0
    } else {
        entered_in_all(steps.drop_last()) + match steps.last() {
            LedgerStep::Entry { amount, .. } => amount as int,
            LedgerStep::Release { .. } => 0,
        }
    }
}

/// Everything that `steps` release, from whatever day, added up.
pub open spec fn released_in_all(steps: Seq<LedgerStep>) -> int
    decreases steps.len(),
{
    if steps.len() == 0 {
        0
    } else {
        released_in_all(steps.drop_last()) + match steps.last() {
            LedgerStep::Entry { .. } => 0,
            LedgerStep::Release { amount, .. } => amount as int,
        }
    }
}

/// Whether `days` lists each day that has an amount, and each once.
pub open spec fn lists_days_of(days: Seq<u64>, amounts: Map<u64, u128>) -> bool {
    &&& forall|i: int, j: int| 0 <= i < j < days.len() ==> days[i] != days[j]
    &&& forall|d: u64| amounts.dom().contains(d) <==> days.contains(d)
}

/// Whether `step` is an entry on `day`.
pub open spec fn is_entry_on(step: LedgerStep, day: u64) -> bool {
    match step {
        LedgerStep::Entry { day: d, .. } => d == day,
        LedgerStep::Release { .. } => false,
    }
}

/// Whether one of `steps` is an entry on `day`.
pub open spec fn has_entry(steps: Seq<LedgerStep>, day: u64) -> bool {
    exists|i: int| 0 <= i < steps.len() && is_entry_on(#[trigger] steps[i], day)
}

/// Conservation: after any run of entries and releases, a day has a bucket
/// exactly if something was entered on it, and the bucket holds what was
/// entered on that day less what was released from it.
pub proof fn lemma_conservation(steps: Seq<LedgerStep>, day: u64)
    requires
        admissible(steps),
    ensures
        replay(steps).dom().contains(day) <==> has_entry(steps, day),
        replay(steps).dom().contains(day) ==> replay(steps)[day] == entered(steps, day) - released(steps, day),
        !replay(steps).dom().contains(day) ==> entered(steps, day) == 0 && released(steps, day) == 0,
    decreases steps.len(),
{
    if steps.len() > 0 {
        let rest = steps.drop_last();
        lemma_conservation(rest, day);
        if has_entry(rest, day) {
            let i = choose|i: int| 0 <= i < rest.len() && is_entry_on(#[trigger] rest[i], day);
            assert(steps[i] == rest[i]);
        }
        if has_entry(steps, day) && !has_entry(rest, day) {
            let i = choose|i: int| 0 <= i < steps.len() && is_entry_on(#[trigger] steps[i], day);
            if i < rest.len() {
                assert(rest[i] == steps[i]);
            }
        }
        match steps.last() {
            LedgerStep::Entry { day: d, amount } => {
                if d == day {
                    assert(is_entry_on(steps[steps.len() - 1], day));
                }
            },
            LedgerStep::Release { day: d, amount } => {},
        }
    }
}

/// A list of days without the day at position `at` lists the days of the
/// amounts without that day.
proof fn lemma_lists_without(days: Seq<u64>, at: int, amounts: Map<u64, u128>, value: u128)
    requires
        0 <= at < days.len(),
        !amounts.dom().contains(days[at]),
        lists_days_of(days, amounts.insert(days[at], value)),
    ensures
        lists_days_of(days.remove(at), amounts),
        days.remove(at).insert(at, days[at]) == days,
        forall|i: int| 0 <= i < days.remove(at).len() ==> (#[trigger] days.remove(at)[i]) != days[at],
{
    let day = days[at];
    let rest = days.remove(at);
    assert forall|i: int| 0 <= i < rest.len() implies (#[trigger] rest[i]) == (if i < at { days[i] } else { days[i + 1] }) by {}
    assert forall|i: int| 0 <= i < rest.len() implies (#[trigger] rest[i]) != day by {
        if i < at {
            assert(days[i] != days[at]);
        } else {
            assert(days[at] != days[i + 1]);
        }
    }
    assert forall|i: int, j: int| 0 <= i < j < rest.len() implies rest[i] != rest[j] by {
        let oi = if i < at { i } else { i + 1 };
        let oj = if j < at { j } else { j + 1 };
        assert(days[oi] != days[oj]);
    }
    assert forall|d: u64| amounts.dom().contains(d) <==> rest.contains(d) by {
        if amounts.dom().contains(d) {
            assert(amounts.insert(day, value).dom().contains(d));
            assert(days.contains(d));
            let i = choose|i: int| 0 <= i < days.len() && days[i] == d;
            if i < at {
                assert(rest[i] == d);
            } else {
                assert(rest[i - 1] == d);
            }
        }
        if rest.contains(d) {
            let i = choose|i: int| 0 <= i < rest.len() && rest[i] == d;
            let oi = if i < at { i } else { i + 1 };
            assert(days[oi] == d);
            assert(days.contains(d));
            assert(amounts.insert(day, value).dom().contains(d));
        }
    }
    assert(rest.insert(at, day) =~= days);
}

/// Conservation of the total: after any run of entries and releases, the
/// amounts of all buckets add up to what was entered less what was released,
/// in whatever order the days are listed.
pub proof fn lemma_total_conservation(steps: Seq<LedgerStep>, days: Seq<u64>)
    requires
        admissible(steps),
        lists_days_of(days, replay(steps)),
    ensures
        crate::ledger::locked_sum(days, replay(steps)) == entered_in_all(steps) - released_in_all(steps),
    decreases steps.len(),
{
    if steps.len() == 0 {
        if days.len() > 0 {
            assert(days.contains(days[0]));
        }
    } else {
        let rest = steps.drop_last();
        let before = replay(rest);
        match steps.last() {
            LedgerStep::Entry { day, amount } => {
                assert(replay(steps).dom().contains(day));
                assert(days.contains(day));
                let at = choose|i: int| 0 <= i < days.len() && days[i] == day;
                if before.dom().contains(day) {
                    assert(replay(steps).dom() =~= before.dom());
                    lemma_total_conservation(rest, days);
                    crate::ledger::lemma_sum_update(days, at, before, (before[day] + amount) as u128);
                } else {
                    lemma_lists_without(days, at, before, amount);
                    lemma_total_conservation(rest, days.remove(at));
                    crate::ledger::lemma_sum_insert(days.remove(at), at, day, before, amount);
                }
            },
            LedgerStep::Release { day, amount } => {
                assert(replay(steps).dom() =~= before.dom());
                assert(replay(steps).dom().contains(day));
                assert(days.contains(day));
                let at = choose|i: int| 0 <= i < days.len() && days[i] == day;
                lemma_total_conservation(rest, days);
                crate::ledger::lemma_sum_update(days, at, before, (before[day] - amount) as u128);
            },
        }
    }
}

/// A sum of amounts is positive exactly if one of the amounts is.
pub proof fn lemma_sum_positive(days: Seq<u64>, amounts: Map<u64, u128>)
    ensures
        crate::ledger::locked_sum(days, amounts) > 0 <==> exists|i: int| 0 <= i < days.len() && amounts[#[trigger] days[i]] > 0,
    decreases days.len(),
{
    if days.len() > 0 {
        let rest = days.drop_last();
        lemma_sum_positive(rest, amounts);
        crate::ledger::lemma_sum_nonnegative(rest, amounts);
        if exists|i: int| 0 <= i < rest.len() && amounts[#[trigger] rest[i]] > 0 {
            let i = choose|i: int| 0 <= i < rest.len() && amounts[#[trigger] rest[i]] > 0;
            assert(days[i] == rest[i]);
        }
        if exists|i: int| 0 <= i < days.len() && amounts[#[trigger] days[i]] > 0 {
            let i = choose|i: int| 0 <= i < days.len() && amounts[#[trigger] days[i]] > 0;
            if i < rest.len() {
                assert(rest[i] == days[i]);
            }
        }
        if amounts[days.last()] > 0 {
            assert(days[days.len() - 1] == days.last());
        }
    }
}

/// In an ascending list of days, the days up to `cutoff` are the first so
/// many: the number that this gives.
pub proof fn lemma_due_prefix(days: Seq<u64>, cutoff: u64) -> (k: int)
    requires
        forall|i: int, j: int| 0 <= i < j < days.len() ==> days[i] < days[j],
    ensures
        0 <= k <= days.len(),
        forall|i: int| 0 <= i < k ==> days[i] <= cutoff,
        forall|i: int| k <= i < days.len() ==> days[i] > cutoff,
    decreases days.len(),
{
    if days.len() == 0 {
        0
    } else if days.last() <= cutoff {
        assert forall|i: int| 0 <= i < days.len() implies days[i] <= cutoff by {
            if i < days.len() - 1 {
                assert(days[i] < days[days.len() - 1]);
            }
        }
        days.len() as int
    } else {
        let rest = days.drop_last();
        assert forall|i: int, j: int| 0 <= i < j < rest.len() implies rest[i] < rest[j] by {
            assert(days[i] < days[j]);
        }
        let k = lemma_due_prefix(rest, cutoff);
        assert forall|i: int| 0 <= i < k implies days[i] <= cutoff by {
            assert(rest[i] == days[i]);
        }
        assert forall|i: int| k <= i < days.len() implies days[i] > cutoff by {
            if i < rest.len() {
                assert(rest[i] == days[i]);
            }
        }
        k
    }
}

impl LinkedList {
    /// The settlement is what [`Self::settles`] describes.
    pub proof fn lemma_settlement_settles(&self, cutoff: u64)
        requires
            self.wf(),
        ensures
            self.settles(cutoff, self.settlement(cutoff)),
            self.settlement(cutoff).withdrawing_amount <= self.locked_total(),
    {
        let days = self.days();
        let k = lemma_due_prefix(days, cutoff);
        crate::ledger::lemma_filter_is_prefix(days, |d: u64| d <= cutoff, k);
        crate::ledger::lemma_sum_split(days, k, self@);
    }

    /// There is something to settle up to `cutoff` exactly if a day of the
    /// ledger up to `cutoff` holds a positive amount.
    pub proof fn lemma_something_to_settle(&self, cutoff: u64)
        requires
            self.wf(),
        ensures
            self.settlement(cutoff).withdrawing_amount > 0 <==> exists|d: u64|
                #![trigger self@.dom().contains(d)]
                self@.dom().contains(d) && d <= cutoff && self@[d] > 0,
    {
        let days = self.days();
        self.lemma_settlement_settles(cutoff);
        let k = self.settlement(cutoff).reduced_length as int;
        let due = days.take(k);
        lemma_sum_positive(due, self@);
        if exists|i: int| 0 <= i < due.len() && self@[#[trigger] due[i]] > 0 {
            let i = choose|i: int| 0 <= i < due.len() && self@[#[trigger] due[i]] > 0;
            assert(due[i] == days[i]);
            assert(days.contains(days[i]));
            assert(self@.dom().contains(days[i]) && days[i] <= cutoff && self@[days[i]] > 0);
        }
        if exists|d: u64| #![trigger self@.dom().contains(d)] self@.dom().contains(d) && d <= cutoff && self@[d] > 0 {
            let d = choose|d: u64| #![trigger self@.dom().contains(d)] self@.dom().contains(d) && d <= cutoff && self@[d] > 0;
            assert(days.contains(d));
            let i = choose|i: int| 0 <= i < days.len() && days[i] == d;
            if i >= k {
                assert(days[i] > cutoff);
            }
            assert(due[i] == d);
        }
    }

    /// A ledger that holds what a run of entries and releases leaves has, as
    /// its total, what was entered less what was released.
    pub proof fn lemma_total_of_run(&self, steps: Seq<LedgerStep>)
        requires
            self.wf(),
            admissible(steps),
            self@ == replay(steps),
        ensures
            self.locked_total() == entered_in_all(steps) - released_in_all(steps),
    {
        lemma_total_conservation(steps, self.days());
    }

    /// The day reached from `from` after `hops` steps along the buckets'
    /// pointers to the next day.
    pub open spec fn walk(&self, from: u64, hops: nat) -> u64
        decreases hops,
    {
        if hops == 0 {
            from
        } else {
            self.walk(self.next_day(from), (hops - 1) as nat)
        }
    }

    /// A walk that starts on the day at position `at` stands, after `hops`
    /// steps, on the day at position `at + hops`.
    proof fn lemma_walk_follows_days(&self, at: int, hops: nat)
        requires
            self.wf(),
            0 <= at,
            at + hops < self.days().len(),
        ensures
            self.walk(self.days()[at], hops) == self.days()[at + hops],
        decreases hops,
    {
        if hops > 0 {
            assert(self.next_day(self.days()[at]) == self.days()[at + 1]);
            self.lemma_walk_follows_days(at + 1, (hops - 1) as nat);
        }
    }

    /// Order of the chain: in a ledger with at least one bucket, the walk
    /// from the head visits the ledger's days, each after the one before it,
    /// and stands on the back after one step less than there are buckets.
    pub proof fn lemma_chain_order(&self)
        requires
            self.wf(),
            self.spec_length() >= 1,
        ensures
            self.walk(self.spec_head(), (self.spec_length() - 1) as nat) == self.spec_back(),
            forall|i: nat| i < self.spec_length() ==> self.walk(self.spec_head(), i) == self.days()[i as int],
            forall|i: nat, j: nat|
                i < j < self.spec_length() ==> self.walk(self.spec_head(), i) < self.walk(self.spec_head(), j),
    {
        assert forall|i: nat| i < self.spec_length() implies self.walk(self.spec_head(), i) == self.days()[i as int] by {
            self.lemma_walk_follows_days(0, i);
        }
        assert forall|i: nat, j: nat| i < j < self.spec_length() implies self.walk(self.spec_head(), i) < self.walk(
            self.spec_head(),
            j,
        ) by {
            assert(self.days()[i as int] < self.days()[j as int]);
        }
        assert(self.days().last() == self.days()[self.spec_length() - 1]);
    }

    /// What a settlement yields is determined by the ledger and the day up
    /// to which it settles.
    pub proof fn lemma_settlement_unique(
        &self,
        cutoff: u64,
        one: crate::ledger::ProcessReturningData,
        other: crate::ledger::ProcessReturningData,
    )
        requires
            self.wf(),
            self.settles(cutoff, one),
            self.settles(cutoff, other),
        ensures
            one == other,
    {
        let a = one.reduced_length as int;
        let b = other.reduced_length as int;
        if a < b {
            assert(self.days()[a] <= cutoff);
            assert(self.days()[a] > cutoff);
        }
        if b < a {
            assert(self.days()[b] <= cutoff);
            assert(self.days()[b] > cutoff);
        }
    }

    /// Once a ledger is settled up to a day, settling it again up to that day
    /// or an earlier one yields nothing and leaves the head where it is.
    pub proof fn lemma_settled_twice(&self, settled: Self, first: u64, second: u64)
        requires
            self.wf(),
            settled.wf(),
            settled@ == crate::ledger::view_after_settlement(self@, first),
            second <= first,
        ensures
            settled.settlement(second) == (crate::ledger::ProcessReturningData {
                withdrawing_amount: 0,
                current_linked_list_head: settled.spec_head(),
                reduced_length: 0,
            }),
    {
        let days = settled.days();
        assert forall|i: int| 0 <= i < days.len() implies !(#[trigger] days[i] <= second) by {
            assert(days.contains(days[i]));
            assert(settled@.dom().contains(days[i]));
        }
        crate::ledger::lemma_filter_is_prefix(days, |d: u64| d <= second, 0);
        assert(days.take(0) =~= Seq::<u64>::empty());
    }
}

} // verus!
