//! The ledger of one provider's locked funds: buckets of money keyed by the
//! day on which they mature, chained in ascending order of day.
//!
//! A bucket is created by the first entry on its day and is never deleted.
//! It leaves the ledger when a settlement moves the head past it; what the
//! table still holds of it after that is not part of the ledger.

use crate::bucket_store::{bucket_entries, store_get, store_insert, store_len, store_new, BucketStore};
use vstd::prelude::*;

verus! {

/// The amounts locked on the given days, added up.
pub open spec fn locked_sum(days: Seq<u64>, amounts: Map<u64, u128>) -> int
    decreases days.len(),
{
    if days.len() == 0 {
        0
    } else {
        locked_sum(days.drop_last(), amounts) + amounts[days.last()]
    }
}

/// The amounts of a ledger after `amount` has been entered on `day`.
pub open spec fn view_after_entry(amounts: Map<u64, u128>, day: u64, amount: u128) -> Map<u64, u128> {
    if amounts.dom().contains(day) {
        amounts.insert(day, (amounts[day] + amount) as u128)
    } else {
        amounts.insert(day, amount)
    }
}

/// The amounts of a ledger after `amount` has been released from `day`.
pub open spec fn view_after_release(amounts: Map<u64, u128>, day: u64, amount: u128) -> Map<u64, u128> {
    amounts.insert(day, (amounts[day] - amount) as u128)
}

/// The amounts of a ledger after every day up to `cutoff` has been settled.
pub open spec fn view_after_settlement(amounts: Map<u64, u128>, cutoff: u64) -> Map<u64, u128> {
    amounts.restrict(Set::new(|d: u64| d > cutoff))
}

/// What settling a ledger up to some day yields.
#[derive(Clone, Copy, Debug, PartialEq, Eq, Structural)]
pub struct ProcessReturningData {
    /// The sum of the settled buckets.
    pub withdrawing_amount: u128,
    /// The day that heads the ledger once the settled buckets are gone.
    pub current_linked_list_head: u64,
    /// The number of settled buckets.
    pub reduced_length: u128,
}

/// A provider's locked funds, by day of maturity.
pub struct LinkedList {
    head: u64,
    back: u64,
    length: u128,
    total: u128,
    objects: BucketStore,
    chain: Ghost<Seq<u64>>,
}

/// Two amount maps that agree on every listed day give the same sum.
pub proof fn lemma_sum_agree(days: Seq<u64>, a: Map<u64, u128>, b: Map<u64, u128>)
    requires
        forall|i: int| 0 <= i < days.len() ==> a[#[trigger] days[i]] == b[days[i]],
    ensures
        locked_sum(days, a) == locked_sum(days, b),
    decreases days.len(),
{
    if days.len() > 0 {
        let rest = days.drop_last();
        assert forall|i: int| 0 <= i < rest.len() implies a[#[trigger] rest[i]] == b[rest[i]] by {
            assert(rest[i] == days[i]);
        }
        lemma_sum_agree(rest, a, b);
        assert(days.last() == days[days.len() - 1]);
    }
}

/// The sum over two lists of days, one after the other, is the sum of their sums.
pub proof fn lemma_sum_concat(front: Seq<u64>, rear: Seq<u64>, amounts: Map<u64, u128>)
    ensures
        locked_sum(front + rear, amounts) == locked_sum(front, amounts) + locked_sum(rear, amounts),
    decreases rear.len(),
{
    if rear.len() == 0 {
        assert(front + rear =~= front);
    } else {
        assert((front + rear).drop_last() =~= front + rear.drop_last());
        assert((front + rear).last() == rear.last());
        lemma_sum_concat(front, rear.drop_last(), amounts);
    }
}

/// A sum of amounts is not negative.
pub proof fn lemma_sum_nonnegative(days: Seq<u64>, amounts: Map<u64, u128>)
    ensures
        0 <= locked_sum(days, amounts),
    decreases days.len(),
{
    if days.len() > 0 {
        lemma_sum_nonnegative(days.drop_last(), amounts);
    }
}

/// The sum over one day is that day's amount.
pub proof fn lemma_sum_single(day: u64, amounts: Map<u64, u128>)
    ensures
        locked_sum(seq![day], amounts) == amounts[day],
{
    assert(seq![day].drop_last() =~= Seq::<u64>::empty());
    assert(locked_sum(seq![day].drop_last(), amounts) == 0);
}

/// Splitting a list of days at `k` splits its sum.
pub proof fn lemma_sum_split(days: Seq<u64>, k: int, amounts: Map<u64, u128>)
    requires
        0 <= k <= days.len(),
    ensures
        locked_sum(days, amounts) == locked_sum(days.take(k), amounts) + locked_sum(days.skip(k), amounts),
        0 <= locked_sum(days.take(k), amounts) <= locked_sum(days, amounts),
{
    assert(days =~= days.take(k) + days.skip(k));
    lemma_sum_concat(days.take(k), days.skip(k), amounts);
    lemma_sum_nonnegative(days.take(k), amounts);
    lemma_sum_nonnegative(days.skip(k), amounts);
}

/// Changing the amount of the day at position `at` changes the sum by the
/// difference, when no day is listed twice.
pub proof fn lemma_sum_update(days: Seq<u64>, at: int, amounts: Map<u64, u128>, value: u128)
    requires
        0 <= at < days.len(),
        forall|i: int, j: int| 0 <= i < j < days.len() ==> days[i] != days[j],
    ensures
        locked_sum(days, amounts.insert(days[at], value)) == locked_sum(days, amounts) - amounts[days[at]]
            + value,
{
    let changed = amounts.insert(days[at], value);
    let front = days.take(at);
    let rear = days.skip(at + 1);
    assert(days =~= front + seq![days[at]] + rear);
    lemma_sum_concat(front + seq![days[at]], rear, amounts);
    lemma_sum_concat(front, seq![days[at]], amounts);
    lemma_sum_concat(front + seq![days[at]], rear, changed);
    lemma_sum_concat(front, seq![days[at]], changed);
    lemma_sum_single(days[at], amounts);
    lemma_sum_single(days[at], changed);
    assert forall|i: int| 0 <= i < front.len() implies amounts[#[trigger] front[i]] == changed[front[i]] by {
        assert(front[i] == days[i]);
    }
    lemma_sum_agree(front, amounts, changed);
    assert forall|i: int| 0 <= i < rear.len() implies amounts[#[trigger] rear[i]] == changed[rear[i]] by {
        assert(rear[i] == days[at + 1 + i]);
    }
    lemma_sum_agree(rear, amounts, changed);
}

/// Listing a new day at position `at` with its amount adds that amount to the sum.
pub proof fn lemma_sum_insert(days: Seq<u64>, at: int, day: u64, amounts: Map<u64, u128>, value: u128)
    requires
        0 <= at <= days.len(),
        forall|i: int| 0 <= i < days.len() ==> days[i] != day,
    ensures
        locked_sum(days.insert(at, day), amounts.insert(day, value)) == locked_sum(days, amounts) + value,
{
    let changed = amounts.insert(day, value);
    let front = days.take(at);
    let rear = days.skip(at);
    assert(days.insert(at, day) =~= front + seq![day] + rear);
    assert(days =~= front + rear);
    lemma_sum_concat(front + seq![day], rear, changed);
    lemma_sum_concat(front, seq![day], changed);
    lemma_sum_concat(front, rear, amounts);
    lemma_sum_single(day, changed);
    assert forall|i: int| 0 <= i < front.len() implies amounts[#[trigger] front[i]] == changed[front[i]] by {
        assert(front[i] == days[i]);
    }
    lemma_sum_agree(front, amounts, changed);
    assert forall|i: int| 0 <= i < rear.len() implies amounts[#[trigger] rear[i]] == changed[rear[i]] by {
        assert(rear[i] == days[at + i]);
    }
    lemma_sum_agree(rear, amounts, changed);
}

/// Putting a day between its neighbours keeps a list of days ascending; the
/// grown list holds the old days and the new one.
proof fn lemma_days_insert(days: Seq<u64>, at: int, day: u64)
    requires
        0 <= at <= days.len(),
        forall|i: int, j: int| 0 <= i < j < days.len() ==> days[i] < days[j],
        at > 0 ==> days[at - 1] < day,
        at < days.len() ==> day < days[at],
    ensures
        days.insert(at, day).len() == days.len() + 1,
        forall|i: int| 0 <= i < at ==> (#[trigger] days.insert(at, day)[i]) == days[i],
        days.insert(at, day)[at] == day,
        forall|i: int| at < i <= days.len() ==> (#[trigger] days.insert(at, day)[i]) == days[i - 1],
        forall|i: int, j: int|
            0 <= i < j < days.insert(at, day).len() ==> days.insert(at, day)[i] < days.insert(at, day)[j],
        forall|d: u64| days.insert(at, day).contains(d) <==> (days.contains(d) || d == day),
        forall|i: int| 0 <= i < days.len() ==> days[i] != day,
{
    let grown = days.insert(at, day);
    assert forall|i: int| 0 <= i < days.len() implies days[i] != day by {
        if i < at {
            assert(days[i] <= days[at - 1]);
        } else {
            assert(days[at] <= days[i]);
        }
    }
    assert forall|i: int, j: int| 0 <= i < j < grown.len() implies grown[i] < grown[j] by {
        let oi = if i < at { i } else { i - 1 };
        let oj = if j < at { j } else { j - 1 };
        if i == at {
            assert(days[at] <= days[oj]);
        } else if j == at {
            assert(days[oi] <= days[at - 1]);
        } else {
            assert(days[oi] < days[oj]);
        }
    }
    assert forall|d: u64| grown.contains(d) <==> (days.contains(d) || d == day) by {
        if grown.contains(d) {
            let i = choose|i: int| 0 <= i < grown.len() && grown[i] == d;
            if i < at {
                assert(days[i] == d);
            } else if i > at {
                assert(days[i - 1] == d);
            }
        }
        if days.contains(d) {
            let i = choose|i: int| 0 <= i < days.len() && days[i] == d;
            if i < at {
                assert(grown[i] == d);
            } else {
                assert(grown[i + 1] == d);
            }
        }
        if d == day {
            assert(grown[at] == d);
        }
    }
}

/// In a list whose first `k` items meet a condition that no later item
/// meets, the items that meet it are the first `k`.
pub proof fn lemma_filter_is_prefix(days: Seq<u64>, keep: spec_fn(u64) -> bool, k: int)
    requires
        0 <= k <= days.len(),
        forall|i: int| 0 <= i < k ==> keep(#[trigger] days[i]),
        forall|i: int| k <= i < days.len() ==> !keep(#[trigger] days[i]),
    ensures
        days.filter(keep) == days.take(k),
    decreases days.len(),
{
    reveal(Seq::filter);
    if days.len() == 0 {
        assert(days.take(k) =~= days);
    } else {
        let rest = days.drop_last();
        if k == days.len() {
            assert forall|i: int| 0 <= i < k - 1 implies keep(#[trigger] rest[i]) by {
                assert(rest[i] == days[i]);
            }
            lemma_filter_is_prefix(rest, keep, k - 1);
            assert(keep(days[days.len() - 1]));
            assert(rest.take(k - 1).push(days.last()) =~= days.take(k));
        } else {
            assert forall|i: int| 0 <= i < k implies keep(#[trigger] rest[i]) by {
                assert(rest[i] == days[i]);
            }
            assert forall|i: int| k <= i < rest.len() implies !keep(#[trigger] rest[i]) by {
                assert(rest[i] == days[i]);
            }
            lemma_filter_is_prefix(rest, keep, k);
            assert(!keep(days[days.len() - 1]));
            assert(rest.take(k) =~= days.take(k));
        }
    }
}

impl LinkedList {
    /// The days that hold a bucket of the ledger, from head to back.
    pub closed spec fn days(&self) -> Seq<u64> {
        self.chain@
    }

    /// The amount locked on each day of the ledger.
    pub closed spec fn view(&self) -> Map<u64, u128> {
        Map::new(|d: u64| self.chain@.contains(d), |d: u64| bucket_entries(self.objects)[d].0)
    }

    /// The day that the bucket of `day` points to.
    pub closed spec fn next_day(&self, day: u64) -> u64 {
        bucket_entries(self.objects)[day].1
    }

    /// The first day of the ledger; without meaning while the ledger is empty.
    pub closed spec fn spec_head(&self) -> u64 {
        self.head
    }

    /// The last day of the ledger; without meaning while the ledger is empty.
    pub closed spec fn spec_back(&self) -> u64 {
        self.back
    }

    /// The number of buckets in the ledger.
    pub closed spec fn spec_length(&self) -> u128 {
        self.length
    }

    /// The sum of all amounts in the ledger.
    pub closed spec fn locked_total(&self) -> u128 {
        self.total
    }

    /// The number of days that the table behind the ledger has a bucket for,
    /// settled ones included.
    pub closed spec fn stored_days(&self) -> nat {
        bucket_entries(self.objects).dom().len()
    }

    /// What holds of the table behind the ledger.
    pub closed spec fn table_inv(&self) -> bool {
        &&& bucket_entries(self.objects).dom().finite()
        &&& forall|i: int|
            0 <= i < self.chain@.len() ==> bucket_entries(self.objects).dom().contains(#[trigger] self.chain@[i])
    }

    /// The ledger's invariant: its days ascend strictly from head to back,
    /// each bucket but the last points to the next day, the last points to
    /// itself, and the total is the sum of the amounts.
    pub open spec fn wf(&self) -> bool {
        let days = self.days();
        &&& self.table_inv()
        &&& days.len() == self.spec_length()
        &&& forall|i: int, j: int| 0 <= i < j < days.len() ==> days[i] < days[j]
        &&& forall|d: u64| self@.dom().contains(d) <==> days.contains(d)
        &&& forall|i: int| 0 <= i < days.len() - 1 ==> #[trigger] self.next_day(days[i]) == days[i + 1]
        &&& days.len() > 0 ==> {
            &&& days[0] == self.spec_head()
            &&& days.last() == self.spec_back()
            &&& self.next_day(self.spec_back()) == self.spec_back()
        }
        &&& self.locked_total() == locked_sum(days, self@)
    }

    /// Whether the ledger can take `amount` more: the total stays within 128
    /// bits, and the table has room for one more day.
    pub open spec fn has_room(&self, amount: u128) -> bool {
        &&& self.locked_total() + amount <= u128::MAX
        &&& self.stored_days() < u32::MAX
    }

    /// Whether `outcome` is what settling every day up to `cutoff` yields:
    /// exactly the days up to `cutoff` are settled, the amount is their sum,
    /// and the new head is the first day that is left, or the back where
    /// none is left, or the old head where none was settled.
    pub open spec fn settles(&self, cutoff: u64, outcome: ProcessReturningData) -> bool {
        let days = self.days();
        let k = outcome.reduced_length as int;
        &&& 0 <= k <= days.len()
        &&& forall|i: int| 0 <= i < k ==> days[i] <= cutoff
        &&& forall|i: int| k <= i < days.len() ==> days[i] > cutoff
        &&& outcome.withdrawing_amount == locked_sum(days.take(k), self@)
        &&& outcome.current_linked_list_head == if k < days.len() {
            days[k]
        } else if k > 0 {
            self.spec_back()
        } else {
            self.spec_head()
        }
    }

    /// The days of the ledger up to `cutoff`.
    pub open spec fn due_days(&self, cutoff: u64) -> Seq<u64> {
        self.days().filter(|d: u64| d <= cutoff)
    }

    /// What settling every day up to `cutoff` yields: the sum of the buckets
    /// of those days, their number, and the day that heads the ledger
    /// without them: the first day that is left, or the back where none is
    /// left, or the old head where none is settled.
    pub open spec fn settlement(&self, cutoff: u64) -> ProcessReturningData {
        let due = self.due_days(cutoff);
        ProcessReturningData {
            withdrawing_amount: locked_sum(due, self@) as u128,
            current_linked_list_head: if due.len() < self.days().len() {
                self.days()[due.len() as int]
            } else if due.len() > 0 {
                self.spec_back()
            } else {
                self.spec_head()
            },
            reduced_length: due.len() as u128,
        }
    }

    /// The outcome that [`Self::settles`] describes is the settlement.
    pub proof fn lemma_settles_is_settlement(&self, cutoff: u64, outcome: ProcessReturningData)
        requires
            self.wf(),
            self.settles(cutoff, outcome),
        ensures
            outcome == self.settlement(cutoff),
            self.due_days(cutoff) == self.days().take(outcome.reduced_length as int),
    {
        lemma_filter_is_prefix(self.days(), |d: u64| d <= cutoff, outcome.reduced_length as int);
    }

    /// An empty ledger.
    pub fn new() -> (list: Self)
        ensures
            list.wf(),
            list@ == Map::<u64, u128>::empty(),
            list.days() == Seq::<u64>::empty(),
            list.spec_head() == 0,
            list.spec_back() == 0,
            list.stored_days() == 0,
    {
        let list = LinkedList { head: 0, back: 0, length: 0, total: 0, objects: store_new(), chain: Ghost(Seq::empty()) };
        proof {
            assert(list@ =~= Map::<u64, u128>::empty());
        }
        list
    }

    /// An empty ledger.
    pub fn default() -> (list: Self)
        ensures
            list.wf(),
            list@ == Map::<u64, u128>::empty(),
            list.days() == Seq::<u64>::empty(),
            list.spec_head() == 0,
            list.spec_back() == 0,
            list.stored_days() == 0,
    {
        Self::new()
    }

    /// The first day of the ledger.
    pub fn head(&self) -> (day: u64)
        ensures
            day == self.spec_head(),
    {
        self.head
    }

    /// The last day of the ledger.
    pub fn back(&self) -> (day: u64)
        ensures
            day == self.spec_back(),
    {
        self.back
    }

    /// The number of buckets in the ledger.
    pub fn length(&self) -> (count: u128)
        ensures
            count == self.spec_length(),
    {
        self.length
    }

    /// The sum of all amounts in the ledger.
    pub fn total(&self) -> (sum: u128)
        ensures
            sum == self.locked_total(),
    {
        self.total
    }

    /// Walks from the head to the last day of the ledger that is not after
    /// `day`, and says at which position it stands.
    fn find(&self, day: u64) -> (found: (u64, Ghost<int>))
        requires
            self.wf(),
            self.spec_length() >= 1,
            self.spec_head() <= day <= self.spec_back(),
        ensures
            0 <= found.1@ < self.days().len(),
            self.days()[found.1@] == found.0,
            found.0 <= day,
            found.1@ + 1 < self.days().len() ==> day < self.days()[found.1@ + 1],
    {
        let mut cur: u64 = self.head;
        let ghost mut at: int = 0;
        loop
            invariant
                self.wf(),
                0 <= at < self.days().len(),
                cur == self.days()[at],
                cur <= day <= self.spec_back(),
            decreases self.days().len() - at,
        {
            if cur == day {
                return (cur, Ghost(at));
            }
            let bucket = store_get(&self.objects, cur);
            let next: u64 = bucket.unwrap().1;
            proof {
                assert(self.next_day(self.days()[at]) == self.days()[at + 1]);
            }
            if day < next {
                return (cur, Ghost(at));
            }
            cur = next;
            proof {
                at = at + 1;
            }
        }
    }

    /// The days of the ledger, from head to back, found by following each
    /// bucket's pointer to the next day.
    pub fn occupied_days(&self) -> (days: Vec<u64>)
        requires
            self.wf(),
        ensures
            days@ == self.days(),
    {
        let mut days: Vec<u64> = Vec::new();
        let mut cur: u64 = self.head;
        let mut seen: u128 = 0;
        proof {
            assert(self.days().take(0) =~= Seq::<u64>::empty());
        }
        while seen < self.length
            invariant
                self.wf(),
                seen <= self.days().len(),
                days@ == self.days().take(seen as int),
                seen < self.days().len() ==> cur == self.days()[seen as int],
            decreases self.days().len() - seen,
        {
            days.push(cur);
            let bucket = store_get(&self.objects, cur);
            proof {
                let k = seen as int;
                assert(days@ =~= self.days().take(k + 1));
                if k + 1 < self.days().len() {
                    assert(self.next_day(self.days()[k]) == self.days()[k + 1]);
                }
            }
            cur = bucket.unwrap().1;
            seen = seen + 1;
        }
        proof {
            assert(self.days().take(seen as int) =~= self.days());
        }
        days
    }

    /// The amount locked on `day`, if the ledger has a bucket for that day.
    pub fn locked_at(&self, day: u64) -> (locked: Option<u128>)
        requires
            self.wf(),
        ensures
            locked == (if self@.dom().contains(day) {
                Some(self@[day])
            } else {
                None
            }),
    {
        if self.length == 0 || day < self.head || day > self.back {
            proof {
                if self.days().contains(day) {
                    let i = choose|i: int| 0 <= i < self.days().len() && self.days()[i] == day;
                    assert(self.days()[0] <= self.days()[i] <= self.days()[self.days().len() - 1]);
                }
            }
            return None;
        }
        let (cur, Ghost(at)) = self.find(day);
        if cur == day {
            let bucket = store_get(&self.objects, cur);
            Some(bucket.unwrap().0)
        } else {
            proof {
                if self.days().contains(day) {
                    let i = choose|i: int| 0 <= i < self.days().len() && self.days()[i] == day;
                    if i <= at {
                        assert(self.days()[i] <= self.days()[at]);
                    } else {
                        assert(self.days()[at + 1] <= self.days()[i]);
                    }
                }
            }
            None
        }
    }

    /// What settling every day up to `cutoff` would yield. The ledger is
    /// left as it is.
    pub fn process(&self, cutoff: u64) -> (outcome: ProcessReturningData)
        requires
            self.wf(),
        ensures
            outcome == self.settlement(cutoff),
            self.settles(cutoff, outcome),
    {
        let mut sum: u128 = 0;
        let mut consumed: u128 = 0;
        let mut cur: u64 = self.head;
        proof {
            assert(self.days().take(0) =~= Seq::<u64>::empty());
        }
        while consumed < self.length && cur <= cutoff
            invariant
                self.wf(),
                0 <= consumed <= self.days().len(),
                sum == locked_sum(self.days().take(consumed as int), self@),
                forall|i: int| 0 <= i < consumed ==> self.days()[i] <= cutoff,
                consumed < self.days().len() ==> cur == self.days()[consumed as int],
                consumed == self.days().len() && consumed > 0 ==> cur == self.spec_back(),
                consumed == 0 ==> cur == self.spec_head(),
            decreases self.days().len() - consumed,
        {
            let bucket = store_get(&self.objects, cur);
            let (amount, next): (u128, u64) = bucket.unwrap();
            proof {
                let days = self.days();
                let k = consumed as int;
                assert(days.contains(days[k]));
                assert(days.take(k + 1).drop_last() =~= days.take(k));
                assert(days.take(k + 1).last() == days[k]);
                lemma_sum_split(days, k + 1, self@);
                if k + 1 < days.len() {
                    assert(self.next_day(days[k]) == days[k + 1]);
                } else {
                    assert(days[k] == days.last());
                }
            }
            sum = sum + amount;
            consumed = consumed + 1;
            cur = next;
        }
        proof {
            let days = self.days();
            let k = consumed as int;
            assert forall|i: int| k <= i < days.len() implies days[i] > cutoff by {
                assert(days[k] <= days[i]);
            }
        }
        let outcome = ProcessReturningData { withdrawing_amount: sum, current_linked_list_head: cur, reduced_length: consumed };
        proof {
            self.lemma_settles_is_settlement(cutoff, outcome);
        }
        outcome
    }

    /// Settles every day up to `cutoff`: their buckets leave the ledger, the
    /// head moves to the first day that is left, and the outcome says what
    /// was settled.
    pub fn settle(&mut self, cutoff: u64) -> (outcome: ProcessReturningData)
        requires
            old(self).wf(),
        ensures
            final(self).wf(),
            outcome == old(self).settlement(cutoff),
            old(self).settles(cutoff, outcome),
            final(self)@ == view_after_settlement(old(self)@, cutoff),
            final(self).days() == old(self).days().skip(outcome.reduced_length as int),
            final(self).spec_head() == outcome.current_linked_list_head,
            final(self).spec_back() == old(self).spec_back(),
            final(self).stored_days() == old(self).stored_days(),
            final(self).locked_total() == old(self).locked_total() - outcome.withdrawing_amount,
    {
        let outcome = self.process(cutoff);
        let ghost before = *self;
        proof {
            lemma_sum_split(self.days(), outcome.reduced_length as int, self@);
        }
        self.head = outcome.current_linked_list_head;
        self.length = self.length - outcome.reduced_length;
        self.total = self.total - outcome.withdrawing_amount;
        self.chain = Ghost(self.chain@.skip(outcome.reduced_length as int));
        proof {
            before.lemma_settled(*self, cutoff, outcome);
        }
        outcome
    }

    /// A ledger whose first buckets have been settled, with the head moved
    /// behind them, is a well-formed ledger again, and holds what was not
    /// settled.
    proof fn lemma_settled(&self, after: Self, cutoff: u64, outcome: ProcessReturningData)
        requires
            self.wf(),
            self.settles(cutoff, outcome),
            after.chain@ == self.chain@.skip(outcome.reduced_length as int),
            after.length == self.length - outcome.reduced_length,
            after.total == self.total - outcome.withdrawing_amount,
            after.head == outcome.current_linked_list_head,
            after.back == self.back,
            after.objects == self.objects,
        ensures
            after.wf(),
            after@ == view_after_settlement(self@, cutoff),
    {
        let k = outcome.reduced_length as int;
        let days = self.days();
        let rest = after.days();
        assert forall|i: int| 0 <= i < rest.len() implies #[trigger] rest[i] == days[k + i] by {}
        assert forall|d: u64| rest.contains(d) <==> (days.contains(d) && d > cutoff) by {
            if rest.contains(d) {
                let i = choose|i: int| 0 <= i < rest.len() && rest[i] == d;
                assert(days[k + i] == d);
            }
            if days.contains(d) && d > cutoff {
                let i = choose|i: int| 0 <= i < days.len() && days[i] == d;
                assert(rest[i - k] == d);
            }
        }
        assert(after@ =~= view_after_settlement(self@, cutoff));
        assert(after.table_inv()) by {
            assert forall|i: int| 0 <= i < rest.len() implies bucket_entries(after.objects).dom().contains(
                #[trigger] rest[i],
            ) by {
                assert(rest[i] == days[k + i]);
            }
        }
        assert forall|i: int, j: int| 0 <= i < j < rest.len() implies rest[i] < rest[j] by {
            assert(days[k + i] < days[k + j]);
        }
        assert forall|i: int| 0 <= i < rest.len() - 1 implies #[trigger] after.next_day(rest[i]) == rest[i + 1] by {
            assert(rest[i] == days[k + i]);
            assert(rest[i + 1] == days[k + i + 1]);
            assert(self.next_day(days[k + i]) == days[k + i + 1]);
        }
        if rest.len() > 0 {
            assert(rest[0] == days[k]);
            assert(rest.last() == days[k + rest.len() - 1]);
            assert(days.last() == days[days.len() - 1]);
        }
        assert(after.total == locked_sum(rest, after@)) by {
            lemma_sum_split(days, k, self@);
            assert forall|i: int| 0 <= i < rest.len() implies after@[#[trigger] rest[i]] == self@[rest[i]] by {
                assert(rest[i] == days[k + i]);
                assert(days.contains(days[k + i]));
            }
            lemma_sum_agree(rest, after@, self@);
        }
    }

    /// Whether the ledger can take `amount` more.
    pub fn can_add(&self, amount: u128) -> (room: bool)
        ensures
            room == self.has_room(amount),
    {
        amount <= u128::MAX - self.total && store_len(&self.objects) < u32::MAX
    }

    /// Adds `amount` to the bucket of `day_id`. Where the ledger has no
    /// bucket for that day, one is put in its place in the chain: before the
    /// head, behind the back, or between the two days around it.
    ///
    /// An entry before the head or behind the back takes constant time, so
    /// entries that come in order of maturity do. An entry in between walks
    /// from the head to its place.
    pub fn add_entry(&mut self, day_id: u64, amount: u128)
        requires
            old(self).wf(),
            old(self).has_room(amount),
        ensures
            final(self).wf(),
            final(self)@ == view_after_entry(old(self)@, day_id, amount),
            final(self).locked_total() == old(self).locked_total() + amount,
            final(self).stored_days() <= old(self).stored_days() + 1,
    {
        if self.length == 0 {
            self.enter_first(day_id, amount);
        } else if day_id < self.head {
            self.enter_before_head(day_id, amount);
        } else if day_id > self.back {
            self.enter_behind_back(day_id, amount);
        } else {
            self.enter_within(day_id, amount);
        }
    }

    /// The entry into an empty ledger: one bucket, which is head and back.
    fn enter_first(&mut self, day_id: u64, amount: u128)
        requires
            old(self).wf(),
            old(self).has_room(amount),
            old(self).spec_length() == 0,
        ensures
            final(self).wf(),
            final(self)@ == view_after_entry(old(self)@, day_id, amount),
            final(self).locked_total() == old(self).locked_total() + amount,
            final(self).stored_days() <= old(self).stored_days() + 1,
    {
        let ghost before = *self;
        proof {
            assert(before.days() =~= Seq::<u64>::empty());
        }
        store_insert(&mut self.objects, day_id, amount, day_id);
        self.head = day_id;
        self.back = day_id;
        self.length = 1;
        self.total = amount;
        self.chain = Ghost(Seq::empty().push(day_id));
        proof {
            assert(self.days() =~= seq![day_id]);
            assert(self.days()[0] == day_id);
            assert forall|d: u64| self.days().contains(d) <==> d == day_id by {
                if d == day_id {
                    assert(self.days()[0] == d);
                }
            }
            assert(self@ =~= view_after_entry(before@, day_id, amount));
            lemma_sum_single(day_id, self@);
        }
    }

    /// The entry on a day before the head: a new head, which points to the
    /// old one.
    fn enter_before_head(&mut self, day_id: u64, amount: u128)
        requires
            old(self).wf(),
            old(self).has_room(amount),
            old(self).spec_length() >= 1,
            day_id < old(self).spec_head(),
        ensures
            final(self).wf(),
            final(self)@ == view_after_entry(old(self)@, day_id, amount),
            final(self).locked_total() == old(self).locked_total() + amount,
            final(self).stored_days() <= old(self).stored_days() + 1,
    {
        let ghost before = *self;
        proof {
            before.lemma_length_within_table();
            lemma_days_insert(before.days(), 0, day_id);
        }
        store_insert(&mut self.objects, day_id, amount, self.head);
        self.head = day_id;
        self.length = self.length + 1;
        self.total = self.total + amount;
        self.chain = Ghost(self.chain@.insert(0, day_id));
        proof {
            before.lemma_entered(*self, 0, day_id, amount);
        }
    }

    /// The entry on a day behind the back: a new back, to which the old one
    /// points.
    fn enter_behind_back(&mut self, day_id: u64, amount: u128)
        requires
            old(self).wf(),
            old(self).has_room(amount),
            old(self).spec_length() >= 1,
            day_id > old(self).spec_back(),
        ensures
            final(self).wf(),
            final(self)@ == view_after_entry(old(self)@, day_id, amount),
            final(self).locked_total() == old(self).locked_total() + amount,
            final(self).stored_days() <= old(self).stored_days() + 1,
    {
        let ghost before = *self;
        let ghost n = before.days().len() as int;
        proof {
            before.lemma_length_within_table();
            assert(before.days()[n - 1] == before.back);
            lemma_days_insert(before.days(), n, day_id);
        }
        let last = store_get(&self.objects, self.back);
        store_insert(&mut self.objects, self.back, last.unwrap().0, day_id);
        store_insert(&mut self.objects, day_id, amount, day_id);
        self.back = day_id;
        self.length = self.length + 1;
        self.total = self.total + amount;
        self.chain = Ghost(self.chain@.insert(self.chain@.len() as int, day_id));
        proof {
            before.lemma_entered(*self, n, day_id, amount);
        }
    }

    /// The entry on a day between head and back: into the bucket of that
    /// day, or into a new one behind the last day before it.
    fn enter_within(&mut self, day_id: u64, amount: u128)
        requires
            old(self).wf(),
            old(self).has_room(amount),
            old(self).spec_length() >= 1,
            old(self).spec_head() <= day_id <= old(self).spec_back(),
        ensures
            final(self).wf(),
            final(self)@ == view_after_entry(old(self)@, day_id, amount),
            final(self).locked_total() == old(self).locked_total() + amount,
            final(self).stored_days() <= old(self).stored_days() + 1,
    {
        let ghost before = *self;
        let (cur, Ghost(at)) = self.find(day_id);
        let bucket = store_get(&self.objects, cur);
        let (held, next): (u128, u64) = bucket.unwrap();
        proof {
            if at + 1 < before.days().len() {
                assert(before.next_day(before.days()[at]) == before.days()[at + 1]);
            } else {
                assert(before.days()[at] == before.days().last());
            }
        }
        if cur == day_id {
            proof {
                assert(before.days().contains(before.days()[at]));
                lemma_sum_split(before.days(), at, before@);
                lemma_sum_split(before.days().skip(at), 1, before@);
                assert(before.days().skip(at).take(1) =~= seq![day_id]);
                lemma_sum_single(day_id, before@);
                lemma_sum_update(before.days(), at, before@, (held + amount) as u128);
            }
            store_insert(&mut self.objects, cur, held + amount, next);
            self.total = self.total + amount;
            proof {
                assert(self@ =~= view_after_entry(before@, day_id, amount));
                assert(bucket_entries(self.objects).dom() =~= bucket_entries(before.objects).dom());
                before.lemma_amount_changed(*self, day_id);
            }
        } else {
            proof {
                before.lemma_length_within_table();
                lemma_days_insert(before.days(), at + 1, day_id);
            }
            store_insert(&mut self.objects, cur, held, day_id);
            store_insert(&mut self.objects, day_id, amount, next);
            self.length = self.length + 1;
            self.total = self.total + amount;
            self.chain = Ghost(self.chain@.insert(at + 1, day_id));
            proof {
                before.lemma_entered(*self, at + 1, day_id, amount);
            }
        }
    }

    /// Takes `amount` from the bucket of `day_id`. The bucket stays in the
    /// ledger, also where nothing is left in it.
    pub fn remove_entry(&mut self, day_id: u64, amount: u128)
        requires
            old(self).wf(),
            old(self)@.dom().contains(day_id),
            old(self)@[day_id] >= amount,
        ensures
            final(self).wf(),
            final(self)@ == view_after_release(old(self)@, day_id, amount),
            final(self).days() == old(self).days(),
            final(self).locked_total() == old(self).locked_total() - amount,
            final(self).stored_days() == old(self).stored_days(),
    {
        let ghost before = *self;
        let ghost at = choose|i: int| 0 <= i < self.days().len() && self.days()[i] == day_id;
        let bucket = store_get(&self.objects, day_id);
        let (held, next): (u128, u64) = bucket.unwrap();
        proof {
            lemma_sum_split(before.days(), at, before@);
            lemma_sum_split(before.days().skip(at), 1, before@);
            assert(before.days().skip(at).take(1) =~= seq![day_id]);
            lemma_sum_single(day_id, before@);
            lemma_sum_update(before.days(), at, before@, (held - amount) as u128);
        }
        store_insert(&mut self.objects, day_id, held - amount, next);
        self.total = self.total - amount;
        proof {
            assert(self@ =~= view_after_release(before@, day_id, amount));
            assert(bucket_entries(self.objects).dom() =~= bucket_entries(before.objects).dom());
            before.lemma_amount_changed(*self, day_id);
        }
    }

    /// A ledger in which one bucket holds another amount, and nothing else
    /// has changed, keeps its chain.
    proof fn lemma_amount_changed(&self, after: Self, day: u64)
        requires
            self.wf(),
            after.chain@ == self.chain@,
            after.head == self.head,
            after.back == self.back,
            after.length == self.length,
            bucket_entries(after.objects).dom() == bucket_entries(self.objects).dom(),
            forall|d: u64| #![trigger bucket_entries(after.objects)[d]]
                bucket_entries(after.objects)[d].1 == bucket_entries(self.objects)[d].1,
        ensures
            after.table_inv(),
            forall|i: int| 0 <= i < after.days().len() - 1 ==> #[trigger] after.next_day(after.days()[i]) == after.days()[i + 1],
            after.days().len() > 0 ==> after.next_day(after.spec_back()) == after.spec_back(),
    {
        let days = self.days();
        assert forall|i: int| 0 <= i < days.len() - 1 implies #[trigger] after.next_day(days[i]) == days[i + 1] by {
            assert(self.next_day(days[i]) == days[i + 1]);
        }
    }

    /// A ledger has no more buckets than its table has days.
    proof fn lemma_length_within_table(&self)
        requires
            self.wf(),
        ensures
            self.days().len() <= self.stored_days(),
    {
        let days = self.days();
        assert(days.no_duplicates()) by {
            assert forall|i: int, j: int| 0 <= i < days.len() && 0 <= j < days.len() && i != j implies days[i]
                != days[j] by {
                if i < j {
                    assert(days[i] < days[j]);
                } else {
                    assert(days[j] < days[i]);
                }
            }
        }
        days.unique_seq_to_set();
        assert(days.to_set().subset_of(bucket_entries(self.objects).dom())) by {
            assert forall|d: u64| days.to_set().contains(d) implies bucket_entries(self.objects).dom().contains(
                d,
            ) by {
                let i = choose|i: int| 0 <= i < days.len() && days[i] == d;
                assert(bucket_entries(self.objects).dom().contains(days[i]));
            }
        }
        vstd::set_lib::lemma_len_subset(days.to_set(), bucket_entries(self.objects).dom());
    }

    /// A ledger that has taken a bucket for a new day at position `at`, with
    /// the bucket before it pointing to the new day and the new bucket to
    /// the day after it, is a well-formed ledger again.
    proof fn lemma_entered(&self, after: Self, at: int, day: u64, amount: u128)
        requires
            self.wf(),
            self.days().len() >= 1,
            0 <= at <= self.days().len(),
            at > 0 ==> self.days()[at - 1] < day,
            at < self.days().len() ==> day < self.days()[at],
            after.chain@ == self.chain@.insert(at, day),
            after.length == self.length + 1,
            after.total == self.total + amount,
            after.head == (if at == 0 { day } else { self.head }),
            after.back == (if at == self.days().len() { day } else { self.back }),
            bucket_entries(after.objects).dom() =~= bucket_entries(self.objects).dom().insert(day),
            bucket_entries(after.objects)[day] == (amount, (if at == self.days().len() { day } else { self.days()[at] })),
            forall|i: int| 0 <= i < self.days().len() ==> (#[trigger] bucket_entries(after.objects)[self.days()[i]]).0
                == bucket_entries(self.objects)[self.days()[i]].0,
            forall|i: int| 0 <= i < self.days().len() && i != at - 1 ==> (#[trigger] bucket_entries(after.objects)[self.days()[i]]).1
                == bucket_entries(self.objects)[self.days()[i]].1,
            at > 0 ==> bucket_entries(after.objects)[self.days()[at - 1]].1 == day,
        ensures
            after.wf(),
            after@ == view_after_entry(self@, day, amount),
            after.stored_days() <= self.stored_days() + 1,
    {
        let days = self.days();
        let grown = after.days();
        lemma_days_insert(days, at, day);
        assert(after@ =~= view_after_entry(self@, day, amount)) by {
            assert forall|d: u64| days.contains(d) implies after@[d] == self@[d] by {
                let i = choose|i: int| 0 <= i < days.len() && days[i] == d;
                assert(bucket_entries(after.objects)[days[i]].0 == bucket_entries(self.objects)[days[i]].0);
            }
        }
        assert(after.table_inv()) by {
            assert forall|i: int| 0 <= i < grown.len() implies bucket_entries(after.objects).dom().contains(
                #[trigger] grown[i],
            ) by {
                if i < at {
                    assert(grown[i] == days[i]);
                } else if i > at {
                    assert(grown[i] == days[i - 1]);
                }
            }
        }
        assert forall|i: int| 0 <= i < grown.len() - 1 implies #[trigger] after.next_day(grown[i]) == grown[i + 1] by {
            if i < at - 1 {
                assert(grown[i] == days[i] && grown[i + 1] == days[i + 1]);
                assert(self.next_day(days[i]) == days[i + 1]);
                assert(bucket_entries(after.objects)[days[i]].1 == bucket_entries(self.objects)[days[i]].1);
            } else if i == at - 1 {
                assert(grown[i] == days[at - 1]);
                assert(grown[i + 1] == day);
            } else if i == at {
                assert(grown[i + 1] == days[at]);
            } else {
                assert(grown[i] == days[i - 1] && grown[i + 1] == days[i]);
                assert(self.next_day(days[i - 1]) == days[i]);
                assert(bucket_entries(after.objects)[days[i - 1]].1 == bucket_entries(self.objects)[days[i - 1]].1);
            }
        }
        assert(grown[0] == after.head);
        assert(grown.last() == after.back && after.next_day(after.back) == after.back) by {
            if at == days.len() {
                assert(grown.last() == grown[at]);
            } else {
                assert(grown.last() == grown[days.len() as int]);
                assert(days.last() == days[days.len() - 1]);
                assert(bucket_entries(after.objects)[days[days.len() - 1]].1 == bucket_entries(self.objects)[days[
                    days.len() - 1]].1);
            }
        }
        assert(after.total == locked_sum(grown, after@)) by {
            lemma_sum_insert(days, at, day, self@, amount);
            assert(self@.insert(day, amount) =~= after@);
        }
    }
}

impl Default for LinkedList {
    /// An empty ledger.
    fn default() -> (list: Self)
        ensures
            list.wf(),
            list@ == Map::<u64, u128>::empty(),
            list.days() == Seq::<u64>::empty(),
    {
        LinkedList::new()
    }
}

} // verus!
