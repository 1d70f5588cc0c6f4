//! A credit: the balance a user holds of money or of one resource, with its
//! subscriptions, its hourly income history and its transfer history.
use vstd::prelude::*;

use crate::ordering::text_equal;
use crate::subscription::Subscription;

verus! {

/// One booking recorded on a credit: `value` moved from `sender` to
/// `receiver` (negative on the sender's side).
pub struct TransferHistoryEntry<A> {
    pub value: A,
    pub sender: String,
    pub receiver: String,
    pub transfer_type: String,
}

impl<A: Copy> Clone for TransferHistoryEntry<A> {
    fn clone(&self) -> (copy: Self)
        ensures
            copy == *self,
    {
        TransferHistoryEntry {
            value: self.value,
            sender: self.sender.clone(),
            receiver: self.receiver.clone(),
            transfer_type: self.transfer_type.clone(),
        }
    }
}

impl<A> TransferHistoryEntry<A> {
    pub fn new(value: A, sender: String, receiver: String, transfer_type: String) -> (entry: Self)
        ensures
            entry == (TransferHistoryEntry { value, sender, receiver, transfer_type }),
    {
        TransferHistoryEntry { value, sender, receiver, transfer_type }
    }
}

/// The balance of money or of one resource that a user holds.
pub struct Credit<A> {
    pub total: A,
    pub last_day_average: A,
    pub subscriptions: Vec<Subscription<A>>,
    pub history: Vec<A>,
    pub transfer_history: Vec<TransferHistoryEntry<A>>,
}

/// The subscriptions of `subs` whose id is not `id`, in their order.
pub open spec fn without_id<A>(subs: Seq<Subscription<A>>, id: Seq<char>) -> Seq<Subscription<A>> {
    subs.filter(id_other_than(id))
}

/// The subscription's id is not `id`.
pub open spec fn id_other_than<A>(id: Seq<char>) -> spec_fn(Subscription<A>) -> bool {
    |s: Subscription<A>| s.id@ != id
}

/// Some subscription of `subs` has id `id`.
pub open spec fn has_id<A>(subs: Seq<Subscription<A>>, id: Seq<char>) -> bool {
    exists|i: int| 0 <= i < subs.len() && (#[trigger] subs[i]).id@ == id
}

impl<A> Credit<A> {
    /// `self` and `other` hold the same balance, average, subscriptions and
    /// histories.
    pub open spec fn equivalent(&self, other: &Credit<A>) -> bool {
        &&& self.total == other.total
        &&& self.last_day_average == other.last_day_average
        &&& self.subscriptions@ == other.subscriptions@
        &&& self.history@ == other.history@
        &&& self.transfer_history@ == other.transfer_history@
    }
}

/// `after` is `before` with its day closed: the last day's average is
/// `average`, the hourly history is empty and nothing else changed.
pub open spec fn day_closed<A>(before: Credit<A>, after: Credit<A>, average: A) -> bool {
    &&& after.last_day_average == average
    &&& after.history@.len() == 0
    &&& after.total == before.total
    &&& after.subscriptions == before.subscriptions
    &&& after.transfer_history == before.transfer_history
}

/// Decides `has_id(subscriptions@, id@)`.
pub fn contains_subscription<A>(subscriptions: &[Subscription<A>], id: &str) -> (found: bool)
    ensures
        found == has_id(subscriptions@, id@),
{
    for i in 0..subscriptions.len()
        invariant
            forall|k: int| 0 <= k < i ==> (#[trigger] subscriptions@[k]).id@ != id@,
    {
        if text_equal(subscriptions[i].id.as_str(), id) {
            return true;
        }
    }
    false
}

/// `after` is `before` with the subscriptions of id `id` removed.
pub open spec fn removed_subscription<A>(before: Credit<A>, after: Credit<A>, id: Seq<char>) -> bool {
    &&& after.subscriptions@ == without_id(before.subscriptions@, id)
    &&& after.total == before.total
    &&& after.last_day_average == before.last_day_average
    &&& after.history == before.history
    &&& after.transfer_history == before.transfer_history
}

/// After removing the subscriptions of id `id`, none with that id is left.
pub proof fn lemma_without_id_has_none<A>(subs: Seq<Subscription<A>>, id: Seq<char>)
    ensures
        !has_id(without_id(subs, id), id),
{
    let kept = without_id(subs, id);
    assert forall|i: int| 0 <= i < kept.len() implies (#[trigger] kept[i]).id@ != id by {
        subs.lemma_filter_pred(id_other_than(id), i);
    }
}

/// Removing an id that no subscription has changes nothing.
pub proof fn lemma_without_absent_id<A>(subs: Seq<Subscription<A>>, id: Seq<char>)
    requires
        !has_id(subs, id),
    ensures
        without_id(subs, id) == subs,
    decreases subs.len(),
{
    reveal_with_fuel(Seq::filter, 1);
    if subs.len() > 0 {
        assert(!has_id(subs.drop_last(), id)) by {
            if has_id(subs.drop_last(), id) {
                let j = choose|j: int| 0 <= j < subs.drop_last().len() && (#[trigger] subs.drop_last()[j]).id@ == id;
                assert(subs[j] == subs.drop_last()[j]);
            }
        }
        lemma_without_absent_id(subs.drop_last(), id);
        assert(subs[subs.len() - 1] == subs.last());
        assert(subs.drop_last().push(subs.last()) =~= subs);
    }
}

impl<A: Copy> Clone for Credit<A> {
    fn clone(&self) -> (copy: Self)
        ensures
            copy.equivalent(self),
    {
        let mut subscriptions: Vec<Subscription<A>> = Vec::new();
        for i in 0..self.subscriptions.len()
            invariant
                subscriptions@ =~= self.subscriptions@.take(i as int),
        {
            subscriptions.push(self.subscriptions[i].clone());
        }
        let mut history: Vec<A> = Vec::new();
        for i in 0..self.history.len()
            invariant
                history@ =~= self.history@.take(i as int),
        {
            history.push(self.history[i]);
        }
        let mut transfer_history: Vec<TransferHistoryEntry<A>> = Vec::new();
        for i in 0..self.transfer_history.len()
            invariant
                transfer_history@ =~= self.transfer_history@.take(i as int),
        {
            transfer_history.push(self.transfer_history[i].clone());
        }
        proof {
            assert(self.subscriptions@.take(self.subscriptions@.len() as int) =~= self.subscriptions@);
            assert(self.history@.take(self.history@.len() as int) =~= self.history@);
            assert(self.transfer_history@.take(self.transfer_history@.len() as int)
                =~= self.transfer_history@);
        }
        Credit {
            total: self.total,
            last_day_average: self.last_day_average,
            subscriptions,
            history,
            transfer_history,
        }
    }
}

impl<A> Credit<A> {
    /// A credit with an empty transfer history.
    pub fn new(total: A, last_day_average: A, subscriptions: Vec<Subscription<A>>, history: Vec<A>) -> (credit: Self)
        ensures
            credit.total == total,
            credit.last_day_average == last_day_average,
            credit.subscriptions == subscriptions,
            credit.history == history,
            credit.transfer_history@ == Seq::<TransferHistoryEntry<A>>::empty(),
    {
        Credit { total, last_day_average, subscriptions, history, transfer_history: Vec::new() }
    }

    pub fn with_transfer_history(
        total: A,
        last_day_average: A,
        subscriptions: Vec<Subscription<A>>,
        history: Vec<A>,
        transfer_history: Vec<TransferHistoryEntry<A>>,
    ) -> (credit: Self)
        ensures
            credit == (Credit { total, last_day_average, subscriptions, history, transfer_history }),
    {
        Credit { total, last_day_average, subscriptions, history, transfer_history }
    }

    pub fn total(&self) -> (total: A)
        where
            A: Copy,
        ensures
            total == self.total,
    {
        self.total
    }

    pub fn last_day_average(&self) -> (last_day_average: A)
        where
            A: Copy,
        ensures
            last_day_average == self.last_day_average,
    {
        self.last_day_average
    }

    pub fn set_last_day_average(&mut self, last_day_average: A)
        ensures
            final(self).last_day_average == last_day_average,
            final(self).total == old(self).total,
            final(self).subscriptions == old(self).subscriptions,
            final(self).history == old(self).history,
            final(self).transfer_history == old(self).transfer_history,
    {
        self.last_day_average = last_day_average;
    }

    pub fn subscriptions(&self) -> (subscriptions: &[Subscription<A>])
        ensures
            subscriptions@ == self.subscriptions@,
    {
        self.subscriptions.as_slice()
    }

    pub fn history(&self) -> (history: &[A])
        ensures
            history@ == self.history@,
    {
        self.history.as_slice()
    }

    pub fn transfer_history(&self) -> (transfer_history: &[TransferHistoryEntry<A>])
        ensures
            transfer_history@ == self.transfer_history@,
    {
        self.transfer_history.as_slice()
    }

    /// Sets the balance.
    pub fn set_total(&mut self, total: A)
        ensures
            final(self).total == total,
            final(self).last_day_average == old(self).last_day_average,
            final(self).subscriptions == old(self).subscriptions,
            final(self).history == old(self).history,
            final(self).transfer_history == old(self).transfer_history,
    {
        self.total = total;
    }

    /// Records an hour's net income at the end of the history.
    pub fn record_hourly_income(&mut self, income: A)
        ensures
            final(self).history@ == old(self).history@.push(income),
            final(self).total == old(self).total,
            final(self).last_day_average == old(self).last_day_average,
            final(self).subscriptions == old(self).subscriptions,
            final(self).transfer_history == old(self).transfer_history,
    {
        self.history.push(income);
    }

    /// Closes the day: the last day's average becomes `average` and the
    /// hourly history starts anew.
    pub fn close_day(&mut self, average: A)
        ensures
            day_closed(*old(self), *final(self), average),
    {
        self.last_day_average = average;
        self.history.clear();
    }

    /// The most recent hourly income, if any hour has been recorded.
    pub fn latest_hourly(&self) -> (latest: Option<A>)
        where
            A: Copy,
        ensures
            latest == (if self.history@.len() == 0 {
                None::<A>
            } else {
                Some(self.history@.last())
            }),
    {
        if self.history.len() == 0 {
            None
        } else {
            Some(self.history[self.history.len() - 1])
        }
    }

    /// The ids of the credit's subscriptions, in order.
    pub fn subscription_ids(&self) -> (ids: Vec<String>)
        ensures
            ids@.len() == self.subscriptions@.len(),
            forall|i: int| 0 <= i < ids@.len() ==> (#[trigger] ids@[i])@ == self.subscriptions@[i].id@,
    {
        let mut ids: Vec<String> = Vec::new();
        for i in 0..self.subscriptions.len()
            invariant
                ids@.len() == i,
                forall|j: int| 0 <= j < i ==> (#[trigger] ids@[j])@ == self.subscriptions@[j].id@,
        {
            ids.push(self.subscriptions[i].id.clone());
        }
        ids
    }

    pub fn add_subscription(&mut self, subscription: Subscription<A>)
        ensures
            final(self).subscriptions@ == old(self).subscriptions@.push(subscription),
            final(self).total == old(self).total,
            final(self).last_day_average == old(self).last_day_average,
            final(self).history == old(self).history,
            final(self).transfer_history == old(self).transfer_history,
    {
        self.subscriptions.push(subscription);
    }

    pub fn add_transfer_history_entry(&mut self, entry: TransferHistoryEntry<A>)
        ensures
            final(self).transfer_history@ == old(self).transfer_history@.push(entry),
            final(self).total == old(self).total,
            final(self).last_day_average == old(self).last_day_average,
            final(self).subscriptions == old(self).subscriptions,
            final(self).history == old(self).history,
    {
        self.transfer_history.push(entry);
    }

    pub fn extend_transfer_history(&mut self, entries: Vec<TransferHistoryEntry<A>>)
        ensures
            final(self).transfer_history@ == old(self).transfer_history@ + entries@,
            final(self).total == old(self).total,
            final(self).last_day_average == old(self).last_day_average,
            final(self).subscriptions == old(self).subscriptions,
            final(self).history == old(self).history,
    {
        let mut entries = entries;
        self.transfer_history.append(&mut entries);
    }

    /// Removes every subscription with the given id; returns whether one
    /// was found.
    pub fn remove_subscription(&mut self, subscription_id: &str) -> (removed: bool)
        where
            A: Copy,
        ensures
            removed == has_id(old(self).subscriptions@, subscription_id@),
            removed_subscription(*old(self), *final(self), subscription_id@),
            !removed ==> *final(self) == *old(self),
    {
        let ghost before = self.subscriptions@;
        let mut kept: Vec<Subscription<A>> = Vec::new();
        let mut removed = false;
        for i in 0..self.subscriptions.len()
            invariant
                self.subscriptions@ == before,
                kept@ == without_id(before.take(i as int), subscription_id@),
                removed == has_id(before.take(i as int), subscription_id@),
        {
            let ghost pre = before.take(i as int);
            proof {
                assert(before.take(i + 1) =~= pre.push(before[i as int]));
                reveal_with_fuel(Seq::filter, 1);
                assert(pre.push(before[i as int]).drop_last() =~= pre);
            }
            if text_equal(self.subscriptions[i].id.as_str(), subscription_id) {
                removed = true;
                proof {
                    assert(before.take(i + 1)[i as int] == before[i as int]);
                }
            } else {
                kept.push(self.subscriptions[i].clone());
                proof {
                    if has_id(before.take(i + 1), subscription_id@) {
                        let j = choose|j: int| 0 <= j < i + 1 && (#[trigger] before.take(i + 1)[j]).id@ == subscription_id@;
                        assert(before.take(i + 1)[j] == pre[j]);
                    }
                }
            }
            proof {
                if removed && !has_id(pre, subscription_id@) {
                    assert(before.take(i + 1)[i as int] == before[i as int]);
                }
                if has_id(pre, subscription_id@) {
                    let j = choose|j: int| 0 <= j < i && (#[trigger] pre[j]).id@ == subscription_id@;
                    assert(before.take(i + 1)[j] == pre[j]);
                }
            }
        }
        proof {
            assert(before.take(before.len() as int) =~= before);
        }
        if removed {
            self.subscriptions = kept;
        } else {
            proof {
                lemma_without_absent_id(before, subscription_id@);
            }
        }
        removed
    }
}

/// What the user list shows of a credit: its balance and last day's
/// average.
pub struct ListUserCredit<A> {
    pub total: A,
    pub last_day_average: A,
}

impl<A: Copy> ListUserCredit<A> {
    pub fn new(total: A, last_day_average: A) -> (listed: Self)
        ensures
            listed == (ListUserCredit { total, last_day_average }),
    {
        ListUserCredit { total, last_day_average }
    }

    pub fn from_credit(credit: &Credit<A>) -> (listed: Self)
        ensures
            listed.total == credit.total,
            listed.last_day_average == credit.last_day_average,
    {
        ListUserCredit { total: credit.total, last_day_average: credit.last_day_average }
    }
}

} // verus!
