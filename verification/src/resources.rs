//! The resource credits of a user, one credit per resource name.
use vstd::prelude::*;

use crate::credit::{day_closed, has_id, removed_subscription, Credit};
use crate::ordering::text_equal;

verus! {

/// Named resource credits. Each resource name occurs at most once
/// (`wf`); entries keep the order in which they were added.
pub struct Resources<A> {
    pub entries: Vec<(String, Credit<A>)>,
}

impl<A> Resources<A> {
    /// The resource names, in order.
    pub open spec fn names(&self) -> Seq<Seq<char>> {
        self.entries@.map_values(|e: (String, Credit<A>)| e.0@)
    }

    /// No resource name occurs twice.
    pub open spec fn wf(&self) -> bool {
        forall|i: int, j: int|
            0 <= i < j < self.entries@.len() ==> #[trigger] self.entries@[i].0@
                != #[trigger] self.entries@[j].0@
    }

    /// `self` and `other` hold the same names, in the same order, with
    /// equivalent credits.
    pub open spec fn equivalent(&self, other: &Resources<A>) -> bool {
        &&& self.entries@.len() == other.entries@.len()
        &&& forall|i: int|
            0 <= i < self.entries@.len() ==> (#[trigger] self.entries@[i]).0@ == other.entries@[i].0@
                && self.entries@[i].1.equivalent(&other.entries@[i].1)
    }

    /// The position of the resource named `name`, if there is one.
    pub open spec fn position(&self, name: Seq<char>) -> Option<int> {
        if exists|i: int| 0 <= i < self.entries@.len() && #[trigger] self.entries@[i].0@ == name {
            Some(choose|i: int| 0 <= i < self.entries@.len() && #[trigger] self.entries@[i].0@ == name)
        } else {
            None
        }
    }

    /// The credit of the resource named `name`, if there is one.
    pub open spec fn lookup(&self, name: Seq<char>) -> Option<Credit<A>> {
        match self.position(name) {
            Some(i) => Some(self.entries@[i].1),
            None => None,
        }
    }

    /// No resources.
    pub fn new() -> (resources: Self)
        ensures
            resources.entries@.len() == 0,
            resources.wf(),
    {
        Resources { entries: Vec::new() }
    }

    pub fn len(&self) -> (n: usize)
        ensures
            n == self.entries@.len(),
    {
        self.entries.len()
    }

    pub fn name_at(&self, i: usize) -> (name: &String)
        requires
            i < self.entries@.len(),
        ensures
            *name == self.entries@[i as int].0,
    {
        &self.entries[i].0
    }

    pub fn credit_at(&self, i: usize) -> (credit: &Credit<A>)
        requires
            i < self.entries@.len(),
        ensures
            *credit == self.entries@[i as int].1,
    {
        &self.entries[i].1
    }

    /// Replaces the credit at position `i`; names stay as they are.
    pub fn set_credit_at(&mut self, i: usize, credit: Credit<A>)
        requires
            i < old(self).entries@.len(),
        ensures
            final(self).entries@ == old(self).entries@.update(
                i as int,
                (old(self).entries@[i as int].0, credit),
            ),
            final(self).names() == old(self).names(),
            old(self).wf() ==> final(self).wf(),
    {
        let ghost before = self.entries@;
        let name = self.entries[i].0.clone();
        self.entries.set(i, (name, credit));
        proof {
            assert(self.names() =~= old(self).names());
            if old(self).wf() {
                assert forall|a: int, b: int| 0 <= a < b < self.entries@.len() implies #[trigger] self.entries@[a].0@
                    != #[trigger] self.entries@[b].0@ by {
                    assert(before[a].0@ != before[b].0@);
                }
            }
        }
    }

    /// Closes the day of the credit at position `i` with `average` (see
    /// `Credit::close_day`).
    pub fn close_day_at(&mut self, i: usize, average: A)
        requires
            i < old(self).entries@.len(),
        ensures
            final(self).entries@.len() == old(self).entries@.len(),
            final(self).entries@[i as int].0 == old(self).entries@[i as int].0,
            day_closed(old(self).entries@[i as int].1, final(self).entries@[i as int].1, average),
            forall|j: int|
                0 <= j < old(self).entries@.len() && j != i ==> #[trigger] final(self).entries@[j]
                    == old(self).entries@[j],
            final(self).names() == old(self).names(),
            old(self).wf() ==> final(self).wf(),
    {
        let ghost before = self.entries@;
        self.entries[i].1.close_day(average);
        proof {
            assert(self.names() =~= old(self).names());
            if old(self).wf() {
                assert forall|a: int, b: int| 0 <= a < b < self.entries@.len() implies #[trigger] self.entries@[a].0@
                    != #[trigger] self.entries@[b].0@ by {
                    assert(before[a].0@ != before[b].0@);
                }
            }
        }
    }

    /// The position of the resource named `name`.
    pub fn find(&self, name: &str) -> (found: Option<usize>)
        requires
            self.wf(),
        ensures
            found == (match self.position(name@) {
                Some(i) => Some(i as usize),
                None => None::<usize>,
            }),
            found matches Some(i) ==> i < self.entries@.len() && self.entries@[i as int].0@ == name@,
    {
        for i in 0..self.entries.len()
            invariant
                self.wf(),
                forall|j: int| 0 <= j < i ==> (#[trigger] self.entries@[j]).0@ != name@,
        {
            if text_equal(self.entries[i].0.as_str(), name) {
                proof {
                    let k = choose|k: int| 0 <= k < self.entries@.len() && #[trigger] self.entries@[k].0@ == name@;
                    if k != i {
                        if k < i {
                            assert(self.entries@[k].0@ != name@);
                        } else {
                            assert(self.entries@[i as int].0@ != self.entries@[k].0@);
                        }
                    }
                }
                return Some(i);
            }
        }
        None
    }

    /// The credit of the resource named `name`, if there is one.
    pub fn get(&self, name: &str) -> (credit: Option<&Credit<A>>)
        requires
            self.wf(),
        ensures
            credit == (match self.lookup(name@) {
                Some(c) => Some(&c),
                None => None::<&Credit<A>>,
            }),
    {
        match self.find(name) {
            Some(i) => Some(&self.entries[i].1),
            None => None,
        }
    }

    /// The position of the resource named `name`; if there is none, a
    /// resource with that name and the credit `default` is added at the end.
    pub fn entry_or_insert(&mut self, name: &str, default: Credit<A>) -> (i: usize)
        requires
            old(self).wf(),
        ensures
            final(self).wf(),
            i < final(self).entries@.len(),
            final(self).entries@[i as int].0@ == name@,
            old(self).position(name@) is Some ==> final(self).entries@ == old(self).entries@
                && i as int == old(self).position(name@)->0,
            old(self).position(name@) is None ==> final(self).entries@.len() == old(
                self,
            ).entries@.len() + 1 && final(self).entries@.drop_last() == old(self).entries@
                && final(self).entries@.last().1 == default && i == old(self).entries@.len(),
    {
        match self.find(name) {
            Some(i) => i,
            None => {
                let ghost before = self.entries@;
                let n = self.entries.len();
                self.entries.push((name.to_owned(), default));
                proof {
                    assert(self.entries@.drop_last() =~= before);
                    assert forall|a: int, b: int| 0 <= a < b < self.entries@.len() implies #[trigger] self.entries@[a].0@
                        != #[trigger] self.entries@[b].0@ by {
                        if b < n {
                            assert(before[a].0@ != before[b].0@);
                        } else {
                            assert(before[a].0@ != name@);
                        }
                    }
                }
                n
            }
        }
    }

    /// Removes the subscription of id `id` from the first resource credit
    /// that has one; returns whether there was such a credit.
    pub fn remove_subscription(&mut self, id: &str) -> (removed: bool)
        where
            A: Copy,
        ensures
            removed == exists|k: int|
                0 <= k < old(self).entries@.len() && has_id(
                    (#[trigger] old(self).entries@[k]).1.subscriptions@,
                    id@,
                ),
            removed ==> exists|k: int|
                {
                    &&& 0 <= k < old(self).entries@.len()
                    &&& has_id((#[trigger] old(self).entries@[k]).1.subscriptions@, id@)
                    &&& forall|j: int|
                        0 <= j < k ==> !has_id(
                            (#[trigger] old(self).entries@[j]).1.subscriptions@,
                            id@,
                        )
                    &&& final(self).entries@.len() == old(self).entries@.len()
                    &&& final(self).entries@[k].0 == old(self).entries@[k].0
                    &&& removed_subscription(old(self).entries@[k].1, final(self).entries@[k].1, id@)
                    &&& forall|j: int|
                        0 <= j < old(self).entries@.len() && j != k ==> #[trigger] final(self).entries@[j]
                            == old(self).entries@[j]
                },
            !removed ==> final(self).entries@ == old(self).entries@,
            final(self).names() == old(self).names(),
            old(self).wf() ==> final(self).wf(),
    {
        let ghost before = self.entries@;
        let n = self.entries.len();
        let mut k: usize = 0;
        while k < n
            invariant
                n == before.len(),
                before == old(self).entries@,
                self.entries@ == before,
                k <= n,
                forall|j: int| 0 <= j < k ==> !has_id((#[trigger] before[j]).1.subscriptions@, id@),
            decreases n - k,
        {
            if self.entries[k].1.remove_subscription(id) {
                proof {
                    assert(self.entries@.len() == before.len());
                    assert forall|j: int| 0 <= j < before.len() && j != k implies #[trigger] self.entries@[j]
                        == before[j] by {}
                    assert(self.names() =~= old(self).names());
                    if old(self).wf() {
                        assert forall|a: int, b: int| 0 <= a < b < self.entries@.len() implies #[trigger] self.entries@[a].0@
                            != #[trigger] self.entries@[b].0@ by {
                            assert(before[a].0@ != before[b].0@);
                        }
                    }
                }
                return true;
            }
            proof {
                assert(self.entries@[k as int].1.subscriptions@ == before[k as int].1.subscriptions@);
            }
            k = k + 1;
        }
        false
    }
}

} // verus!
