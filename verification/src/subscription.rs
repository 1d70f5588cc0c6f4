//! Subscriptions: standing orders by which one user pays another a
//! percentage of its last day's average every hour, and the order in which
//! a credit's subscriptions are booked.
use vstd::prelude::*;
use vstd::utf8::encode_utf8;

use crate::ordering::{
    bytes_less_than, bytes_lt, lemma_bytes_lt_asymmetric, lemma_bytes_lt_irreflexive,
    lemma_bytes_lt_total, lemma_bytes_lt_transitive,
};

verus! {

/// The two kinds of subscription. `Sr` subscriptions are always booked
/// before `Contract` subscriptions.
#[derive(Debug, Clone, Copy, PartialEq, Eq, Structural)]
pub enum SubscriptionType {
    Sr,
    Contract,
}

/// The credit type a subscription falls back to when none is given.
pub fn default_credit_type() -> (credit_type: String)
    ensures
        credit_type@ == money_credit_type(),
{
    proof {
        reveal_strlit("money");
    }
    "money".to_owned()
}

/// The name of the money credit, as a character sequence.
pub open spec fn money_credit_type() -> Seq<char> {
    seq!['m', 'o', 'n', 'e', 'y']
}

/// Rank of a subscription type in booking order: lower ranks are booked
/// first.
pub open spec fn type_rank(subscription_type: SubscriptionType) -> int {
    match subscription_type {
        SubscriptionType::Sr => 0,
        SubscriptionType::Contract => 1,
    }
}

/// Rank of a subscription type in booking order (`Sr` before `Contract`).
pub fn subscription_type_rank(subscription_type: SubscriptionType) -> (rank: u8)
    ensures
        rank == type_rank(subscription_type),
{
    match subscription_type {
        SubscriptionType::Sr => 0,
        SubscriptionType::Contract => 1,
    }
}

/// A subscription of a sender's credit: every hour the sender pays
/// `value` percent of its last day's average to `receiver`.
/// `A` is the number type of the percentage.
pub struct Subscription<A> {
    pub id: String,
    pub receiver: String,
    pub value: A,
    pub subscription_type: SubscriptionType,
    pub priority: u32,
    pub credit_type: String,
}

impl<A: Copy> Clone for Subscription<A> {
    fn clone(&self) -> (copy: Self)
        ensures
            copy == *self,
    {
        Subscription {
            id: self.id.clone(),
            receiver: self.receiver.clone(),
            value: self.value,
            subscription_type: self.subscription_type,
            priority: self.priority,
            credit_type: self.credit_type.clone(),
        }
    }
}

impl<A> Subscription<A> {
    pub fn new(
        id: String,
        receiver: String,
        value: A,
        subscription_type: SubscriptionType,
        priority: u32,
        credit_type: String,
    ) -> (subscription: Self)
        ensures
            subscription == (Subscription { id, receiver, value, subscription_type, priority, credit_type }),
    {
        Subscription { id, receiver, value, subscription_type, priority, credit_type }
    }

    pub fn id(&self) -> (id: &String)
        ensures
            id == &self.id,
    {
        &self.id
    }

    pub fn receiver(&self) -> (receiver: &String)
        ensures
            receiver == &self.receiver,
    {
        &self.receiver
    }

    pub fn value(&self) -> (value: A)
        where
            A: Copy,
        ensures
            value == self.value,
    {
        self.value
    }

    pub fn subscription_type(&self) -> (subscription_type: SubscriptionType)
        ensures
            subscription_type == self.subscription_type,
    {
        self.subscription_type
    }

    pub fn priority(&self) -> (priority: u32)
        ensures
            priority == self.priority,
    {
        self.priority
    }

    pub fn credit_type(&self) -> (credit_type: &String)
        ensures
            credit_type == &self.credit_type,
    {
        &self.credit_type
    }

    /// The bytes of the id, in which ids are compared.
    pub open spec fn id_bytes(&self) -> Seq<u8> {
        encode_utf8(self.id@)
    }
}

/// `a` is booked strictly before `b`: lower type rank first, then higher
/// priority, then the smaller id.
pub open spec fn booked_before<A>(a: Subscription<A>, b: Subscription<A>) -> bool {
    ||| type_rank(a.subscription_type) < type_rank(b.subscription_type)
    ||| type_rank(a.subscription_type) == type_rank(b.subscription_type) && a.priority
        > b.priority
    ||| type_rank(a.subscription_type) == type_rank(b.subscription_type) && a.priority
        == b.priority && bytes_lt(a.id_bytes(), b.id_bytes())
}

/// `a` and `b` have the same booking key (type, priority, id).
pub open spec fn same_key<A>(a: Subscription<A>, b: Subscription<A>) -> bool {
    &&& a.subscription_type == b.subscription_type
    &&& a.priority == b.priority
    &&& a.id_bytes() == b.id_bytes()
}

proof fn lemma_booked_before_order<A>(a: Subscription<A>, b: Subscription<A>, c: Subscription<A>)
    ensures
        !booked_before(a, a),
        !(booked_before(a, b) && booked_before(b, a)),
        booked_before(a, b) && booked_before(b, c) ==> booked_before(a, c),
        same_key(a, b) || booked_before(a, b) || booked_before(b, a),
        same_key(a, b) ==> !booked_before(a, b),
        !booked_before(a, b) && !booked_before(b, c) ==> !booked_before(a, c),
        booked_before(a, b) && !booked_before(c, b) ==> booked_before(a, c),
{
    lemma_bytes_lt_irreflexive(a.id_bytes());
    lemma_bytes_lt_asymmetric(a.id_bytes(), b.id_bytes());
    lemma_bytes_lt_total(a.id_bytes(), b.id_bytes());
    lemma_bytes_lt_total(a.id_bytes(), c.id_bytes());
    lemma_bytes_lt_total(b.id_bytes(), c.id_bytes());
    if bytes_lt(a.id_bytes(), b.id_bytes()) && bytes_lt(b.id_bytes(), c.id_bytes()) {
        lemma_bytes_lt_transitive(a.id_bytes(), b.id_bytes(), c.id_bytes());
    }
    if bytes_lt(c.id_bytes(), a.id_bytes()) && bytes_lt(a.id_bytes(), b.id_bytes()) {
        lemma_bytes_lt_transitive(c.id_bytes(), a.id_bytes(), b.id_bytes());
    }
    if bytes_lt(b.id_bytes(), c.id_bytes()) && bytes_lt(c.id_bytes(), a.id_bytes()) {
        lemma_bytes_lt_transitive(b.id_bytes(), c.id_bytes(), a.id_bytes());
    }
    if bytes_lt(b.id_bytes(), a.id_bytes()) && bytes_lt(a.id_bytes(), c.id_bytes()) {
        lemma_bytes_lt_transitive(b.id_bytes(), a.id_bytes(), c.id_bytes());
    }
    lemma_bytes_lt_asymmetric(a.id_bytes(), c.id_bytes());
    lemma_bytes_lt_asymmetric(b.id_bytes(), c.id_bytes());
}

/// Decides `booked_before(*a, *b)`.
pub fn is_booked_before<A>(a: &Subscription<A>, b: &Subscription<A>) -> (before: bool)
    ensures
        before == booked_before(*a, *b),
{
    let rank_a = subscription_type_rank(a.subscription_type);
    let rank_b = subscription_type_rank(b.subscription_type);
    if rank_a != rank_b {
        rank_a < rank_b
    } else if a.priority != b.priority {
        a.priority > b.priority
    } else {
        bytes_less_than(a.id.as_str().as_bytes(), b.id.as_str().as_bytes())
    }
}

/// `order` lists every index of `subs` exactly once.
pub open spec fn is_permutation_of_indices(order: Seq<usize>, n: nat) -> bool {
    &&& order.len() == n
    &&& forall|i: int| 0 <= i < order.len() ==> #[trigger] order[i] < n
    &&& forall|i: int, j: int|
        0 <= i < j < order.len() ==> #[trigger] order[i] != #[trigger] order[j]
}

/// Visiting `subs` in `order` never meets a subscription booked before one
/// already visited, and subscriptions with the same key keep their
/// relative order.
pub open spec fn is_booking_order<A>(subs: Seq<Subscription<A>>, order: Seq<usize>) -> bool {
    &&& is_permutation_of_indices(order, subs.len())
    &&& forall|i: int, j: int|
        0 <= i < j < order.len() ==> !booked_before(
            #[trigger] subs[order[j] as int],
            #[trigger] subs[order[i] as int],
        )
    &&& forall|i: int, j: int|
        0 <= i < j < order.len() && same_key(subs[order[i] as int], subs[order[j] as int])
            ==> #[trigger] order[i] < #[trigger] order[j]
}

/// The order in which the subscriptions are booked: a stable sort by type
/// (`Sr` first), then by descending priority, then by ascending id.
pub fn booking_order<A>(subscriptions: &Vec<Subscription<A>>) -> (order: Vec<usize>)
    ensures
        is_booking_order(subscriptions@, order@),
{
    let mut order: Vec<usize> = Vec::new();
    let n = subscriptions.len();
    let mut k: usize = 0;
    while k < n
        invariant
            n == subscriptions@.len(),
            k <= n,
            is_booking_order(subscriptions@.take(k as int), order@),
        decreases n - k,
    {
        let ghost subs = subscriptions@;
        let ghost prev = order@;
        // position of the first entry booked strictly after subscription k
        let mut p: usize = 0;
        while p < order.len() && !is_booked_before(&subscriptions[k], &subscriptions[order[p]])
            invariant
                n == subscriptions@.len(),
                k < n,
                order@ == prev,
                subs == subscriptions@,
                prev.len() == k,
                is_booking_order(subs.take(k as int), prev),
                p <= prev.len(),
                forall|i: int| 0 <= i < p ==> !booked_before(subs[k as int], #[trigger] subs[prev[i] as int]),
            decreases prev.len() - p,
        {
            p = p + 1;
        }
        proof {
            assert forall|i: int| p <= i < prev.len() implies booked_before(
                subs[k as int],
                #[trigger] subs[prev[i] as int],
            ) by {
                if p < prev.len() {
                    assert(booked_before(subs[k as int], subs[prev[p as int] as int]));
                    if i > p {
                        assert(subs.take(k as int)[prev[p as int] as int] == subs[prev[p as int] as int]);
                        assert(subs.take(k as int)[prev[i] as int] == subs[prev[i] as int]);
                        assert(!booked_before(subs[prev[i] as int], subs[prev[p as int] as int]));
                        lemma_booked_before_order(subs[k as int], subs[prev[p as int] as int], subs[prev[i] as int]);
                        lemma_booked_before_order(subs[prev[i] as int], subs[prev[p as int] as int], subs[k as int]);
                    }
                }
            }
        }
        order.insert(p, k);
        proof {
            let sk = subs.take(k as int + 1);
            let st = subs.take(k as int);
            let o = order@;
            assert(o == prev.insert(p as int, k));
            assert forall|i: int| 0 <= i < o.len() implies #[trigger] o[i] < k + 1 by {
                if i < p {
                    assert(o[i] == prev[i]);
                } else if i > p {
                    assert(o[i] == prev[i - 1]);
                }
            }
            assert forall|i: int| 0 <= i < o.len() implies sk[o[i] as int] == #[trigger] subs[o[i] as int] by {
            }
            assert forall|i: int| 0 <= i < prev.len() implies st[prev[i] as int] == #[trigger] subs[prev[i] as int] by {
            }
            assert forall|i: int, j: int| 0 <= i < j < o.len() implies #[trigger] o[i] != #[trigger] o[j] by {
                if i < p && j < p {
                } else if i < p && j == p {
                } else if i < p {
                    assert(o[j] == prev[j - 1]);
                } else if i == p {
                    assert(o[j] == prev[j - 1]);
                } else {
                    assert(o[i] == prev[i - 1]);
                    assert(o[j] == prev[j - 1]);
                }
            }
            assert forall|i: int, j: int| 0 <= i < j < o.len() implies !booked_before(
                #[trigger] sk[o[j] as int],
                #[trigger] sk[o[i] as int],
            ) by {
                let ii = if i < p { i } else { i - 1 };
                let jj = if j <= p { j } else { j - 1 };
                if i == p {
                    assert(o[j] == prev[jj]);
                    lemma_booked_before_order(subs[k as int], subs[prev[jj] as int], subs[k as int]);
                } else if j == p {
                    assert(o[i] == prev[ii]);
                } else {
                    assert(o[i] == prev[ii]);
                    assert(o[j] == prev[jj]);
                    assert(ii < jj);
                    assert(!booked_before(st[prev[jj] as int], st[prev[ii] as int]));
                }
            }
            assert forall|i: int, j: int|
                0 <= i < j < o.len() && same_key(sk[o[i] as int], sk[o[j] as int]) implies #[trigger] o[i]
                < #[trigger] o[j] by {
                let ii = if i < p { i } else { i - 1 };
                let jj = if j <= p { j } else { j - 1 };
                if i == p {
                    assert(o[j] == prev[jj]);
                    lemma_booked_before_order(subs[k as int], subs[prev[jj] as int], subs[k as int]);
                } else if j == p {
                    assert(o[i] == prev[ii]);
                } else {
                    assert(o[i] == prev[ii]);
                    assert(o[j] == prev[jj]);
                    assert(same_key(st[prev[ii] as int], st[prev[jj] as int]));
                }
            }
        }
        k = k + 1;
    }
    proof {
        assert(subscriptions@.take(n as int) =~= subscriptions@);
    }
    order
}

/// The subscriptions in the order in which they are booked
/// (see `booking_order`).
pub fn sorted_subscriptions<A: Copy>(subscriptions: &Vec<Subscription<A>>) -> (sorted: Vec<
    Subscription<A>,
>)
    ensures
        exists|order: Seq<usize>|
            {
                &&& is_booking_order(subscriptions@, order)
                &&& sorted@ == order.map_values(|i: usize| subscriptions@[i as int])
            },
{
    let order = booking_order(subscriptions);
    let mut sorted: Vec<Subscription<A>> = Vec::new();
    let mut i: usize = 0;
    while i < order.len()
        invariant
            is_booking_order(subscriptions@, order@),
            i <= order@.len(),
            sorted@ =~= order@.take(i as int).map_values(|k: usize| subscriptions@[k as int]),
        decreases order@.len() - i,
    {
        sorted.push(subscriptions[order[i]].clone());
        i = i + 1;
    }
    proof {
        assert(order@.take(order@.len() as int) =~= order@);
    }
    sorted
}

} // verus!
