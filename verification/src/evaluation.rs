//! The outcome of evaluating a credit's subscriptions for one hour, and the
//! collection of the amounts that the evaluation books to each receiver.
use vstd::prelude::*;

use crate::ordering::text_equal;
use crate::subscription::{booking_order, is_booking_order, Subscription, SubscriptionType};

verus! {

/// A subscription booked in an evaluation, with the amount booked.
pub struct EvaluatedSubscription<A> {
    pub id: String,
    pub receiver: String,
    pub amount: A,
    pub subscription_type: SubscriptionType,
    pub priority: u32,
}

impl<A: Copy> EvaluatedSubscription<A> {
    pub fn from_subscription(subscription: &Subscription<A>, amount: A) -> (evaluated: Self)
        ensures
            evaluated.id@ == subscription.id@,
            evaluated.receiver@ == subscription.receiver@,
            evaluated.amount == amount,
            evaluated.subscription_type == subscription.subscription_type,
            evaluated.priority == subscription.priority,
    {
        EvaluatedSubscription {
            id: subscription.id.clone(),
            receiver: subscription.receiver.clone(),
            amount,
            subscription_type: subscription.subscription_type,
            priority: subscription.priority,
        }
    }

    pub fn id(&self) -> (id: &String)
        ensures
            id == &self.id,
    {
        &self.id
    }

    pub fn receiver(&self) -> (receiver: &String)
        ensures
            receiver == &self.receiver,
    {
        &self.receiver
    }

    pub fn amount(&self) -> (amount: A)
        ensures
            amount == self.amount,
    {
        self.amount
    }

    pub fn subscription_type(&self) -> (subscription_type: SubscriptionType)
        ensures
            subscription_type == self.subscription_type,
    {
        self.subscription_type
    }

    pub fn priority(&self) -> (priority: u32)
        ensures
            priority == self.priority,
    {
        self.priority
    }
}

/// An `Sr` subscription the balance could not cover: the receiver and the
/// full amount it should have received.
pub struct UnbookableSrTransfer<A> {
    pub receiver: String,
    pub amount: A,
}

impl<A: Copy> UnbookableSrTransfer<A> {
    pub fn new(receiver: String, amount: A) -> (transfer: Self)
        ensures
            transfer == (UnbookableSrTransfer { receiver, amount }),
    {
        UnbookableSrTransfer { receiver, amount }
    }

    pub fn receiver(&self) -> (receiver: &String)
        ensures
            receiver == &self.receiver,
    {
        &self.receiver
    }

    pub fn amount(&self) -> (amount: A)
        ensures
            amount == self.amount,
    {
        self.amount
    }
}

/// What evaluating a credit's subscriptions did: the subscriptions booked,
/// the `Sr` subscriptions that could not be booked with what they lacked,
/// and whether the balance fell to zero.
pub struct CreditEvaluation<A> {
    pub booked_subscriptions: Vec<EvaluatedSubscription<A>>,
    pub unbookable_sr_transfers: Vec<UnbookableSrTransfer<A>>,
    /// For each unbookable `Sr` subscription, the part of its amount the
    /// balance could not cover; this is what the controller is told.
    pub sr_overflows: Vec<A>,
    pub hit_zero: bool,
}

/// How one subscription fares in an evaluation.
#[derive(Debug, Clone, Copy, PartialEq, Eq, Structural)]
pub enum BookingDecision {
    /// The amount is booked from the sender to the receiver.
    Book,
    /// An `Sr` subscription the balance cannot cover: nothing is booked,
    /// the receiver's controller is told.
    ReportSrOverflow,
    /// A `Contract` subscription the balance cannot cover: skipped.
    Skip,
}

/// The decision for a subscription of the given type, where `covered`
/// tells whether the balance covers its amount.
pub open spec fn booking_decision_spec(subscription_type: SubscriptionType, covered: bool) -> BookingDecision {
    if covered {
        BookingDecision::Book
    } else if subscription_type == SubscriptionType::Sr {
        BookingDecision::ReportSrOverflow
    } else {
        BookingDecision::Skip
    }
}

/// Decides how a subscription fares: booked when the balance covers its
/// amount; otherwise an `Sr` subscription is reported and a `Contract`
/// subscription skipped.
pub fn booking_decision(subscription_type: SubscriptionType, covered: bool) -> (decision: BookingDecision)
    ensures
        decision == booking_decision_spec(subscription_type, covered),
{
    if covered {
        BookingDecision::Book
    } else {
        match subscription_type {
            SubscriptionType::Sr => BookingDecision::ReportSrOverflow,
            SubscriptionType::Contract => BookingDecision::Skip,
        }
    }
}

/// `evaluated` is the booked form of `subscription`, due `amount`.
pub open spec fn books<A>(evaluated: EvaluatedSubscription<A>, subscription: Subscription<A>, amount: A) -> bool {
    &&& evaluated.id@ == subscription.id@
    &&& evaluated.receiver@ == subscription.receiver@
    &&& evaluated.amount == amount
    &&& evaluated.subscription_type == subscription.subscription_type
    &&& evaluated.priority == subscription.priority
}

/// `after` is `before` with `decision` on `subscription`, due `amount`,
/// recorded: a booked subscription is added to the booked ones, a reported
/// `Sr` subscription to the unbookable ones with its `shortfall`, and a
/// skipped one leaves no trace.
pub open spec fn records_decision<A>(
    before: CreditEvaluation<A>,
    after: CreditEvaluation<A>,
    subscription: Subscription<A>,
    amount: A,
    decision: BookingDecision,
    shortfall: A,
) -> bool {
    &&& after.hit_zero == before.hit_zero
    &&& (decision == BookingDecision::Book ==> after.booked_subscriptions@.len()
        == before.booked_subscriptions@.len() + 1 && after.booked_subscriptions@.drop_last()
        == before.booked_subscriptions@ && books(after.booked_subscriptions@.last(), subscription, amount))
    &&& (decision != BookingDecision::Book ==> after.booked_subscriptions == before.booked_subscriptions)
    &&& (decision == BookingDecision::ReportSrOverflow ==> after.unbookable_sr_transfers@.len()
        == before.unbookable_sr_transfers@.len() + 1 && after.unbookable_sr_transfers@.drop_last()
        == before.unbookable_sr_transfers@ && after.unbookable_sr_transfers@.last().receiver@
        == subscription.receiver@ && after.unbookable_sr_transfers@.last().amount == amount
        && after.sr_overflows@ == before.sr_overflows@.push(shortfall))
    &&& (decision != BookingDecision::ReportSrOverflow ==> after.unbookable_sr_transfers
        == before.unbookable_sr_transfers && after.sr_overflows == before.sr_overflows)
}

impl<A: Copy> CreditEvaluation<A> {
    /// An evaluation in which nothing happened yet.
    pub fn new() -> (evaluation: Self)
        ensures
            evaluation.booked_subscriptions@.len() == 0,
            evaluation.unbookable_sr_transfers@.len() == 0,
            evaluation.sr_overflows@.len() == 0,
            !evaluation.hit_zero,
    {
        CreditEvaluation {
            booked_subscriptions: Vec::new(),
            unbookable_sr_transfers: Vec::new(),
            sr_overflows: Vec::new(),
            hit_zero: false,
        }
    }

    pub fn booked_subscriptions(&self) -> (booked: &[EvaluatedSubscription<A>])
        ensures
            booked@ == self.booked_subscriptions@,
    {
        self.booked_subscriptions.as_slice()
    }

    pub fn unbookable_sr_transfers(&self) -> (unbookable: &[UnbookableSrTransfer<A>])
        ensures
            unbookable@ == self.unbookable_sr_transfers@,
    {
        self.unbookable_sr_transfers.as_slice()
    }

    pub fn hit_zero(&self) -> (hit_zero: bool)
        ensures
            hit_zero == self.hit_zero,
    {
        self.hit_zero
    }

    pub fn set_hit_zero(&mut self, hit_zero: bool)
        ensures
            final(self).hit_zero == hit_zero,
            final(self).booked_subscriptions == old(self).booked_subscriptions,
            final(self).unbookable_sr_transfers == old(self).unbookable_sr_transfers,
            final(self).sr_overflows == old(self).sr_overflows,
    {
        self.hit_zero = hit_zero;
    }

    /// What the unbookable `Sr` subscriptions lacked, in order.
    pub fn sr_overflows(&self) -> (overflows: &[A])
        ensures
            overflows@ == self.sr_overflows@,
    {
        self.sr_overflows.as_slice()
    }

    /// Records how `subscription`, due `amount`, fares (see
    /// `booking_decision`) and returns the decision; `shortfall` is what the
    /// balance lacks to cover the amount, kept for a reported `Sr`
    /// subscription.
    pub fn record(&mut self, subscription: &Subscription<A>, amount: A, covered: bool, shortfall: A) -> (decision:
        BookingDecision)
        ensures
            decision == booking_decision_spec(subscription.subscription_type, covered),
            records_decision(*old(self), *final(self), *subscription, amount, decision, shortfall),
    {
        let decision = booking_decision(subscription.subscription_type, covered);
        match decision {
            BookingDecision::Book => {
                self.booked_subscriptions.push(EvaluatedSubscription::from_subscription(subscription, amount));
                proof {
                    assert(self.booked_subscriptions@.drop_last() =~= old(self).booked_subscriptions@);
                }
            },
            BookingDecision::ReportSrOverflow => {
                self.unbookable_sr_transfers.push(UnbookableSrTransfer::new(subscription.receiver.clone(), amount));
                self.sr_overflows.push(shortfall);
                proof {
                    assert(self.unbookable_sr_transfers@.drop_last() =~= old(self).unbookable_sr_transfers@);
                }
            },
            BookingDecision::Skip => {},
        }
        decision
    }
}

/// The positions `at` are strictly increasing.
pub open spec fn increasing(at: Seq<int>) -> bool {
    forall|i: int, j: int| 0 <= i < j < at.len() ==> #[trigger] at[i] < #[trigger] at[j]
}

/// The evaluation of a credit's subscriptions `subs` in progress: the
/// booking order, how many subscriptions of it have been decided, and what
/// was recorded so far. `booked_at` and `reported_at` give, for each booked
/// and each reported subscription, its position in the booking order.
pub struct EvaluationRun<A> {
    pub order: Vec<usize>,
    pub position: usize,
    pub evaluation: CreditEvaluation<A>,
    pub booked_at: Ghost<Seq<int>>,
    pub reported_at: Ghost<Seq<int>>,
}

impl<A: Copy> EvaluationRun<A> {
    /// The subscriptions are decided in booking order, one after the other;
    /// each booked or reported one is recorded once, in the order decided.
    pub open spec fn wf(&self, subs: Seq<Subscription<A>>) -> bool {
        let order = self.order@;
        let booked = self.evaluation.booked_subscriptions@;
        let reported = self.evaluation.unbookable_sr_transfers@;
        &&& is_booking_order(subs, order)
        &&& self.position <= order.len()
        &&& !self.evaluation.hit_zero
        &&& self.booked_at@.len() == booked.len()
        &&& increasing(self.booked_at@)
        &&& forall|k: int|
            0 <= k < booked.len() ==> 0 <= #[trigger] self.booked_at@[k] < self.position && books(
                booked[k],
                subs[order[self.booked_at@[k]] as int],
                booked[k].amount,
            )
        &&& self.reported_at@.len() == reported.len()
        &&& self.evaluation.sr_overflows@.len() == reported.len()
        &&& increasing(self.reported_at@)
        &&& forall|k: int|
            0 <= k < reported.len() ==> 0 <= #[trigger] self.reported_at@[k] < self.position && {
                let sub = subs[order[self.reported_at@[k]] as int];
                &&& sub.subscription_type == SubscriptionType::Sr
                &&& reported[k].receiver@ == sub.receiver@
            }
    }

    /// Starts evaluating `subscriptions`: nothing is decided yet.
    pub fn start(subscriptions: &Vec<Subscription<A>>) -> (run: Self)
        ensures
            run.wf(subscriptions@),
            run.position == 0,
            run.evaluation.booked_subscriptions@.len() == 0,
            run.evaluation.unbookable_sr_transfers@.len() == 0,
            run.evaluation.sr_overflows@.len() == 0,
    {
        EvaluationRun {
            order: booking_order(subscriptions),
            position: 0,
            evaluation: CreditEvaluation::new(),
            booked_at: Ghost(Seq::empty()),
            reported_at: Ghost(Seq::empty()),
        }
    }

    /// The index of the next subscription to decide, in booking order, or
    /// `None` when all are decided.
    pub fn next_index(&self, subscriptions: &Vec<Subscription<A>>) -> (next: Option<usize>)
        requires
            self.wf(subscriptions@),
        ensures
            next == (if self.position < self.order@.len() {
                Some(self.order@[self.position as int])
            } else {
                None::<usize>
            }),
            next matches Some(i) ==> i < subscriptions@.len(),
    {
        if self.position < self.order.len() {
            Some(self.order[self.position])
        } else {
            None
        }
    }

    /// Records the decision on the next subscription, due `amount`, where
    /// `covered` tells whether the balance covers it and `shortfall` is
    /// what the balance lacks (see `CreditEvaluation::record`).
    pub fn record(&mut self, subscriptions: &Vec<Subscription<A>>, amount: A, covered: bool, shortfall: A) -> (decision:
        BookingDecision)
        requires
            old(self).wf(subscriptions@),
            old(self).position < old(self).order@.len(),
        ensures
            final(self).wf(subscriptions@),
            final(self).order == old(self).order,
            final(self).position == old(self).position + 1,
            decision == booking_decision_spec(
                subscriptions@[old(self).order@[old(self).position as int] as int].subscription_type,
                covered,
            ),
            records_decision(
                old(self).evaluation,
                final(self).evaluation,
                subscriptions@[old(self).order@[old(self).position as int] as int],
                amount,
                decision,
                shortfall,
            ),
    {
        let ghost subs = subscriptions@;
        let ghost before = self.evaluation;
        let ghost p = self.position as int;
        let n = self.order.len();
        let pos = self.position;
        let index = self.order[pos];
        proof {
            assert(index < subs.len());
            assert(pos < n);
        }
        let decision = self.evaluation.record(&subscriptions[index], amount, covered, shortfall);
        if decision == BookingDecision::Book {
            self.booked_at = Ghost(self.booked_at@.push(p));
        }
        if decision == BookingDecision::ReportSrOverflow {
            self.reported_at = Ghost(self.reported_at@.push(p));
        }
        self.position = pos + 1;
        proof {
            let booked = self.evaluation.booked_subscriptions@;
            let reported = self.evaluation.unbookable_sr_transfers@;
            assert forall|k: int|
                0 <= k < booked.len() implies 0 <= #[trigger] self.booked_at@[k] < self.position && books(
                booked[k],
                subs[self.order@[self.booked_at@[k]] as int],
                booked[k].amount,
            ) by {
                if decision == BookingDecision::Book && k == booked.len() - 1 {
                } else {
                    assert(booked[k] == before.booked_subscriptions@[k]);
                }
            }
            assert forall|k: int|
                0 <= k < reported.len() implies 0 <= #[trigger] self.reported_at@[k] < self.position && {
                let sub = subs[self.order@[self.reported_at@[k]] as int];
                &&& sub.subscription_type == SubscriptionType::Sr
                &&& reported[k].receiver@ == sub.receiver@
            } by {
                if decision == BookingDecision::ReportSrOverflow && k == reported.len() - 1 {
                } else {
                    assert(reported[k] == before.unbookable_sr_transfers@[k]);
                }
            }
        }
        decision
    }

    /// Ends the run once every subscription is decided; `hit_zero` tells
    /// whether the balance fell to zero.
    pub fn finish(self, subscriptions: &Vec<Subscription<A>>, hit_zero: bool) -> (evaluation: CreditEvaluation<A>)
        requires
            self.wf(subscriptions@),
            self.position == self.order@.len(),
        ensures
            evaluation.hit_zero == hit_zero,
            evaluation.booked_subscriptions == self.evaluation.booked_subscriptions,
            evaluation.unbookable_sr_transfers == self.evaluation.unbookable_sr_transfers,
            evaluation.sr_overflows == self.evaluation.sr_overflows,
            booked_in_order(subscriptions@, evaluation.booked_subscriptions@),
            reported_in_order(subscriptions@, evaluation.unbookable_sr_transfers@),
    {
        let mut evaluation = self.evaluation;
        evaluation.set_hit_zero(hit_zero);
        proof {
            assert(is_booking_order(subscriptions@, self.order@) && self.booked_at@.len()
                == evaluation.booked_subscriptions@.len() && increasing(self.booked_at@));
            assert(is_booking_order(subscriptions@, self.order@) && self.reported_at@.len()
                == evaluation.unbookable_sr_transfers@.len() && increasing(self.reported_at@));
        }
        evaluation
    }
}

/// The subscriptions `booked` were booked from `subs` in booking order:
/// each is the booked form of a different subscription, and they follow
/// the booking order.
pub open spec fn booked_in_order<A>(subs: Seq<Subscription<A>>, booked: Seq<EvaluatedSubscription<A>>) -> bool {
    exists|order: Seq<usize>, at: Seq<int>|
        #![trigger is_booking_order(subs, order), increasing(at)]
        {
            &&& is_booking_order(subs, order)
            &&& at.len() == booked.len()
            &&& increasing(at)
            &&& forall|k: int|
                0 <= k < booked.len() ==> 0 <= #[trigger] at[k] < order.len() && books(
                    booked[k],
                    subs[order[at[k]] as int],
                    booked[k].amount,
                )
        }
}

/// The transfers `reported` were reported for different `Sr`
/// subscriptions of `subs`, in booking order.
pub open spec fn reported_in_order<A>(subs: Seq<Subscription<A>>, reported: Seq<UnbookableSrTransfer<A>>) -> bool {
    exists|order: Seq<usize>, at: Seq<int>|
        #![trigger is_booking_order(subs, order), increasing(at)]
        {
            &&& is_booking_order(subs, order)
            &&& at.len() == reported.len()
            &&& increasing(at)
            &&& forall|k: int|
                0 <= k < reported.len() ==> 0 <= #[trigger] at[k] < order.len() && {
                    let sub = subs[order[at[k]] as int];
                    &&& sub.subscription_type == SubscriptionType::Sr
                    &&& reported[k].receiver@ == sub.receiver@
                }
        }
}

/// One amount booked to a receiver's credit: the money credit when
/// `resource` is `None`, else the credit of that resource.
pub struct IncomingAmount<A> {
    pub receiver: String,
    pub resource: Option<String>,
    pub amount: A,
}

/// The amounts booked during an hourly evaluation, in booking order,
/// waiting to be credited to their receivers.
pub struct IncomingAmounts<A> {
    pub entries: Vec<IncomingAmount<A>>,
}

/// The view of an optional resource name.
pub open spec fn resource_view(resource: Option<&str>) -> Option<Seq<char>> {
    match resource {
        Some(r) => Some(r@),
        None => None,
    }
}

/// The credit an entry is for (receiver, optional resource) and its amount.
pub open spec fn entry_view<A>(entry: IncomingAmount<A>) -> ((Seq<char>, Option<Seq<char>>), A) {
    (
        (
            entry.receiver@,
            match entry.resource {
                Some(r) => Some(r@),
                None => None,
            },
        ),
        entry.amount,
    )
}

impl<A> View for IncomingAmounts<A> {
    type V = Seq<((Seq<char>, Option<Seq<char>>), A)>;

    open spec fn view(&self) -> Seq<((Seq<char>, Option<Seq<char>>), A)> {
        self.entries@.map_values(|e: IncomingAmount<A>| entry_view(e))
    }
}

/// The entry is for the credit `key`.
pub open spec fn for_key<A>(key: (Seq<char>, Option<Seq<char>>)) -> spec_fn(
    ((Seq<char>, Option<Seq<char>>), A),
) -> bool {
    |e: ((Seq<char>, Option<Seq<char>>), A)| e.0 == key
}

/// The entry is for another credit than `key`.
pub open spec fn not_for_key<A>(key: (Seq<char>, Option<Seq<char>>)) -> spec_fn(
    ((Seq<char>, Option<Seq<char>>), A),
) -> bool {
    |e: ((Seq<char>, Option<Seq<char>>), A)| e.0 != key
}

/// The amounts in `entries` for the credit `key`, in order.
pub open spec fn amounts_for<A>(entries: Seq<((Seq<char>, Option<Seq<char>>), A)>, key: (Seq<char>, Option<Seq<char>>)) -> Seq<A> {
    entries.filter(for_key(key)).map_values(|e: ((Seq<char>, Option<Seq<char>>), A)| e.1)
}

/// The entries for the subscriptions that `evaluation` booked, for the
/// money credit (`resource` is `None`) or the named resource.
pub open spec fn booked_entries<A>(evaluation: CreditEvaluation<A>, resource: Option<Seq<char>>) -> Seq<
    ((Seq<char>, Option<Seq<char>>), A),
> {
    evaluation.booked_subscriptions@.map_values(
        |b: EvaluatedSubscription<A>| ((b.receiver@, resource), b.amount),
    )
}

/// Filtering out one key leaves no entry for it and leaves the entries for
/// every other key as they were.
pub proof fn lemma_filter_other_key<A>(
    entries: Seq<((Seq<char>, Option<Seq<char>>), A)>,
    key: (Seq<char>, Option<Seq<char>>),
    other: (Seq<char>, Option<Seq<char>>),
)
    requires
        other != key,
    ensures
        entries.filter(not_for_key(key)).filter(for_key(key)).len() == 0,
        entries.filter(not_for_key(key)).filter(for_key(other)) == entries.filter(for_key(other)),
    decreases entries.len(),
{
    reveal_with_fuel(Seq::filter, 1);
    if entries.len() > 0 {
        lemma_filter_other_key(entries.drop_last(), key, other);
        let rest = entries.filter(not_for_key(key));
        if not_for_key::<A>(key)(entries.last()) {
            assert(rest.drop_last() =~= entries.drop_last().filter(not_for_key(key)));
            assert(rest.last() == entries.last());
        } else {
            assert(rest == entries.drop_last().filter(not_for_key(key)));
        }
    }
}

impl<A: Copy> IncomingAmounts<A> {
    pub fn new() -> (incoming: Self)
        ensures
            incoming@.len() == 0,
    {
        IncomingAmounts { entries: Vec::new() }
    }

    /// Records that `amount` is booked to the money credit of `receiver`.
    pub fn add_money(&mut self, receiver: &str, amount: A)
        ensures
            final(self)@ == old(self)@.push(((receiver@, None::<Seq<char>>), amount)),
    {
        self.entries.push(IncomingAmount { receiver: receiver.to_owned(), resource: None, amount });
        proof {
            assert(self@ =~= old(self)@.push(((receiver@, None::<Seq<char>>), amount)));
        }
    }

    /// Records that `amount` is booked to `receiver`'s credit of the
    /// resource `resource`.
    pub fn add_resource(&mut self, receiver: &str, resource: &str, amount: A)
        ensures
            final(self)@ == old(self)@.push(((receiver@, Some(resource@)), amount)),
    {
        self.entries.push(IncomingAmount { receiver: receiver.to_owned(), resource: Some(resource.to_owned()), amount });
        proof {
            assert(self@ =~= old(self)@.push(((receiver@, Some(resource@)), amount)));
        }
    }

    /// Records every subscription that `evaluation` booked, for the money
    /// credit (`resource` is `None`) or for the named resource.
    pub fn add_booked(&mut self, evaluation: &CreditEvaluation<A>, resource: Option<&str>)
        ensures
            final(self)@ == old(self)@ + booked_entries(*evaluation, resource_view(resource)),
    {
        let ghost start = old(self)@;
        for i in 0..evaluation.booked_subscriptions.len()
            invariant
                self@ =~= start + booked_entries(*evaluation, resource_view(resource)).take(i as int),
        {
            let booked = &evaluation.booked_subscriptions[i];
            match resource {
                Some(r) => self.add_resource(booked.receiver.as_str(), r, booked.amount),
                None => self.add_money(booked.receiver.as_str(), booked.amount),
            }
            proof {
                assert(booked_entries(*evaluation, resource_view(resource)).take(i + 1) =~= booked_entries(
                    *evaluation,
                    resource_view(resource),
                ).take(i as int).push(booked_entries(*evaluation, resource_view(resource))[i as int]));
            }
        }
        proof {
            let b = booked_entries(*evaluation, resource_view(resource));
            assert(b.take(b.len() as int) =~= b);
        }
    }

    /// Takes out the amounts waiting for the money credit of `receiver`
    /// (`resource` is `None`) or its credit of the named resource, in
    /// booking order; the other amounts stay, in their order.
    pub fn take(&mut self, receiver: &str, resource: Option<&str>) -> (amounts: Vec<A>)
        ensures
            amounts@ == amounts_for(old(self)@, (receiver@, resource_view(resource))),
            final(self)@ == old(self)@.filter(not_for_key((receiver@, resource_view(resource)))),
    {
        let ghost key = (receiver@, resource_view(resource));
        let ghost before = self@;
        let ghost matching = for_key::<A>(key);
        let ghost other = not_for_key::<A>(key);
        let mut amounts: Vec<A> = Vec::new();
        let mut rest: IncomingAmounts<A> = IncomingAmounts::new();
        for i in 0..self.entries.len()
            invariant
                self@ == before,
                matching == for_key::<A>(key),
                other == not_for_key::<A>(key),
                key == (receiver@, resource_view(resource)),
                amounts@ == before.take(i as int).filter(matching).map_values(
                    |e: ((Seq<char>, Option<Seq<char>>), A)| e.1,
                ),
                rest@ == before.take(i as int).filter(other),
        {
            let entry = &self.entries[i];
            let receiver_matches = text_equal(entry.receiver.as_str(), receiver);
            let resource_matches = match (&entry.resource, resource) {
                (Some(a), Some(b)) => text_equal(a.as_str(), b),
                (None, None) => true,
                _ => false,
            };
            proof {
                reveal_with_fuel(Seq::filter, 1);
                assert(before.take(i + 1).drop_last() =~= before.take(i as int));
                assert(before.take(i + 1).last() == before[i as int]);
                assert(before[i as int] == entry_view(*entry));
                assert((receiver_matches && resource_matches) == (entry_view(*entry).0 == key));
            }
            if receiver_matches && resource_matches {
                amounts.push(entry.amount);
                proof {
                    assert(before.take(i + 1).filter(matching) == before.take(i as int).filter(matching).push(
                        before[i as int],
                    ));
                    assert(amounts@ =~= before.take(i + 1).filter(matching).map_values(
                        |e: ((Seq<char>, Option<Seq<char>>), A)| e.1,
                    ));
                }
            } else {
                match &entry.resource {
                    Some(r) => rest.add_resource(entry.receiver.as_str(), r.as_str(), entry.amount),
                    None => rest.add_money(entry.receiver.as_str(), entry.amount),
                }
                proof {
                    assert(before.take(i + 1).filter(matching) == before.take(i as int).filter(matching));
                }
            }
        }
        proof {
            assert(before.take(before.len() as int) =~= before);
        }
        self.entries = rest.entries;
        amounts
    }
}

} // verus!
