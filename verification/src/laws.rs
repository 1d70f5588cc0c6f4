//! Properties of the exchange that hold across its operations.
use vstd::prelude::*;
use vstd::utf8::encode_utf8;

use crate::credit::{has_id, id_other_than, without_id, Credit};
use crate::daily::{closed_count, user_day_closed, DayAverages};
use crate::directory::{concerns, holds_subscription, listed_subscriptions, sender_pairs};
use crate::evaluation::{
    booked_entries,
    booking_decision_spec, BookingDecision,
    CreditEvaluation,
    amounts_for, booked_in_order, books, for_key, increasing, lemma_filter_other_key, not_for_key,
    EvaluatedSubscription,
};
use crate::object_id::{is_lower_object_id_text, is_object_id_text, lemma_lower_text_round_trip};
use crate::hourly::{
    booked_count, resource_entries, user_entries,
    blackout_ids,
    overflow_pairs, overflows_of, resource_overflows,
    all_entries, delivered, effective, evaluated_count, holds_booked, holds_credit, opened_from, settles_user, taken_before, UserEvaluation,
    UserIncoming,
};
use crate::record::{
    reads_credit, reads_subscription, stores_credit, stores_subscription, CreditRecord, SubscriptionRecord,
};
use crate::subscription::{booked_before, is_booking_order, type_rank, Subscription, SubscriptionType};
use crate::user::{User, UserType};

verus! {

/// In booking order every `Sr` subscription comes before every `Contract`
/// subscription, and among subscriptions of one type a higher priority
/// comes first.
pub proof fn law_sr_before_contract_and_priority<A>(subs: Seq<Subscription<A>>, order: Seq<usize>)
    requires
        is_booking_order(subs, order),
    ensures
        forall|i: int, j: int|
            0 <= i < j < order.len() && (#[trigger] subs[order[j] as int]).subscription_type
                == SubscriptionType::Sr ==> (#[trigger] subs[order[i] as int]).subscription_type
                == SubscriptionType::Sr,
        forall|i: int, j: int|
            0 <= i < j < order.len() && (#[trigger] subs[order[i] as int]).subscription_type == (#[trigger] subs[order[j] as int]).subscription_type
                ==> subs[order[i] as int].priority >= subs[order[j] as int].priority,
{
    assert forall|i: int, j: int|
        0 <= i < j < order.len() && (#[trigger] subs[order[j] as int]).subscription_type == SubscriptionType::Sr
            implies (#[trigger] subs[order[i] as int]).subscription_type == SubscriptionType::Sr by {
        assert(type_rank(subs[order[j] as int].subscription_type) == 0);
    }
}

/// After removing the subscriptions with an id, none with that id is left,
/// every subscription with another id is kept, and nothing is added.
/// Removing an id no subscription has changes nothing.
pub proof fn law_removal_drops_exactly_the_id<A>(subs: Seq<Subscription<A>>, id: Seq<char>)
    ensures
        !has_id(without_id(subs, id), id),
        forall|i: int|
            0 <= i < subs.len() && (#[trigger] subs[i]).id@ != id ==> without_id(subs, id).contains(
                subs[i],
            ),
        forall|i: int|
            0 <= i < without_id(subs, id).len() ==> subs.contains(#[trigger] without_id(subs, id)[i]),
        without_id(subs, id).len() <= subs.len(),
        !has_id(subs, id) ==> without_id(subs, id) == subs,
{
    let pred = id_other_than::<A>(id);
    let kept = without_id(subs, id);
    assert forall|i: int| 0 <= i < kept.len() implies (#[trigger] kept[i]).id@ != id by {
        subs.lemma_filter_pred(pred, i);
    }
    assert forall|i: int| 0 <= i < subs.len() && (#[trigger] subs[i]).id@ != id implies kept.contains(subs[i]) by {
        subs.lemma_filter_contains(pred, i);
    }
    assert forall|i: int| 0 <= i < kept.len() implies subs.contains(#[trigger] kept[i]) by {
        assert(kept.contains(kept[i]));
        subs.lemma_filter_contains_rev(pred, kept[i]);
    }
    subs.lemma_filter_len(pred);
    if !has_id(subs, id) {
        crate::credit::lemma_without_absent_id(subs, id);
    }
}

/// Every listed subscription is paid or received by the user asked about
/// and passes the filters; every subscription of any user that does so is
/// listed.
pub proof fn law_listed_subscriptions_concern_the_user<A>(
    users: Seq<User<A>>,
    user_id: Seq<char>,
    sender_filter: Option<Seq<char>>,
    receiver_filter: Option<Seq<char>>,
)
    ensures
        forall|i: int|
            0 <= i < listed_subscriptions(users, user_id, sender_filter, receiver_filter).len()
                ==> concerns(
                #[trigger] listed_subscriptions(users, user_id, sender_filter, receiver_filter)[i],
                user_id,
                sender_filter,
                receiver_filter,
            ),
        forall|i: int|
            0 <= i < sender_pairs(users).len() && concerns(
                #[trigger] sender_pairs(users)[i],
                user_id,
                sender_filter,
                receiver_filter,
            ) ==> listed_subscriptions(users, user_id, sender_filter, receiver_filter).contains(
                sender_pairs(users)[i],
            ),
{
    let pred = |p: (Seq<char>, Subscription<A>)| concerns(p, user_id, sender_filter, receiver_filter);
    let pairs = sender_pairs(users);
    assert forall|i: int| 0 <= i < pairs.filter(pred).len() implies pred(#[trigger] pairs.filter(pred)[i]) by {
        pairs.lemma_filter_pred(pred, i);
    }
    assert forall|i: int| 0 <= i < pairs.len() && pred(#[trigger] pairs[i]) implies pairs.filter(pred).contains(pairs[i]) by {
        pairs.lemma_filter_contains(pred, i);
    }
}

/// Taking out the amounts for one credit leaves none for it and leaves the
/// amounts for every other credit as they were.
pub proof fn law_taken_amounts_are_gone<A>(
    entries: Seq<((Seq<char>, Option<Seq<char>>), A)>,
    key: (Seq<char>, Option<Seq<char>>),
    other: (Seq<char>, Option<Seq<char>>),
)
    requires
        other != key,
    ensures
        amounts_for(entries.filter(not_for_key(key)), key).len() == 0,
        amounts_for(entries.filter(not_for_key(key)), other) == amounts_for(entries, other),
{
    lemma_filter_other_key(entries, key, other);
}

/// Removing the id of a subscription just added, when no subscription held
/// before has that id, gives back the subscriptions held before.
pub proof fn law_remove_undoes_add<A>(subs: Seq<Subscription<A>>, added: Subscription<A>)
    requires
        !has_id(subs, added.id@),
    ensures
        without_id(subs.push(added), added.id@) == subs,
{
    let pred = id_other_than::<A>(added.id@);
    subs.lemma_filter_push(added, pred);
    crate::credit::lemma_without_absent_id(subs, added.id@);
}

/// Reading back a stored credit, with the subscriptions its record names
/// looked up, gives a credit equivalent to the one stored; the record names
/// those subscriptions by id, in order.
pub proof fn law_stored_credit_reads_back<A>(credit: Credit<A>, record: CreditRecord<A>, back: Credit<A>)
    requires
        stores_credit(record, credit),
        reads_credit(record, credit.subscriptions@, back),
    ensures
        back.equivalent(&credit),
        forall|i: int|
            0 <= i < record.subscription_ids@.len() ==> (#[trigger] record.subscription_ids@[i])@
                == back.subscriptions@[i].id@,
{
}

/// Of the subscriptions an evaluation books, every `Sr` subscription comes
/// before every `Contract` subscription, and among subscriptions of one
/// type a higher priority comes first.
pub proof fn law_evaluation_books_sr_first_then_priority<A>(
    subs: Seq<Subscription<A>>,
    booked: Seq<EvaluatedSubscription<A>>,
)
    requires
        booked_in_order(subs, booked),
    ensures
        forall|k: int, l: int|
            0 <= k < l < booked.len() && (#[trigger] booked[l]).subscription_type == SubscriptionType::Sr
                ==> (#[trigger] booked[k]).subscription_type == SubscriptionType::Sr,
        forall|k: int, l: int|
            0 <= k < l < booked.len() && (#[trigger] booked[k]).subscription_type == (#[trigger] booked[l]).subscription_type
                ==> booked[k].priority >= booked[l].priority,
{
    let (order, at) = choose|order: Seq<usize>, at: Seq<int>|
        #![trigger is_booking_order(subs, order), increasing(at)]
        {
            &&& is_booking_order(subs, order)
            &&& at.len() == booked.len()
            &&& increasing(at)
            &&& forall|k: int|
                0 <= k < booked.len() ==> 0 <= #[trigger] at[k] < order.len() && books(
                    booked[k],
                    subs[order[at[k]] as int],
                    booked[k].amount,
                )
        };
    assert forall|k: int, l: int| #![trigger booked[k], booked[l]] 0 <= k < l < booked.len() implies {
        let a = subs[order[at[k]] as int];
        let b = subs[order[at[l]] as int];
        &&& type_rank(a.subscription_type) <= type_rank(b.subscription_type)
        &&& (a.subscription_type == b.subscription_type ==> a.priority >= b.priority)
        &&& booked[k].subscription_type == a.subscription_type && booked[k].priority == a.priority
        &&& booked[l].subscription_type == b.subscription_type && booked[l].priority == b.priority
    } by {
        assert(at[k] < at[l]);
        assert(!booked_before(subs[order[at[l]] as int], subs[order[at[k]] as int]));
    }
    assert forall|k: int, l: int|
        0 <= k < l < booked.len() && (#[trigger] booked[l]).subscription_type == SubscriptionType::Sr
            implies (#[trigger] booked[k]).subscription_type == SubscriptionType::Sr by {
        let a = subs[order[at[k]] as int];
        let b = subs[order[at[l]] as int];
        assert(type_rank(a.subscription_type) <= type_rank(b.subscription_type));
    }
}

/// A subscription whose id is written in lower-case hexadecimal, as the
/// id of every subscription the exchange creates is, can be stored, and
/// reading the stored form back gives the same subscription.
pub proof fn law_stored_subscription_reads_back<A>(
    subscription: Subscription<A>,
    record: SubscriptionRecord<A>,
    back: Subscription<A>,
)
    requires
        is_lower_object_id_text(subscription.id@),
        stores_subscription(record, subscription),
        reads_subscription(record, back),
    ensures
        is_object_id_text(encode_utf8(subscription.id@)),
        back.id@ == subscription.id@,
        back.receiver@ == subscription.receiver@,
        back.value == subscription.value,
        back.subscription_type == subscription.subscription_type,
        back.priority == subscription.priority,
        back.credit_type@ == subscription.credit_type@,
{
    lemma_lower_text_round_trip(subscription.id@);
}

/// The first user holding the credit `key` among the first `n` users.
proof fn first_holder<A>(users: Seq<User<A>>, key: (Seq<char>, Option<Seq<char>>), n: int) -> (i: int)
    requires
        0 <= n <= users.len(),
        exists|j: int| 0 <= j < n && holds_credit(#[trigger] users[j], key),
    ensures
        0 <= i < n,
        holds_credit(users[i], key),
        forall|j: int| 0 <= j < i ==> !holds_credit(#[trigger] users[j], key),
    decreases n,
{
    if exists|j: int| 0 <= j < n - 1 && holds_credit(#[trigger] users[j], key) {
        first_holder(users, key, n - 1)
    } else {
        let j = choose|j: int| 0 <= j < n && holds_credit(#[trigger] users[j], key);
        assert(j == n - 1);
        n - 1
    }
}

/// Every amount an hourly settlement hands out reaches exactly one credit:
/// of the users holding the credit `key`, the first receives every amount
/// booked to it, in booking order, and every other one receives none.
pub proof fn law_booked_amounts_reach_one_credit<A>(
    users: Seq<User<A>>,
    evals: Seq<Option<UserEvaluation<A>>>,
    incoming: Seq<UserIncoming<A>>,
    key: (Seq<char>, Option<Seq<char>>),
)
    requires
        incoming.len() == users.len(),
        forall|i: int| 0 <= i < users.len() ==> (#[trigger] users[i]).wf(),
        forall|i: int| 0 <= i < users.len() ==> settles_user(users, evals, i, #[trigger] incoming[i]),
        exists|j: int| 0 <= j < users.len() && holds_credit(#[trigger] users[j], key),
    ensures
        exists|i: int|
            0 <= i < users.len() && holds_credit(#[trigger] users[i], key) && delivered(users, incoming, i, key)
                == amounts_for(all_entries(evals), key) && forall|j: int|
                0 <= j < users.len() && j != i && holds_credit(#[trigger] users[j], key) ==> delivered(
                    users,
                    incoming,
                    j,
                    key,
                ).len() == 0,
{
    let i = first_holder(users, key, users.len() as int);
    assert(!taken_before(users, i, key));
    lemma_delivered_is_due(users, evals, incoming, i, key);
    assert forall|j: int|
        0 <= j < users.len() && j != i && holds_credit(#[trigger] users[j], key) implies delivered(
            users,
            incoming,
            j,
            key,
        ).len() == 0 by {
        assert(j > i);
        assert(taken_before(users, j, key));
        lemma_delivered_is_due(users, evals, incoming, j, key);
    }
}

/// What a user holding the credit `key` receives for it is what is due
/// to it.
proof fn lemma_delivered_is_due<A>(
    users: Seq<User<A>>,
    evals: Seq<Option<UserEvaluation<A>>>,
    incoming: Seq<UserIncoming<A>>,
    i: int,
    key: (Seq<char>, Option<Seq<char>>),
)
    requires
        0 <= i < users.len(),
        incoming.len() == users.len(),
        users[i].wf(),
        settles_user(users, evals, i, incoming[i]),
        holds_credit(users[i], key),
    ensures
        delivered(users, incoming, i, key) == crate::hourly::due(users, evals, i, key),
{
    let id = users[i].id_spec();
    match key.1 {
        None => {},
        Some(name) => {
            let r = users[i].resources_spec()->0;
            let m = choose|m: int|
                0 <= m < crate::hourly::resource_entries_of(users[i]).len() && key == (id, Some(
                    #[trigger] crate::hourly::resource_entries_of(users[i])[m].0@,
                ));
            assert(users[i].resources_spec() is Some);
            assert(r.entries@[m].0@ == name);
            let k = r.position(name)->0;
            assert(0 <= k < r.entries@.len() && r.entries@[k].0@ == name);
            assert(incoming[i].resources@[k]@ == crate::hourly::due(users, evals, i, (id, Some(r.entries@[k].0@))));
        },
    }
}

/// After an hourly settlement, a user with the receiver's id holds the
/// credit of every booked amount: its money credit, and, when it holds
/// resource credits, the resource credit of the booked resource.
pub proof fn law_receivers_hold_booked_credits<A>(
    before: Seq<User<A>>,
    after: Seq<User<A>>,
    entries: Seq<((Seq<char>, Option<Seq<char>>), A)>,
    zero: A,
    t: int,
    j: int,
)
    requires
        after.len() == before.len(),
        forall|i: int| 0 <= i < before.len() ==> opened_from(before[i], #[trigger] after[i], entries, zero),
        forall|i: int| 0 <= i < before.len() ==> holds_booked(#[trigger] after[i], entries, entries.len() as int),
        0 <= t < entries.len(),
        0 <= j < before.len(),
        entries[t].0.0 == before[j].id_spec(),
        entries[t].0.1 is None || before[j].resources_spec() is Some,
    ensures
        holds_credit(after[j], entries[t].0),
{
    assert(opened_from(before[j], after[j], entries, zero));
    assert(holds_booked(after[j], entries, entries.len() as int));
    let key = entries[t].0;
    if before[j].resources_spec() is Some {
        let ra = after[j].resources_spec()->0;
        assert(after[j].id_spec() == before[j].id_spec());
        if key.1 is Some {
            let name = key.1->0;
            assert(ra.position(name) is Some);
            let k = ra.position(name)->0;
            assert(0 <= k < ra.entries@.len() && ra.entries@[k].0@ == name);
            assert(crate::hourly::resource_entries_of(after[j])[k].0@ == name);
        }
    }
}

/// A subscription of the resource credits `entries` with id `id` lies in
/// one of those credits.
proof fn lemma_resource_subscription_in_credit<A>(entries: Seq<(String, Credit<A>)>, id: Seq<char>)
    requires
        has_id(crate::user::resource_subscriptions(entries), id),
    ensures
        exists|k: int| 0 <= k < entries.len() && has_id((#[trigger] entries[k]).1.subscriptions@, id),
    decreases entries.len(),
{
    let all = crate::user::resource_subscriptions(entries);
    let i = choose|i: int| 0 <= i < all.len() && (#[trigger] all[i]).id@ == id;
    let front = crate::user::resource_subscriptions(entries.drop_last());
    let last = entries.last().1.subscriptions@;
    assert(all == front + last);
    if i < front.len() {
        assert(front[i] == all[i]);
        lemma_resource_subscription_in_credit(entries.drop_last(), id);
        let k = choose|k: int|
            0 <= k < entries.drop_last().len() && has_id((#[trigger] entries.drop_last()[k]).1.subscriptions@, id);
        assert(entries.drop_last()[k] == entries[k]);
    } else {
        assert(last[i - front.len()] == all[i]);
        assert(has_id(entries[entries.len() - 1].1.subscriptions@, id));
    }
}

/// A user whose subscriptions include one of id `id` holds it in a credit.
proof fn lemma_listed_id_is_held<A>(user: User<A>, id: Seq<char>)
    requires
        has_id(user.all_subscriptions(), id),
    ensures
        holds_subscription(user, id),
{
    let money = user.credit_spec().subscriptions@;
    let rest = match user.resources_spec() {
        Some(r) => crate::user::resource_subscriptions(r.entries@),
        None => Seq::empty(),
    };
    let all = user.all_subscriptions();
    assert(all == money + rest);
    let i = choose|i: int| 0 <= i < all.len() && (#[trigger] all[i]).id@ == id;
    if i < money.len() {
        assert(money[i] == all[i]);
    } else {
        assert(rest[i - money.len()] == all[i]);
        assert(has_id(rest, id));
        if user.resources_spec() is Some {
            lemma_resource_subscription_in_credit(user.resources_spec()->0.entries@, id);
        }
    }
}

/// Each pair of `sender_pairs(users)` is a subscription of one of the
/// users, paired with that user's id.
proof fn lemma_sender_pair_source<A>(users: Seq<User<A>>, p: int)
    requires
        0 <= p < sender_pairs(users).len(),
    ensures
        exists|j: int|
            0 <= j < users.len() && #[trigger] users[j].id_spec() == sender_pairs(users)[p].0 && has_id(
                users[j].all_subscriptions(),
                sender_pairs(users)[p].1.id@,
            ),
    decreases users.len(),
{
    let front = sender_pairs(users.drop_last());
    let u = users.last();
    let last = u.all_subscriptions().map_values(|s: Subscription<A>| (u.id_spec(), s));
    assert(sender_pairs(users) == front + last);
    if p < front.len() {
        assert(front[p] == sender_pairs(users)[p]);
        lemma_sender_pair_source(users.drop_last(), p);
        let j = choose|j: int|
            0 <= j < users.drop_last().len() && #[trigger] users.drop_last()[j].id_spec() == front[p].0 && has_id(
                users.drop_last()[j].all_subscriptions(),
                front[p].1.id@,
            );
        assert(users.drop_last()[j] == users[j]);
    } else {
        let q = p - front.len();
        assert(last[q] == sender_pairs(users)[p]);
        assert(u.all_subscriptions()[q].id@ == sender_pairs(users)[p].1.id@);
        assert(users[users.len() - 1] == u);
    }
}

/// Once a subscription is deleted from the only user holding it, listing
/// the subscriptions of any user shows none with its id.
pub proof fn law_deleted_subscription_is_not_listed<A>(
    users: Seq<User<A>>,
    owner: int,
    after: User<A>,
    id: Seq<char>,
    user_id: Seq<char>,
    sender_filter: Option<Seq<char>>,
    receiver_filter: Option<Seq<char>>,
)
    requires
        0 <= owner < users.len(),
        !holds_subscription(after, id),
        forall|j: int| 0 <= j < users.len() && j != owner ==> !holds_subscription(#[trigger] users[j], id),
    ensures
        forall|p: int|
            0 <= p < listed_subscriptions(users.update(owner, after), user_id, sender_filter, receiver_filter).len()
                ==> (#[trigger] listed_subscriptions(
                users.update(owner, after),
                user_id,
                sender_filter,
                receiver_filter,
            )[p]).1.id@ != id,
{
    let us = users.update(owner, after);
    let pred = |q: (Seq<char>, Subscription<A>)| concerns(q, user_id, sender_filter, receiver_filter);
    let listed = listed_subscriptions(us, user_id, sender_filter, receiver_filter);
    assert(listed == sender_pairs(us).filter(pred));
    assert forall|p: int| 0 <= p < listed.len() implies (#[trigger] listed[p]).1.id@ != id by {
        assert(listed.contains(listed[p]));
        sender_pairs(us).lemma_filter_contains_rev(pred, listed[p]);
        let q = choose|q: int| 0 <= q < sender_pairs(us).len() && sender_pairs(us)[q] == listed[p];
        lemma_sender_pair_source(us, q);
        let j = choose|j: int|
            0 <= j < us.len() && #[trigger] us[j].id_spec() == sender_pairs(us)[q].0 && has_id(
                us[j].all_subscriptions(),
                sender_pairs(us)[q].1.id@,
            );
        if listed[p].1.id@ == id {
            lemma_listed_id_is_held(us[j], id);
        }
    }
}

/// The users that are not units.
pub open spec fn non_units<A>(users: Seq<User<A>>) -> Seq<User<A>> {
    users.filter(|u: User<A>| u.user_type_spec() != UserType::Unit)
}

/// When every user but the units has an evaluation, an hourly settlement
/// counts exactly the users that are not units as evaluated.
pub proof fn law_evaluated_users_are_the_non_units<A>(users: Seq<User<A>>, evals: Seq<Option<UserEvaluation<A>>>)
    requires
        users.len() == evals.len(),
        forall|i: int| 0 <= i < users.len() && (#[trigger] users[i]).user_type_spec() != UserType::Unit ==> evals[i] is Some,
    ensures
        evaluated_count(effective(users, evals)) == non_units(users).len(),
    decreases users.len(),
{
    if users.len() > 0 {
        let front = users.drop_last();
        let front_evals = evals.drop_last();
        assert forall|i: int| 0 <= i < front.len() && (#[trigger] front[i]).user_type_spec() != UserType::Unit implies front_evals[i] is Some by {
            assert(front[i] == users[i]);
        }
        law_evaluated_users_are_the_non_units(front, front_evals);
        let eff = effective(users, evals);
        assert(eff.drop_last() =~= effective(front, front_evals));
        assert(users =~= front.push(users.last()));
        front.lemma_filter_push(users.last(), |u: User<A>| u.user_type_spec() != UserType::Unit);
        assert(eff.last() == (if users.last().user_type_spec() == UserType::Unit { None } else { evals.last() }));
        assert(users.last() == users[users.len() - 1]);
    } else {
        assert(non_units(users) =~= Seq::<User<A>>::empty()) by {
            reveal_with_fuel(Seq::filter, 1);
        }
    }
}

/// `x` comes before `y` in plain lexicographic byte order: at the first
/// position where they differ `x` has the smaller byte, or `x` is a proper
/// prefix of `y`.
pub open spec fn lexicographically_before(x: Seq<u8>, y: Seq<u8>) -> bool {
    exists|i: int|
        0 <= i <= x.len() && i <= y.len() && #[trigger] x.take(i) == y.take(i) && ((i == x.len() && i < y.len()) || (
        i < x.len() && i < y.len() && x[i] < y[i]))
}

proof fn lemma_bytes_lt_is_lexicographic(x: Seq<u8>, y: Seq<u8>)
    ensures
        crate::ordering::bytes_lt(x, y) == lexicographically_before(x, y),
    decreases x.len(),
{
    if x.len() == 0 {
        if y.len() > 0 {
            assert(x.take(0) =~= y.take(0));
        }
    } else if y.len() == 0 {
    } else if x[0] != y[0] {
        if x[0] < y[0] {
            assert(x.take(0) =~= y.take(0));
        }
        if lexicographically_before(x, y) {
            let i = choose|i: int|
                0 <= i <= x.len() && i <= y.len() && #[trigger] x.take(i) == y.take(i) && ((i == x.len() && i
                    < y.len()) || (i < x.len() && i < y.len() && x[i] < y[i]));
            if i > 0 {
                assert(x.take(i)[0] == y.take(i)[0]);
            }
        }
    } else {
        let xs = x.drop_first();
        let ys = y.drop_first();
        lemma_bytes_lt_is_lexicographic(xs, ys);
        if lexicographically_before(xs, ys) {
            let i = choose|i: int|
                0 <= i <= xs.len() && i <= ys.len() && #[trigger] xs.take(i) == ys.take(i) && ((i == xs.len() && i
                    < ys.len()) || (i < xs.len() && i < ys.len() && xs[i] < ys[i]));
            assert(x.take(i + 1) =~= seq![x[0]] + xs.take(i));
            assert(y.take(i + 1) =~= seq![y[0]] + ys.take(i));
            assert(x.take(i + 1) == y.take(i + 1));
        }
        if lexicographically_before(x, y) {
            let i = choose|i: int|
                0 <= i <= x.len() && i <= y.len() && #[trigger] x.take(i) == y.take(i) && ((i == x.len() && i
                    < y.len()) || (i < x.len() && i < y.len() && x[i] < y[i]));
            assert(i > 0);
            assert(xs.take(i - 1) =~= x.take(i).drop_first());
            assert(ys.take(i - 1) =~= y.take(i).drop_first());
            assert(xs.take(i - 1) == ys.take(i - 1));
        }
    }
}

/// Among subscriptions of one type and one priority, the one whose id comes
/// first in plain lexicographic order on the id's UTF-8 bytes is booked
/// first; the booking order visits such subscriptions in that order.
pub proof fn law_equal_keys_booked_by_id_bytes<A>(subs: Seq<Subscription<A>>, order: Seq<usize>)
    requires
        is_booking_order(subs, order),
    ensures
        forall|a: Subscription<A>, b: Subscription<A>|
            a.subscription_type == b.subscription_type && a.priority == b.priority ==> (#[trigger] booked_before(a, b)
                <==> lexicographically_before(encode_utf8(a.id@), encode_utf8(b.id@))),
        forall|i: int, j: int|
            0 <= i < j < order.len() && (#[trigger] subs[order[i] as int]).subscription_type == (#[trigger] subs[order[j] as int]).subscription_type
                && subs[order[i] as int].priority == subs[order[j] as int].priority ==> !lexicographically_before(
                encode_utf8(subs[order[j] as int].id@),
                encode_utf8(subs[order[i] as int].id@),
            ),
{
    assert forall|a: Subscription<A>, b: Subscription<A>|
        a.subscription_type == b.subscription_type && a.priority == b.priority implies (#[trigger] booked_before(a, b)
            <==> lexicographically_before(encode_utf8(a.id@), encode_utf8(b.id@))) by {
        lemma_bytes_lt_is_lexicographic(encode_utf8(a.id@), encode_utf8(b.id@));
    }
    assert forall|i: int, j: int|
        0 <= i < j < order.len() && (#[trigger] subs[order[i] as int]).subscription_type == (#[trigger] subs[order[j] as int]).subscription_type
            && subs[order[i] as int].priority == subs[order[j] as int].priority implies !lexicographically_before(
            encode_utf8(subs[order[j] as int].id@),
            encode_utf8(subs[order[i] as int].id@),
        ) by {
        assert(!booked_before(subs[order[j] as int], subs[order[i] as int]));
        lemma_bytes_lt_is_lexicographic(encode_utf8(subs[order[j] as int].id@), encode_utf8(subs[order[i] as int].id@));
    }
}

/// The hourly income a balance listing reports for a credit is the most
/// recent one recorded, the last entry of its history; a credit without
/// history reports the no-income value.
pub proof fn law_reported_income_is_the_latest<A>(credit: Credit<A>, no_income: A)
    ensures
        credit.history@.len() > 0 ==> crate::api::latest_income(credit, no_income) == credit.history@[credit.history@.len()
            - 1],
        credit.history@.len() == 0 ==> crate::api::latest_income(credit, no_income) == no_income,
{
}

/// In an hourly settlement every bloc, zone and individual records an
/// hourly income on its credits, and no unit does.
pub proof fn law_every_non_unit_records_hourly_income<A>(
    users: Seq<User<A>>,
    evals: Seq<Option<UserEvaluation<A>>>,
    i: int,
    incoming: UserIncoming<A>,
)
    requires
        0 <= i < users.len(),
        settles_user(users, evals, i, incoming),
    ensures
        users[i].user_type_spec() == UserType::Bloc ==> incoming.records_hourly,
        users[i].user_type_spec() == UserType::Zone ==> incoming.records_hourly,
        users[i].user_type_spec() == UserType::Individual ==> incoming.records_hourly,
        users[i].user_type_spec() == UserType::Unit ==> !incoming.records_hourly,
{
}

/// The number of users that are not units and have averages.
pub open spec fn non_units_with_averages<A>(users: Seq<User<A>>, averages: Seq<Option<DayAverages<A>>>) -> nat
    decreases users.len(),
{
    if users.len() == 0 || averages.len() == 0 {
        0
    } else {
        non_units_with_averages(users.drop_last(), averages.drop_last()) + if users.last().user_type_spec()
            != UserType::Unit && averages.last() is Some {
            1nat
        } else {
            0nat
        }
    }
}

proof fn lemma_closed_count_is_non_units_with_averages<A>(users: Seq<User<A>>, averages: Seq<Option<DayAverages<A>>>)
    ensures
        closed_count(users, averages) == non_units_with_averages(users, averages),
    decreases users.len(),
{
    if users.len() > 0 && averages.len() > 0 {
        lemma_closed_count_is_non_units_with_averages(users.drop_last(), averages.drop_last());
    }
}

/// The daily evaluation closes the day of every user that is not a unit and
/// has averages, bloc, zone and individual alike: the money credit's last
/// day's average becomes the given average and its history is emptied, its
/// balance is kept, and so for each resource credit with the average at its
/// position. Every other user is left as it is, and the count returned is
/// the number of users that are not units and have averages.
pub proof fn law_daily_closes_every_non_unit<A>(
    before: Seq<User<A>>,
    after: Seq<User<A>>,
    averages: Seq<Option<DayAverages<A>>>,
    closed: nat,
)
    requires
        before.len() == averages.len(),
        after.len() == before.len(),
        forall|i: int| 0 <= i < before.len() ==> user_day_closed(before[i], #[trigger] after[i], averages[i]),
        closed == closed_count(before, averages),
    ensures
        forall|i: int|
            0 <= i < before.len() && before[i].user_type_spec() != UserType::Unit && averages[i] is Some ==> {
                let a = averages[i]->0;
                &&& (#[trigger] after[i]).credit_spec().last_day_average == a.money
                &&& after[i].credit_spec().history@.len() == 0
                &&& after[i].credit_spec().total == before[i].credit_spec().total
                &&& after[i].user_type_spec() == before[i].user_type_spec()
                &&& after[i].id_spec() == before[i].id_spec()
                &&& (after[i].resources_spec() matches Some(ra) ==> forall|k: int|
                    0 <= k < ra.entries@.len() ==> (#[trigger] ra.entries@[k]).1.last_day_average == a.resources@[k]
                        && ra.entries@[k].1.history@.len() == 0)
            },
        forall|i: int|
            0 <= i < before.len() && (before[i].user_type_spec() == UserType::Unit || averages[i] is None)
                ==> #[trigger] after[i] == before[i],
        closed == non_units_with_averages(before, averages),
{
    assert forall|i: int|
        0 <= i < before.len() && before[i].user_type_spec() != UserType::Unit && averages[i] is Some implies {
            let a = averages[i]->0;
            &&& (#[trigger] after[i]).credit_spec().last_day_average == a.money
            &&& after[i].credit_spec().history@.len() == 0
            &&& after[i].credit_spec().total == before[i].credit_spec().total
            &&& after[i].user_type_spec() == before[i].user_type_spec()
            &&& after[i].id_spec() == before[i].id_spec()
            &&& (after[i].resources_spec() matches Some(ra) ==> forall|k: int|
                0 <= k < ra.entries@.len() ==> (#[trigger] ra.entries@[k]).1.last_day_average == a.resources@[k]
                    && ra.entries@[k].1.history@.len() == 0)
        } by {
        assert(user_day_closed(before[i], after[i], averages[i]));
        if after[i].resources_spec() is Some {
            let ra = after[i].resources_spec()->0;
            assert(before[i].resources_spec() is Some);
            let rb = before[i].resources_spec()->0;
            assert forall|k: int| 0 <= k < ra.entries@.len() implies (#[trigger] ra.entries@[k]).1.last_day_average
                == averages[i]->0.resources@[k] && ra.entries@[k].1.history@.len() == 0 by {
                assert(k < rb.entries@.len());
                assert(crate::credit::day_closed(rb.entries@[k].1, ra.entries@[k].1, averages[i]->0.resources@[k]));
            }
        }
    }
    assert forall|i: int|
        0 <= i < before.len() && (before[i].user_type_spec() == UserType::Unit || averages[i] is None)
            implies #[trigger] after[i] == before[i] by {
        assert(user_day_closed(before[i], after[i], averages[i]));
    }
    lemma_closed_count_is_non_units_with_averages(before, averages);
}

/// The number of shortfalls of unbooked `Sr` subscriptions in resource
/// evaluations.
pub open spec fn resource_shortfall_count<A>(rs: Seq<(String, CreditEvaluation<A>)>) -> nat
    decreases rs.len(),
{
    if rs.len() == 0 {
        0
    } else {
        resource_shortfall_count(rs.drop_last()) + rs.last().1.sr_overflows@.len()
    }
}

/// The number of shortfalls of unbooked `Sr` subscriptions in all
/// evaluations, money and resources.
pub open spec fn shortfall_count<A>(evals: Seq<Option<UserEvaluation<A>>>) -> nat
    decreases evals.len(),
{
    if evals.len() == 0 {
        0
    } else {
        shortfall_count(evals.drop_last()) + match evals.last() {
            Some(e) => e.money.sr_overflows@.len() + resource_shortfall_count(e.resources@),
            None => 0,
        }
    }
}

proof fn lemma_resource_overflows_shape<A>(id: Seq<char>, rs: Seq<(String, CreditEvaluation<A>)>)
    ensures
        resource_overflows(id, rs).len() == resource_shortfall_count(rs),
        forall|k: int, t: int|
            0 <= k < rs.len() && 0 <= t < rs[k].1.sr_overflows@.len() ==> resource_overflows(id, rs).contains(
                (id, #[trigger] rs[k].1.sr_overflows@[t]),
            ),
    decreases rs.len(),
{
    if rs.len() > 0 {
        let front = rs.drop_last();
        lemma_resource_overflows_shape(id, front);
        let whole = resource_overflows(id, rs);
        let head = resource_overflows(id, front);
        let tail = overflows_of(id, rs.last().1);
        assert(whole == head + tail);
        assert forall|k: int, t: int|
            0 <= k < rs.len() && 0 <= t < rs[k].1.sr_overflows@.len() implies whole.contains(
                (id, #[trigger] rs[k].1.sr_overflows@[t]),
            ) by {
            if k < front.len() {
                assert(front[k] == rs[k]);
                assert(head.contains((id, front[k].1.sr_overflows@[t])));
                let q = choose|q: int| 0 <= q < head.len() && head[q] == (id, front[k].1.sr_overflows@[t]);
                assert(whole[q] == head[q]);
            } else {
                assert(rs[k] == rs.last());
                assert(tail[t] == (id, rs[k].1.sr_overflows@[t]));
                assert(whole[head.len() + t] == tail[t]);
            }
        }
    }
}

proof fn lemma_overflow_pairs_shape<A>(users: Seq<User<A>>, evals: Seq<Option<UserEvaluation<A>>>)
    requires
        users.len() == evals.len(),
    ensures
        overflow_pairs(users, evals).len() == shortfall_count(evals),
        forall|i: int, t: int|
            0 <= i < evals.len() && evals[i] is Some && 0 <= t < evals[i]->0.money.sr_overflows@.len()
                ==> overflow_pairs(users, evals).contains((users[i].id_spec(), #[trigger] evals[i]->0.money.sr_overflows@[t])),
        forall|i: int, k: int, t: int|
            0 <= i < evals.len() && evals[i] is Some && 0 <= k < evals[i]->0.resources@.len() && 0 <= t
                < evals[i]->0.resources@[k].1.sr_overflows@.len() ==> overflow_pairs(users, evals).contains(
                (users[i].id_spec(), #[trigger] evals[i]->0.resources@[k].1.sr_overflows@[t]),
            ),
    decreases evals.len(),
{
    if evals.len() > 0 {
        let fu = users.drop_last();
        let fe = evals.drop_last();
        lemma_overflow_pairs_shape(fu, fe);
        let whole = overflow_pairs(users, evals);
        let head = overflow_pairs(fu, fe);
        let id = users.last().id_spec();
        let tail = match evals.last() {
            Some(e) => overflows_of(id, e.money) + resource_overflows(id, e.resources@),
            None => Seq::empty(),
        };
        assert(whole == head + tail);
        if evals.last() is Some {
            lemma_resource_overflows_shape(id, evals.last()->0.resources@);
        }
        assert forall|i: int, t: int|
            0 <= i < evals.len() && evals[i] is Some && 0 <= t < evals[i]->0.money.sr_overflows@.len()
                implies whole.contains((users[i].id_spec(), #[trigger] evals[i]->0.money.sr_overflows@[t])) by {
            let pair = (users[i].id_spec(), evals[i]->0.money.sr_overflows@[t]);
            if i < fe.len() {
                assert(fe[i] == evals[i] && fu[i] == users[i]);
                assert(head.contains((fu[i].id_spec(), fe[i]->0.money.sr_overflows@[t])));
                let q = choose|q: int| 0 <= q < head.len() && head[q] == pair;
                assert(whole[q] == head[q]);
            } else {
                assert(evals[i] == evals.last() && users[i] == users.last());
                let e = evals.last()->0;
                assert(overflows_of(id, e.money)[t] == pair);
                assert(tail[t] == pair);
                assert(whole[head.len() + t] == tail[t]);
            }
        }
        assert forall|i: int, k: int, t: int|
            0 <= i < evals.len() && evals[i] is Some && 0 <= k < evals[i]->0.resources@.len() && 0 <= t
                < evals[i]->0.resources@[k].1.sr_overflows@.len() implies whole.contains(
                (users[i].id_spec(), #[trigger] evals[i]->0.resources@[k].1.sr_overflows@[t]),
            ) by {
            let pair = (users[i].id_spec(), evals[i]->0.resources@[k].1.sr_overflows@[t]);
            if i < fe.len() {
                assert(fe[i] == evals[i] && fu[i] == users[i]);
                assert(head.contains((fu[i].id_spec(), fe[i]->0.resources@[k].1.sr_overflows@[t])));
                let q = choose|q: int| 0 <= q < head.len() && head[q] == pair;
                assert(whole[q] == head[q]);
            } else {
                assert(evals[i] == evals.last() && users[i] == users.last());
                let e = evals.last()->0;
                let ro = resource_overflows(id, e.resources@);
                assert(ro.contains((id, e.resources@[k].1.sr_overflows@[t])));
                let q = choose|q: int| 0 <= q < ro.len() && ro[q] == pair;
                let m = overflows_of(id, e.money).len();
                assert(tail[m + q] == ro[q]);
                assert(whole[head.len() + m + q] == tail[m + q]);
            }
        }
    }
}

/// Every shortfall of an unbooked `Sr` subscription of a user that is not a
/// unit, in its money evaluation or in any of its resource evaluations, is
/// reported paired with the user's id, and nothing else is reported: the
/// number of reports is the number of such shortfalls.
pub proof fn law_every_sr_shortfall_is_reported<A>(users: Seq<User<A>>, evals: Seq<Option<UserEvaluation<A>>>)
    requires
        users.len() == evals.len(),
    ensures
        forall|i: int, t: int|
            0 <= i < users.len() && users[i].user_type_spec() != UserType::Unit && evals[i] is Some && 0 <= t
                < evals[i]->0.money.sr_overflows@.len() ==> overflow_pairs(users, effective(users, evals)).contains(
                (users[i].id_spec(), #[trigger] evals[i]->0.money.sr_overflows@[t]),
            ),
        forall|i: int, k: int, t: int|
            0 <= i < users.len() && users[i].user_type_spec() != UserType::Unit && evals[i] is Some && 0 <= k
                < evals[i]->0.resources@.len() && 0 <= t < evals[i]->0.resources@[k].1.sr_overflows@.len()
                ==> overflow_pairs(users, effective(users, evals)).contains(
                (users[i].id_spec(), #[trigger] evals[i]->0.resources@[k].1.sr_overflows@[t]),
            ),
        overflow_pairs(users, effective(users, evals)).len() == shortfall_count(effective(users, evals)),
{
    let eff = effective(users, evals);
    lemma_overflow_pairs_shape(users, eff);
    assert forall|i: int, t: int|
        0 <= i < users.len() && users[i].user_type_spec() != UserType::Unit && evals[i] is Some && 0 <= t
            < evals[i]->0.money.sr_overflows@.len() implies overflow_pairs(users, eff).contains(
            (users[i].id_spec(), #[trigger] evals[i]->0.money.sr_overflows@[t]),
        ) by {
        assert(eff[i] == evals[i]);
        assert(eff[i]->0.money.sr_overflows@[t] == evals[i]->0.money.sr_overflows@[t]);
    }
    assert forall|i: int, k: int, t: int|
        0 <= i < users.len() && users[i].user_type_spec() != UserType::Unit && evals[i] is Some && 0 <= k
            < evals[i]->0.resources@.len() && 0 <= t < evals[i]->0.resources@[k].1.sr_overflows@.len()
            implies overflow_pairs(users, eff).contains(
            (users[i].id_spec(), #[trigger] evals[i]->0.resources@[k].1.sr_overflows@[t]),
        ) by {
        assert(eff[i] == evals[i]);
        assert(eff[i]->0.resources@[k].1.sr_overflows@[t] == evals[i]->0.resources@[k].1.sr_overflows@[t]);
    }
}

/// The number of individuals whose money evaluation hit zero.
pub open spec fn individuals_at_zero<A>(users: Seq<User<A>>, evals: Seq<Option<UserEvaluation<A>>>) -> nat
    decreases evals.len(),
{
    if evals.len() == 0 || users.len() == 0 {
        0
    } else {
        individuals_at_zero(users.drop_last(), evals.drop_last()) + if users.last().user_type_spec()
            == UserType::Individual && evals.last() is Some && evals.last()->0.money.hit_zero {
            1nat
        } else {
            0nat
        }
    }
}

proof fn lemma_blackout_ids_shape<A>(users: Seq<User<A>>, evals: Seq<Option<UserEvaluation<A>>>)
    requires
        users.len() == evals.len(),
    ensures
        forall|i: int|
            0 <= i < evals.len() && (#[trigger] evals[i]) is Some && users[i].user_type_spec() == UserType::Individual
                && evals[i]->0.money.hit_zero ==> blackout_ids(users, evals).contains(users[i].id_spec()),
        blackout_ids(users, evals).len() == individuals_at_zero(users, evals),
    decreases evals.len(),
{
    if evals.len() > 0 {
        let fu = users.drop_last();
        let fe = evals.drop_last();
        lemma_blackout_ids_shape(fu, fe);
        let whole = blackout_ids(users, evals);
        let head = blackout_ids(fu, fe);
        let n = evals.len() - 1;
        assert(evals.last() == evals[n] && users.last() == users[n]);
        let tail: Seq<Seq<char>> = match evals.last() {
            Some(e) => if users.last().user_type_spec() == UserType::Individual && e.money.hit_zero {
                seq![users.last().id_spec()]
            } else {
                Seq::empty()
            },
            None => Seq::empty(),
        };
        assert(whole == head + tail);
        assert forall|i: int|
            0 <= i < evals.len() && (#[trigger] evals[i]) is Some && users[i].user_type_spec() == UserType::Individual
                && evals[i]->0.money.hit_zero implies whole.contains(users[i].id_spec()) by {
            if i < n {
                assert(fe[i] == evals[i] && fu[i] == users[i]);
                assert(fe[i] is Some && fu[i].user_type_spec() == UserType::Individual && fe[i]->0.money.hit_zero);
                assert(head.contains(fu[i].id_spec()));
                let q = choose|q: int| 0 <= q < head.len() && head[q] == users[i].id_spec();
                assert(whole[q] == head[q]);
            } else {
                assert(i == n);
                assert(tail =~= seq![users[i].id_spec()]);
                assert(whole[head.len() as int] == tail[0]);
            }
        }
    }
}

/// An hourly settlement reports the individuals whose money credit fell to
/// zero in their evaluation: every such individual is reported, and there
/// are exactly as many reports as such individuals. Units, blocs and zones
/// are never counted.
pub proof fn law_blackout_reports_individuals_at_zero<A>(users: Seq<User<A>>, evals: Seq<Option<UserEvaluation<A>>>)
    requires
        users.len() == evals.len(),
    ensures
        forall|i: int|
            0 <= i < users.len() && users[i].user_type_spec() == UserType::Individual && (#[trigger] evals[i]) is Some
                && evals[i]->0.money.hit_zero ==> blackout_ids(users, effective(users, evals)).contains(users[i].id_spec()),
        blackout_ids(users, effective(users, evals)).len() == individuals_at_zero(users, evals),
{
    let eff = effective(users, evals);
    lemma_blackout_ids_shape(users, eff);
    assert forall|i: int|
        0 <= i < users.len() && users[i].user_type_spec() == UserType::Individual && (#[trigger] evals[i]) is Some
            && evals[i]->0.money.hit_zero implies blackout_ids(users, eff).contains(users[i].id_spec()) by {
        assert(eff[i] == evals[i]);
    }
    lemma_individuals_at_zero_effective(users, evals);
}

proof fn lemma_individuals_at_zero_effective<A>(users: Seq<User<A>>, evals: Seq<Option<UserEvaluation<A>>>)
    requires
        users.len() == evals.len(),
    ensures
        individuals_at_zero(users, effective(users, evals)) == individuals_at_zero(users, evals),
    decreases evals.len(),
{
    if evals.len() > 0 {
        let fu = users.drop_last();
        let fe = evals.drop_last();
        lemma_individuals_at_zero_effective(fu, fe);
        assert(effective(users, evals).drop_last() =~= effective(fu, fe));
        assert(users.last() == users[evals.len() - 1]);
    }
}

/// A subscription whose amount the balance covers is booked; one it does
/// not cover is reported when it is an `Sr` subscription and skipped when
/// it is a `Contract`.
pub proof fn law_booking_decisions(subscription_type: SubscriptionType, covered: bool)
    ensures
        covered ==> booking_decision_spec(subscription_type, covered) == BookingDecision::Book,
        !covered && subscription_type == SubscriptionType::Sr ==> booking_decision_spec(subscription_type, covered)
            == BookingDecision::ReportSrOverflow,
        !covered && subscription_type == SubscriptionType::Contract ==> booking_decision_spec(
            subscription_type,
            covered,
        ) == BookingDecision::Skip,
{
}

/// The number of subscriptions booked in resource evaluations.
pub open spec fn resource_bookings<A>(rs: Seq<(String, CreditEvaluation<A>)>) -> nat
    decreases rs.len(),
{
    if rs.len() == 0 {
        0
    } else {
        resource_bookings(rs.drop_last()) + rs.last().1.booked_subscriptions@.len()
    }
}

/// The number of subscriptions booked in all evaluations.
pub open spec fn total_bookings<A>(evals: Seq<Option<UserEvaluation<A>>>) -> nat
    decreases evals.len(),
{
    if evals.len() == 0 {
        0
    } else {
        total_bookings(evals.drop_last()) + match evals.last() {
            Some(e) => e.money.booked_subscriptions@.len() + resource_bookings(e.resources@),
            None => 0,
        }
    }
}

proof fn lemma_booked_entries_shape<A>(e: CreditEvaluation<A>, resource: Option<Seq<char>>)
    ensures
        booked_entries(e, resource).len() == e.booked_subscriptions@.len(),
        forall|t: int|
            0 <= t < e.booked_subscriptions@.len() ==> booked_entries(e, resource).contains(
                ((e.booked_subscriptions@[t].receiver@, resource), #[trigger] e.booked_subscriptions@[t].amount),
            ),
{
    assert forall|t: int| 0 <= t < e.booked_subscriptions@.len() implies booked_entries(e, resource).contains(
        ((e.booked_subscriptions@[t].receiver@, resource), #[trigger] e.booked_subscriptions@[t].amount),
    ) by {
        assert(booked_entries(e, resource)[t] == ((e.booked_subscriptions@[t].receiver@, resource), e.booked_subscriptions@[t].amount));
    }
}

proof fn lemma_resource_entries_shape<A>(rs: Seq<(String, CreditEvaluation<A>)>)
    ensures
        resource_entries(rs).len() == resource_bookings(rs),
        forall|k: int, t: int|
            0 <= k < rs.len() && 0 <= t < rs[k].1.booked_subscriptions@.len() ==> resource_entries(rs).contains(
                (
                    (rs[k].1.booked_subscriptions@[t].receiver@, Some(rs[k].0@)),
                    #[trigger] rs[k].1.booked_subscriptions@[t].amount,
                ),
            ),
    decreases rs.len(),
{
    if rs.len() > 0 {
        let front = rs.drop_last();
        lemma_resource_entries_shape(front);
        let last = rs.last();
        lemma_booked_entries_shape(last.1, Some(last.0@));
        let whole = resource_entries(rs);
        let head = resource_entries(front);
        let tail = booked_entries(last.1, Some(last.0@));
        assert(whole == head + tail);
        assert forall|k: int, t: int|
            0 <= k < rs.len() && 0 <= t < rs[k].1.booked_subscriptions@.len() implies whole.contains(
                (
                    (rs[k].1.booked_subscriptions@[t].receiver@, Some(rs[k].0@)),
                    #[trigger] rs[k].1.booked_subscriptions@[t].amount,
                ),
            ) by {
            let entry = ((rs[k].1.booked_subscriptions@[t].receiver@, Some(rs[k].0@)), rs[k].1.booked_subscriptions@[t].amount);
            if k < front.len() {
                assert(front[k] == rs[k]);
                assert(head.contains(
                    ((front[k].1.booked_subscriptions@[t].receiver@, Some(front[k].0@)), front[k].1.booked_subscriptions@[t].amount),
                ));
                let q = choose|q: int| 0 <= q < head.len() && head[q] == entry;
                assert(whole[q] == head[q]);
            } else {
                assert(rs[k] == last);
                assert(tail.contains(entry));
                let q = choose|q: int| 0 <= q < tail.len() && tail[q] == entry;
                assert(whole[head.len() + q] == tail[q]);
            }
        }
    }
}

proof fn lemma_all_entries_shape<A>(evals: Seq<Option<UserEvaluation<A>>>)
    ensures
        all_entries(evals).len() == total_bookings(evals),
        forall|i: int, t: int|
            0 <= i < evals.len() && evals[i] is Some && 0 <= t < evals[i]->0.money.booked_subscriptions@.len()
                ==> all_entries(evals).contains(
                (
                    (evals[i]->0.money.booked_subscriptions@[t].receiver@, None),
                    #[trigger] evals[i]->0.money.booked_subscriptions@[t].amount,
                ),
            ),
        forall|i: int, k: int, t: int|
            0 <= i < evals.len() && evals[i] is Some && 0 <= k < evals[i]->0.resources@.len() && 0 <= t
                < evals[i]->0.resources@[k].1.booked_subscriptions@.len() ==> all_entries(evals).contains(
                (
                    (
                        evals[i]->0.resources@[k].1.booked_subscriptions@[t].receiver@,
                        Some(evals[i]->0.resources@[k].0@),
                    ),
                    #[trigger] evals[i]->0.resources@[k].1.booked_subscriptions@[t].amount,
                ),
            ),
    decreases evals.len(),
{
    if evals.len() > 0 {
        let fe = evals.drop_last();
        lemma_all_entries_shape(fe);
        let whole = all_entries(evals);
        let head = all_entries(fe);
        let n = evals.len() - 1;
        assert(evals.last() == evals[n]);
        let tail = match evals.last() {
            Some(e) => user_entries(e),
            None => Seq::empty(),
        };
        assert(whole == head + tail);
        if evals.last() is Some {
            let e = evals.last()->0;
            lemma_booked_entries_shape(e.money, None);
            lemma_resource_entries_shape(e.resources@);
            assert(tail == booked_entries(e.money, None) + resource_entries(e.resources@));
        }
        assert forall|i: int, t: int|
            0 <= i < evals.len() && evals[i] is Some && 0 <= t < evals[i]->0.money.booked_subscriptions@.len()
                implies whole.contains(
                (
                    (evals[i]->0.money.booked_subscriptions@[t].receiver@, None),
                    #[trigger] evals[i]->0.money.booked_subscriptions@[t].amount,
                ),
            ) by {
            let entry = ((evals[i]->0.money.booked_subscriptions@[t].receiver@, None::<Seq<char>>), evals[i]->0.money.booked_subscriptions@[t].amount);
            if i < n {
                assert(fe[i] == evals[i]);
                assert(head.contains(
                    ((fe[i]->0.money.booked_subscriptions@[t].receiver@, None::<Seq<char>>), fe[i]->0.money.booked_subscriptions@[t].amount),
                ));
                let q = choose|q: int| 0 <= q < head.len() && head[q] == entry;
                assert(whole[q] == head[q]);
            } else {
                let e = evals.last()->0;
                let be = booked_entries(e.money, None);
                assert(be.contains(entry));
                let q = choose|q: int| 0 <= q < be.len() && be[q] == entry;
                assert(tail[q] == be[q]);
                assert(whole[head.len() + q] == tail[q]);
            }
        }
        assert forall|i: int, k: int, t: int|
            0 <= i < evals.len() && evals[i] is Some && 0 <= k < evals[i]->0.resources@.len() && 0 <= t
                < evals[i]->0.resources@[k].1.booked_subscriptions@.len() implies whole.contains(
                (
                    (
                        evals[i]->0.resources@[k].1.booked_subscriptions@[t].receiver@,
                        Some(evals[i]->0.resources@[k].0@),
                    ),
                    #[trigger] evals[i]->0.resources@[k].1.booked_subscriptions@[t].amount,
                ),
            ) by {
            let entry = (
                (evals[i]->0.resources@[k].1.booked_subscriptions@[t].receiver@, Some(evals[i]->0.resources@[k].0@)),
                evals[i]->0.resources@[k].1.booked_subscriptions@[t].amount,
            );
            if i < n {
                assert(fe[i] == evals[i]);
                assert(head.contains(
                    (
                        (fe[i]->0.resources@[k].1.booked_subscriptions@[t].receiver@, Some(fe[i]->0.resources@[k].0@)),
                        fe[i]->0.resources@[k].1.booked_subscriptions@[t].amount,
                    ),
                ));
                let q = choose|q: int| 0 <= q < head.len() && head[q] == entry;
                assert(whole[q] == head[q]);
            } else {
                let e = evals.last()->0;
                let re = resource_entries(e.resources@);
                assert(re.contains(entry));
                let q = choose|q: int| 0 <= q < re.len() && re[q] == entry;
                let m = booked_entries(e.money, None).len();
                assert(tail[m + q] == re[q]);
                assert(whole[head.len() + m + q] == tail[m + q]);
            }
        }
    }
}

proof fn lemma_booked_count_is_total<A>(evals: Seq<Option<UserEvaluation<A>>>)
    ensures
        booked_count(evals) == total_bookings(evals),
    decreases evals.len(),
{
    if evals.len() > 0 {
        lemma_booked_count_is_total(evals.drop_last());
        if evals.last() is Some {
            lemma_resource_bookings_count(evals.last()->0.resources@);
        }
    }
}

proof fn lemma_resource_bookings_count<A>(rs: Seq<(String, CreditEvaluation<A>)>)
    ensures
        crate::hourly::resource_booked_count(rs) == resource_bookings(rs),
    decreases rs.len(),
{
    if rs.len() > 0 {
        lemma_resource_bookings_count(rs.drop_last());
    }
}

/// Every subscription a user that is not a unit books in an hourly
/// evaluation becomes one amount routed to its receiver: to the receiver's
/// money credit for a money booking, and to the receiver's credit of the
/// same resource for a resource booking. There is one routed amount per
/// booking, and the bookings counted are all the bookings made.
pub proof fn law_every_booking_is_routed_to_its_receiver<A>(users: Seq<User<A>>, evals: Seq<Option<UserEvaluation<A>>>)
    requires
        users.len() == evals.len(),
    ensures
        forall|i: int, t: int|
            0 <= i < users.len() && users[i].user_type_spec() != UserType::Unit && evals[i] is Some && 0 <= t
                < evals[i]->0.money.booked_subscriptions@.len() ==> all_entries(effective(users, evals)).contains(
                (
                    (evals[i]->0.money.booked_subscriptions@[t].receiver@, None),
                    #[trigger] evals[i]->0.money.booked_subscriptions@[t].amount,
                ),
            ),
        forall|i: int, k: int, t: int|
            0 <= i < users.len() && users[i].user_type_spec() != UserType::Unit && evals[i] is Some && 0 <= k
                < evals[i]->0.resources@.len() && 0 <= t < evals[i]->0.resources@[k].1.booked_subscriptions@.len()
                ==> all_entries(effective(users, evals)).contains(
                (
                    (
                        evals[i]->0.resources@[k].1.booked_subscriptions@[t].receiver@,
                        Some(evals[i]->0.resources@[k].0@),
                    ),
                    #[trigger] evals[i]->0.resources@[k].1.booked_subscriptions@[t].amount,
                ),
            ),
        all_entries(effective(users, evals)).len() == total_bookings(effective(users, evals)),
        booked_count(effective(users, evals)) == total_bookings(effective(users, evals)),
{
    let eff = effective(users, evals);
    lemma_all_entries_shape(eff);
    lemma_booked_count_is_total(eff);
    assert forall|i: int, t: int|
        0 <= i < users.len() && users[i].user_type_spec() != UserType::Unit && evals[i] is Some && 0 <= t
            < evals[i]->0.money.booked_subscriptions@.len() implies all_entries(eff).contains(
            (
                (evals[i]->0.money.booked_subscriptions@[t].receiver@, None),
                #[trigger] evals[i]->0.money.booked_subscriptions@[t].amount,
            ),
        ) by {
        assert(eff[i] == evals[i]);
        assert(eff[i]->0.money.booked_subscriptions@[t] == evals[i]->0.money.booked_subscriptions@[t]);
    }
    assert forall|i: int, k: int, t: int|
        0 <= i < users.len() && users[i].user_type_spec() != UserType::Unit && evals[i] is Some && 0 <= k
            < evals[i]->0.resources@.len() && 0 <= t < evals[i]->0.resources@[k].1.booked_subscriptions@.len()
            implies all_entries(eff).contains(
            (
                (
                    evals[i]->0.resources@[k].1.booked_subscriptions@[t].receiver@,
                    Some(evals[i]->0.resources@[k].0@),
                ),
                #[trigger] evals[i]->0.resources@[k].1.booked_subscriptions@[t].amount,
            ),
        ) by {
        assert(eff[i] == evals[i]);
        assert(eff[i]->0.resources@[k].1.booked_subscriptions@[t] == evals[i]->0.resources@[k].1.booked_subscriptions@[t]);
    }
}

/// The amounts routed to a credit are exactly the amounts of the entries
/// for that credit: every entry for it gives one of them, and each of them
/// comes from an entry for it.
pub proof fn law_amounts_for_a_credit_are_its_entries<A>(
    entries: Seq<((Seq<char>, Option<Seq<char>>), A)>,
    key: (Seq<char>, Option<Seq<char>>),
)
    ensures
        forall|a: A| #[trigger] entries.contains((key, a)) ==> amounts_for(entries, key).contains(a),
        forall|p: int|
            0 <= p < amounts_for(entries, key).len() ==> entries.contains((key, #[trigger] amounts_for(entries, key)[p])),
{
    let pred = for_key::<A>(key);
    let kept = entries.filter(pred);
    assert(amounts_for(entries, key) == kept.map_values(|e: ((Seq<char>, Option<Seq<char>>), A)| e.1));
    assert forall|a: A| #[trigger] entries.contains((key, a)) implies amounts_for(entries, key).contains(a) by {
        let i = choose|i: int| 0 <= i < entries.len() && entries[i] == (key, a);
        entries.lemma_filter_contains(pred, i);
        let q = choose|q: int| 0 <= q < kept.len() && kept[q] == entries[i];
        assert(amounts_for(entries, key)[q] == a);
    }
    assert forall|p: int| 0 <= p < amounts_for(entries, key).len() implies entries.contains(
        (key, #[trigger] amounts_for(entries, key)[p]),
    ) by {
        entries.lemma_filter_pred(pred, p);
        assert(kept.contains(kept[p]));
        entries.lemma_filter_contains_rev(pred, kept[p]);
        assert(kept[p] == (key, amounts_for(entries, key)[p]));
    }
}

} // verus!
