//! The rules the exchange applies to its users once they are loaded:
//! finding subscriptions, removing them, attaching them to resource
//! credits, setting a unit's average and preparing resource bookings.
use vstd::prelude::*;

use crate::credit::{
    contains_subscription, has_id, lemma_without_id_has_none, removed_subscription, Credit, TransferHistoryEntry,
};
use crate::error::Error;
use crate::ordering::text_equal;
use crate::resources::Resources;
use crate::subscription::{money_credit_type, Subscription};
use crate::user::{BaseUser, User, UserType};

verus! {

/// The view of an optional text.
pub open spec fn text_view(text: Option<&str>) -> Option<Seq<char>> {
    match text {
        Some(t) => Some(t@),
        None => None,
    }
}

/// Every subscription of every user, paired with the id of the user that
/// pays it, user by user.
pub open spec fn sender_pairs<A>(users: Seq<User<A>>) -> Seq<(Seq<char>, Subscription<A>)>
    decreases users.len(),
{
    if users.len() == 0 {
        Seq::empty()
    } else {
        sender_pairs(users.drop_last()) + users.last().all_subscriptions().map_values(
            |s: Subscription<A>| (users.last().id_spec(), s),
        )
    }
}

/// The pair concerns `user_id` (as sender or receiver) and passes the
/// optional sender and receiver filters.
pub open spec fn concerns<A>(
    pair: (Seq<char>, Subscription<A>),
    user_id: Seq<char>,
    sender_filter: Option<Seq<char>>,
    receiver_filter: Option<Seq<char>>,
) -> bool {
    &&& pair.0 == user_id || pair.1.receiver@ == user_id
    &&& match sender_filter {
        Some(f) => pair.0 == f,
        None => true,
    }
    &&& match receiver_filter {
        Some(f) => pair.1.receiver@ == f,
        None => true,
    }
}

/// The pairs `(sender, subscription)` that `list_user_subscriptions`
/// returns.
pub open spec fn listed_subscriptions<A>(
    users: Seq<User<A>>,
    user_id: Seq<char>,
    sender_filter: Option<Seq<char>>,
    receiver_filter: Option<Seq<char>>,
) -> Seq<(Seq<char>, Subscription<A>)> {
    sender_pairs(users).filter(
        |p: (Seq<char>, Subscription<A>)| concerns(p, user_id, sender_filter, receiver_filter),
    )
}

/// The view of a list of `(sender, subscription)` pairs.
pub open spec fn pairs_view<A>(pairs: Seq<(String, Subscription<A>)>) -> Seq<(Seq<char>, Subscription<A>)> {
    pairs.map_values(|p: (String, Subscription<A>)| (p.0@, p.1))
}

/// Some user has the id `user_id`.
pub open spec fn has_user<A>(users: Seq<User<A>>, user_id: Seq<char>) -> bool {
    exists|i: int| 0 <= i < users.len() && (#[trigger] users[i]).id_spec() == user_id
}

/// The position of the first user with id `user_id`.
pub fn find_user<A>(users: &Vec<User<A>>, user_id: &str) -> (found: Option<usize>)
    ensures
        found is None <==> !has_user(users@, user_id@),
        found matches Some(i) ==> i < users@.len() && users@[i as int].id_spec() == user_id@
            && forall|j: int| 0 <= j < i ==> (#[trigger] users@[j]).id_spec() != user_id@,
{
    for i in 0..users.len()
        invariant
            forall|j: int| 0 <= j < i ==> (#[trigger] users@[j]).id_spec() != user_id@,
    {
        if text_equal(users[i].id().as_str(), user_id) {
            return Some(i);
        }
    }
    None
}

/// All subscriptions paid or received by `user_id`, each with the id of
/// the user that pays it, narrowed by the optional sender and receiver
/// filters; `None` when no user has the id `user_id`.
pub fn list_user_subscriptions<A: Copy>(
    users: &Vec<User<A>>,
    user_id: &str,
    sender_filter: Option<&str>,
    receiver_filter: Option<&str>,
) -> (listed: Option<Vec<(String, Subscription<A>)>>)
    ensures
        listed is None <==> !has_user(users@, user_id@),
        listed matches Some(pairs) ==> pairs_view(pairs@) == listed_subscriptions(
            users@,
            user_id@,
            text_view(sender_filter),
            text_view(receiver_filter),
        ),
{
    if find_user(users, user_id).is_none() {
        return None;
    }
    let ghost uid = user_id@;
    let ghost sf = text_view(sender_filter);
    let ghost rf = text_view(receiver_filter);
    let ghost pred = |p: (Seq<char>, Subscription<A>)| concerns(p, uid, sf, rf);
    let mut listed: Vec<(String, Subscription<A>)> = Vec::new();
    for i in 0..users.len()
        invariant
            pred == (|p: (Seq<char>, Subscription<A>)| concerns(p, uid, sf, rf)),
            uid == user_id@,
            sf == text_view(sender_filter),
            rf == text_view(receiver_filter),
            pairs_view(listed@) == sender_pairs(users@.take(i as int)).filter(pred),
    {
        let sender = users[i].id();
        let subscriptions = users[i].subscriptions();
        let ghost done = sender_pairs(users@.take(i as int));
        let ghost mine = users@[i as int].all_subscriptions().map_values(
            |s: Subscription<A>| (users@[i as int].id_spec(), s),
        );
        proof {
            assert(done + mine.take(0) =~= done);
        }
        for j in 0..subscriptions.len()
            invariant
                pred == (|p: (Seq<char>, Subscription<A>)| concerns(p, uid, sf, rf)),
                uid == user_id@,
                sf == text_view(sender_filter),
                rf == text_view(receiver_filter),
                subscriptions@ == users@[i as int].all_subscriptions(),
                sender@ == users@[i as int].id_spec(),
                mine == users@[i as int].all_subscriptions().map_values(
                    |s: Subscription<A>| (users@[i as int].id_spec(), s),
                ),
                pairs_view(listed@) == (done + mine.take(j as int)).filter(pred),
        {
            let subscription = &subscriptions[j];
            let involved = text_equal(sender.as_str(), user_id) || text_equal(subscription.receiver.as_str(), user_id);
            let sender_ok = match sender_filter {
                Some(f) => text_equal(sender.as_str(), f),
                None => true,
            };
            let receiver_ok = match receiver_filter {
                Some(f) => text_equal(subscription.receiver.as_str(), f),
                None => true,
            };
            let ghost before = listed@;
            proof {
                reveal_with_fuel(Seq::filter, 1);
                let s = done + mine.take(j + 1);
                assert(s.drop_last() =~= done + mine.take(j as int));
                assert(s.last() == (sender@, *subscription));
                assert(pred(s.last()) == (involved && sender_ok && receiver_ok));
            }
            if involved && sender_ok && receiver_ok {
                listed.push((sender.clone(), subscription.clone()));
                proof {
                    assert(pairs_view(listed@) =~= pairs_view(before).push((sender@, *subscription)));
                }
            }
        }
        proof {
            assert(mine.take(mine.len() as int) =~= mine);
            assert(users@.take(i + 1).drop_last() =~= users@.take(i as int));
            assert(users@.take(i + 1).last() == users@[i as int]);
        }
    }
    proof {
        assert(users@.take(users@.len() as int) =~= users@);
    }
    Some(listed)
}

/// The first of the `listed` subscriptions whose id is `subscription_id`,
/// with the id of the user that pays it; `None` when none has that id.
pub fn find_listed_subscription<A>(listed: Vec<(String, Subscription<A>)>, subscription_id: &str) -> (found: Option<
    (String, Subscription<A>),
>)
    ensures
        found is None <==> forall|k: int| 0 <= k < listed@.len() ==> (#[trigger] listed@[k]).1.id@ != subscription_id@,
        found matches Some(p) ==> exists|k: int|
            {
                &&& 0 <= k < listed@.len()
                &&& #[trigger] listed@[k] == p
                &&& p.1.id@ == subscription_id@
                &&& forall|j: int| 0 <= j < k ==> (#[trigger] listed@[j]).1.id@ != subscription_id@
            },
{
    let mut rest = listed;
    let ghost all = rest@;
    let n = rest.len();
    for k in 0..n
        invariant
            rest@ == all,
            all == listed@,
            n == all.len(),
            forall|j: int| 0 <= j < k ==> (#[trigger] all[j]).1.id@ != subscription_id@,
    {
        if text_equal(rest[k].1.id.as_str(), subscription_id) {
            let found = rest.remove(k);
            proof {
                assert(found == all[k as int]);
                assert(all[k as int].1.id@ == subscription_id@);
            }
            return Some(found);
        }
    }
    None
}

/// The id of the first user one of whose subscriptions has the id
/// `subscription_id`.
pub fn find_subscription_sender<A: Copy>(users: &Vec<User<A>>, subscription_id: &str) -> (sender: Option<String>)
    ensures
        sender is None <==> forall|i: int|
            0 <= i < users@.len() ==> !has_id((#[trigger] users@[i]).all_subscriptions(), subscription_id@),
        sender matches Some(id) ==> exists|i: int|
            {
                &&& 0 <= i < users@.len()
                &&& has_id((#[trigger] users@[i]).all_subscriptions(), subscription_id@)
                &&& forall|j: int|
                    0 <= j < i ==> !has_id((#[trigger] users@[j]).all_subscriptions(), subscription_id@)
                &&& id@ == users@[i].id_spec()
            },
{
    for i in 0..users.len()
        invariant
            forall|j: int|
                0 <= j < i ==> !has_id((#[trigger] users@[j]).all_subscriptions(), subscription_id@),
    {
        let subscriptions = users[i].subscriptions();
        if contains_subscription(subscriptions.as_slice(), subscription_id) {
            return Some(users[i].id().clone());
        }
    }
    None
}

/// Some credit of the user holds a subscription of id `id`.
pub open spec fn holds_subscription<A>(user: User<A>, id: Seq<char>) -> bool {
    ||| has_id(user.credit_spec().subscriptions@, id)
    ||| match user.resources_spec() {
        Some(r) => exists|k: int| 0 <= k < r.entries@.len() && has_id((#[trigger] r.entries@[k]).1.subscriptions@, id),
        None => false,
    }
}

/// The subscriptions of id `id` that the user holds are all in one of its
/// credits.
pub open spec fn id_in_one_credit<A>(user: User<A>, id: Seq<char>) -> bool {
    match user.resources_spec() {
        Some(r) => {
            &&& (has_id(user.credit_spec().subscriptions@, id) ==> forall|k: int|
                0 <= k < r.entries@.len() ==> !has_id((#[trigger] r.entries@[k]).1.subscriptions@, id))
            &&& forall|k1: int, k2: int|
                0 <= k1 < k2 < r.entries@.len() && has_id((#[trigger] r.entries@[k1]).1.subscriptions@, id)
                    ==> !has_id((#[trigger] r.entries@[k2]).1.subscriptions@, id)
        },
        None => true,
    }
}

/// Removes the subscription `subscription_id` from the user: from the money
/// credit if it has it, else from the first resource credit that has it.
/// Returns whether it was found.
pub fn remove_user_subscription<A: Copy>(user: &mut User<A>, subscription_id: &str) -> (removed: bool)
    ensures
        removed == (has_id(old(user).credit_spec().subscriptions@, subscription_id@) || match old(user).resources_spec() {
            Some(r) => exists|k: int|
                0 <= k < r.entries@.len() && has_id(
                    (#[trigger] r.entries@[k]).1.subscriptions@,
                    subscription_id@,
                ),
            None => false,
        }),
        has_id(old(user).credit_spec().subscriptions@, subscription_id@) ==> removed_subscription(
            old(user).credit_spec(),
            final(user).credit_spec(),
            subscription_id@,
        ) && *final(user) == old(user).with_credit(final(user).credit_spec()),
        !has_id(old(user).credit_spec().subscriptions@, subscription_id@) ==> final(user).credit_spec()
            == old(user).credit_spec() && match old(user).resources_spec() {
            Some(r) => final(user).resources_spec() matches Some(fr) && *final(user) == old(
                user,
            ).with_resources(fr) && (removed ==> exists|k: int|
                {
                    &&& 0 <= k < r.entries@.len()
                    &&& has_id((#[trigger] r.entries@[k]).1.subscriptions@, subscription_id@)
                    &&& forall|j: int|
                        0 <= j < k ==> !has_id(
                            (#[trigger] r.entries@[j]).1.subscriptions@,
                            subscription_id@,
                        )
                    &&& fr.entries@.len() == r.entries@.len()
                    &&& fr.entries@[k].0 == r.entries@[k].0
                    &&& removed_subscription(r.entries@[k].1, fr.entries@[k].1, subscription_id@)
                    &&& forall|j: int|
                        0 <= j < r.entries@.len() && j != k ==> #[trigger] fr.entries@[j]
                            == r.entries@[j]
                }) && (!removed ==> fr.entries@ == r.entries@),
            None => *final(user) == *old(user) && !removed,
        },
        old(user).wf() ==> final(user).wf(),
        final(user).id_spec() == old(user).id_spec(),
        final(user).user_type_spec() == old(user).user_type_spec(),
        id_in_one_credit(*old(user), subscription_id@) ==> !holds_subscription(*final(user), subscription_id@),
{
    let ghost start = *user;
    let ghost id = subscription_id@;
    if user.credit_mut().remove_subscription(subscription_id) {
        proof {
            lemma_without_id_has_none(start.credit_spec().subscriptions@, id);
            lemma_with_credit_keeps(start, user.credit_spec());
        }
        return true;
    }
    proof {
        lemma_with_own_credit(start);
    }
    assert(*user == start);
    let ghost mut after: Option<Resources<A>> = None;
    let removed = match user.resources_mut() {
        Some(resources) => {
            let removed = resources.remove_subscription(subscription_id);
            proof {
                after = Some(*resources);
            }
            removed
        },
        None => false,
    };
    proof {
        match start.resources_spec() {
            Some(r) => {
                assert(after is Some);
                lemma_with_resources(start, after->0);
                assert(*user == start.with_resources(after->0));
                if id_in_one_credit(start, id) && removed {
                    let fr = after->0;
                    let k = choose|k: int|
                        {
                            &&& 0 <= k < r.entries@.len()
                            &&& has_id((#[trigger] r.entries@[k]).1.subscriptions@, id)
                            &&& forall|j: int| 0 <= j < k ==> !has_id((#[trigger] r.entries@[j]).1.subscriptions@, id)
                            &&& fr.entries@.len() == r.entries@.len()
                            &&& fr.entries@[k].0 == r.entries@[k].0
                            &&& removed_subscription(r.entries@[k].1, fr.entries@[k].1, id)
                            &&& forall|j: int|
                                0 <= j < r.entries@.len() && j != k ==> #[trigger] fr.entries@[j] == r.entries@[j]
                        };
                    lemma_without_id_has_none(r.entries@[k].1.subscriptions@, id);
                    assert forall|j: int| 0 <= j < fr.entries@.len() implies !has_id(
                        (#[trigger] fr.entries@[j]).1.subscriptions@,
                        id,
                    ) by {
                        if j < k {
                            assert(fr.entries@[j] == r.entries@[j]);
                        } else if j > k {
                            assert(fr.entries@[j] == r.entries@[j]);
                            assert(has_id(r.entries@[k].1.subscriptions@, id));
                        }
                    }
                }
            },
            None => {
                assert(*user == start);
            },
        }
    }
    removed
}

/// Whether the credit type names the money credit.
pub fn is_money(credit_type: &str) -> (money: bool)
    ensures
        money == (credit_type@ == money_credit_type()),
{
    let money = "money";
    proof {
        reveal_strlit("money");
        assert(money@ =~= money_credit_type());
    }
    text_equal(credit_type, money)
}

/// Sets the last day's average of a unit's credit of the given type
/// (money or a resource). A resource the user does not hold is refused
/// with `NotFound("credit type")`, and the user is left as it was.
pub fn update_unit_credit_last_day_average<A>(user: &mut User<A>, credit_type: &str, last_day_average: A) -> (outcome:
    Result<(), Error>)
    requires
        old(user).wf(),
    ensures
        credit_type@ == money_credit_type() ==> outcome is Ok && *final(user) == old(user).with_credit(
            Credit { last_day_average, ..old(user).credit_spec() },
        ),
        credit_type@ != money_credit_type() ==> match old(user).resources_spec() {
            Some(r) => match r.position(credit_type@) {
                Some(k) => outcome is Ok && (final(user).resources_spec() matches Some(fr)
                    && fr.entries@ == r.entries@.update(
                    k,
                    (r.entries@[k].0, Credit { last_day_average, ..r.entries@[k].1 }),
                ) && *final(user) == old(user).with_resources(fr)),
                None => outcome == Err::<(), Error>(Error::NotFound("credit type")) && *final(user)
                    == *old(user),
            },
            None => outcome == Err::<(), Error>(Error::NotFound("credit type")) && *final(user)
                == *old(user),
        },
        final(user).wf(),
{
    let ghost start = *user;
    if is_money(credit_type) {
        user.credit_mut().set_last_day_average(last_day_average);
        return Ok(());
    }
    let ghost mut after: Option<Resources<A>> = None;
    let outcome = match user.resources_mut() {
        Some(resources) => match resources.find(credit_type) {
            Some(k) => {
                resources.entries[k].1.set_last_day_average(last_day_average);
                proof {
                    after = Some(*resources);
                    assert(resources.entries@ =~= start.resources_spec()->0.entries@.update(
                        k as int,
                        (start.resources_spec()->0.entries@[k as int].0, Credit {
                            last_day_average,
                            ..start.resources_spec()->0.entries@[k as int].1
                        }),
                    ));
                    assert forall|a: int, b: int| 0 <= a < b < resources.entries@.len() implies #[trigger] resources.entries@[a].0@
                        != #[trigger] resources.entries@[b].0@ by {
                        assert(start.resources_spec()->0.entries@[a].0@ != start.resources_spec()->0.entries@[b].0@);
                    }
                }
                Ok(())
            },
            None => {
                proof {
                    after = Some(*resources);
                }
                Err(Error::NotFound("credit type"))
            },
        },
        None => Err(Error::NotFound("credit type")),
    };
    proof {
        match start.resources_spec() {
            Some(r) => {
                lemma_with_resources(start, after->0);
                if after->0 == r {
                    lemma_with_own_resources(start);
                }
            },
            None => {},
        }
    }
    outcome
}

/// The position of the sender's resource credit for a resource booking.
/// A sender without resource credits is refused with `Validation`, a
/// missing resource with `NotFound`.
pub fn sender_resource_position<A>(sender: &User<A>, resource_name: &str) -> (position: Result<usize, Error>)
    requires
        sender.wf(),
    ensures
        match sender.resources_spec() {
            None => position == Err::<usize, Error>(Error::Validation("Sender does not have resource credits")),
            Some(r) => match r.position(resource_name@) {
                None => position == Err::<usize, Error>(Error::NotFound("resource credit")),
                Some(k) => position == Ok::<usize, Error>(k as usize) && k < r.entries@.len(),
            },
        },
{
    match sender.resources() {
        None => Err(Error::Validation("Sender does not have resource credits")),
        Some(resources) => match resources.find(resource_name) {
            None => Err(Error::NotFound("resource credit")),
            Some(k) => Ok(k),
        },
    }
}

/// The position of the receiver's resource credit for a resource booking;
/// a receiver that does not hold the resource yet gets an empty credit for
/// it (balance and average `zero`). A receiver without resource credits is
/// refused with `Validation` and left as it was.
pub fn receiver_resource_position<A: Copy>(receiver: &mut User<A>, resource_name: &str, zero: A) -> (position:
    Result<usize, Error>)
    requires
        old(receiver).wf(),
    ensures
        final(receiver).wf(),
        final(receiver).credit_spec() == old(receiver).credit_spec(),
        final(receiver).id_spec() == old(receiver).id_spec(),
        match old(receiver).resources_spec() {
            None => position == Err::<usize, Error>(Error::Validation("Receiver does not have resource credits"))
                && *final(receiver) == *old(receiver),
            Some(r) => position matches Ok(k) && final(receiver).resources_spec() matches Some(fr)
                && *final(receiver) == old(receiver).with_resources(fr) && k < fr.entries@.len()
                && fr.entries@[k as int].0@ == resource_name@ && match r.position(resource_name@) {
                Some(i) => fr.entries@ == r.entries@ && k == i,
                None => fr.entries@.drop_last() == r.entries@ && k == r.entries@.len()
                    && fr.entries@.last().1.total == zero && fr.entries@.last().1.last_day_average
                    == zero && fr.entries@.last().1.subscriptions@.len() == 0
                    && fr.entries@.last().1.history@.len() == 0
                    && fr.entries@.last().1.transfer_history@.len() == 0,
            },
        },
{
    let ghost start = *receiver;
    let ghost mut after: Option<Resources<A>> = None;
    let position = match receiver.resources_mut() {
        None => Err(Error::Validation("Receiver does not have resource credits")),
        Some(resources) => {
            let k = resources.entry_or_insert(resource_name, Credit::new(zero, zero, Vec::new(), Vec::new()));
            proof {
                after = Some(*resources);
            }
            Ok(k)
        },
    };
    proof {
        if start.resources_spec() is Some {
            lemma_with_resources(start, after->0);
        }
    }
    position
}

/// `after` is the credit `before` with `subscription` attached last and
/// nothing else changed.
pub open spec fn subscription_added<A>(before: Credit<A>, after: Credit<A>, subscription: Subscription<A>) -> bool {
    &&& after.subscriptions@ == before.subscriptions@.push(subscription)
    &&& after.total == before.total
    &&& after.last_day_average == before.last_day_average
    &&& after.history == before.history
    &&& after.transfer_history == before.transfer_history
}

/// Attaches `subscription` to the user's credit for the resource
/// `resource_name`, creating an empty credit (balance and average `zero`)
/// for a resource the user does not hold yet. A user without resource
/// credits is refused with `Validation` and left as it was.
pub fn add_subscription_to_resource_credit<A: Copy>(
    user: &mut User<A>,
    resource_name: &str,
    subscription: Subscription<A>,
    zero: A,
) -> (outcome: Result<(), Error>)
    requires
        old(user).wf(),
    ensures
        final(user).wf(),
        final(user).credit_spec() == old(user).credit_spec(),
        final(user).id_spec() == old(user).id_spec(),
        match old(user).resources_spec() {
            None => outcome == Err::<(), Error>(Error::Validation("User does not have resource credits"))
                && *final(user) == *old(user),
            Some(r) => outcome is Ok && (final(user).resources_spec() matches Some(fr) && *final(user)
                == old(user).with_resources(fr) && (fr.lookup(resource_name@) matches Some(c)
                && c.subscriptions@ == match r.lookup(resource_name@) {
                Some(old_credit) => old_credit.subscriptions@.push(subscription),
                None => seq![subscription],
            }) && fr.names() == match r.position(resource_name@) {
                Some(_) => r.names(),
                None => r.names().push(resource_name@),
            }),
        },
        old(user).resources_spec() matches Some(r) ==> final(user).resources_spec() matches Some(fr) && match r.position(
            resource_name@,
        ) {
            Some(k) => {
                &&& fr.entries@.len() == r.entries@.len()
                &&& fr.entries@[k].0 == r.entries@[k].0
                &&& subscription_added(r.entries@[k].1, fr.entries@[k].1, subscription)
                &&& forall|j: int|
                    0 <= j < r.entries@.len() && j != k ==> #[trigger] fr.entries@[j] == r.entries@[j]
            },
            None => {
                &&& fr.entries@.len() == r.entries@.len() + 1
                &&& fr.entries@.drop_last() == r.entries@
                &&& fr.entries@.last().0@ == resource_name@
                &&& fr.entries@.last().1.total == zero
                &&& fr.entries@.last().1.last_day_average == zero
                &&& fr.entries@.last().1.subscriptions@ == seq![subscription]
                &&& fr.entries@.last().1.history@.len() == 0
                &&& fr.entries@.last().1.transfer_history@.len() == 0
            },
        },
{
    let ghost start = *user;
    let ghost mut after: Option<Resources<A>> = None;
    let outcome = match user.resources_mut() {
        None => Err(Error::Validation("User does not have resource credits")),
        Some(resources) => {
            let ghost r0 = *resources;
            let k = resources.entry_or_insert(resource_name, Credit::new(zero, zero, Vec::new(), Vec::new()));
            let ghost r1 = *resources;
            resources.entries[k].1.add_subscription(subscription);
            proof {
                after = Some(*resources);
                if r0.position(resource_name@) is None {
                    assert(r1.entries@.drop_last() == r0.entries@);
                    assert(resources.entries@.drop_last() =~= r0.entries@);
                    assert(resources.entries@[k as int].1.subscriptions@ =~= seq![subscription]);
                }
                assert(resources.entries@ =~= r1.entries@.update(k as int, resources.entries@[k as int]));
                assert forall|a: int, b: int| 0 <= a < b < resources.entries@.len() implies #[trigger] resources.entries@[a].0@
                    != #[trigger] resources.entries@[b].0@ by {
                    assert(r1.entries@[a].0@ != r1.entries@[b].0@);
                }
                assert(resources.names() =~= r1.names());
                if r0.position(resource_name@) is None {
                    assert(r1.names() =~= r0.names().push(resource_name@));
                }
                lemma_position_of_present(*resources, k as int, resource_name@);
                if r0.position(resource_name@) is Some {
                    lemma_position_of_present(r0, k as int, resource_name@);
                }
            }
            Ok(())
        },
    };
    proof {
        if start.resources_spec() is Some {
            lemma_with_resources(start, after->0);
        }
    }
    outcome
}

/// In well-formed resources, the entry holding a name is its position.
pub proof fn lemma_position_of_present<A>(r: Resources<A>, k: int, name: Seq<char>)
    requires
        r.wf(),
        0 <= k < r.entries@.len(),
        r.entries@[k].0@ == name,
    ensures
        r.position(name) == Some(k),
        r.lookup(name) == Some(r.entries@[k].1),
{
    let j = choose|j: int| 0 <= j < r.entries@.len() && #[trigger] r.entries@[j].0@ == name;
    if j != k {
        if j < k {
            assert(r.entries@[j].0@ != r.entries@[k].0@);
        } else {
            assert(r.entries@[k].0@ != r.entries@[j].0@);
        }
    }
}

/// The transfer history entry of a booking of `value` from `sender_id` to
/// `receiver_id`.
pub fn booking_entry<A>(value: A, sender_id: &str, receiver_id: &str) -> (entry: TransferHistoryEntry<A>)
    ensures
        entry.value == value,
        entry.sender@ == sender_id@,
        entry.receiver@ == receiver_id@,
        entry.transfer_type@ == seq!['b', 'o', 'o', 'k', 'i', 'n', 'g'],
{
    proof {
        reveal_strlit("booking");
    }
    TransferHistoryEntry::new(value, sender_id.to_owned(), receiver_id.to_owned(), "booking".to_owned())
}

/// Books between two credits once the new balances are known: each
/// balance is set and each side records the booking in its transfer
/// history (`sent` on the sender's side, `received` on the receiver's).
pub fn record_booking<A: Copy>(
    sender: &mut Credit<A>,
    receiver: &mut Credit<A>,
    sender_id: &str,
    receiver_id: &str,
    sent: A,
    received: A,
    sender_total: A,
    receiver_total: A,
)
    ensures
        final(sender).total == sender_total,
        final(receiver).total == receiver_total,
        final(sender).transfer_history@.len() == old(sender).transfer_history@.len() + 1,
        final(sender).transfer_history@.drop_last() == old(sender).transfer_history@,
        final(sender).transfer_history@.last().value == sent,
        final(sender).transfer_history@.last().sender@ == sender_id@,
        final(sender).transfer_history@.last().receiver@ == receiver_id@,
        final(sender).transfer_history@.last().transfer_type@ == seq!['b', 'o', 'o', 'k', 'i', 'n', 'g'],
        final(receiver).transfer_history@.len() == old(receiver).transfer_history@.len() + 1,
        final(receiver).transfer_history@.drop_last() == old(receiver).transfer_history@,
        final(receiver).transfer_history@.last().value == received,
        final(receiver).transfer_history@.last().sender@ == sender_id@,
        final(receiver).transfer_history@.last().receiver@ == receiver_id@,
        final(receiver).transfer_history@.last().transfer_type@ == seq!['b', 'o', 'o', 'k', 'i', 'n', 'g'],
        final(sender).last_day_average == old(sender).last_day_average,
        final(sender).subscriptions == old(sender).subscriptions,
        final(sender).history == old(sender).history,
        final(receiver).last_day_average == old(receiver).last_day_average,
        final(receiver).subscriptions == old(receiver).subscriptions,
        final(receiver).history == old(receiver).history,
{
    sender.set_total(sender_total);
    sender.add_transfer_history_entry(booking_entry(sent, sender_id, receiver_id));
    receiver.set_total(receiver_total);
    receiver.add_transfer_history_entry(booking_entry(received, sender_id, receiver_id));
    proof {
        assert(sender.transfer_history@.drop_last() =~= old(sender).transfer_history@);
        assert(receiver.transfer_history@.drop_last() =~= old(receiver).transfer_history@);
    }
}

/// The outcome of a money booking: whether the sender, an individual,

/// Checks a booking before any balance is looked at: a value that is not
/// positive is refused first, then a missing sender, then a missing
/// receiver.
pub fn check_booking_parties<A>(value_positive: bool, sender: Option<&User<A>>, receiver: Option<&User<A>>) -> (check:
    Result<(), Error>)
    ensures
        check == (if !value_positive {
            Err::<(), Error>(Error::Validation("Booking value must be greater than zero"))
        } else if sender is None {
            Err::<(), Error>(Error::NotFound("sender user"))
        } else if receiver is None {
            Err::<(), Error>(Error::NotFound("receiver user"))
        } else {
            Ok::<(), Error>(())
        }),
{
    if !value_positive {
        Err(Error::Validation("Booking value must be greater than zero"))
    } else if sender.is_none() {
        Err(Error::NotFound("sender user"))
    } else if receiver.is_none() {
        Err(Error::NotFound("receiver user"))
    } else {
        Ok(())
    }
}

/// Who takes part in a booking: one user booking to itself, or two users.
#[derive(Debug, Clone, Copy, PartialEq, Eq, Structural)]
pub enum BookingSides {
    /// Sender and receiver are the same user: the booking is recorded on
    /// one credit (`record_self_booking`).
    OneUser,
    /// Sender and receiver differ: the booking moves between two credits
    /// (`record_booking`).
    TwoUsers,
}

/// Decides whether a booking from `sender_id` to `receiver_id` stays with
/// one user.
pub fn booking_sides(sender_id: &str, receiver_id: &str) -> (sides: BookingSides)
    ensures
        sides == (if sender_id@ == receiver_id@ {
            BookingSides::OneUser
        } else {
            BookingSides::TwoUsers
        }),
{
    if text_equal(sender_id, receiver_id) {
        BookingSides::OneUser
    } else {
        BookingSides::TwoUsers
    }
}

/// Books from a credit to itself: the balance stays as it is, and the
/// credit records the booking twice, `sent` as its sender and then
/// `received` as its receiver.
pub fn record_self_booking<A: Copy>(credit: &mut Credit<A>, user_id: &str, sent: A, received: A)
    ensures
        final(credit).total == old(credit).total,
        final(credit).last_day_average == old(credit).last_day_average,
        final(credit).subscriptions == old(credit).subscriptions,
        final(credit).history == old(credit).history,
        final(credit).transfer_history@.len() == old(credit).transfer_history@.len() + 2,
        final(credit).transfer_history@.take(old(credit).transfer_history@.len() as int)
            == old(credit).transfer_history@,
        ({
            let n = old(credit).transfer_history@.len() as int;
            let h = final(credit).transfer_history@;
            &&& h[n].value == sent && h[n + 1].value == received
            &&& h[n].sender@ == user_id@ && h[n].receiver@ == user_id@
            &&& h[n + 1].sender@ == user_id@ && h[n + 1].receiver@ == user_id@
            &&& h[n].transfer_type@ == seq!['b', 'o', 'o', 'k', 'i', 'n', 'g']
            &&& h[n + 1].transfer_type@ == seq!['b', 'o', 'o', 'k', 'i', 'n', 'g']
        }),
{
    credit.add_transfer_history_entry(booking_entry(sent, user_id, user_id));
    credit.add_transfer_history_entry(booking_entry(received, user_id, user_id));
    proof {
        assert(credit.transfer_history@.take(old(credit).transfer_history@.len() as int)
            =~= old(credit).transfer_history@);
    }
}

/// reached zero.
pub struct MoneyBookingOutcome {
    pub sender_reached_zero: bool,
}

/// The outcome of a money booking from `sender`, whose balance fell to zero
/// when `fell_to_zero`; only individuals are reported.
pub fn money_booking_outcome<A>(sender: &User<A>, fell_to_zero: bool) -> (outcome: MoneyBookingOutcome)
    ensures
        outcome.sender_reached_zero == (sender.user_type_spec() == UserType::Individual && fell_to_zero),
{
    MoneyBookingOutcome { sender_reached_zero: sender.is_individual() && fell_to_zero }
}

/// Putting back a user's own resource credits changes nothing.
proof fn lemma_with_own_resources<A>(user: User<A>)
    requires
        user.resources_spec() is Some,
    ensures
        user.with_resources(user.resources_spec()->0) == user,
{
    match user {
        User::Bloc(u) => {
            assert(BaseUser { role: crate::user::BlocUser { resources: u.role.resources }, ..u } == u);
        },
        User::Zone(u) => {
            assert(BaseUser { role: crate::user::ZoneUser { resources: u.role.resources }, ..u } == u);
        },
        User::Individual(u) => {},
        User::Unit(u) => {
            assert(BaseUser { role: crate::user::UnitUser { resources: u.role.resources }, ..u } == u);
        },
    }
}

/// Putting back a user's own resource credits changes nothing.
pub proof fn lemma_with_own_resources_pub<A>(user: User<A>)
    requires
        user.resources_spec() is Some,
    ensures
        user.with_resources(user.resources_spec()->0) == user,
{
    lemma_with_own_resources(user);
}

/// Replacing the resource credits of a user that has them.
proof fn lemma_with_resources<A>(user: User<A>, resources: Resources<A>)
    requires
        user.resources_spec() is Some,
    ensures
        user.with_resources(resources).resources_spec() == Some(resources),
        user.with_resources(resources).credit_spec() == user.credit_spec(),
        user.with_resources(resources).id_spec() == user.id_spec(),
        user.with_resources(resources).user_type_spec() == user.user_type_spec(),
        user.with_resources(resources).wf() == resources.wf(),
{
}

/// Putting back a user's own money credit changes nothing.
proof fn lemma_with_credit_keeps<A>(user: User<A>, credit: Credit<A>)
    ensures
        user.with_credit(credit).credit_spec() == credit,
        user.with_credit(credit).resources_spec() == user.resources_spec(),
{
}

proof fn lemma_with_own_credit<A>(user: User<A>)
    ensures
        user.with_credit(user.credit_spec()) == user,
{
    match user {
        User::Bloc(u) => {
            assert(BaseUser { credit: u.credit, ..u } == u);
        },
        User::Zone(u) => {
            assert(BaseUser { credit: u.credit, ..u } == u);
        },
        User::Individual(u) => {
            assert(BaseUser { credit: u.credit, ..u } == u);
        },
        User::Unit(u) => {
            assert(BaseUser { credit: u.credit, ..u } == u);
        },
    }
}

} // verus!
