//! The daily evaluation: at the end of the day every user but units closes
//! the day of its money credit and of each of its resource credits with the
//! day's average. A unit's last day's average is only ever set from outside.
use vstd::prelude::*;

use crate::credit::day_closed;
use crate::hourly::resource_count;
use crate::resources::Resources;
use crate::user::{User, UserType};

verus! {

/// The averages that close one user's day: the money credit's, and one for
/// each resource credit, in the order in which the user holds them.
pub struct DayAverages<A> {
    pub money: A,
    pub resources: Vec<A>,
}

/// The day of user `i` is closed: it is not a unit and has averages.
pub open spec fn closes<A>(user: User<A>, averages: Option<DayAverages<A>>) -> bool {
    user.user_type_spec() != UserType::Unit && averages is Some
}

/// There are averages for every user, and the averages of a user whose day
/// is closed hold one average for each of its resource credits.
pub open spec fn averages_fit<A>(users: Seq<User<A>>, averages: Seq<Option<DayAverages<A>>>) -> bool {
    &&& users.len() == averages.len()
    &&& forall|i: int|
        0 <= i < users.len() && closes(users[i], #[trigger] averages[i]) ==> averages[i]->0.resources@.len()
            == resource_count(users[i])
}

/// `after` is the resource credits `before` with each credit's day closed
/// by the average at its position.
pub open spec fn resources_day_closed<A>(before: Resources<A>, after: Resources<A>, averages: Seq<A>) -> bool {
    &&& after.entries@.len() == before.entries@.len()
    &&& forall|k: int|
        0 <= k < before.entries@.len() ==> (#[trigger] after.entries@[k]).0 == before.entries@[k].0
            && day_closed(before.entries@[k].1, after.entries@[k].1, averages[k])
}

/// `after` is `before` with its day closed by `averages`: its money credit
/// and every resource credit start a new day, nothing else changes. A unit,
/// or a user without averages, stays as it is.
pub open spec fn user_day_closed<A>(before: User<A>, after: User<A>, averages: Option<DayAverages<A>>) -> bool {
    if !closes(before, averages) {
        after == before
    } else {
        let a = averages->0;
        &&& after.user_type_spec() == before.user_type_spec()
        &&& after.id_spec() == before.id_spec()
        &&& day_closed(before.credit_spec(), after.credit_spec(), a.money)
        &&& match (before.resources_spec(), after.resources_spec()) {
            (Some(rb), Some(ra)) => resources_day_closed(rb, ra, a.resources@),
            (None, None) => true,
            _ => false,
        }
    }
}

/// The number of users whose day is closed.
pub open spec fn closed_count<A>(users: Seq<User<A>>, averages: Seq<Option<DayAverages<A>>>) -> nat
    decreases averages.len(),
{
    if averages.len() == 0 || users.len() == 0 {
        0
    } else {
        closed_count(users.drop_last(), averages.drop_last()) + if closes(users.last(), averages.last()) {
            1nat
        } else {
            0nat
        }
    }
}

/// Closes the day of every resource credit with the average at its
/// position.
fn close_resource_days<A: Copy>(resources: &mut Resources<A>, averages: &Vec<A>)
    requires
        averages@.len() == old(resources).entries@.len(),
    ensures
        resources_day_closed(*old(resources), *final(resources), averages@),
        final(resources).names() == old(resources).names(),
        old(resources).wf() ==> final(resources).wf(),
{
    let n = resources.len();
    for k in 0..n
        invariant
            n == old(resources).entries@.len(),
            averages@.len() == n,
            resources.entries@.len() == n,
            resources.names() == old(resources).names(),
            old(resources).wf() ==> resources.wf(),
            forall|j: int|
                0 <= j < k ==> (#[trigger] resources.entries@[j]).0 == old(resources).entries@[j].0
                    && day_closed(old(resources).entries@[j].1, resources.entries@[j].1, averages@[j]),
            forall|j: int| k <= j < n ==> #[trigger] resources.entries@[j] == old(resources).entries@[j],
    {
        resources.close_day_at(k, averages[k]);
    }
}

/// Closes the day of one user; a unit's day is never closed.
fn close_user_day<A: Copy>(user: &mut User<A>, averages: &DayAverages<A>)
    requires
        old(user).user_type_spec() != UserType::Unit ==> averages.resources@.len() == resource_count(*old(user)),
    ensures
        user_day_closed(*old(user), *final(user), Some(*averages)),
        old(user).wf() ==> final(user).wf(),
{
    match user {
        User::Bloc(u) => {
            u.credit.close_day(averages.money);
            close_resource_days(&mut u.role.resources, &averages.resources);
        },
        User::Zone(u) => {
            u.credit.close_day(averages.money);
            close_resource_days(&mut u.role.resources, &averages.resources);
        },
        User::Individual(u) => {
            u.credit.close_day(averages.money);
        },
        User::Unit(_) => {},
    }
}

/// Closes the day of every user but units with the averages given for it,
/// and returns how many users that was. Units, and users without
/// averages, are left as they are.
pub fn close_days<A: Copy>(users: &mut Vec<User<A>>, averages: &Vec<Option<DayAverages<A>>>) -> (closed:
    usize)
    requires
        averages_fit(old(users)@, averages@),
    ensures
        final(users)@.len() == old(users)@.len(),
        forall|i: int|
            0 <= i < old(users)@.len() ==> user_day_closed(
                old(users)@[i],
                #[trigger] final(users)@[i],
                averages@[i],
            ),
        forall|i: int|
            0 <= i < old(users)@.len() && old(users)@[i].user_type_spec() == UserType::Unit
                ==> #[trigger] final(users)@[i] == old(users)@[i],
        forall|i: int| 0 <= i < old(users)@.len() && old(users)@[i].wf() ==> (#[trigger] final(users)@[i]).wf(),
        closed == closed_count(old(users)@, averages@),
{
    let n = users.len();
    let mut closed: usize = 0;
    for i in 0..n
        invariant
            n == old(users)@.len(),
            users@.len() == n,
            averages_fit(old(users)@, averages@),
            forall|j: int|
                0 <= j < i ==> user_day_closed(old(users)@[j], #[trigger] users@[j], averages@[j]),
            forall|j: int| 0 <= j < i && old(users)@[j].wf() ==> (#[trigger] users@[j]).wf(),
            forall|j: int| i <= j < n ==> #[trigger] users@[j] == old(users)@[j],
            closed == closed_count(old(users)@.take(i as int), averages@.take(i as int)),
            closed <= i,
    {
        proof {
            assert(averages@.take(i + 1).drop_last() =~= averages@.take(i as int));
            assert(averages@.take(i + 1).last() == averages@[i as int]);
            assert(old(users)@.take(i + 1).drop_last() =~= old(users)@.take(i as int));
            assert(old(users)@.take(i + 1).last() == old(users)@[i as int]);
        }
        if !users[i].is_unit() {
            match &averages[i] {
                Some(a) => {
                    assert(users@[i as int] == old(users)@[i as int]);
                    close_user_day(&mut users[i], a);
                    closed = closed + 1;
                },
                None => {},
            }
        }
    }
    proof {
        assert(averages@.take(n as int) =~= averages@);
        assert(old(users)@.take(n as int) =~= old(users)@);
    }
    closed
}

} // verus!
