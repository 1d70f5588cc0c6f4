//! Settling an hourly evaluation: once every user's credits are evaluated,
//! where the booked amounts go, who is reported, and what is counted.
use vstd::prelude::*;

use crate::evaluation::{
    entry_view,
    amounts_for, booked_entries, lemma_filter_other_key, CreditEvaluation,
    IncomingAmounts,
};
use crate::credit::Credit;
use crate::directory::receiver_resource_position;
use crate::ordering::text_equal;
use crate::resources::Resources;
use crate::user::{User, UserType};

verus! {

/// The evaluations of one user's credits: its money credit and each of its
/// resource credits by name.
pub struct UserEvaluation<A> {
    pub money: CreditEvaluation<A>,
    pub resources: Vec<(String, CreditEvaluation<A>)>,
}

/// What one user receives in an hourly evaluation: the amounts booked to
/// its money credit and to each of its resource credits (in the order of
/// its resources), and whether its credits record an hourly income.
pub struct UserIncoming<A> {
    pub money: Vec<A>,
    pub resources: Vec<Vec<A>>,
    pub records_hourly: bool,
}

/// The settlement of an hourly evaluation.
pub struct HourlySettlement<A> {
    /// One entry per user, in the order of the users.
    pub incoming: Vec<UserIncoming<A>>,
    /// Individuals whose money credit fell to zero, to be reported.
    pub blackout_notifications: Vec<String>,
    /// `Sr` subscriptions that could not be booked: the paying user and
    /// what the balance lacked.
    pub sr_overflow_notifications: Vec<(String, A)>,
    pub evaluated_users: usize,
    pub booked_subscriptions: usize,
}

/// The booking entries of the resource evaluations `rs`, resource by
/// resource.
pub open spec fn resource_entries<A>(rs: Seq<(String, CreditEvaluation<A>)>) -> Seq<
    ((Seq<char>, Option<Seq<char>>), A),
>
    decreases rs.len(),
{
    if rs.len() == 0 {
        Seq::empty()
    } else {
        resource_entries(rs.drop_last()) + booked_entries(rs.last().1, Some(rs.last().0@))
    }
}

/// The booking entries of a user's evaluation: money first, then each
/// resource.
pub open spec fn user_entries<A>(e: UserEvaluation<A>) -> Seq<((Seq<char>, Option<Seq<char>>), A)> {
    booked_entries(e.money, None) + resource_entries(e.resources@)
}

/// All booking entries of the evaluations, user by user.
pub open spec fn all_entries<A>(evals: Seq<Option<UserEvaluation<A>>>) -> Seq<
    ((Seq<char>, Option<Seq<char>>), A),
>
    decreases evals.len(),
{
    if evals.len() == 0 {
        Seq::empty()
    } else {
        all_entries(evals.drop_last()) + match evals.last() {
            Some(e) => user_entries(e),
            None => Seq::empty(),
        }
    }
}

/// The number of subscriptions booked by the resource evaluations `rs`.
pub open spec fn resource_booked_count<A>(rs: Seq<(String, CreditEvaluation<A>)>) -> nat
    decreases rs.len(),
{
    if rs.len() == 0 {
        0
    } else {
        resource_booked_count(rs.drop_last()) + rs.last().1.booked_subscriptions@.len()
    }
}

/// The number of subscriptions booked in all evaluations.
pub open spec fn booked_count<A>(evals: Seq<Option<UserEvaluation<A>>>) -> nat
    decreases evals.len(),
{
    if evals.len() == 0 {
        0
    } else {
        booked_count(evals.drop_last()) + match evals.last() {
            Some(e) => e.money.booked_subscriptions@.len() + resource_booked_count(e.resources@),
            None => 0,
        }
    }
}

/// The number of users whose credits were evaluated.
pub open spec fn evaluated_count<A>(evals: Seq<Option<UserEvaluation<A>>>) -> nat
    decreases evals.len(),
{
    if evals.len() == 0 {
        0
    } else {
        evaluated_count(evals.drop_last()) + if evals.last() is Some {
            1nat
        } else {
            0nat
        }
    }
}

/// The ids of the individuals whose money credit fell to zero, in order.
pub open spec fn blackout_ids<A>(users: Seq<User<A>>, evals: Seq<Option<UserEvaluation<A>>>) -> Seq<Seq<char>>
    decreases evals.len(),
{
    if evals.len() == 0 || users.len() == 0 {
        Seq::empty()
    } else {
        blackout_ids(users.drop_last(), evals.drop_last()) + match evals.last() {
            Some(e) => if users.last().user_type_spec() == UserType::Individual && e.money.hit_zero {
                seq![users.last().id_spec()]
            } else {
                Seq::empty()
            },
            None => Seq::empty(),
        }
    }
}

/// What the unbooked `Sr` subscriptions of an evaluation lacked, with the
/// paying user.
pub open spec fn overflows_of<A>(id: Seq<char>, evaluation: CreditEvaluation<A>) -> Seq<(Seq<char>, A)> {
    evaluation.sr_overflows@.map_values(|a: A| (id, a))
}

/// The unbooked `Sr` amounts of resource evaluations, resource by resource.
pub open spec fn resource_overflows<A>(id: Seq<char>, rs: Seq<(String, CreditEvaluation<A>)>) -> Seq<(Seq<char>, A)>
    decreases rs.len(),
{
    if rs.len() == 0 {
        Seq::empty()
    } else {
        resource_overflows(id, rs.drop_last()) + overflows_of(id, rs.last().1)
    }
}

/// All unbooked `Sr` amounts, user by user: money first, then resources.
pub open spec fn overflow_pairs<A>(users: Seq<User<A>>, evals: Seq<Option<UserEvaluation<A>>>) -> Seq<(Seq<char>, A)>
    decreases evals.len(),
{
    if evals.len() == 0 || users.len() == 0 {
        Seq::empty()
    } else {
        overflow_pairs(users.drop_last(), evals.drop_last()) + match evals.last() {
            Some(e) => overflows_of(users.last().id_spec(), e.money) + resource_overflows(
                users.last().id_spec(),
                e.resources@,
            ),
            None => Seq::empty(),
        }
    }
}

/// The evaluations that count: a unit's credits are never evaluated, so
/// an evaluation given for a unit is left out.
pub open spec fn effective<A>(users: Seq<User<A>>, evals: Seq<Option<UserEvaluation<A>>>) -> Seq<
    Option<UserEvaluation<A>>,
> {
    Seq::new(
        evals.len(),
        |i: int|
            if users[i].user_type_spec() == UserType::Unit {
                None
            } else {
                evals[i]
            },
    )
}

/// The number of resource credits a user holds.
pub open spec fn resource_count<A>(user: User<A>) -> nat {
    match user.resources_spec() {
        Some(r) => r.entries@.len(),
        None => 0,
    }
}

/// What `settle_hourly` owes to user `i`: the amounts due to its money
/// credit and to each of its resource credits, and an hourly income record
/// on its credits unless it is a unit.
pub open spec fn settles_user<A>(
    users: Seq<User<A>>,
    evals: Seq<Option<UserEvaluation<A>>>,
    i: int,
    incoming: UserIncoming<A>,
) -> bool {
    let id = users[i].id_spec();
    &&& incoming.records_hourly == (users[i].user_type_spec() != UserType::Unit)
    &&& incoming.money@ == due(users, evals, i, (id, None))
    &&& incoming.resources@.len() == resource_count(users[i])
    &&& forall|k: int|
        0 <= k < incoming.resources@.len() ==> (#[trigger] incoming.resources@[k])@ == due(
            users,
            evals,
            i,
            (id, Some(users[i].resources_spec()->0.entries@[k].0@)),
        )
}

proof fn lemma_resource_count_prefix<A>(rs: Seq<(String, CreditEvaluation<A>)>, n: int)
    requires
        0 <= n <= rs.len(),
    ensures
        resource_booked_count(rs.take(n)) <= resource_booked_count(rs),
    decreases rs.len(),
{
    if n < rs.len() {
        lemma_resource_count_prefix(rs.drop_last(), n);
        assert(rs.drop_last().take(n) =~= rs.take(n));
    } else {
        assert(rs.take(n) =~= rs);
    }
}

proof fn lemma_booked_count_prefix<A>(evals: Seq<Option<UserEvaluation<A>>>, n: int)
    requires
        0 <= n <= evals.len(),
    ensures
        booked_count(evals.take(n)) <= booked_count(evals),
    decreases evals.len(),
{
    if n < evals.len() {
        lemma_booked_count_prefix(evals.drop_last(), n);
        assert(evals.drop_last().take(n) =~= evals.take(n));
    } else {
        assert(evals.take(n) =~= evals);
    }
}

proof fn lemma_evaluated_count_bound<A>(evals: Seq<Option<UserEvaluation<A>>>)
    ensures
        evaluated_count(evals) <= evals.len(),
    decreases evals.len(),
{
    if evals.len() > 0 {
        lemma_evaluated_count_bound(evals.drop_last());
    }
}

/// Copies what an evaluation's unbooked `Sr` subscriptions lacked onto
/// `out`, each paired with `id`.
fn push_overflows<A: Copy>(out: &mut Vec<(String, A)>, id: &String, evaluation: &CreditEvaluation<A>)
    ensures
        pairs_of(final(out)@) == pairs_of(old(out)@) + overflows_of(id@, *evaluation),
{
    let ghost start = pairs_of(out@);
    for t in 0..evaluation.sr_overflows.len()
        invariant
            pairs_of(out@) == start + overflows_of(id@, *evaluation).take(t as int),
    {
        let ghost prev = out@;
        out.push((id.clone(), evaluation.sr_overflows[t]));
        proof {
            assert(pairs_of(out@) =~= pairs_of(prev).push((id@, evaluation.sr_overflows@[t as int])));
            assert(overflows_of(id@, *evaluation).take(t + 1) =~= overflows_of(id@, *evaluation).take(t as int).push(
                overflows_of(id@, *evaluation)[t as int],
            ));
            assert(pairs_of(out@) =~= start + overflows_of(id@, *evaluation).take(t + 1));
        }
    }
    proof {
        let o = overflows_of(id@, *evaluation);
        assert(o.take(o.len() as int) =~= o);
    }
}

/// The view of a list of `(user, amount)` pairs.
pub open spec fn pairs_of<A>(pairs: Seq<(String, A)>) -> Seq<(Seq<char>, A)> {
    pairs.map_values(|p: (String, A)| (p.0@, p.1))
}

/// The view of a list of texts.
pub open spec fn texts_of(texts: Seq<String>) -> Seq<Seq<char>> {
    texts.map_values(|t: String| t@)
}

/// `key` is the money credit of `uid` or its credit of one of the
/// resources `names`.
pub open spec fn taken_in_user<A>(
    uid: Seq<char>,
    names: Seq<(String, crate::credit::Credit<A>)>,
    key: (Seq<char>, Option<Seq<char>>),
) -> bool {
    ||| key == (uid, None::<Seq<char>>)
    ||| exists|m: int| 0 <= m < names.len() && key == (uid, Some(#[trigger] names[m].0@))
}

/// The resource credits of a user, none for an individual.
pub open spec fn resource_entries_of<A>(user: User<A>) -> Seq<(String, crate::credit::Credit<A>)> {
    match user.resources_spec() {
        Some(r) => r.entries@,
        None => Seq::empty(),
    }
}

/// The user holds the credit `key`: the key names the user's id and its
/// money credit or one of its resource credits.
pub open spec fn holds_credit<A>(user: User<A>, key: (Seq<char>, Option<Seq<char>>)) -> bool {
    taken_in_user(user.id_spec(), resource_entries_of(user), key)
}

/// A user before position `i` holds the credit `key`, so the amounts for
/// it went to that user.
pub open spec fn taken_before<A>(users: Seq<User<A>>, i: int, key: (Seq<char>, Option<Seq<char>>)) -> bool {
    exists|j: int| 0 <= j < i && holds_credit(#[trigger] users[j], key)
}

/// The amounts due to user `i` for its credit `key`: all amounts booked to
/// that credit, unless an earlier user with the same id took them.
pub open spec fn due<A>(
    users: Seq<User<A>>,
    evals: Seq<Option<UserEvaluation<A>>>,
    i: int,
    key: (Seq<char>, Option<Seq<char>>),
) -> Seq<A> {
    if taken_before(users, i, key) {
        Seq::empty()
    } else {
        amounts_for(all_entries(evals), key)
    }
}

proof fn lemma_taken_in_user_step<A>(
    uid: Seq<char>,
    names: Seq<(String, crate::credit::Credit<A>)>,
    k: int,
    key: (Seq<char>, Option<Seq<char>>),
)
    requires
        0 <= k < names.len(),
        !taken_in_user(uid, names.take(k + 1), key),
    ensures
        !taken_in_user(uid, names.take(k), key),
        key != (uid, Some(names[k].0@)),
{
    if taken_in_user(uid, names.take(k), key) && key != (uid, None::<Seq<char>>) {
        let m = choose|m: int| 0 <= m < names.take(k).len() && key == (uid, Some(#[trigger] names.take(k)[m].0@));
        assert(names.take(k)[m] == names.take(k + 1)[m]);
    }
    assert(names.take(k + 1)[k] == names[k]);
}

/// What user `i` receives for its credit `key` in a settlement handing out
/// `incoming`: its money amounts, or those of its resource credit of the
/// key's name; nothing for a credit it does not hold.
pub open spec fn delivered<A>(
    users: Seq<User<A>>,
    incoming: Seq<UserIncoming<A>>,
    i: int,
    key: (Seq<char>, Option<Seq<char>>),
) -> Seq<A> {
    match key.1 {
        None => incoming[i].money@,
        Some(name) => match users[i].resources_spec() {
            Some(r) => match r.position(name) {
                Some(k) => incoming[i].resources@[k]@,
                None => Seq::empty(),
            },
            None => Seq::empty(),
        },
    }
}

/// A credit with balance and average `zero` and nothing recorded.
pub open spec fn is_fresh_credit<A>(credit: Credit<A>, zero: A) -> bool {
    &&& credit.total == zero
    &&& credit.last_day_average == zero
    &&& credit.subscriptions@.len() == 0
    &&& credit.history@.len() == 0
    &&& credit.transfer_history@.len() == 0
}

/// `after` is `before` with fresh resource credits (balance `zero`) added
/// after the ones it held, each for a resource that `entries` book to it.
/// A user without resource credits stays as it is.
pub open spec fn opened_from<A>(
    before: User<A>,
    after: User<A>,
    entries: Seq<((Seq<char>, Option<Seq<char>>), A)>,
    zero: A,
) -> bool {
    match before.resources_spec() {
        None => after == before,
        Some(rb) => after.resources_spec() matches Some(ra) && after == before.with_resources(ra)
            && ra.entries@.len() >= rb.entries@.len() && ra.entries@.take(rb.entries@.len() as int)
            == rb.entries@ && forall|k: int|
            rb.entries@.len() <= k < ra.entries@.len() ==> is_fresh_credit(
                (#[trigger] ra.entries@[k]).1,
                zero,
            ) && exists|t: int|
                0 <= t < entries.len() && #[trigger] entries[t].0 == (before.id_spec(), Some(ra.entries@[k].0@)),
    }
}

/// A user holding resource credits holds one for every resource that the
/// first `upto` of `entries` book to it.
pub open spec fn holds_booked<A>(user: User<A>, entries: Seq<((Seq<char>, Option<Seq<char>>), A)>, upto: int) -> bool {
    user.resources_spec() matches Some(r) ==> forall|t: int|
        0 <= t < upto && (#[trigger] entries[t]).0.0 == user.id_spec() && entries[t].0.1 is Some
            ==> r.position(entries[t].0.1->0) is Some
}

proof fn lemma_with_resources_twice<A>(user: User<A>, first: Resources<A>, second: Resources<A>)
    requires
        user.resources_spec() is Some,
    ensures
        user.with_resources(first).with_resources(second) == user.with_resources(second),
        user.with_resources(first).resources_spec() == Some(first),
        user.with_resources(first).id_spec() == user.id_spec(),
        user.with_resources(first).user_type_spec() == user.user_type_spec(),
        user.with_resources(first).credit_spec() == user.credit_spec(),
{
}

proof fn lemma_prefix_keeps_name<A>(before: Resources<A>, after: Resources<A>, name: Seq<char>)
    requires
        after.entries@.len() >= before.entries@.len(),
        after.entries@.take(before.entries@.len() as int) == before.entries@,
        before.position(name) is Some,
    ensures
        after.position(name) is Some,
{
    let m = choose|m: int| 0 <= m < before.entries@.len() && #[trigger] before.entries@[m].0@ == name;
    assert(after.entries@.take(before.entries@.len() as int)[m] == after.entries@[m]);
    assert(0 <= m < after.entries@.len() && after.entries@[m].0@ == name);
}

/// Gives every user holding resource credits a fresh credit (balance
/// `zero`) for each resource that `incoming` books to it and that it does
/// not hold yet.
fn open_booked_credits<A: Copy>(users: &mut Vec<User<A>>, incoming: &IncomingAmounts<A>, zero: A)
    requires
        forall|i: int| 0 <= i < old(users)@.len() ==> (#[trigger] old(users)@[i]).wf(),
    ensures
        final(users)@.len() == old(users)@.len(),
        forall|i: int|
            0 <= i < old(users)@.len() ==> opened_from(
                old(users)@[i],
                #[trigger] final(users)@[i],
                incoming@,
                zero,
            ),
        forall|i: int| 0 <= i < old(users)@.len() ==> (#[trigger] final(users)@[i]).wf(),
        forall|i: int|
            0 <= i < old(users)@.len() ==> holds_booked(#[trigger] final(users)@[i], incoming@, incoming@.len() as int),
{
    let ghost before = users@;
    let n = users.len();
    proof {
        assert forall|i: int| 0 <= i < n implies opened_from(before[i], #[trigger] users@[i], incoming@, zero) by {
            if before[i].resources_spec() is Some {
                let rb = before[i].resources_spec()->0;
                assert(rb.entries@.take(rb.entries@.len() as int) =~= rb.entries@);
                crate::directory::lemma_with_own_resources_pub(before[i]);
            }
        }
    }
    for t in 0..incoming.entries.len()
        invariant
            n == before.len(),
            users@.len() == n,
            before == old(users)@,
            forall|i: int| 0 <= i < n ==> opened_from(before[i], #[trigger] users@[i], incoming@, zero),
            forall|i: int| 0 <= i < n ==> (#[trigger] users@[i]).wf(),
            forall|i: int| 0 <= i < n ==> holds_booked(#[trigger] users@[i], incoming@, t as int),
    {
        proof {
            assert(incoming@[t as int] == entry_view(incoming.entries@[t as int]));
        }
        match &incoming.entries[t].resource {
            None => {
                proof {
                    assert forall|i: int| 0 <= i < n implies holds_booked(#[trigger] users@[i], incoming@, t + 1) by {
                        assert(holds_booked(users@[i], incoming@, t as int));
                    }
                }
            },
            Some(name) => {
                let receiver = &incoming.entries[t].receiver;
                let ghost key = (receiver@, Some(name@));
                assert(incoming@[t as int].0 == key);
                for j in 0..n
                    invariant
                        n == before.len(),
                        users@.len() == n,
                        key == (receiver@, Some(name@)),
                        0 <= t < incoming@.len(),
                        incoming@[t as int].0 == key,
                        forall|i: int| 0 <= i < n ==> opened_from(before[i], #[trigger] users@[i], incoming@, zero),
                        forall|i: int| 0 <= i < n ==> (#[trigger] users@[i]).wf(),
                        forall|i: int| j <= i < n ==> holds_booked(#[trigger] users@[i], incoming@, t as int),
                        forall|i: int| 0 <= i < j ==> holds_booked(#[trigger] users@[i], incoming@, t + 1),
                {
                    let ghost u0 = users@[j as int];
                    if text_equal(users[j].id().as_str(), receiver.as_str()) && users[j].resources().is_some() {
                        let _ = receiver_resource_position(&mut users[j], name.as_str(), zero);
                        proof {
                            let u1 = users@[j as int];
                            let r0 = u0.resources_spec()->0;
                            let r1 = u1.resources_spec()->0;
                            let rb = before[j as int].resources_spec()->0;
                            lemma_with_resources_twice(before[j as int], r0, r1);
                            assert(r1.entries@.len() >= r0.entries@.len());
                            assert(r1.entries@.take(r0.entries@.len() as int) =~= r0.entries@);
                            assert(r1.entries@.take(rb.entries@.len() as int) =~= rb.entries@) by {
                                assert(r0.entries@.take(rb.entries@.len() as int) == rb.entries@);
                            }
                            assert forall|k: int| rb.entries@.len() <= k < r1.entries@.len() implies is_fresh_credit(
                                (#[trigger] r1.entries@[k]).1,
                                zero,
                            ) && exists|tt: int|
                                0 <= tt < incoming@.len() && #[trigger] incoming@[tt].0 == (
                                    before[j as int].id_spec(),
                                    Some(r1.entries@[k].0@),
                                ) by {
                                if k < r0.entries@.len() {
                                    assert(r1.entries@.take(r0.entries@.len() as int)[k] == r1.entries@[k]);
                                } else {
                                    assert(incoming@[t as int].0 == (before[j as int].id_spec(), Some(r1.entries@[k].0@)));
                                }
                            }
                            assert(opened_from(before[j as int], u1, incoming@, zero));
                            assert forall|tt: int|
                                0 <= tt < t + 1 && (#[trigger] incoming@[tt]).0.0 == u1.id_spec() && incoming@[tt].0.1 is Some
                                    implies r1.position(incoming@[tt].0.1->0) is Some by {
                                if tt < t {
                                    assert(holds_booked(u0, incoming@, t as int));
                                    lemma_prefix_keeps_name(r0, r1, incoming@[tt].0.1->0);
                                } else {
                                    let k = choose|k: int| 0 <= k < r1.entries@.len() && r1.entries@[k].0@ == name@;
                                    assert(0 <= k < r1.entries@.len() && #[trigger] r1.entries@[k].0@ == name@);
                                }
                            }
                        }
                    } else {
                        proof {
                            assert forall|tt: int|
                                0 <= tt < t + 1 && (#[trigger] incoming@[tt]).0.0 == u0.id_spec() && incoming@[tt].0.1 is Some
                                    && u0.resources_spec() is Some implies u0.resources_spec()->0.position(
                                incoming@[tt].0.1->0,
                            ) is Some by {
                                assert(holds_booked(u0, incoming@, t as int));
                            }
                        }
                    }
                }
            },
        }
    }
}

/// Whether the hourly evaluation evaluates the user's credits: every user
/// but a unit.
pub fn is_evaluated_hourly<A>(user: &User<A>) -> (evaluated: bool)
    ensures
        evaluated == (user.user_type_spec() != UserType::Unit),
{
    !user.is_unit()
}

/// Settles an hourly evaluation. `evaluations[i]` holds the evaluation of
/// user `i`'s credits; a unit's credits are never evaluated, so an
/// evaluation given for a unit is left out. Every user holding resource
/// credits first gets a fresh credit (balance `zero`) for each resource
/// that is booked to it and that it does not hold yet. The amounts booked
/// to a user's money credit, and to each of its resource credits, are then
/// handed to that user in booking order; users other than units record an
/// hourly income on their credits; individuals whose money credit fell to
/// zero are reported, as are all unbooked `Sr` subscriptions; evaluated
/// users and booked subscriptions are counted.
pub fn settle_hourly<A: Copy>(
    users: &mut Vec<User<A>>,
    evaluations: &Vec<Option<UserEvaluation<A>>>,
    zero: A,
) -> (settlement: HourlySettlement<A>)
    requires
        old(users)@.len() == evaluations@.len(),
        forall|i: int| 0 <= i < old(users)@.len() ==> (#[trigger] old(users)@[i]).wf(),
        booked_count(effective(old(users)@, evaluations@)) <= usize::MAX,
    ensures
        final(users)@.len() == old(users)@.len(),
        forall|i: int|
            0 <= i < old(users)@.len() ==> opened_from(
                old(users)@[i],
                #[trigger] final(users)@[i],
                all_entries(effective(old(users)@, evaluations@)),
                zero,
            ),
        forall|i: int| 0 <= i < old(users)@.len() ==> (#[trigger] final(users)@[i]).wf(),
        forall|i: int|
            0 <= i < old(users)@.len() ==> holds_booked(
                #[trigger] final(users)@[i],
                all_entries(effective(old(users)@, evaluations@)),
                all_entries(effective(old(users)@, evaluations@)).len() as int,
            ),
        settlement.incoming@.len() == old(users)@.len(),
        forall|i: int|
            0 <= i < old(users)@.len() ==> settles_user(
                final(users)@,
                effective(old(users)@, evaluations@),
                i,
                #[trigger] settlement.incoming@[i],
            ),
        texts_of(settlement.blackout_notifications@) == blackout_ids(old(users)@, effective(old(users)@, evaluations@)),
        pairs_of(settlement.sr_overflow_notifications@) == overflow_pairs(
            old(users)@,
            effective(old(users)@, evaluations@),
        ),
        settlement.evaluated_users == evaluated_count(effective(old(users)@, evaluations@)),
        settlement.booked_subscriptions == booked_count(effective(old(users)@, evaluations@)),
{
    let ghost evals = effective(users@, evaluations@);
    let mut incoming: IncomingAmounts<A> = IncomingAmounts::new();
    let mut blackout: Vec<String> = Vec::new();
    let mut overflows: Vec<(String, A)> = Vec::new();
    let mut evaluated: usize = 0;
    let mut booked: usize = 0;
    let n = users.len();
    for i in 0..n
        invariant
            n == users@.len(),
            evals == effective(users@, evaluations@),
            users@.len() == evals.len(),
            booked_count(evals) <= usize::MAX,
            incoming@ == all_entries(evals.take(i as int)),
            texts_of(blackout@) == blackout_ids(users@.take(i as int), evals.take(i as int)),
            pairs_of(overflows@) == overflow_pairs(users@.take(i as int), evals.take(i as int)),
            evaluated == evaluated_count(evals.take(i as int)),
            booked == booked_count(evals.take(i as int)),
    {
        proof {
            assert(evals.take(i + 1).drop_last() =~= evals.take(i as int));
            assert(users@.take(i + 1).drop_last() =~= users@.take(i as int));
            assert(evals.take(i + 1).last() == evals[i as int]);
            assert(users@.take(i + 1).last() == users@[i as int]);
            lemma_booked_count_prefix(evals, i + 1);
            lemma_evaluated_count_bound(evals.take(i as int));
        }
        let counted = if users[i].is_unit() {
            None
        } else {
            evaluations[i].as_ref()
        };
        assert(counted == match evals[i as int] { Some(e) => Some(&e), None => None::<&UserEvaluation<A>> });
        match counted {
            None => {},
            Some(e) => {
                let id = users[i].id();
                evaluated = evaluated + 1;
                let ghost before_booked = booked;
                booked = booked + e.money.booked_subscriptions.len();
                incoming.add_booked(&e.money, None);
                if users[i].is_individual() && e.money.hit_zero {
                    let ghost prev = blackout@;
                    blackout.push(id.clone());
                    proof {
                        assert(texts_of(blackout@) =~= texts_of(prev).push(id@));
                    }
                }
                push_overflows(&mut overflows, id, &e.money);
                let ghost base_entries = incoming@;
                let ghost base_pairs = pairs_of(overflows@);
                proof {
                    assert(booked_count(evals.take(i + 1)) == before_booked
                        + e.money.booked_subscriptions@.len() + resource_booked_count(e.resources@));
                }
                for k in 0..e.resources.len()
                    invariant
                        i < n,
                        n == users@.len(),
                        evals.len() == n,
                        booked_count(evals.take(i + 1)) == before_booked
                            + e.money.booked_subscriptions@.len() + resource_booked_count(e.resources@),
                        booked_count(evals) <= usize::MAX,
                        booked_count(evals.take(i + 1)) <= booked_count(evals),
                        evals.take(i + 1).last() == Some(*e),
                        booked == before_booked + e.money.booked_subscriptions@.len()
                            + resource_booked_count(e.resources@.take(k as int)),
                        before_booked == booked_count(evals.take(i as int)),
                        incoming@ == base_entries + resource_entries(e.resources@.take(k as int)),
                        pairs_of(overflows@) == base_pairs + resource_overflows(id@, e.resources@.take(k as int)),
                {
                    proof {
                        assert(e.resources@.take(k + 1).drop_last() =~= e.resources@.take(k as int));
                        assert(e.resources@.take(k + 1).last() == e.resources@[k as int]);
                        lemma_resource_count_prefix(e.resources@, k + 1);
                    }
                    let (name, re) = &e.resources[k];
                    booked = booked + re.booked_subscriptions.len();
                    incoming.add_booked(re, Some(name.as_str()));
                    push_overflows(&mut overflows, id, re);
                }
                proof {
                    assert(e.resources@.take(e.resources@.len() as int) =~= e.resources@);
                }
            },
        }
        proof {
            assert(all_entries(evals.take(i + 1)) =~= all_entries(evals.take(i as int)) + match evals[i as int] {
                Some(e) => user_entries(e),
                None => Seq::empty(),
            });
        }
    }
    proof {
        assert(evals.take(n as int) =~= evals);
        assert(users@.take(n as int) =~= users@);
    }
    let ghost all = incoming@;
    let ghost before_users = users@;
    open_booked_credits(users, &incoming, zero);
    proof {
        assert forall|j: int| 0 <= j < n implies (#[trigger] users@[j]).user_type_spec()
            == before_users[j].user_type_spec() && users@[j].id_spec() == before_users[j].id_spec() by {
            assert(opened_from(before_users[j], users@[j], incoming@, zero));
            if before_users[j].resources_spec() is Some {
                lemma_with_resources_twice(before_users[j], users@[j].resources_spec()->0, users@[j].resources_spec()->0);
            }
        }
        assert(effective(users@, evaluations@) =~= evals);
    }
    let mut settled: Vec<UserIncoming<A>> = Vec::new();
    for i in 0..n
        invariant
            n == users@.len(),
            evals == effective(users@, evaluations@),
            all == all_entries(evals),
            forall|j: int| 0 <= j < users@.len() ==> (#[trigger] users@[j]).wf(),
            settled@.len() == i,
            forall|j: int| 0 <= j < i ==> settles_user(users@, evals, j, #[trigger] settled@[j]),
            forall|key: (Seq<char>, Option<Seq<char>>)|
                #![trigger amounts_for(incoming@, key)]
                (taken_before(users@, i as int, key) ==> amounts_for(incoming@, key).len() == 0) && (
                !taken_before(users@, i as int, key) ==> amounts_for(incoming@, key) == amounts_for(all, key)),
    {
        let user = &users[i];
        let id = user.id();
        let ghost uid = id@;
        let ghost names = resource_entries_of(*user);
        let ghost untouched = incoming@;
        let ghost kt0 = (uid, None::<Seq<char>>);
        let money = incoming.take(id.as_str(), None);
        proof {
            if taken_before(users@, i as int, kt0) {
                assert(money@ =~= Seq::<A>::empty());
            }
            assert(money@ == due(users@, evals, i as int, kt0));
            assert forall|key: (Seq<char>, Option<Seq<char>>)|
                #![trigger amounts_for(incoming@, key)]
                (taken_before(users@, i as int, key) || taken_in_user::<A>(uid, Seq::empty(), key) ==> amounts_for(
                    incoming@,
                    key,
                ).len() == 0) && (!taken_before(users@, i as int, key) && !taken_in_user::<A>(uid, Seq::empty(), key)
                    ==> amounts_for(incoming@, key) == amounts_for(all, key)) by {
                if key == kt0 {
                    lemma_filter_other_key(untouched, kt0, (uid, Some(Seq::empty())));
                } else {
                    lemma_filter_other_key(untouched, kt0, key);
                    assert(amounts_for(incoming@, key) == amounts_for(untouched, key));
                }
            }
        }
        let mut resource_amounts: Vec<Vec<A>> = Vec::new();
        match user.resources() {
            Some(resources) => {
                proof {
                    assert(resources.entries@.take(0) =~= Seq::<(String, crate::credit::Credit<A>)>::empty());
                }
                for k in 0..resources.entries.len()
                    invariant
                        i < n,
                        n == users@.len(),
                        all == all_entries(evals),
                        user.resources_spec() == Some(*resources),
                        resources.wf(),
                        uid == user.id_spec(),
                        id@ == uid,
                        *user == users@[i as int],
                        resource_amounts@.len() == k,
                        forall|m: int|
                            0 <= m < k ==> (#[trigger] resource_amounts@[m])@ == due(
                                users@,
                                evals,
                                i as int,
                                (uid, Some(resources.entries@[m].0@)),
                            ),
                        forall|key: (Seq<char>, Option<Seq<char>>)|
                            #![trigger amounts_for(incoming@, key)]
                            (taken_before(users@, i as int, key) || taken_in_user(
                                uid,
                                resources.entries@.take(k as int),
                                key,
                            ) ==> amounts_for(incoming@, key).len() == 0) && (!taken_before(users@, i as int, key)
                                && !taken_in_user(uid, resources.entries@.take(k as int), key) ==> amounts_for(
                                incoming@,
                                key,
                            ) == amounts_for(all, key)),
                {
                    let name = &resources.entries[k].0;
                    let ghost kt = (uid, Some(name@));
                    let ghost current = incoming@;
                    let ghost prev_amounts = resource_amounts@;
                    proof {
                        assert(!taken_in_user(uid, resources.entries@.take(k as int), kt)) by {
                            if taken_in_user(uid, resources.entries@.take(k as int), kt) {
                                let m = choose|m: int|
                                    0 <= m < resources.entries@.take(k as int).len() && kt == (uid, Some(
                                        #[trigger] resources.entries@.take(k as int)[m].0@,
                                    ));
                                assert(resources.entries@.take(k as int)[m] == resources.entries@[m]);
                                assert(resources.entries@[m].0@ != resources.entries@[k as int].0@);
                            }
                        }
                        assert(amounts_for(incoming@, kt) == amounts_for(current, kt));
                    }
                    let amounts = incoming.take(id.as_str(), Some(name.as_str()));
                    proof {
                        if taken_before(users@, i as int, kt) {
                            assert(amounts@ =~= Seq::<A>::empty());
                        }
                        assert(amounts@ == due(users@, evals, i as int, kt));
                    }
                    resource_amounts.push(amounts);
                    proof {
                        assert forall|m: int| 0 <= m < k + 1 implies (#[trigger] resource_amounts@[m])@ == due(
                            users@,
                            evals,
                            i as int,
                            (uid, Some(resources.entries@[m].0@)),
                        ) by {
                            if m < k {
                                assert(resource_amounts@[m] == prev_amounts[m]);
                            }
                        }
                        assert forall|key: (Seq<char>, Option<Seq<char>>)|
                            #![trigger amounts_for(incoming@, key)]
                            (taken_before(users@, i as int, key) || taken_in_user(
                                uid,
                                resources.entries@.take(k + 1),
                                key,
                            ) ==> amounts_for(incoming@, key).len() == 0) && (!taken_before(users@, i as int, key)
                                && !taken_in_user(uid, resources.entries@.take(k + 1), key) ==> amounts_for(
                                incoming@,
                                key,
                            ) == amounts_for(all, key)) by {
                            if key == kt {
                                lemma_filter_other_key(current, kt, (uid, None::<Seq<char>>));
                                assert(taken_in_user(uid, resources.entries@.take(k + 1), key)) by {
                                    assert(resources.entries@.take(k + 1)[k as int] == resources.entries@[k as int]);
                                }
                            } else {
                                lemma_filter_other_key(current, kt, key);
                                assert(amounts_for(incoming@, key) == amounts_for(current, key));
                                if taken_in_user(uid, resources.entries@.take(k + 1), key) {
                                    if key != (uid, None::<Seq<char>>) {
                                        let m = choose|m: int|
                                            0 <= m < resources.entries@.take(k + 1).len() && key == (uid, Some(
                                                #[trigger] resources.entries@.take(k + 1)[m].0@,
                                            ));
                                        assert(m != k);
                                        assert(resources.entries@.take(k + 1)[m] == resources.entries@.take(k as int)[m]);
                                        assert(taken_in_user(uid, resources.entries@.take(k as int), key));
                                    }
                                } else {
                                    lemma_taken_in_user_step(uid, resources.entries@, k as int, key);
                                }
                            }
                        }
                    }
                }
                proof {
                    assert(resources.entries@.take(resources.entries@.len() as int) =~= resources.entries@);
                }
            },
            None => {},
        }
        proof {
            assert forall|key: (Seq<char>, Option<Seq<char>>)|
                #![trigger amounts_for(incoming@, key)]
                (taken_before(users@, i + 1, key) ==> amounts_for(incoming@, key).len() == 0) && (!taken_before(
                    users@,
                    i + 1,
                    key,
                ) ==> amounts_for(incoming@, key) == amounts_for(all, key)) by {
                if taken_before(users@, i + 1, key) && !taken_before(users@, i as int, key) {
                    let j = choose|j: int| 0 <= j < i + 1 && holds_credit(#[trigger] users@[j], key);
                    if j < i {
                        assert(taken_before(users@, i as int, key));
                    }
                    assert(holds_credit(users@[i as int], key));
                }
                if !taken_before(users@, i + 1, key) {
                    assert(!holds_credit(users@[i as int], key));
                    assert(!taken_before(users@, i as int, key)) by {
                        if taken_before(users@, i as int, key) {
                            let j = choose|j: int| 0 <= j < i && holds_credit(#[trigger] users@[j], key);
                            assert(0 <= j < i + 1 && holds_credit(users@[j], key));
                        }
                    }
                }
            }
        }
        let records_hourly = !user.is_unit();
        settled.push(UserIncoming { money, resources: resource_amounts, records_hourly });
    }
    HourlySettlement {
        incoming: settled,
        blackout_notifications: blackout,
        sr_overflow_notifications: overflows,
        evaluated_users: evaluated,
        booked_subscriptions: booked,
    }
}

} // verus!
