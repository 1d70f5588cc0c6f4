//! Users: blocs, zones, individuals and units, each with a money credit;
//! all but individuals also hold resource credits.
use vstd::prelude::*;

use crate::credit::Credit;
use crate::resources::Resources;
use crate::subscription::Subscription;

verus! {

/// The four kinds of user.
#[derive(Debug, Clone, Copy, PartialEq, Eq, Structural)]
pub enum UserType {
    Bloc,
    Zone,
    Individual,
    Unit,
}

/// What every user has: its role, its id and its money credit.
pub struct BaseUser<T, A> {
    pub role: T,
    pub id: String,
    pub credit: Credit<A>,
}

impl<T, A> BaseUser<T, A> {
    pub fn new_base_user(role: T, id: &str, credit: Credit<A>) -> (user: Self)
        ensures
            user.role == role,
            user.id@ == id@,
            user.credit == credit,
    {
        BaseUser { role, id: id.to_owned(), credit }
    }

    pub fn id(&self) -> (id: &String)
        ensures
            id == &self.id,
    {
        &self.id
    }

    pub fn role(&self) -> (role: &T)
        ensures
            role == &self.role,
    {
        &self.role
    }

    pub fn credit(&self) -> (credit: &Credit<A>)
        ensures
            credit == &self.credit,
    {
        &self.credit
    }
}

/// A bloc holds resource credits.
pub struct BlocUser<A> {
    pub resources: Resources<A>,
}

/// A zone holds resource credits.
pub struct ZoneUser<A> {
    pub resources: Resources<A>,
}

/// An individual holds money only.
pub struct IndividualUser {}

/// A unit holds resource credits; it never receives subscriptions and its
/// last day's average is set from outside.
pub struct UnitUser<A> {
    pub resources: Resources<A>,
}

/// Copies the resource credits of `resources`.
fn copy_resources<A: Copy>(resources: &Resources<A>) -> (copy: Resources<A>)
    ensures
        copy.equivalent(resources),
        copy.names() == resources.names(),
        resources.wf() ==> copy.wf(),
{
    let mut entries: Vec<(String, Credit<A>)> = Vec::new();
    for i in 0..resources.entries.len()
        invariant
            entries@.len() == i,
            forall|j: int|
                0 <= j < i ==> (#[trigger] entries@[j]).0@ == resources.entries@[j].0@
                    && entries@[j].1.equivalent(&resources.entries@[j].1),
    {
        entries.push((resources.entries[i].0.clone(), resources.entries[i].1.clone()));
    }
    let copy = Resources { entries };
    proof {
        assert(copy.names() =~= resources.names());
    }
    copy
}

impl<A: Copy> BlocUser<A> {
    /// The stored form of a bloc's role: the same resource credits.
    pub fn from_domain(user: &BlocUser<A>) -> (stored: Self)
        ensures
            stored.resources.equivalent(&user.resources),
            user.resources.wf() ==> stored.resources.wf(),
    {
        BlocUser { resources: copy_resources(&user.resources) }
    }

    pub fn resources(&self) -> (resources: &Resources<A>)
        ensures
            resources == &self.resources,
    {
        &self.resources
    }
}

impl<A: Copy> ZoneUser<A> {
    /// The stored form of a zone's role: the same resource credits.
    pub fn from_domain(user: &ZoneUser<A>) -> (stored: Self)
        ensures
            stored.resources.equivalent(&user.resources),
            user.resources.wf() ==> stored.resources.wf(),
    {
        ZoneUser { resources: copy_resources(&user.resources) }
    }

    pub fn resources(&self) -> (resources: &Resources<A>)
        ensures
            resources == &self.resources,
    {
        &self.resources
    }
}

impl<A: Copy> UnitUser<A> {
    /// The stored form of a unit's role: the same resource credits.
    pub fn from_domain(user: &UnitUser<A>) -> (stored: Self)
        ensures
            stored.resources.equivalent(&user.resources),
            user.resources.wf() ==> stored.resources.wf(),
    {
        UnitUser { resources: copy_resources(&user.resources) }
    }

    pub fn resources(&self) -> (resources: &Resources<A>)
        ensures
            resources == &self.resources,
    {
        &self.resources
    }
}

impl IndividualUser {
    /// The stored form of an individual's role, which holds nothing.
    pub fn from_domain(_user: &IndividualUser) -> (stored: Self)
        ensures
            stored == (IndividualUser {}),
    {
        IndividualUser {}
    }
}

/// The subscriptions of the resource credits `entries`, resource by
/// resource.
pub open spec fn resource_subscriptions<A>(entries: Seq<(String, Credit<A>)>) -> Seq<Subscription<A>>
    decreases entries.len(),
{
    if entries.len() == 0 {
        Seq::empty()
    } else {
        resource_subscriptions(entries.drop_last()) + entries.last().1.subscriptions@
    }
}

/// A user of the exchange.
pub enum User<A> {
    Bloc(BaseUser<BlocUser<A>, A>),
    Zone(BaseUser<ZoneUser<A>, A>),
    Individual(BaseUser<IndividualUser, A>),
    Unit(BaseUser<UnitUser<A>, A>),
}

impl<A: Copy> Clone for User<A> {
    fn clone(&self) -> (copy: Self)
        ensures
            copy.equivalent(self),
            self.wf() ==> copy.wf(),
    {
        match self {
            User::Bloc(u) => User::Bloc(
                BaseUser { role: BlocUser::from_domain(&u.role), id: u.id.clone(), credit: u.credit.clone() },
            ),
            User::Zone(u) => User::Zone(
                BaseUser { role: ZoneUser::from_domain(&u.role), id: u.id.clone(), credit: u.credit.clone() },
            ),
            User::Individual(u) => User::Individual(
                BaseUser { role: IndividualUser {}, id: u.id.clone(), credit: u.credit.clone() },
            ),
            User::Unit(u) => User::Unit(
                BaseUser { role: UnitUser::from_domain(&u.role), id: u.id.clone(), credit: u.credit.clone() },
            ),
        }
    }
}

impl<A> User<A> {
    pub open spec fn user_type_spec(&self) -> UserType {
        match self {
            User::Bloc(_) => UserType::Bloc,
            User::Zone(_) => UserType::Zone,
            User::Individual(_) => UserType::Individual,
            User::Unit(_) => UserType::Unit,
        }
    }

    pub open spec fn id_spec(&self) -> Seq<char> {
        match self {
            User::Bloc(u) => u.id@,
            User::Zone(u) => u.id@,
            User::Individual(u) => u.id@,
            User::Unit(u) => u.id@,
        }
    }

    pub open spec fn credit_spec(&self) -> Credit<A> {
        match self {
            User::Bloc(u) => u.credit,
            User::Zone(u) => u.credit,
            User::Individual(u) => u.credit,
            User::Unit(u) => u.credit,
        }
    }

    /// The user's resource credits; individuals have none.
    pub open spec fn resources_spec(&self) -> Option<Resources<A>> {
        match self {
            User::Bloc(u) => Some(u.role.resources),
            User::Zone(u) => Some(u.role.resources),
            User::Individual(_) => None,
            User::Unit(u) => Some(u.role.resources),
        }
    }

    /// The user with its money credit replaced by `credit`.
    pub open spec fn with_credit(self, credit: Credit<A>) -> Self {
        match self {
            User::Bloc(u) => User::Bloc(BaseUser { credit, ..u }),
            User::Zone(u) => User::Zone(BaseUser { credit, ..u }),
            User::Individual(u) => User::Individual(BaseUser { credit, ..u }),
            User::Unit(u) => User::Unit(BaseUser { credit, ..u }),
        }
    }

    /// The user with its resource credits replaced by `resources`
    /// (an individual stays as it is).
    pub open spec fn with_resources(self, resources: Resources<A>) -> Self {
        match self {
            User::Bloc(u) => User::Bloc(BaseUser { role: BlocUser { resources }, ..u }),
            User::Zone(u) => User::Zone(BaseUser { role: ZoneUser { resources }, ..u }),
            User::Individual(u) => User::Individual(u),
            User::Unit(u) => User::Unit(BaseUser { role: UnitUser { resources }, ..u }),
        }
    }

    /// The subscriptions of the money credit followed by those of each
    /// resource credit.
    pub open spec fn all_subscriptions(&self) -> Seq<Subscription<A>> {
        self.credit_spec().subscriptions@ + match self.resources_spec() {
            Some(r) => resource_subscriptions(r.entries@),
            None => Seq::empty(),
        }
    }

    /// The resource credits, where present, have distinct names.
    pub open spec fn wf(&self) -> bool {
        match self.resources_spec() {
            Some(r) => r.wf(),
            None => true,
        }
    }

    /// `self` and `other` are the same kind of user with the same id and
    /// equivalent money and resource credits.
    pub open spec fn equivalent(&self, other: &User<A>) -> bool {
        &&& self.user_type_spec() == other.user_type_spec()
        &&& self.id_spec() == other.id_spec()
        &&& self.credit_spec().equivalent(&other.credit_spec())
        &&& match (self.resources_spec(), other.resources_spec()) {
            (Some(a), Some(b)) => a.equivalent(&b),
            (None, None) => true,
            _ => false,
        }
    }

    pub fn user_type(&self) -> (user_type: UserType)
        ensures
            user_type == self.user_type_spec(),
    {
        match self {
            User::Bloc(_) => UserType::Bloc,
            User::Zone(_) => UserType::Zone,
            User::Individual(_) => UserType::Individual,
            User::Unit(_) => UserType::Unit,
        }
    }

    pub fn is_unit(&self) -> (unit: bool)
        ensures
            unit == (self.user_type_spec() == UserType::Unit),
    {
        match self {
            User::Unit(_) => true,
            _ => false,
        }
    }

    pub fn is_individual(&self) -> (individual: bool)
        ensures
            individual == (self.user_type_spec() == UserType::Individual),
    {
        match self {
            User::Individual(_) => true,
            _ => false,
        }
    }

    pub fn id(&self) -> (id: &String)
        ensures
            id@ == self.id_spec(),
    {
        match self {
            User::Bloc(u) => &u.id,
            User::Zone(u) => &u.id,
            User::Individual(u) => &u.id,
            User::Unit(u) => &u.id,
        }
    }

    pub fn credit(&self) -> (credit: &Credit<A>)
        ensures
            *credit == self.credit_spec(),
    {
        match self {
            User::Bloc(u) => &u.credit,
            User::Zone(u) => &u.credit,
            User::Individual(u) => &u.credit,
            User::Unit(u) => &u.credit,
        }
    }

    pub fn credit_mut(&mut self) -> (credit: &mut Credit<A>)
        ensures
            *credit == old(self).credit_spec(),
            *final(self) == old(self).with_credit(*final(credit)),
    {
        match self {
            User::Bloc(u) => &mut u.credit,
            User::Zone(u) => &mut u.credit,
            User::Individual(u) => &mut u.credit,
            User::Unit(u) => &mut u.credit,
        }
    }

    pub fn credit_total(&self) -> (total: A)
        where
            A: Copy,
        ensures
            total == self.credit_spec().total,
    {
        self.credit().total
    }

    pub fn resources(&self) -> (resources: Option<&Resources<A>>)
        ensures
            resources == (match self.resources_spec() {
                Some(r) => Some(&r),
                None => None::<&Resources<A>>,
            }),
    {
        match self {
            User::Bloc(u) => Some(&u.role.resources),
            User::Zone(u) => Some(&u.role.resources),
            User::Individual(_) => None,
            User::Unit(u) => Some(&u.role.resources),
        }
    }

    pub fn resources_mut(&mut self) -> (resources: Option<&mut Resources<A>>)
        ensures
            match resources {
                Some(r) => old(self).resources_spec() == Some(*r) && *final(self) == old(
                    self,
                ).with_resources(*final(r)),
                None => old(self).resources_spec() is None && *final(self) == *old(self),
            },
    {
        match self {
            User::Bloc(u) => Some(&mut u.role.resources),
            User::Zone(u) => Some(&mut u.role.resources),
            User::Individual(_) => None,
            User::Unit(u) => Some(&mut u.role.resources),
        }
    }

    /// A new user of the given type with an empty money credit whose
    /// balance and average are `zero`, and no resource credits.
    pub fn new_user(user_type: UserType, id: &str, zero: A) -> (user: Self)
        where
            A: Copy,
        ensures
            user.user_type_spec() == user_type,
            user.id_spec() == id@,
            user.credit_spec().total == zero,
            user.credit_spec().last_day_average == zero,
            user.credit_spec().subscriptions@.len() == 0,
            user.credit_spec().history@.len() == 0,
            user.credit_spec().transfer_history@.len() == 0,
            match user.resources_spec() {
                Some(r) => r.entries@.len() == 0,
                None => true,
            },
            user.wf(),
    {
        let credit = Credit::new(zero, zero, Vec::new(), Vec::new());
        match user_type {
            UserType::Bloc => User::Bloc(BaseUser::new_base_user(BlocUser { resources: Resources::new() }, id, credit)),
            UserType::Zone => User::Zone(BaseUser::new_base_user(ZoneUser { resources: Resources::new() }, id, credit)),
            UserType::Individual => User::Individual(BaseUser::new_base_user(IndividualUser {}, id, credit)),
            UserType::Unit => User::Unit(BaseUser::new_base_user(UnitUser { resources: Resources::new() }, id, credit)),
        }
    }

    /// Copies of all the user's subscriptions: those of the money credit,
    /// then those of each resource credit.
    pub fn subscriptions(&self) -> (subscriptions: Vec<Subscription<A>>)
        where
            A: Copy,
        ensures
            subscriptions@ == self.all_subscriptions(),
    {
        let mut subscriptions: Vec<Subscription<A>> = Vec::new();
        let money = self.credit_subscriptions();
        for i in 0..money.len()
            invariant
                money@ == self.credit_spec().subscriptions@,
                subscriptions@ =~= money@.take(i as int),
        {
            subscriptions.push(money[i].clone());
        }
        proof {
            assert(money@.take(money@.len() as int) =~= money@);
        }
        if let Some(resources) = self.resources() {
            let ghost entries = resources.entries@;
            for k in 0..resources.entries.len()
                invariant
                    entries == resources.entries@,
                    subscriptions@ =~= money@ + resource_subscriptions(entries.take(k as int)),
            {
                proof {
                    assert(entries.take(k + 1).drop_last() =~= entries.take(k as int));
                }
                let subs = resources.entries[k].1.subscriptions();
                for i in 0..subs.len()
                    invariant
                        entries == resources.entries@,
                        k < entries.len(),
                        subs@ == entries[k as int].1.subscriptions@,
                        subscriptions@ =~= money@ + resource_subscriptions(entries.take(k as int)) + subs@.take(i as int),
                {
                    subscriptions.push(subs[i].clone());
                }
                proof {
                    assert(subs@.take(subs@.len() as int) =~= subs@);
                    assert(entries.take(k + 1).last() == entries[k as int]);
                }
            }
            proof {
                assert(entries.take(entries.len() as int) =~= entries);
            }
        }
        subscriptions
    }

    pub fn credit_subscriptions(&self) -> (subscriptions: &[Subscription<A>])
        ensures
            subscriptions@ == self.credit_spec().subscriptions@,
    {
        self.credit().subscriptions()
    }
}

} // verus!
