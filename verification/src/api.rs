//! The requests the exchange accepts and the responses it gives, and the
//! outcome each request is answered with.
use vstd::prelude::*;

use crate::credit::{Credit, TransferHistoryEntry};
use crate::directory::is_money;
use crate::error::Error;
use crate::object_id::{is_lower_object_id_text, new_object_id, object_id_text};
use crate::resources::Resources;
use crate::subscription::{money_credit_type, Subscription, SubscriptionType};
use crate::user::{User, UserType};

verus! {

/// The credit type a subscription request falls back to when none is
/// given.
pub fn default_money() -> (credit_type: String)
    ensures
        credit_type@ == money_credit_type(),
{
    let money = "money";
    proof {
        reveal_strlit("money");
        assert(money@ =~= money_credit_type());
    }
    money.to_owned()
}

/// A request to create a user.
pub struct CreateUserRequest {
    pub id: String,
    pub user_type: UserType,
}

impl CreateUserRequest {
    pub fn id(&self) -> (id: &String)
        ensures
            id == &self.id,
    {
        &self.id
    }

    pub fn user_type(&self) -> (user_type: UserType)
        ensures
            user_type == self.user_type,
    {
        self.user_type
    }
}

/// A request to set a unit's last day's average for one credit type.
pub struct PatchUserRequest<A> {
    pub credit_type: String,
    pub last_day_average: A,
}

impl<A: Copy> PatchUserRequest<A> {
    pub fn credit_type(&self) -> (credit_type: &String)
        ensures
            credit_type == &self.credit_type,
    {
        &self.credit_type
    }

    pub fn last_day_average(&self) -> (last_day_average: A)
        ensures
            last_day_average == self.last_day_average,
    {
        self.last_day_average
    }
}

/// A request to subscribe the user to pay `receiver` every hour.
pub struct CreateSubscriptionRequest<A> {
    pub receiver: String,
    pub value: A,
    pub subscription_type: SubscriptionType,
    pub priority: u32,
    pub credit_type: String,
}

impl<A: Copy> CreateSubscriptionRequest<A> {
    pub fn receiver(&self) -> (receiver: &String)
        ensures
            receiver == &self.receiver,
    {
        &self.receiver
    }

    pub fn value(&self) -> (value: A)
        ensures
            value == self.value,
    {
        self.value
    }

    pub fn subscription_type(&self) -> (subscription_type: SubscriptionType)
        ensures
            subscription_type == self.subscription_type,
    {
        self.subscription_type
    }

    pub fn priority(&self) -> (priority: u32)
        ensures
            priority == self.priority,
    {
        self.priority
    }

    pub fn credit_type(&self) -> (credit_type: &String)
        ensures
            credit_type == &self.credit_type,
    {
        &self.credit_type
    }

    /// The subscription the request asks for, under a new object id written
    /// in lower-case hexadecimal.
    pub fn new_subscription(&self) -> (subscription: Subscription<A>)
        ensures
            is_lower_object_id_text(subscription.id@),
            subscription.receiver@ == self.receiver@,
            subscription.value == self.value,
            subscription.subscription_type == self.subscription_type,
            subscription.priority == self.priority,
            subscription.credit_type@ == self.credit_type@,
    {
        let id = object_id_text(new_object_id());
        Subscription::new(
            id,
            self.receiver.clone(),
            self.value,
            self.subscription_type,
            self.priority,
            self.credit_type.clone(),
        )
    }
}

/// A subscription as it is shown, with the user who pays it.
pub struct GetSubscriptionResponse<A> {
    pub id: String,
    pub sender: String,
    pub receiver: String,
    pub value: A,
    pub subscription_type: SubscriptionType,
    pub priority: u32,
    pub credit_type: String,
}

impl<A: Copy> GetSubscriptionResponse<A> {
    pub fn new(sender: String, subscription: Subscription<A>) -> (response: Self)
        ensures
            response.id == subscription.id,
            response.sender == sender,
            response.receiver == subscription.receiver,
            response.value == subscription.value,
            response.subscription_type == subscription.subscription_type,
            response.priority == subscription.priority,
            response.credit_type == subscription.credit_type,
    {
        GetSubscriptionResponse {
            id: subscription.id,
            sender,
            receiver: subscription.receiver,
            value: subscription.value,
            subscription_type: subscription.subscription_type,
            priority: subscription.priority,
            credit_type: subscription.credit_type,
        }
    }
}

/// A request to create a stored credit.
pub struct CreateCreditRequest<A> {
    pub total: A,
    pub last_day_average: A,
    pub subscription_ids: Vec<String>,
    pub history: Vec<A>,
    pub transfer_history: Vec<TransferHistoryEntry<A>>,
}

impl<A: Copy> CreateCreditRequest<A> {
    pub fn total(&self) -> (total: A)
        ensures
            total == self.total,
    {
        self.total
    }

    pub fn last_day_average(&self) -> (last_day_average: A)
        ensures
            last_day_average == self.last_day_average,
    {
        self.last_day_average
    }

    pub fn subscription_ids(&self) -> (ids: &[String])
        ensures
            ids@ == self.subscription_ids@,
    {
        self.subscription_ids.as_slice()
    }

    pub fn history(&self) -> (history: &[A])
        ensures
            history@ == self.history@,
    {
        self.history.as_slice()
    }

    pub fn transfer_history(&self) -> (transfer_history: &[TransferHistoryEntry<A>])
        ensures
            transfer_history@ == self.transfer_history@,
    {
        self.transfer_history.as_slice()
    }
}

/// A stored credit as it is shown.
pub struct GetCreditResponse<A> {
    pub id: String,
    pub total: A,
    pub last_day_average: A,
    pub subscription_ids: Vec<String>,
    pub history: Vec<A>,
    pub transfer_history: Vec<TransferHistoryEntry<A>>,
}

/// A copy of a list of texts.
fn copy_texts(texts: &[String]) -> (copy: Vec<String>)
    ensures
        copy@ == texts@,
{
    let mut copy: Vec<String> = Vec::new();
    for i in 0..texts.len()
        invariant
            copy@ =~= texts@.take(i as int),
    {
        copy.push(texts[i].clone());
    }
    proof {
        assert(texts@.take(texts@.len() as int) =~= texts@);
    }
    copy
}

impl<A: Copy> GetCreditResponse<A> {
    /// The credit `credit` stored under `id`.
    pub fn from_credit(id: String, credit: Credit<A>) -> (response: Self)
        ensures
            response.id == id,
            response.total == credit.total,
            response.last_day_average == credit.last_day_average,
            response.subscription_ids@.len() == credit.subscriptions@.len(),
            forall|i: int|
                0 <= i < response.subscription_ids@.len() ==> (#[trigger] response.subscription_ids@[i])@
                    == credit.subscriptions@[i].id@,
            response.history == credit.history,
            response.transfer_history == credit.transfer_history,
    {
        let subscription_ids = credit.subscription_ids();
        GetCreditResponse {
            id,
            total: credit.total,
            last_day_average: credit.last_day_average,
            subscription_ids,
            history: credit.history,
            transfer_history: credit.transfer_history,
        }
    }

    /// The credit created from `request` under `id`.
    pub fn from_create_request(id: String, request: &CreateCreditRequest<A>) -> (response: Self)
        ensures
            response.id == id,
            response.total == request.total,
            response.last_day_average == request.last_day_average,
            response.subscription_ids@ == request.subscription_ids@,
            response.history@ == request.history@,
            response.transfer_history@ == request.transfer_history@,
    {
        let mut history: Vec<A> = Vec::new();
        for i in 0..request.history.len()
            invariant
                history@ =~= request.history@.take(i as int),
        {
            history.push(request.history[i]);
        }
        let mut transfer_history: Vec<TransferHistoryEntry<A>> = Vec::new();
        for i in 0..request.transfer_history.len()
            invariant
                transfer_history@ =~= request.transfer_history@.take(i as int),
        {
            transfer_history.push(request.transfer_history[i].clone());
        }
        proof {
            assert(request.history@.take(request.history@.len() as int) =~= request.history@);
            assert(request.transfer_history@.take(request.transfer_history@.len() as int)
                =~= request.transfer_history@);
        }
        GetCreditResponse {
            id,
            total: request.total,
            last_day_average: request.last_day_average,
            subscription_ids: copy_texts(request.subscription_ids.as_slice()),
            history,
            transfer_history,
        }
    }
}

/// The balance of one credit of a user and its latest hourly income.
pub struct CreditBalanceResponse<A> {
    pub credit_type: String,
    pub balance: A,
    pub hourly: A,
}

/// The latest recorded hourly income of `credit`, or `no_income` when no
/// hour has been recorded.
pub open spec fn latest_income<A>(credit: Credit<A>, no_income: A) -> A {
    if credit.history@.len() == 0 {
        no_income
    } else {
        credit.history@.last()
    }
}

impl<A: Copy> CreditBalanceResponse<A> {
    /// The balance of `credit`; `hourly` is the latest recorded hourly
    /// income, or `no_income` when no hour has been recorded.
    pub fn from_credit(credit_type: String, credit: &Credit<A>, no_income: A) -> (response: Self)
        ensures
            response.credit_type == credit_type,
            response.balance == credit.total,
            response.hourly == latest_income(*credit, no_income),
    {
        let hourly = match credit.latest_hourly() {
            Some(h) => h,
            None => no_income,
        };
        CreditBalanceResponse { credit_type, balance: credit.total, hourly }
    }
}

/// The balances of all of a user's credits.
pub struct ListCreditsResponse<A> {
    pub credits: Vec<CreditBalanceResponse<A>>,
}

/// The balance of each of the user's credits: money first, then each
/// resource in order; `no_income` stands for the hourly income of a credit
/// without history.
pub fn user_credit_balances<A: Copy>(user: &User<A>, no_income: A) -> (response: ListCreditsResponse<A>)
    ensures
        response.credits@.len() == 1 + match user.resources_spec() {
            Some(r) => r.entries@.len(),
            None => 0,
        },
        response.credits@[0].credit_type@ == money_credit_type(),
        response.credits@[0].balance == user.credit_spec().total,
        response.credits@[0].hourly == latest_income(user.credit_spec(), no_income),
        forall|i: int|
            1 <= i < response.credits@.len() ==> {
                let r = user.resources_spec()->0;
                &&& (#[trigger] response.credits@[i]).credit_type@ == r.entries@[i - 1].0@
                &&& response.credits@[i].balance == r.entries@[i - 1].1.total
                &&& response.credits@[i].hourly == latest_income(r.entries@[i - 1].1, no_income)
            },
{
    let mut credits: Vec<CreditBalanceResponse<A>> = Vec::new();
    credits.push(CreditBalanceResponse::from_credit(default_money(), user.credit(), no_income));
    match user.resources() {
        Some(resources) => {
            for k in 0..resources.entries.len()
                invariant
                    user.resources_spec() == Some(*resources),
                    credits@.len() == 1 + k,
                    credits@[0].credit_type@ == money_credit_type(),
                    credits@[0].balance == user.credit_spec().total,
                    credits@[0].hourly == latest_income(user.credit_spec(), no_income),
                    forall|i: int|
                        1 <= i < credits@.len() ==> (#[trigger] credits@[i]).credit_type@
                            == resources.entries@[i - 1].0@ && credits@[i].balance
                            == resources.entries@[i - 1].1.total && credits@[i].hourly
                            == latest_income(resources.entries@[i - 1].1, no_income),
            {
                let name = resources.entries[k].0.clone();
                credits.push(CreditBalanceResponse::from_credit(name, &resources.entries[k].1, no_income));
            }
        },
        None => {},
    }
    ListCreditsResponse { credits }
}

/// The user's credit of the given type: the money credit for `"money"`,
/// else the resource credit of that name (individuals hold none).
pub fn credit_by_type<'a, A>(user: &'a User<A>, credit_type: &str) -> (credit: Option<&'a Credit<A>>)
    requires
        user.wf(),
    ensures
        credit_type@ == money_credit_type() ==> credit == Some(&user.credit_spec()),
        credit_type@ != money_credit_type() ==> credit == match user.resources_spec() {
            Some(r) => match r.lookup(credit_type@) {
                Some(c) => Some(&c),
                None => None::<&Credit<A>>,
            },
            None => None::<&Credit<A>>,
        },
{
    if is_money(credit_type) {
        Some(user.credit())
    } else {
        match user.resources() {
            Some(resources) => resources.get(credit_type),
            None => None,
        }
    }
}

/// The status an answer carries.
#[derive(Debug, Clone, Copy, PartialEq, Eq, Structural)]
pub enum Status {
    Success,
    Created,
    BadRequest,
    NotFound,
    MethodNotAllowed,
    Conflict,
    InternalServerError,
}

/// How a request to set a unit's average is answered before anything is
/// changed.
#[derive(Debug, Clone, Copy, PartialEq, Eq, Structural)]
pub enum UnitUpdateCheck {
    /// No such user: 404.
    UserNotFound,
    /// The user is not a unit: 405.
    NotAUnit,
    /// The unit holds no credit of the requested type: 404.
    CreditTypeNotFound,
    /// The update goes ahead.
    Proceed,
}

/// Checks a request to set a unit's last day's average: the user must
/// exist, be a unit, and hold a credit of the given type (money, or a
/// resource credit of that name).
pub fn check_unit_update<A>(user: Option<&User<A>>, credit_type: &str) -> (check: UnitUpdateCheck)
    requires
        user matches Some(u) ==> u.wf(),
    ensures
        check == match user {
            None => UnitUpdateCheck::UserNotFound,
            Some(u) => if u.user_type_spec() != UserType::Unit {
                UnitUpdateCheck::NotAUnit
            } else if credit_type@ != money_credit_type() && !(u.resources_spec() matches Some(r)
                && r.position(credit_type@) is Some) {
                UnitUpdateCheck::CreditTypeNotFound
            } else {
                UnitUpdateCheck::Proceed
            },
        },
{
    match user {
        None => UnitUpdateCheck::UserNotFound,
        Some(u) => if !u.is_unit() {
            UnitUpdateCheck::NotAUnit
        } else if is_money(credit_type) {
            UnitUpdateCheck::Proceed
        } else {
            match u.resources() {
                Some(resources) => match resources.find(credit_type) {
                    Some(_) => UnitUpdateCheck::Proceed,
                    None => UnitUpdateCheck::CreditTypeNotFound,
                },
                None => UnitUpdateCheck::CreditTypeNotFound,
            }
        },
    }
}

/// The status of an answer to a unit update check.
pub fn unit_update_status(check: UnitUpdateCheck) -> (status: Status)
    ensures
        status == match check {
            UnitUpdateCheck::UserNotFound => Status::NotFound,
            UnitUpdateCheck::NotAUnit => Status::MethodNotAllowed,
            UnitUpdateCheck::CreditTypeNotFound => Status::NotFound,
            UnitUpdateCheck::Proceed => Status::Success,
        },
{
    match check {
        UnitUpdateCheck::UserNotFound => Status::NotFound,
        UnitUpdateCheck::NotAUnit => Status::MethodNotAllowed,
        UnitUpdateCheck::CreditTypeNotFound => Status::NotFound,
        UnitUpdateCheck::Proceed => Status::Success,
    }
}

/// Units never receive subscriptions.
pub fn may_receive_subscriptions<A>(receiver: &User<A>) -> (allowed: bool)
    ensures
        allowed == (receiver.user_type_spec() != UserType::Unit),
{
    !receiver.is_unit()
}

/// The status of a failed booking: a missing user or credit is 404, a
/// refused booking 400, anything else 500.
pub fn booking_error_status(error: &Error) -> (status: Status)
    ensures
        status == match error {
            Error::NotFound(_) => Status::NotFound,
            Error::Validation(_) => Status::BadRequest,
            _ => Status::InternalServerError,
        },
{
    match error {
        Error::NotFound(_) => Status::NotFound,
        Error::Validation(_) => Status::BadRequest,
        _ => Status::InternalServerError,
    }
}

/// The status of a failed user creation: a refused user (one that exists
/// already) is 409, anything else 500.
pub fn create_user_error_status(error: &Error) -> (status: Status)
    ensures
        status == match error {
            Error::Validation(_) => Status::Conflict,
            _ => Status::InternalServerError,
        },
{
    match error {
        Error::Validation(_) => Status::Conflict,
        _ => Status::InternalServerError,
    }
}

/// The status of a failed credit lookup: an id that is not an object id
/// is 400, anything else 500.
pub fn get_credit_error_status(error: &Error) -> (status: Status)
    ensures
        status == match error {
            Error::DbObjectIdError(_) => Status::BadRequest,
            _ => Status::InternalServerError,
        },
{
    match error {
        Error::DbObjectIdError(_) => Status::BadRequest,
        _ => Status::InternalServerError,
    }
}

/// An individual whose money credit fell to zero in an evaluation is
/// reported to the blackout controller.
pub fn needs_blackout_notice<A>(user: &User<A>, hit_zero: bool) -> (notify: bool)
    ensures
        notify == (user.user_type_spec() == UserType::Individual && hit_zero),
{
    user.is_individual() && hit_zero
}

/// What an hourly evaluation reports.
pub struct HourlyEvaluationResponse {
    pub evaluated_users: usize,
    pub booked_subscriptions: usize,
    pub blackout_notifications: usize,
    pub sr_overflow_notifications: usize,
}

/// What a daily evaluation reports.
pub struct DailyEvaluationResponse {
    pub updated_users: usize,
}

} // verus!
