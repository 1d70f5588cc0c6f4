use credit_exchanger::api::{
    booking_error_status, check_unit_update, create_user_error_status, credit_by_type, default_money,
    get_credit_error_status, may_receive_subscriptions, needs_blackout_notice, unit_update_status,
    user_credit_balances, CreditBalanceResponse, CreateUserRequest, GetCreditResponse,
    GetSubscriptionResponse, Status, UnitUpdateCheck,
};
use credit_exchanger::credit::Credit;
use credit_exchanger::directory::{
    add_subscription_to_resource_credit, booking_entry, booking_sides, check_booking_parties, BookingSides, record_self_booking, find_listed_subscription, find_subscription_sender, find_user,
    is_money,
    list_user_subscriptions, receiver_resource_position, remove_user_subscription,
    sender_resource_position, update_unit_credit_last_day_average,
};
use credit_exchanger::error::Error;
use credit_exchanger::subscription::{Subscription, SubscriptionType};
use credit_exchanger::user::{IndividualUser, User, UserType};

fn subscription(id: &str, receiver: &str, credit_type: &str) -> Subscription<f32> {
    Subscription::new(
        id.to_string(),
        receiver.to_string(),
        10.0,
        SubscriptionType::Contract,
        1,
        credit_type.to_string(),
    )
}

fn user(user_type: UserType, id: &str) -> User<f32> {
    User::new_user(user_type, id, 0.0)
}

#[test]
fn new_users_start_empty() {
    for (user_type, has_resources) in [
        (UserType::Bloc, true),
        (UserType::Zone, true),
        (UserType::Individual, false),
        (UserType::Unit, true),
    ] {
        let u = user(user_type, "someone");
        assert_eq!(u.user_type(), user_type);
        assert_eq!(u.id(), "someone");
        assert_eq!(u.credit().total(), 0.0);
        assert_eq!(u.credit().last_day_average(), 0.0);
        assert!(u.credit().subscriptions().is_empty());
        assert!(u.credit().history().is_empty());
        assert_eq!(u.resources().is_some(), has_resources);
        if let Some(r) = u.resources() {
            assert_eq!(r.len(), 0);
        }
    }
    assert!(user(UserType::Unit, "u").is_unit());
    assert!(user(UserType::Individual, "i").is_individual());
}

#[test]
fn create_user_request_getters() {
    let request = CreateUserRequest { id: "alice".to_string(), user_type: UserType::Individual };
    assert_eq!(request.id(), "alice");
    assert_eq!(request.user_type(), UserType::Individual);
    let _ = IndividualUser::from_domain(&IndividualUser {});
}

#[test]
fn listing_subscriptions_of_a_user() {
    let mut alice = user(UserType::Individual, "alice");
    let mut bob = user(UserType::Bloc, "bob");
    let carol = user(UserType::Individual, "carol");
    alice.credit_mut().add_subscription(subscription("a1", "bob", "money"));
    alice.credit_mut().add_subscription(subscription("a2", "carol", "money"));
    add_subscription_to_resource_credit(&mut bob, "oil", subscription("b1", "alice", "oil"), 0.0)
        .ok()
        .unwrap();
    let users = vec![alice, bob, carol];

    let all = list_user_subscriptions(&users, "alice", None, None).unwrap();
    let listed: Vec<(&str, &str)> = all.iter().map(|(s, sub)| (s.as_str(), sub.id().as_str())).collect();
    assert_eq!(listed, vec![("alice", "a1"), ("alice", "a2"), ("bob", "b1")]);

    let to_bob = list_user_subscriptions(&users, "alice", None, Some("bob")).unwrap();
    assert_eq!(to_bob.len(), 1);
    assert_eq!(to_bob[0].1.id(), "a1");

    let from_bob = list_user_subscriptions(&users, "alice", Some("bob"), None).unwrap();
    assert_eq!(from_bob.len(), 1);
    assert_eq!(from_bob[0].1.id(), "b1");

    assert!(list_user_subscriptions(&users, "carol", None, None).unwrap().len() == 1);
    assert!(list_user_subscriptions(&users, "no_such_user", None, None).is_none());

    assert_eq!(find_subscription_sender(&users, "b1"), Some("bob".to_string()));
    assert_eq!(find_subscription_sender(&users, "nope"), None);
    assert_eq!(find_user(&users, "carol"), Some(2));
    assert_eq!(find_user(&users, "dave"), None);

    let (sender, found) = find_listed_subscription(all.clone(), "b1").unwrap();
    assert_eq!(sender, "bob");
    assert_eq!(found.receiver(), "alice");
    assert_eq!(found.credit_type(), "oil");
    assert!(find_listed_subscription(all, "missing").is_none());
}

#[test]
fn removing_subscriptions_from_money_and_resources() {
    let mut bloc = user(UserType::Bloc, "bloc");
    bloc.credit_mut().add_subscription(subscription("m", "x", "money"));
    add_subscription_to_resource_credit(&mut bloc, "oil", subscription("o", "x", "oil"), 0.0).ok().unwrap();
    assert!(remove_user_subscription(&mut bloc, "o"));
    assert!(bloc.resources().unwrap().get("oil").unwrap().subscriptions().is_empty());
    assert_eq!(bloc.credit().subscriptions().len(), 1);
    assert!(!remove_user_subscription(&mut bloc, "o"));
    assert!(remove_user_subscription(&mut bloc, "m"));
    assert!(bloc.subscriptions().is_empty());

    let mut individual = user(UserType::Individual, "ind");
    assert!(!remove_user_subscription(&mut individual, "nonexistent_sub"));
}

#[test]
fn unit_average_updates() {
    let mut unit = user(UserType::Unit, "unit");
    assert!(update_unit_credit_last_day_average(&mut unit, "money", 42.0).is_ok());
    assert_eq!(unit.credit().last_day_average(), 42.0);
    assert!(matches!(
        update_unit_credit_last_day_average(&mut unit, "unknown", 1.0),
        Err(Error::NotFound("credit type"))
    ));
    receiver_resource_position(&mut unit, "oil", 0.0).ok().unwrap();
    assert!(update_unit_credit_last_day_average(&mut unit, "oil", 7.0).is_ok());
    assert_eq!(unit.resources().unwrap().get("oil").unwrap().last_day_average(), 7.0);
}

#[test]
fn unit_update_checks() {
    let unit = user(UserType::Unit, "patch_unit_user");
    let bloc = user(UserType::Bloc, "patch_bloc_user");
    assert_eq!(check_unit_update::<f32>(None, "money"), UnitUpdateCheck::UserNotFound);
    assert_eq!(check_unit_update(Some(&bloc), "money"), UnitUpdateCheck::NotAUnit);
    assert_eq!(check_unit_update(Some(&unit), "unknown"), UnitUpdateCheck::CreditTypeNotFound);
    assert_eq!(check_unit_update(Some(&unit), "money"), UnitUpdateCheck::Proceed);
    let mut oil_unit = user(UserType::Unit, "patch_oil_unit");
    receiver_resource_position(&mut oil_unit, "oil", 0.0).ok().unwrap();
    assert_eq!(check_unit_update(Some(&oil_unit), "oil"), UnitUpdateCheck::Proceed);
    assert_eq!(check_unit_update(Some(&oil_unit), "gas"), UnitUpdateCheck::CreditTypeNotFound);
    assert_eq!(check_unit_update(Some(&bloc), "oil"), UnitUpdateCheck::NotAUnit);
    assert_eq!(unit_update_status(UnitUpdateCheck::UserNotFound), Status::NotFound);
    assert_eq!(unit_update_status(UnitUpdateCheck::NotAUnit), Status::MethodNotAllowed);
    assert_eq!(unit_update_status(UnitUpdateCheck::CreditTypeNotFound), Status::NotFound);
    assert_eq!(unit_update_status(UnitUpdateCheck::Proceed), Status::Success);
}

#[test]
fn resource_booking_positions() {
    let individual = user(UserType::Individual, "ind_res_sender");
    assert!(matches!(
        sender_resource_position(&individual, "oil"),
        Err(Error::Validation("Sender does not have resource credits"))
    ));
    let e = sender_resource_position(&individual, "oil").err().unwrap();
    assert_eq!(booking_error_status(&e), Status::BadRequest);

    let mut sender = user(UserType::Bloc, "bloc_res_sender");
    assert!(matches!(sender_resource_position(&sender, "oil"), Err(Error::NotFound("resource credit"))));
    assert_eq!(receiver_resource_position(&mut sender, "oil", 0.0).ok(), Some(0));
    assert_eq!(sender_resource_position(&sender, "oil").ok(), Some(0));
    assert_eq!(receiver_resource_position(&mut sender, "gas", 0.0).ok(), Some(1));
    assert_eq!(receiver_resource_position(&mut sender, "oil", 0.0).ok(), Some(0));
    assert_eq!(sender.resources().unwrap().len(), 2);

    let mut receiver = user(UserType::Individual, "ind_receiver");
    assert!(matches!(
        receiver_resource_position(&mut receiver, "oil", 0.0),
        Err(Error::Validation("Receiver does not have resource credits"))
    ));

    let entry = booking_entry(-10.0f32, "a", "b");
    assert_eq!(entry.value, -10.0);
    assert_eq!(entry.transfer_type, "booking");
    assert_eq!(entry.sender, "a");
    assert_eq!(entry.receiver, "b");
}

#[test]
fn resource_subscriptions_need_resource_credits() {
    let mut individual = user(UserType::Individual, "ind_res_sub_owner");
    assert!(matches!(
        add_subscription_to_resource_credit(&mut individual, "oil", subscription("s", "x", "oil"), 0.0),
        Err(Error::Validation("User does not have resource credits"))
    ));
    let mut bloc = user(UserType::Bloc, "bloc_sub_owner");
    assert!(add_subscription_to_resource_credit(&mut bloc, "oil", subscription("s", "x", "oil"), 0.0).is_ok());
    let oil = bloc.resources().unwrap().get("oil").unwrap();
    assert_eq!(oil.subscriptions().len(), 1);
    assert_eq!(oil.subscriptions()[0].credit_type(), "oil");
    assert!(bloc.credit().subscriptions().is_empty());
}

#[test]
fn credits_by_type_and_balances() {
    let mut bloc = user(UserType::Bloc, "credits_user");
    bloc.credit_mut().history.push(3.5);
    receiver_resource_position(&mut bloc, "oil", 0.0).ok().unwrap();
    let balances = user_credit_balances(&bloc, 0.0);
    assert_eq!(balances.credits.len(), 2);
    assert_eq!(balances.credits[0].credit_type, "money");
    assert_eq!(balances.credits[0].balance, 0.0);
    assert_eq!(balances.credits[0].hourly, 3.5);
    assert_eq!(balances.credits[1].credit_type, "oil");
    assert_eq!(balances.credits[1].hourly, 0.0);

    let individual = user(UserType::Individual, "no_resource_user");
    assert!(credit_by_type(&individual, "money").is_some());
    assert!(credit_by_type(&individual, "oil").is_none());
    assert!(credit_by_type(&bloc, "oil").is_some());
    assert!(credit_by_type(&bloc, "gas").is_none());
    assert_eq!(user_credit_balances(&individual, 0.0).credits.len(), 1);
    assert!(is_money("money"));
    assert!(!is_money("oil"));
    assert_eq!(default_money(), "money");
}

#[test]
fn responses_copy_what_they_show() {
    let credit = Credit::new(1.5f32, 2.5, vec![subscription("s1", "r", "money")], vec![4.0]);
    let balance = CreditBalanceResponse::from_credit("money".to_string(), &credit, 0.0);
    assert_eq!(balance.balance, 1.5);
    assert_eq!(balance.hourly, 4.0);
    let shown = GetCreditResponse::from_credit("id".to_string(), credit);
    assert_eq!(shown.subscription_ids, vec!["s1".to_string()]);
    assert_eq!(shown.history, vec![4.0]);
    let response = GetSubscriptionResponse::new("alice".to_string(), subscription("s2", "bob", "oil"));
    assert_eq!(response.sender, "alice");
    assert_eq!(response.id, "s2");
    assert_eq!(response.credit_type, "oil");
}

#[test]
fn statuses_of_failures() {
    assert_eq!(booking_error_status(&Error::NotFound("sender user")), Status::NotFound);
    assert_eq!(booking_error_status(&Error::Validation("x")), Status::BadRequest);
    assert_eq!(create_user_error_status(&Error::Validation("User already exists")), Status::Conflict);
    assert_eq!(create_user_error_status(&Error::NotFound("x")), Status::InternalServerError);
    assert_eq!(get_credit_error_status(&Error::NotFound("x")), Status::InternalServerError);
    let individual = user(UserType::Individual, "i");
    let unit = user(UserType::Unit, "u");
    assert!(needs_blackout_notice(&individual, true));
    assert!(!needs_blackout_notice(&individual, false));
    assert!(!needs_blackout_notice(&unit, true));
    assert!(!may_receive_subscriptions(&unit));
    assert!(may_receive_subscriptions(&individual));
}

#[test]
fn cloned_users_keep_everything() {
    let mut bloc = user(UserType::Bloc, "bloc");
    bloc.credit_mut().set_total(12.0);
    bloc.credit_mut().add_subscription(subscription("m", "x", "money"));
    add_subscription_to_resource_credit(&mut bloc, "oil", subscription("r", "y", "oil"), 0.0).ok().unwrap();
    let copy = bloc.clone();
    assert_eq!(copy.user_type(), UserType::Bloc);
    assert_eq!(copy.id(), "bloc");
    assert_eq!(copy.credit().total(), 12.0);
    assert_eq!(copy.credit().subscriptions()[0].id(), "m");
    let resources = copy.resources().unwrap();
    assert_eq!(resources.len(), 1);
    assert_eq!(resources.name_at(0), "oil");
    assert_eq!(resources.credit_at(0).subscriptions()[0].id(), "r");

    let individual = user(UserType::Individual, "solo").clone();
    assert!(individual.is_individual());
    assert!(individual.resources().is_none());
}

#[test]
fn booking_checks_and_self_bookings() {
    let alice = user(UserType::Individual, "alice");
    let bob = user(UserType::Bloc, "bob");
    assert!(matches!(
        check_booking_parties(false, Some(&alice), Some(&bob)),
        Err(Error::Validation("Booking value must be greater than zero"))
    ));
    assert!(matches!(check_booking_parties::<f32>(true, None, Some(&bob)), Err(Error::NotFound("sender user"))));
    assert!(matches!(check_booking_parties::<f32>(true, Some(&alice), None), Err(Error::NotFound("receiver user"))));
    assert!(check_booking_parties(true, Some(&alice), Some(&bob)).is_ok());

    let mut credit = Credit::new(10.0f32, 1.0, vec![], vec![]);
    record_self_booking(&mut credit, "alice", -4.0, 4.0);
    assert_eq!(credit.total(), 10.0);
    let history = credit.transfer_history();
    assert_eq!(history.len(), 2);
    assert_eq!(history[0].value, -4.0);
    assert_eq!(history[1].value, 4.0);
    assert_eq!(history[1].sender, "alice");
    assert_eq!(history[1].receiver, "alice");
    assert_eq!(history[0].transfer_type, "booking");
}

#[test]
fn deleted_subscription_is_no_longer_listed() {
    let mut owner = user(UserType::Individual, "owner");
    owner.credit_mut().add_subscription(subscription("sub_id", "other", "money"));
    let other = user(UserType::Individual, "other");
    let mut users = vec![owner, other];
    assert_eq!(list_user_subscriptions(&users, "owner", None, None).unwrap().len(), 1);
    assert!(remove_user_subscription(&mut users[0], "sub_id"));
    assert!(list_user_subscriptions(&users, "owner", None, None).unwrap().is_empty());
    assert!(list_user_subscriptions(&users, "other", None, None).unwrap().is_empty());
    assert!(!remove_user_subscription(&mut users[0], "nonexistent_sub"));
    assert!(list_user_subscriptions(&users, "ghost_user", None, None).is_none());
}

#[test]
fn booking_sides_and_resource_subscription_frames() {
    assert_eq!(booking_sides("alice", "alice"), BookingSides::OneUser);
    assert_eq!(booking_sides("alice", "bob"), BookingSides::TwoUsers);

    let mut bloc = user(UserType::Bloc, "bloc");
    receiver_resource_position(&mut bloc, "oil", 0.0).ok().unwrap();
    receiver_resource_position(&mut bloc, "gas", 0.0).ok().unwrap();
    if let Some(resources) = bloc.resources_mut() {
        let mut oil = resources.credit_at(0).clone();
        oil.set_total(12.0);
        oil.record_hourly_income(3.0);
        resources.set_credit_at(0, oil);
        let mut gas = resources.credit_at(1).clone();
        gas.set_total(4.0);
        resources.set_credit_at(1, gas);
    }
    add_subscription_to_resource_credit(&mut bloc, "oil", subscription("s", "x", "oil"), 0.0).ok().unwrap();
    let resources = bloc.resources().unwrap();
    let oil = resources.credit_at(0);
    assert_eq!(oil.total(), 12.0);
    assert_eq!(oil.history(), &[3.0]);
    assert_eq!(oil.subscriptions().len(), 1);
    assert_eq!(resources.credit_at(1).total(), 4.0);
    assert!(resources.credit_at(1).subscriptions().is_empty());
}
