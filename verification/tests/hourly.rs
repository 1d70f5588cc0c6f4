use credit_exchanger::directory::receiver_resource_position;
use credit_exchanger::evaluation::CreditEvaluation;
use credit_exchanger::hourly::{is_evaluated_hourly, settle_hourly, UserEvaluation};
use credit_exchanger::subscription::{Subscription, SubscriptionType};
use credit_exchanger::user::{User, UserType};

fn subscription(id: &str, receiver: &str, subscription_type: SubscriptionType) -> Subscription<f32> {
    Subscription::new(id.to_string(), receiver.to_string(), 10.0, subscription_type, 1, "money".to_string())
}

#[test]
fn hourly_settlement_routes_amounts_and_notices() {
    let mut users: Vec<User<f32>> = vec![
        User::new_user(UserType::Individual, "hourly_sender_zero", 0.0),
        User::new_user(UserType::Individual, "hourly_sender_overflow", 0.0),
        User::new_user(UserType::Individual, "hourly_receiver", 0.0),
    ];
    let mut zero = CreditEvaluation::new();
    zero.record(&subscription("c", "hourly_receiver", SubscriptionType::Contract), 10.0, true, 0.0);
    zero.set_hit_zero(true);
    let mut overflow = CreditEvaluation::new();
    overflow.record(&subscription("s", "hourly_receiver", SubscriptionType::Sr), 10.0, false, 5.0);
    let evaluations = vec![
        Some(UserEvaluation { money: zero, resources: vec![] }),
        Some(UserEvaluation { money: overflow, resources: vec![] }),
        Some(UserEvaluation { money: CreditEvaluation::new(), resources: vec![] }),
    ];
    let settlement = settle_hourly(&mut users, &evaluations, 0.0);
    assert_eq!(settlement.evaluated_users, 3);
    assert_eq!(settlement.booked_subscriptions, 1);
    assert_eq!(settlement.blackout_notifications, vec!["hourly_sender_zero".to_string()]);
    assert_eq!(settlement.sr_overflow_notifications, vec![("hourly_sender_overflow".to_string(), 5.0)]);
    assert!(settlement.incoming[0].money.is_empty());
    assert!(settlement.incoming[1].money.is_empty());
    assert_eq!(settlement.incoming[2].money, vec![10.0]);
    assert!(settlement.incoming.iter().all(|i| i.records_hourly));
}

#[test]
fn units_are_not_evaluated_and_resources_go_to_holders() {
    let mut holder: User<f32> = User::new_user(UserType::Zone, "holder", 0.0);
    receiver_resource_position(&mut holder, "oil", 0.0).ok().unwrap();
    receiver_resource_position(&mut holder, "gas", 0.0).ok().unwrap();
    let mut users: Vec<User<f32>> = vec![
        User::new_user(UserType::Bloc, "payer", 0.0),
        holder,
        User::new_user(UserType::Unit, "unit", 0.0),
        User::new_user(UserType::Individual, "lacks_resources", 0.0),
    ];
    let mut oil = CreditEvaluation::new();
    oil.record(&subscription("o1", "holder", SubscriptionType::Contract), 3.0, true, 0.0);
    oil.record(&subscription("o2", "lacks_resources", SubscriptionType::Contract), 4.0, true, 0.0);
    oil.record(&subscription("o3", "holder", SubscriptionType::Sr), 2.0, true, 0.0);
    let mut money = CreditEvaluation::new();
    money.record(&subscription("m1", "unit", SubscriptionType::Contract), 1.0, true, 0.0);
    money.set_hit_zero(true);
    let evaluations = vec![
        Some(UserEvaluation { money, resources: vec![("oil".to_string(), oil)] }),
        Some(UserEvaluation { money: CreditEvaluation::new(), resources: vec![] }),
        None,
        Some(UserEvaluation { money: CreditEvaluation::new(), resources: vec![] }),
    ];
    let settlement = settle_hourly(&mut users, &evaluations, 0.0);
    assert_eq!(settlement.evaluated_users, 3);
    assert_eq!(settlement.booked_subscriptions, 4);
    assert!(settlement.blackout_notifications.is_empty());
    assert!(settlement.sr_overflow_notifications.is_empty());
    assert_eq!(settlement.incoming[1].resources, vec![vec![3.0, 2.0], vec![]]);
    assert_eq!(settlement.incoming[2].money, vec![1.0]);
    assert!(!settlement.incoming[2].records_hourly);
    assert!(settlement.incoming[3].resources.is_empty());
    assert!(settlement.incoming[3].money.is_empty());
}

#[test]
fn amounts_for_a_shared_id_go_to_the_first_holder() {
    let mut second: User<f32> = User::new_user(UserType::Bloc, "twin", 0.0);
    receiver_resource_position(&mut second, "oil", 0.0).ok().unwrap();
    let mut users: Vec<User<f32>> = vec![
        User::new_user(UserType::Individual, "payer", 0.0),
        User::new_user(UserType::Individual, "twin", 0.0),
        second,
    ];
    let mut money = CreditEvaluation::new();
    money.record(&subscription("m", "twin", SubscriptionType::Contract), 6.0, true, 0.0);
    let mut oil = CreditEvaluation::new();
    oil.record(&subscription("o", "twin", SubscriptionType::Contract), 2.0, true, 0.0);
    let evaluations = vec![
        Some(UserEvaluation { money, resources: vec![("oil".to_string(), oil)] }),
        Some(UserEvaluation { money: CreditEvaluation::new(), resources: vec![] }),
        Some(UserEvaluation { money: CreditEvaluation::new(), resources: vec![] }),
    ];
    let settlement = settle_hourly(&mut users, &evaluations, 0.0);
    assert_eq!(settlement.incoming[1].money, vec![6.0]);
    assert!(settlement.incoming[2].money.is_empty());
    assert_eq!(settlement.incoming[2].resources, vec![vec![2.0]]);
}

#[test]
fn resource_amounts_open_a_missing_credit() {
    let mut users: Vec<User<f32>> = vec![
        User::new_user(UserType::Bloc, "payer", 0.0),
        User::new_user(UserType::Zone, "receiver", 0.0),
        User::new_user(UserType::Unit, "unit", 0.0),
    ];
    let mut oil = CreditEvaluation::new();
    oil.record(&subscription("o1", "receiver", SubscriptionType::Contract), 3.0, true, 0.0);
    oil.record(&subscription("o2", "receiver", SubscriptionType::Contract), 1.5, true, 0.0);
    let mut ignored = CreditEvaluation::new();
    ignored.record(&subscription("u1", "receiver", SubscriptionType::Contract), 9.0, true, 0.0);
    let evaluations = vec![
        Some(UserEvaluation { money: CreditEvaluation::new(), resources: vec![("oil".to_string(), oil)] }),
        Some(UserEvaluation { money: CreditEvaluation::new(), resources: vec![] }),
        Some(UserEvaluation { money: ignored, resources: vec![] }),
    ];
    let settlement = settle_hourly(&mut users, &evaluations, 0.0);
    let resources = users[1].resources().unwrap();
    assert_eq!(resources.len(), 1);
    assert_eq!(resources.name_at(0), "oil");
    assert_eq!(resources.credit_at(0).total(), 0.0);
    assert_eq!(settlement.incoming[1].resources, vec![vec![3.0, 1.5]]);
    assert!(settlement.incoming[1].money.is_empty());
    assert_eq!(users[0].resources().unwrap().len(), 0);
    assert_eq!(settlement.evaluated_users, 2);
    assert_eq!(settlement.booked_subscriptions, 2);
    assert!(!settlement.incoming[2].records_hourly);
    assert!(!is_evaluated_hourly(&users[2]));
    assert!(is_evaluated_hourly(&users[0]));
}
