use credit_exchanger::api::{get_credit_error_status, CreateSubscriptionRequest, Status};
use credit_exchanger::credit::Credit;
use credit_exchanger::error::Error;
use credit_exchanger::object_id::{object_id_text, parse_object_id_text};
use credit_exchanger::record::{CreditRecord, SubscriptionRecord};
use credit_exchanger::subscription::{Subscription, SubscriptionType};

#[test]
fn object_id_text_is_parsed_and_written_back() {
    let id = parse_object_id_text("000000000000000000000001").ok().unwrap();
    assert_eq!(id, [0, 0, 0, 0, 0, 0, 0, 0, 0, 0, 0, 1]);
    assert_eq!(object_id_text(id), "000000000000000000000001");

    let mixed = parse_object_id_text("65AB00ff00000000000000C0").ok().unwrap();
    assert_eq!(mixed[0], 0x65);
    assert_eq!(mixed[1], 0xab);
    assert_eq!(mixed[11], 0xc0);
    assert_eq!(object_id_text(mixed), "65ab00ff00000000000000c0");
}

#[test]
fn malformed_object_ids_are_refused() {
    for text in ["not_an_object_id", "", "00000000000000000000001", "0000000000000000000000001", "00000000000000000000000g"] {
        let parsed = parse_object_id_text(text);
        assert!(matches!(parsed, Err(Error::DbObjectIdError(_))), "{text}");
        let error = parsed.err().unwrap();
        assert_eq!(get_credit_error_status(&error), Status::BadRequest);
    }
}

#[test]
fn stored_subscriptions_read_back_unchanged() {
    let subscription = Subscription::new(
        "65ab00ff00000000000000c0".to_string(),
        "receiver".to_string(),
        12.5f32,
        SubscriptionType::Sr,
        3,
        "oil".to_string(),
    );
    let record = SubscriptionRecord::from_domain(&subscription).ok().unwrap();
    assert_eq!(record.id[0], 0x65);
    let back = record.into_domain();
    assert_eq!(back.id(), subscription.id());
    assert_eq!(back.receiver(), "receiver");
    assert_eq!(back.value(), 12.5);
    assert_eq!(back.subscription_type(), SubscriptionType::Sr);
    assert_eq!(back.priority(), 3);
    assert_eq!(back.credit_type(), "oil");

    let upper = Subscription::new(
        "65AB00FF00000000000000C0".to_string(),
        "receiver".to_string(),
        1.0f32,
        SubscriptionType::Contract,
        1,
        "money".to_string(),
    );
    let read = SubscriptionRecord::from_domain(&upper).ok().unwrap().into_domain();
    assert_eq!(read.id(), "65ab00ff00000000000000c0");

    let bad = Subscription::new(
        "sub_1".to_string(),
        "receiver".to_string(),
        1.0f32,
        SubscriptionType::Contract,
        1,
        "money".to_string(),
    );
    assert!(matches!(SubscriptionRecord::from_domain(&bad), Err(Error::DbObjectIdError(_))));
}

#[test]
fn stored_credits_keep_their_fields() {
    let subscription = Subscription::new(
        "000000000000000000000002".to_string(),
        "receiver".to_string(),
        10.0f32,
        SubscriptionType::Contract,
        1,
        "money".to_string(),
    );
    let credit = Credit::new(100.0f32, 50.0, vec![subscription.clone()], vec![10.0, 20.0]);
    let record = CreditRecord::from_domain([0, 0, 0, 0, 0, 0, 0, 0, 0, 0, 0, 7], &credit);
    assert_eq!(record.id_text(), "000000000000000000000007");
    assert_eq!(record.subscription_ids, vec!["000000000000000000000002".to_string()]);
    assert_eq!(record.total, 100.0);
    assert_eq!(record.history, vec![10.0, 20.0]);
    let back = record.into_domain(vec![subscription]);
    assert_eq!(back.total(), 100.0);
    assert_eq!(back.last_day_average(), 50.0);
    assert_eq!(back.subscriptions().len(), 1);
    assert_eq!(back.history(), &[10.0, 20.0]);
}

#[test]
fn new_subscriptions_get_fresh_storable_ids() {
    let request = CreateSubscriptionRequest {
        receiver: "receiver".to_string(),
        value: 7.5f32,
        subscription_type: SubscriptionType::Sr,
        priority: 4,
        credit_type: "oil".to_string(),
    };
    let first = request.new_subscription();
    let second = request.new_subscription();
    assert_ne!(first.id(), second.id());
    for subscription in [&first, &second] {
        assert_eq!(subscription.id().len(), 24);
        assert!(subscription.id().chars().all(|c| c.is_ascii_digit() || ('a'..='f').contains(&c)));
        assert_eq!(subscription.receiver(), "receiver");
        assert_eq!(subscription.value(), 7.5);
        assert_eq!(subscription.subscription_type(), SubscriptionType::Sr);
        assert_eq!(subscription.priority(), 4);
        assert_eq!(subscription.credit_type(), "oil");
        let stored = SubscriptionRecord::from_domain(subscription).ok().unwrap();
        assert_eq!(stored.into_domain().id(), subscription.id());
    }
}

#[test]
fn new_credit_records_get_fresh_ids() {
    let credit = Credit::new(3.0f32, 1.5, vec![], vec![2.0]);
    let first = CreditRecord::from_new_credit(&credit);
    let second = CreditRecord::from_new_credit(&credit);
    assert_ne!(first.id, second.id);
    let text = first.id_text();
    assert_eq!(parse_object_id_text(&text).ok().unwrap(), first.id);
    assert_eq!(first.total, 3.0);
    assert_eq!(first.last_day_average, 1.5);
    assert!(first.subscription_ids.is_empty());
    assert_eq!(first.history, vec![2.0]);
}
