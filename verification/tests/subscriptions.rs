use credit_exchanger::credit::Credit;
use credit_exchanger::evaluation::{BookingDecision, CreditEvaluation, EvaluationRun, IncomingAmounts};
use credit_exchanger::subscription::{
    booking_order, default_credit_type, sorted_subscriptions, subscription_type_rank, Subscription,
    SubscriptionType,
};

fn subscription(
    id: &str,
    receiver: &str,
    value: f32,
    subscription_type: SubscriptionType,
    priority: u32,
) -> Subscription<f32> {
    Subscription::new(
        id.to_string(),
        receiver.to_string(),
        value,
        subscription_type,
        priority,
        "money".to_string(),
    )
}

#[test]
fn sr_subscriptions_are_booked_before_contracts() {
    let subs = vec![
        subscription("contract", "contract_receiver", 10.0, SubscriptionType::Contract, 10),
        subscription("sr", "sr_receiver", 10.0, SubscriptionType::Sr, 1),
    ];
    assert_eq!(booking_order(&subs), vec![1, 0]);
    let sorted = sorted_subscriptions(&subs);
    let ids: Vec<&str> = sorted.iter().map(|s| s.id().as_str()).collect();
    assert_eq!(ids, vec!["sr", "contract"]);
}

#[test]
fn higher_priority_first_then_smaller_id() {
    let subs = vec![
        subscription("b", "r", 1.0, SubscriptionType::Contract, 1),
        subscription("c", "r", 1.0, SubscriptionType::Contract, 5),
        subscription("a", "r", 1.0, SubscriptionType::Contract, 1),
        subscription("z", "r", 1.0, SubscriptionType::Sr, 0),
    ];
    assert_eq!(booking_order(&subs), vec![3, 1, 2, 0]);
}

#[test]
fn equal_keys_keep_their_order() {
    let subs = vec![
        subscription("same", "first", 1.0, SubscriptionType::Sr, 2),
        subscription("same", "second", 2.0, SubscriptionType::Sr, 2),
        subscription("other", "third", 3.0, SubscriptionType::Sr, 3),
    ];
    let sorted = sorted_subscriptions(&subs);
    let receivers: Vec<&str> = sorted.iter().map(|s| s.receiver().as_str()).collect();
    assert_eq!(receivers, vec!["third", "first", "second"]);
}

#[test]
fn booking_order_of_nothing_is_empty() {
    let subs: Vec<Subscription<f32>> = vec![];
    assert!(booking_order(&subs).is_empty());
}

#[test]
fn ranks_and_default_credit_type() {
    assert_eq!(subscription_type_rank(SubscriptionType::Sr), 0);
    assert_eq!(subscription_type_rank(SubscriptionType::Contract), 1);
    assert_eq!(default_credit_type(), "money");
}

#[test]
fn uncovered_sr_subscription_is_reported_not_booked() {
    let sr = subscription("sr", "receiver", 10.0, SubscriptionType::Sr, 1);
    let mut evaluation: CreditEvaluation<f32> = CreditEvaluation::new();
    let decision = evaluation.record(&sr, 10.0, false, 5.0);
    assert_eq!(decision, BookingDecision::ReportSrOverflow);
    assert!(evaluation.booked_subscriptions().is_empty());
    assert_eq!(evaluation.unbookable_sr_transfers().len(), 1);
    assert_eq!(evaluation.unbookable_sr_transfers()[0].receiver(), "receiver");
    assert_eq!(evaluation.unbookable_sr_transfers()[0].amount(), 10.0);
    assert_eq!(evaluation.sr_overflows(), &[5.0]);
}

#[test]
fn uncovered_contract_is_skipped_and_covered_one_booked() {
    let contract = subscription("contract", "receiver", 10.0, SubscriptionType::Contract, 1);
    let mut evaluation: CreditEvaluation<f32> = CreditEvaluation::new();
    assert_eq!(evaluation.record(&contract, 10.0, false, 0.0), BookingDecision::Skip);
    assert!(evaluation.sr_overflows().is_empty());
    assert!(evaluation.booked_subscriptions().is_empty());
    assert!(evaluation.unbookable_sr_transfers().is_empty());
    assert_eq!(evaluation.record(&contract, 10.0, true, 0.0), BookingDecision::Book);
    assert_eq!(evaluation.booked_subscriptions().len(), 1);
    assert_eq!(evaluation.booked_subscriptions()[0].id(), "contract");
    assert_eq!(evaluation.booked_subscriptions()[0].amount(), 10.0);
    evaluation.set_hit_zero(true);
    assert!(evaluation.hit_zero());
}

#[test]
fn incoming_amounts_are_taken_per_credit() {
    let sub = subscription("s", "alice", 10.0, SubscriptionType::Contract, 1);
    let mut evaluation: CreditEvaluation<f32> = CreditEvaluation::new();
    evaluation.record(&sub, 10.0, true, 0.0);
    let mut incoming: IncomingAmounts<f32> = IncomingAmounts::new();
    incoming.add_booked(&evaluation, None);
    incoming.add_money("bob", 3.0);
    incoming.add_money("alice", 2.5);
    incoming.add_resource("alice", "oil", 7.0);
    assert_eq!(incoming.take("alice", None), vec![10.0, 2.5]);
    assert!(incoming.take("alice", None).is_empty());
    assert_eq!(incoming.take("alice", Some("oil")), vec![7.0]);
    assert_eq!(incoming.take("bob", None), vec![3.0]);
    assert!(incoming.entries.is_empty());
}

#[test]
fn credit_removes_subscription_by_id() {
    let mut credit = Credit::new(
        25.0f32,
        100.0,
        vec![
            subscription("sub_1", "receiver", 10.0, SubscriptionType::Contract, 1),
            subscription("sub_2", "receiver", 5.0, SubscriptionType::Sr, 1),
        ],
        vec![2.0],
    );
    assert!(!credit.remove_subscription("missing"));
    assert_eq!(credit.subscriptions().len(), 2);
    assert!(credit.remove_subscription("sub_1"));
    assert_eq!(credit.subscription_ids(), vec!["sub_2".to_string()]);
    assert_eq!(credit.total(), 25.0);
    assert_eq!(credit.latest_hourly(), Some(2.0));
}

#[test]
fn removing_a_new_subscription_restores_the_credit() {
    let mut credit = Credit::new(
        8.0f32,
        4.0,
        vec![
            subscription("a", "receiver", 10.0, SubscriptionType::Contract, 1),
            subscription("b", "receiver", 5.0, SubscriptionType::Sr, 2),
        ],
        vec![],
    );
    let before = credit.subscription_ids();
    credit.add_subscription(subscription("c", "other", 1.0, SubscriptionType::Sr, 3));
    assert_eq!(credit.subscription_ids(), vec!["a".to_string(), "b".to_string(), "c".to_string()]);
    assert!(credit.remove_subscription("c"));
    assert_eq!(credit.subscription_ids(), before);
    assert_eq!(credit.total(), 8.0);
    assert_eq!(credit.last_day_average(), 4.0);
}

/// Runs an evaluation the way the service does: each amount is `value`
/// percent of the last day's average, booked when the balance covers it.
fn run_evaluation(credit: &mut Credit<f32>) -> CreditEvaluation<f32> {
    let started_positive = credit.total() > 0.0;
    let mut run = EvaluationRun::start(&credit.subscriptions);
    while let Some(index) = run.next_index(&credit.subscriptions) {
        let amount = credit.last_day_average() * credit.subscriptions[index].value() / 100.0;
        let total = credit.total();
        let covered = !(amount > 0.0 && total + f32::EPSILON < amount);
        if run.record(&credit.subscriptions, amount, covered, amount - total) == BookingDecision::Book {
            credit.set_total(total - amount);
        }
    }
    let hit_zero = started_positive && credit.total().abs() < f32::EPSILON;
    run.finish(&credit.subscriptions, hit_zero)
}

#[test]
fn evaluation_run_books_sr_before_contract() {
    let mut credit = Credit::new(
        15.0f32,
        100.0,
        vec![
            subscription("contract", "contract_receiver", 10.0, SubscriptionType::Contract, 10),
            subscription("sr", "sr_receiver", 10.0, SubscriptionType::Sr, 1),
        ],
        vec![],
    );
    let evaluation = run_evaluation(&mut credit);
    let booked: Vec<&str> = evaluation.booked_subscriptions().iter().map(|b| b.id().as_str()).collect();
    assert_eq!(booked, vec!["sr"]);
    assert_eq!(evaluation.booked_subscriptions()[0].receiver(), "sr_receiver");
    assert_eq!(evaluation.booked_subscriptions()[0].amount(), 10.0);
    assert!(evaluation.unbookable_sr_transfers().is_empty());
    assert!(!evaluation.hit_zero());
    assert_eq!(credit.total(), 5.0);
}

#[test]
fn evaluation_run_reports_uncovered_sr() {
    let mut credit = Credit::new(
        5.0f32,
        100.0,
        vec![subscription("sr", "receiver", 10.0, SubscriptionType::Sr, 1)],
        vec![],
    );
    let evaluation = run_evaluation(&mut credit);
    assert!(evaluation.booked_subscriptions().is_empty());
    assert_eq!(evaluation.unbookable_sr_transfers().len(), 1);
    assert_eq!(evaluation.unbookable_sr_transfers()[0].receiver(), "receiver");
    assert_eq!(evaluation.unbookable_sr_transfers()[0].amount(), 10.0);
    assert_eq!(evaluation.sr_overflows(), &[5.0]);
    assert_eq!(credit.total(), 5.0);
}

#[test]
fn evaluation_run_marks_balance_hitting_zero() {
    let mut credit = Credit::new(
        10.0f32,
        100.0,
        vec![subscription("contract", "receiver", 10.0, SubscriptionType::Contract, 1)],
        vec![],
    );
    let evaluation = run_evaluation(&mut credit);
    assert!(evaluation.hit_zero());
    assert_eq!(credit.total(), 0.0);
}

#[test]
fn evaluation_run_visits_each_subscription_once_in_order() {
    let subs = vec![
        subscription("c_low", "r", 1.0, SubscriptionType::Contract, 1),
        subscription("s_low", "r", 1.0, SubscriptionType::Sr, 1),
        subscription("c_high", "r", 1.0, SubscriptionType::Contract, 9),
        subscription("s_high", "r", 1.0, SubscriptionType::Sr, 9),
    ];
    let mut run = EvaluationRun::start(&subs);
    let mut visited = Vec::new();
    while let Some(index) = run.next_index(&subs) {
        visited.push(subs[index].id().clone());
        assert_eq!(run.record(&subs, 1.0f32, true, 0.0), BookingDecision::Book);
    }
    assert_eq!(visited, vec!["s_high", "s_low", "c_high", "c_low"]);
    let evaluation = run.finish(&subs, false);
    let booked: Vec<&str> = evaluation.booked_subscriptions().iter().map(|b| b.id().as_str()).collect();
    assert_eq!(booked, vec!["s_high", "s_low", "c_high", "c_low"]);
    assert!(run_is_empty_for_no_subscriptions());
}

fn run_is_empty_for_no_subscriptions() -> bool {
    let none: Vec<Subscription<f32>> = Vec::new();
    let run = EvaluationRun::start(&none);
    run.next_index(&none).is_none() && run.finish(&none, false).booked_subscriptions().is_empty()
}
