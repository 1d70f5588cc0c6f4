use credit_exchanger::credit::Credit;
use credit_exchanger::daily::{close_days, DayAverages};
use credit_exchanger::user::{User, UserType};

fn user_with_history(user_type: UserType, id: &str) -> User<f32> {
    let mut user = User::new_user(user_type, id, 0.0f32);
    user.credit_mut().set_total(40.0);
    user.credit_mut().set_last_day_average(1.0);
    user.credit_mut().record_hourly_income(10.0);
    user.credit_mut().record_hourly_income(30.0);
    if let Some(resources) = user.resources_mut() {
        let mut oil = Credit::new(5.0f32, 2.0, vec![], vec![]);
        oil.record_hourly_income(4.0);
        resources.entry_or_insert("oil", oil);
    }
    user
}

#[test]
fn daily_evaluation_closes_every_day_but_units() {
    let mut users = vec![
        user_with_history(UserType::Bloc, "bloc"),
        user_with_history(UserType::Unit, "unit"),
        user_with_history(UserType::Individual, "individual"),
    ];
    let averages = vec![
        Some(DayAverages { money: 20.0f32, resources: vec![4.0] }),
        None,
        Some(DayAverages { money: 20.0, resources: vec![] }),
    ];
    let closed = close_days(&mut users, &averages);
    assert_eq!(closed, 2);

    let bloc = &users[0];
    assert_eq!(bloc.credit().last_day_average(), 20.0);
    assert!(bloc.credit().history().is_empty());
    assert_eq!(bloc.credit().total(), 40.0);
    let oil = bloc.resources().unwrap().credit_at(0);
    assert_eq!(bloc.resources().unwrap().name_at(0), "oil");
    assert_eq!(oil.last_day_average(), 4.0);
    assert!(oil.history().is_empty());
    assert_eq!(oil.total(), 5.0);

    let unit = &users[1];
    assert_eq!(unit.credit().last_day_average(), 1.0);
    assert_eq!(unit.credit().history(), &[10.0, 30.0]);
    let unit_oil = unit.resources().unwrap().credit_at(0);
    assert_eq!(unit_oil.last_day_average(), 2.0);
    assert_eq!(unit_oil.history(), &[4.0]);

    let individual = &users[2];
    assert_eq!(individual.credit().last_day_average(), 20.0);
    assert!(individual.credit().history().is_empty());
}

#[test]
fn daily_evaluation_of_no_users_closes_nothing() {
    let mut users: Vec<User<f32>> = Vec::new();
    assert_eq!(close_days(&mut users, &Vec::new()), 0);
    let mut units = vec![user_with_history(UserType::Unit, "u")];
    assert_eq!(close_days(&mut units, &vec![None]), 0);
    assert_eq!(units[0].credit().history(), &[10.0, 30.0]);
    let unit_averages = vec![Some(DayAverages { money: 99.0f32, resources: vec![99.0] })];
    assert_eq!(close_days(&mut units, &unit_averages), 0);
    assert_eq!(units[0].credit().last_day_average(), 1.0);
    assert_eq!(units[0].credit().history(), &[10.0, 30.0]);
    let mut individuals = vec![user_with_history(UserType::Individual, "i")];
    assert_eq!(close_days(&mut individuals, &vec![None]), 0);
    assert_eq!(individuals[0].credit().history(), &[10.0, 30.0]);
}
