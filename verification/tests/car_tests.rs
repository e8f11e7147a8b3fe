use koc_core::car::{
    car_research_level, engine_pieces, normalize_car_list,
    assign_helper, can_claim_car, can_upgrade_engine, car_after_refresh, car_next_action, effective_send_count,
    grade_label, has_refresh_ticket, is_big_prize, is_car_send_window, should_send, sort_helpers, CarAction,
    CarState,
};
use koc_core::value::Value;

fn obj(list: Vec<(&str, Value)>) -> Value {
    Value::Object(list.into_iter().map(|(k, v)| (k.to_string(), v)).collect())
}

fn reward(t: i64, item: i64, value: i64) -> Value {
    obj(vec![("type", Value::Int(t)), ("itemId", Value::Int(item)), ("value", Value::Int(value))])
}

#[test]
fn grades_have_names() {
    assert_eq!(grade_label(1), "Green · Common");
    assert_eq!(grade_label(5), "Red · Mythic");
    assert_eq!(grade_label(6), "Gold · Legendary");
    assert_eq!(grade_label(0), "Unknown");
    assert_eq!(grade_label(7), "Unknown");
}

#[test]
fn big_prizes_need_their_least_amount() {
    assert!(is_big_prize(&vec![reward(3, 3201, 10)]));
    assert!(!is_big_prize(&vec![reward(3, 3201, 9)]));
    assert!(is_big_prize(&vec![reward(2, 0, 2000)]));
    assert!(!is_big_prize(&vec![reward(2, 1, 2000)]));
    assert!(is_big_prize(&vec![reward(1, 1, 1), reward(3, 1023, 5)]));
    assert!(!is_big_prize(&vec![]));
}

#[test]
fn refresh_tickets_are_recognised() {
    assert!(has_refresh_ticket(&vec![reward(3, 35002, 1)]));
    assert!(!has_refresh_ticket(&vec![reward(3, 35002, 0)]));
    assert!(!has_refresh_ticket(&vec![reward(3, 35003, 1)]));
}

#[test]
fn wednesday_sends_only_for_big_prizes() {
    let ticket = vec![reward(3, 35002, 1)];
    let prize = vec![reward(3, 1001, 12)];
    assert!(!should_send(true, &ticket));
    assert!(should_send(false, &ticket));
    assert!(should_send(true, &prize));
    assert!(should_send(false, &prize));
    assert!(!should_send(false, &vec![reward(1, 1, 1)]));
}

#[test]
fn send_window_and_claim_time() {
    assert!(is_car_send_window(0, 19));
    assert!(is_car_send_window(2, 0));
    assert!(!is_car_send_window(2, 20));
    assert!(!is_car_send_window(3, 10));
    // seconds are read as seconds, milliseconds as milliseconds
    assert!(can_claim_car(1_000, 1_000_000 + 14_400_000));
    assert!(!can_claim_car(1_000, 1_000_000 + 14_399_999));
    assert!(can_claim_car(2_000_000_000_000, 2_000_014_400_000));
    assert!(!can_claim_car(0, u64::MAX));
    assert!(!can_claim_car(5_000_000_000_000, 1));
    assert_eq!(effective_send_count(3, 100, 50), 3);
    assert_eq!(effective_send_count(3, 10, 50), 0);
}

#[test]
fn next_action_follows_rewards_and_tickets() {
    let mut car = CarState { color: 4, refresh_count: 0, rewards: vec![reward(1, 1, 1)], tickets: 2 };
    assert!(matches!(car_next_action(&car, false), CarAction::Refresh(true)));
    car.refresh_count = 1;
    assert!(matches!(car_next_action(&car, false), CarAction::Refresh(false)));
    car.tickets = 0;
    assert!(matches!(car_next_action(&car, false), CarAction::SendExhausted));
    car.rewards = vec![reward(3, 1022, 2500)];
    assert!(matches!(car_next_action(&car, true), CarAction::Send));
}

#[test]
fn refresh_answer_replaces_the_car() {
    let car = CarState { color: 2, refresh_count: 1, rewards: vec![reward(1, 1, 1)], tickets: 2 };
    let data = obj(vec![(
        "car",
        obj(vec![
            ("color", Value::Int(5)),
            ("refreshCount", Value::Int(2)),
            ("rewards", Value::Array(vec![reward(3, 1001, 10)])),
        ]),
    )]);
    let next = car_after_refresh(car, &data, false);
    assert_eq!(next.color, 5);
    assert_eq!(next.refresh_count, 2);
    assert_eq!(next.tickets, 1);
    assert!(is_big_prize(&next.rewards));

    let car = CarState { color: 2, refresh_count: 0, rewards: vec![], tickets: 0 };
    let next = car_after_refresh(car, &obj(vec![("color", Value::Int(3))]), true);
    assert_eq!(next.color, 3);
    assert_eq!(next.refresh_count, 0);
    assert_eq!(next.tickets, 0);
}

#[test]
fn helpers_sorted_stably_and_assigned_under_four() {
    let hs = vec![
        (1u64, "a".to_string(), 3u32),
        (2, "b".to_string(), 7),
        (3, "c".to_string(), 3),
        (4, "d".to_string(), 9),
    ];
    let sorted = sort_helpers(hs);
    let ids: Vec<u64> = sorted.iter().map(|h| h.0).collect();
    assert_eq!(ids, vec![4, 2, 1, 3]);

    let mut usage = vec![(4u64, 4u32), (2, 1)];
    assert_eq!(assign_helper(4, &sorted, &mut usage), 0);
    assert_eq!(usage, vec![(4, 4), (2, 1)]);
    assert_eq!(assign_helper(5, &sorted, &mut usage), 2);
    assert_eq!(assign_helper(6, &sorted, &mut usage), 2);
    assert_eq!(assign_helper(6, &sorted, &mut usage), 2);
    assert_eq!(assign_helper(6, &sorted, &mut usage), 1);
    let mut full = vec![(4u64, 4u32), (2, 4), (1, 4), (3, 4)];
    assert_eq!(assign_helper(5, &sorted, &mut full), 0);
}

#[test]
fn engine_upgrade_costs() {
    assert!(can_upgrade_engine(0, 20));
    assert!(!can_upgrade_engine(0, 19));
    assert!(can_upgrade_engine(59, 1011));
    assert!(!can_upgrade_engine(59, 1010));
    assert!(!can_upgrade_engine(60, u32::MAX));
}

#[test]
fn car_list_is_read_from_the_answer() {
    let car = |color: i64, send: i64| {
        obj(vec![
            ("color", Value::Int(color)),
            ("sendAt", Value::Int(send)),
            ("refreshCount", Value::Int(2)),
            ("rewards", Value::Array(vec![reward(3, 1001, 10)])),
            ("helperId", Value::Int(42)),
        ])
    };
    let resp = obj(vec![(
        "body",
        obj(vec![(
            "roleCar",
            obj(vec![
                ("carDataMap", obj(vec![("c1", car(5, 0)), ("c2", car(2, 1700000000))])),
                ("research", obj(vec![("1", Value::Int(7))])),
            ]),
        )]),
    )]);
    let cars = normalize_car_list(&resp);
    assert_eq!(cars.len(), 2);
    assert_eq!(cars[0].0, "c1");
    assert_eq!((cars[0].1, cars[0].2, cars[0].3, cars[0].5), (5, 0, 2, 42));
    assert_eq!((cars[1].1, cars[1].2), (2, 1700000000));
    assert!(is_big_prize(&cars[1].4));
    assert_eq!(car_research_level(&resp), 7);
    assert_eq!(car_research_level(&obj(vec![])), 0);
    let flat = obj(vec![("rolecar", obj(vec![("cardatamap", obj(vec![("x", obj(vec![]))]))]))]);
    let cars = normalize_car_list(&flat);
    assert_eq!(cars.len(), 1);
    assert_eq!((cars[0].1, cars[0].2, cars[0].3, cars[0].5), (0, 0, 0, 0));
    assert!(cars[0].4.is_empty());
    assert!(normalize_car_list(&obj(vec![])).is_empty());
    let role = obj(vec![("role", obj(vec![("items", obj(vec![("35009", obj(vec![("quantity", Value::Int(33))]))]))]))]);
    assert_eq!(engine_pieces(&role), 33);
    assert_eq!(engine_pieces(&obj(vec![])), 0);
}
