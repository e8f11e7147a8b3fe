use koc_core::cli_monthly::{
    tops_up_arena, tops_up_fish, MonthlyMode,
    arena_remaining, arena_round_fights, arena_ticket_count,
    fish_batch, fish_exchange_count, fish_last_free_time, fish_rod_count, fish_rods_resync_due, fish_within_rods,
    free_fish_draws, is_today_available, last_day_of_month, pick_arena_target_id,
};
use koc_core::value::Value;

fn obj(list: Vec<(&str, Value)>) -> Value {
    Value::Object(list.into_iter().map(|(k, v)| (k.to_string(), v)).collect())
}

#[test]
fn calendar_months() {
    assert_eq!(last_day_of_month(2024, 2), 29);
    assert_eq!(last_day_of_month(2023, 2), 28);
    assert_eq!(last_day_of_month(1900, 2), 28);
    assert_eq!(last_day_of_month(2000, 2), 29);
    assert_eq!(last_day_of_month(2025, 4), 30);
    assert_eq!(last_day_of_month(2025, 12), 31);
    assert!(is_today_available(0, 100));
    assert!(is_today_available(99, 100));
    assert!(!is_today_available(100, 100));
}

#[test]
fn fishing_reads_the_role() {
    let role = obj(vec![(
        "role",
        obj(vec![
            ("statisticsTime", obj(vec![("artifact:normal:lottery:time", Value::Int(1234))])),
            ("items", obj(vec![("1011", obj(vec![("quantity", Value::Int(40))]))])),
            ("statistics", obj(vec![("artifact:point", Value::Int(65))])),
        ]),
    )]);
    assert_eq!(fish_last_free_time(&role), 1234);
    assert_eq!(fish_rod_count(&role, 0), 40);
    assert_eq!(fish_exchange_count(&role), 3);
    let flat = obj(vec![("items", obj(vec![("1011", obj(vec![("quantity", Value::Int(7))]))]))]);
    assert_eq!(fish_rod_count(&flat, 0), 7);
    assert_eq!(fish_rod_count(&obj(vec![]), 9), 9);
    assert_eq!(fish_last_free_time(&obj(vec![])), 0);
    assert_eq!(fish_exchange_count(&obj(vec![])), 0);
}

#[test]
fn fishing_batches() {
    assert_eq!(free_fish_draws(2), 2);
    assert_eq!(free_fish_draws(10), 3);
    assert_eq!(fish_batch(120, 50), 50);
    assert_eq!(fish_batch(20, 50), 20);
    assert_eq!(fish_batch(20, 0), 1);
    assert_eq!(fish_batch(0, 0), 0);
    assert!(fish_rods_resync_due(10, 100));
    assert!(!fish_rods_resync_due(0, 100));
    assert!(!fish_rods_resync_due(10, 0));
    assert!(!fish_rods_resync_due(10, 70));
    assert_eq!(fish_within_rods(30, 12), 12);
    assert_eq!(fish_within_rods(30, 40), 30);
}

#[test]
fn arena_opponent_is_picked() {
    let arr = Value::Array(vec![obj(vec![("id", Value::Int(5))])]);
    assert_eq!(pick_arena_target_id(&arr), Some(5));
    let ranked = obj(vec![("rankList", Value::Array(vec![obj(vec![("targetId", Value::Int(6))])]))]);
    assert_eq!(pick_arena_target_id(&ranked), Some(6));
    let listed = obj(vec![
        ("rankList", Value::Array(vec![obj(vec![("x", Value::Int(1))])])),
        ("list", Value::Array(vec![obj(vec![("roleId", Value::Int(8))])])),
    ]);
    assert_eq!(pick_arena_target_id(&listed), Some(8));
    assert_eq!(pick_arena_target_id(&obj(vec![("roleId", Value::Int(9))])), Some(9));
    assert_eq!(pick_arena_target_id(&Value::Array(vec![])), None);
}

#[test]
fn arena_rounds() {
    let role = obj(vec![("items", obj(vec![("1007", obj(vec![("quantity", Value::Int(9))]))]))]);
    assert_eq!(arena_ticket_count(&role, 0), 9);
    assert_eq!(arena_ticket_count(&obj(vec![]), 4), 4);
    assert_eq!(arena_round_fights(7, 10), 4);
    assert_eq!(arena_round_fights(8, 10), 4);
    assert_eq!(arena_round_fights(7, 2), 2);
    assert_eq!(arena_round_fights(0, 2), 0);
    assert_eq!(arena_remaining(30, 25, 10), 5);
    assert_eq!(arena_remaining(30, 10, 10), 10);
    assert_eq!(arena_remaining(30, 40, 10), 0);
}

#[test]
fn modes_choose_the_tasks() {
    assert!(tops_up_fish(MonthlyMode::Fish) && !tops_up_arena(MonthlyMode::Fish));
    assert!(!tops_up_fish(MonthlyMode::Arena) && tops_up_arena(MonthlyMode::Arena));
    assert!(tops_up_fish(MonthlyMode::All) && tops_up_arena(MonthlyMode::All));
}
