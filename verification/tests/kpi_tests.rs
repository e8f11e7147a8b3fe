use koc_core::kpi::{current_team_from_info, with_battle_version};
use koc_core::kpi::{
    battle_version, is_evotower_unlocked, level_id, number_under, openbox_pos,
    dream_item_name, extract_last_login, find_use_team_id_rec, generate_random_seed, get_daily_task_status,
    is_today_available, parse_dream_purchase_key, skinc_current_floor, tower_id_from_role_info, tower_is_cleared,
    DailyTaskReport, DailyTaskStatus, DayWindow,
};
use koc_core::value::Value;

fn obj(list: Vec<(&str, Value)>) -> Value {
    Value::Object(list.into_iter().map(|(k, v)| (k.to_string(), v)).collect())
}

#[test]
fn skinc_current_floor_follows_level_reward_map() {
    let no_progress: Vec<(String, Value)> = vec![];
    let floor_three = vec![("1001".to_string(), Value::Bool(true)), ("1002".to_string(), Value::Bool(true))];
    let complete = vec![("6008".to_string(), Value::Bool(true))];

    assert_eq!(skinc_current_floor(1, &no_progress), 1);
    assert_eq!(skinc_current_floor(1, &floor_three), 3);
    assert_eq!(skinc_current_floor(6, &complete), 8);
}

#[test]
fn tower_clear_state_is_detected_from_role_info() {
    assert!(!tower_is_cleared(&obj(vec![("role", obj(vec![("tower", obj(vec![("id", Value::Int(4499))]))]))])));
    assert!(tower_is_cleared(&obj(vec![("role", obj(vec![("tower", obj(vec![("id", Value::Int(4500))]))]))])));
    assert!(tower_is_cleared(&obj(vec![("tower", obj(vec![("id", Value::Int(4501))]))])));
}

#[test]
fn done_errors_are_reported_as_skipped() {
    let mut report = DailyTaskReport::new();

    report.run_with_prefix("test", "tower reward", &Err("[200120] done".to_string()));

    assert_eq!(report.skip_count(), 1);
    assert_eq!(report.fail_count(), 0);
}

#[test]
fn report_counts_and_summary() {
    let mut report = DailyTaskReport::new();
    report.run("a", Ok(Value::Null));
    report.run("b", Err("[999] nope".to_string()));
    report.run("c", Err("no code".to_string()));
    report.skip("d");
    report.fail("e", "bad");
    report.run("f", Err("[400030] done".to_string()));
    assert_eq!(report.ok_count(), 1);
    assert_eq!(report.skip_count(), 2);
    assert_eq!(report.fail_count(), 3);
    assert_eq!(report.ok_count() + report.skip_count() + report.fail_count(), report.results.len());
    assert_eq!(report.summary(), "=== TASK DONE: 1 Succ, 2 Skipped, 3 Failed, Total 6 ===");
}

#[test]
fn status_counts_and_lists_pending_tasks() {
    let mut st = DailyTaskStatus::default();
    st.login = true;
    st.arena = true;
    assert_eq!(st.completed_count(), 2);
    assert_eq!(st.pending_task_ids(), vec![2, 3, 4, 5, 6, 7, 12, 14]);
    let s = st.summary();
    assert!(s.starts_with("  [+]  1. 登录游戏\n  [-]  2. 分享游戏\n"));
    assert!(s.contains("  [+] 13. 竞技场战斗\n"));
    assert!(s.ends_with("  DONE: 2/10"));
}

#[test]
fn random_seed_matches_the_formula() {
    let t: i64 = 1_700_000_000;
    let mut x = (t as i32) as u32 ^ 2118920861;
    x = (x << 16) | (x >> 16);
    x ^= 797788954;
    x ^= 1513922175;
    assert_eq!(generate_random_seed(t), x);
    assert_eq!(generate_random_seed(0), ((2118920861u32 << 16) | (2118920861u32 >> 16)) ^ 797788954 ^ 1513922175);
}

#[test]
fn dream_keys_and_items() {
    assert_eq!(parse_dream_purchase_key("2-5"), Some((2, 5)));
    assert_eq!(parse_dream_purchase_key("2-x"), None);
    assert_eq!(parse_dream_purchase_key("25"), None);
    assert_eq!(parse_dream_purchase_key("1-2-3"), None);
    assert_eq!(dream_item_name(1, 0), "Advancement stone");
    assert_eq!(dream_item_name(3, 7), "Normal fishing rod");
    assert_eq!(dream_item_name(1, 7), "Unknown Goods");
    assert_eq!(dream_item_name(4, 0), "Unknown Goods");
}

#[test]
fn team_id_is_found_depth_first() {
    let v = obj(vec![
        ("a", Value::Array(vec![obj(vec![("x", Value::Int(1))]), obj(vec![("useTeamId", Value::Int(4))])])),
        ("b", obj(vec![("useTeamId", Value::Int(9))])),
    ]);
    assert_eq!(find_use_team_id_rec(&v), Some(4));
    let top = obj(vec![("b", obj(vec![("useTeamId", Value::Int(9))])), ("useTeamId", Value::Int(2))]);
    assert_eq!(find_use_team_id_rec(&top), Some(2));
    assert_eq!(find_use_team_id_rec(&Value::Int(3)), None);
}

#[test]
fn role_info_readers() {
    let info = obj(vec![("role", obj(vec![("lastLoginAt", Value::Int(77)), ("tower", obj(vec![("id", Value::Int(10))]))]))]);
    assert_eq!(extract_last_login(&info), Some(77));
    assert_eq!(tower_id_from_role_info(&info), Some(10));
    let info = obj(vec![("statistics", obj(vec![("lastLoginTime", Value::Int(5))]))]);
    assert_eq!(extract_last_login(&info), Some(5));
    assert_eq!(tower_id_from_role_info(&info), None);
    assert!(!tower_is_cleared(&info));
}

#[test]
fn daily_status_reads_role_data() {
    let today = DayWindow { start: 1000, end: 2000 };
    let info = obj(vec![(
        "role",
        obj(vec![
            ("dailyTask", obj(vec![("complete", obj(vec![("1", Value::Int(-1)), ("13", Value::Int(0)), ("14", Value::Int(-1))]))])),
            ("statistics", obj(vec![("legion:boss", Value::Int(2)), ("area:arena:last", Value::Int(3))])),
            (
                "statisticsTime",
                obj(vec![
                    ("buy:gold", Value::Int(1500)),
                    ("legion:boss", Value::Int(1200)),
                    ("area:arena:last", Value::Int(10)),
                    ("genie:daily:free:1", Value::Float(1500.7f64.to_bits())),
                ]),
            ),
        ]),
    )]);
    let st = get_daily_task_status(Some(&info), today);
    assert!(st.login && st.bottle && !st.arena && !st.share);
    assert_eq!(st.legion_boss_done, 2);
    assert_eq!(st.arena_done_today, 0);
    assert!(st.buy_gold_today);
    assert!(st.genie_1_today);
    assert!(!st.genie_2_today);
    assert!(!st.gacha_today);
    let none = get_daily_task_status(None, today);
    assert_eq!(none.completed_count(), 0);
}

#[test]
fn today_check_truncates_floats() {
    let today = DayWindow { start: 1000, end: 2000 };
    assert!(is_today_available(None, today));
    assert!(!is_today_available(Some(&Value::Int(1000)), today));
    assert!(is_today_available(Some(&Value::Int(2000)), today));
    assert!(!is_today_available(Some(&Value::Float(1999.9f64.to_bits())), today));
    assert!(is_today_available(Some(&Value::Float(999.9f64.to_bits())), today));
    assert!(is_today_available(Some(&Value::Str("1500".to_string())), today));
    assert!(is_today_available(Some(&Value::Float(f64::NAN.to_bits())), DayWindow { start: 1, end: 2 }));
    assert!(!is_today_available(Some(&Value::Float(f64::NAN.to_bits())), DayWindow { start: 0, end: 2 }));
}

#[test]
fn durations_are_written_as_hms() {
    assert_eq!(koc_core::kpi::fmt_hms(0), "00:00:00");
    assert_eq!(koc_core::kpi::fmt_hms(3661), "01:01:01");
    assert_eq!(koc_core::kpi::fmt_hms(8 * 3600 + 59), "08:00:59");
    assert_eq!(koc_core::kpi::fmt_hms(360_000), "100:00:00");
}

#[test]
fn stage_battle_version_and_merge_box_reads() {
    let role = obj(vec![("role", obj(vec![("levelId", Value::Int(4200))]))]);
    assert_eq!(level_id(Some(&role)), 4200);
    assert_eq!(level_id(Some(&obj(vec![("levelId", Value::Int(12))]))), 12);
    assert_eq!(level_id(None), 0);
    assert!(is_evotower_unlocked(4001));
    assert!(!is_evotower_unlocked(4000));
    let fight = obj(vec![("battleData", obj(vec![("version", Value::Int(-3))]))]);
    assert_eq!(battle_version(&fight), Some(-3));
    assert_eq!(battle_version(&obj(vec![])), None);
    let merge = obj(vec![("mergeBox", obj(vec![("freeEnergy", Value::Int(5)), ("costTotalCnt", Value::Int(101))]))]);
    assert_eq!(number_under(&merge, "mergeBox", "freeEnergy"), 5);
    assert_eq!(number_under(&merge, "evoTower", "lotteryLeftCnt"), 0);
    assert_eq!(openbox_pos(number_under(&merge, "mergeBox", "costTotalCnt")), (7, 3));
    assert_eq!(openbox_pos(1), (4, 5));
    assert_eq!(openbox_pos(102), (6, 3));
}

#[test]
fn current_team_reads_the_formation_answer() {
    let direct = obj(vec![("presetTeamInfo", obj(vec![("useTeamId", Value::Int(3))]))]);
    assert_eq!(current_team_from_info(&direct), 3);
    let nested = obj(vec![(
        "presetTeamInfo",
        obj(vec![("presetTeamInfo", obj(vec![("useTeamId", Value::Int(4))]))]),
    )]);
    assert_eq!(current_team_from_info(&nested), 4);
    let deep = obj(vec![("teams", Value::Array(vec![obj(vec![("useTeamId", Value::Int(2))])]))]);
    assert_eq!(current_team_from_info(&deep), 2);
    assert_eq!(current_team_from_info(&obj(vec![])), 1);
}

#[test]
fn fight_parameters_carry_the_battle_version() {
    let mut params = obj(vec![("towerId", Value::Int(10))]);
    with_battle_version(&mut params, Some(240));
    match &params {
        Value::Object(es) => {
            assert_eq!(es.len(), 2);
            assert_eq!(es[1].0, "battleVersion");
            assert!(matches!(es[1].1, Value::Int(240)));
        }
        _ => panic!("not an object"),
    }
    with_battle_version(&mut params, Some(241));
    match &params {
        Value::Object(es) => {
            assert_eq!(es.len(), 2);
            assert!(matches!(es[1].1, Value::Int(241)));
        }
        _ => panic!("not an object"),
    }
    let mut plain = obj(vec![]);
    with_battle_version(&mut plain, None);
    assert!(matches!(&plain, Value::Object(es) if es.is_empty()));
    let mut number = Value::Int(1);
    with_battle_version(&mut number, Some(5));
    assert!(matches!(number, Value::Int(1)));
}
