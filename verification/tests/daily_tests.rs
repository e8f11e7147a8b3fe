use koc_core::daily::{
    arena_target_id, daily_plan, day_boss_id, done_after, gacha_step, needs_team_restore, needs_team_switch,
    sync_with_server, DailyTaskConfig, GachaStep,
};
use koc_core::kpi::DailyTaskStatus;
use koc_core::state::RoleDailyFlags;
use koc_core::value::Value;

fn obj(list: Vec<(&str, Value)>) -> Value {
    Value::Object(list.into_iter().map(|(k, v)| (k.to_string(), v)).collect())
}

fn no_flags() -> RoleDailyFlags {
    RoleDailyFlags {
        signin: false,
        buy_gold: false,
        share: false,
        friend_gift: false,
        recruit: false,
        hangup_reward: false,
        open_box: false,
        store_purchase: false,
        arena: false,
        bottle_task: false,
        boss: false,
        legion_boss: false,
        legion_signin: false,
        artifact: false,
        genie: false,
        gacha: false,
        discount: false,
        card: false,
        collection: false,
        task_rewards: false,
        mail: false,
        nightmare: false,
        dream_shop: false,
        car_send_done: false,
        car_claimed_today: false,
    }
}

#[test]
fn bosses_follow_the_weekday() {
    let ids: Vec<u64> = (0..7).map(day_boss_id).collect();
    assert_eq!(ids, vec![9904, 9905, 9901, 9902, 9903, 9904, 9905]);
}

#[test]
fn plan_skips_what_the_server_saw_done() {
    let mut status = DailyTaskStatus::default();
    let plan = daily_plan(&status, 3, 5000);
    assert!(plan.share && plan.friend_gift && plan.recruit && plan.open_box && plan.store_purchase);
    assert_eq!(plan.buy_gold_times, 3);
    assert_eq!(plan.arena_fights, 3);
    assert_eq!(plan.boss_id, 9902);
    assert_eq!(plan.legion_boss_fights, 2);
    assert_eq!(plan.fishing_times, 3);
    assert_eq!(plan.genie_sweeps, vec![1, 2, 3, 4]);
    assert!(!plan.legacy_claim);
    assert!(plan.nightmare);

    status.share = true;
    status.buy_gold = true;
    status.arena_done_today = 2;
    status.legion_boss_done = 5;
    status.artifact_lottery_today = true;
    status.genie_2_today = true;
    status.genie_4_today = true;
    let plan = daily_plan(&status, 2, 9000);
    assert!(!plan.share);
    assert_eq!(plan.buy_gold_times, 0);
    assert_eq!(plan.arena_fights, 1);
    assert_eq!(plan.legion_boss_fights, 0);
    assert_eq!(plan.fishing_times, 0);
    assert_eq!(plan.genie_sweeps, vec![1, 3]);
    assert!(plan.legacy_claim);
    assert!(!plan.nightmare);
    status.arena = true;
    assert_eq!(daily_plan(&status, 2, 9000).arena_fights, 0);
}

#[test]
fn arena_target_is_first_listed() {
    let listed = obj(vec![("roleList", Value::Array(vec![obj(vec![("roleId", Value::Int(77))])]))]);
    assert_eq!(arena_target_id(&listed), 77);
    let bare = Value::Array(vec![obj(vec![("roleId", Value::Int(78))])]);
    assert_eq!(arena_target_id(&bare), 78);
    assert_eq!(arena_target_id(&obj(vec![("roleList", Value::Array(vec![]))])), 0);
}

#[test]
fn flags_follow_server_and_answers() {
    let mut flags = no_flags();
    let mut status = DailyTaskStatus::default();
    status.share = true;
    status.bottle = true;
    status.artifact_lottery_today = true;
    sync_with_server(&mut flags, &status);
    assert!(flags.share && flags.bottle_task && flags.artifact);
    assert!(!flags.recruit && !flags.signin);

    assert!(done_after(false, &Ok(Value::Null)));
    assert!(done_after(false, &Err("[200120] done".to_string())));
    assert!(!done_after(false, &Err("timeout".to_string())));
    assert!(done_after(true, &Err("timeout".to_string())));
}

#[test]
fn teams_and_gacha() {
    assert!(needs_team_switch(Some(1), 2));
    assert!(!needs_team_switch(Some(2), 2));
    assert!(!needs_team_switch(None, 2));
    assert!(needs_team_restore(true, Some(1), 2));
    assert!(!needs_team_restore(false, Some(1), 2));
    assert!(!needs_team_restore(true, Some(2), 2));
    assert!(!needs_team_restore(true, None, 2));

    let config = DailyTaskConfig { formations: None, dream_shop: None, car_enabled: true, gacha_enabled: true };
    let mut flags = no_flags();
    let mut status = DailyTaskStatus::default();
    assert!(gacha_step(&config, &flags, &status) == GachaStep::Draw);
    status.gacha_today = true;
    assert!(gacha_step(&config, &flags, &status) == GachaStep::AlreadyDrawn);
    flags.gacha = true;
    assert!(gacha_step(&config, &flags, &status) == GachaStep::Off);
    let off = DailyTaskConfig { formations: None, dream_shop: None, car_enabled: true, gacha_enabled: false };
    assert!(gacha_step(&off, &no_flags(), &DailyTaskStatus::default()) == GachaStep::Off);
}
