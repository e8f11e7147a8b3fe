use koc_core::config::Weekday;
use koc_core::scheduler::{
    daily_time_reached_at, effective_daily_start, is_time_before, is_time_reached, maintenance_hit,
    role_needs,
};
use koc_core::state::RoleDailyFlags;

fn all_done_flags() -> RoleDailyFlags {
    let mut d = RoleDailyFlags::default();
    d.signin = true;
    d.buy_gold = true;
    d.share = true;
    d.friend_gift = true;
    d.recruit = true;
    d.hangup_reward = true;
    d.open_box = true;
    d.store_purchase = true;
    d.arena = true;
    d.bottle_task = true;
    d.boss = true;
    d.legion_boss = true;
    d.legion_signin = true;
    d.artifact = true;
    d.genie = true;
    d.discount = true;
    d.card = true;
    d.collection = true;
    d.task_rewards = true;
    d.mail = true;
    d
}

#[test]
fn time_comparisons_are_by_hour_then_minute() {
    assert!(is_time_reached(6, 0, 6, 0));
    assert!(is_time_reached(7, 0, 6, 30));
    assert!(!is_time_reached(6, 29, 6, 30));
    assert!(is_time_before(6, 29, 6, 30));
    assert!(!is_time_before(6, 30, 6, 30));
    assert!(!is_time_before(7, 0, 6, 59));
}

#[test]
fn friday_uses_its_own_start() {
    assert_eq!(effective_daily_start(true, (5, 10), (6, 0)), (5, 10));
    assert_eq!(effective_daily_start(false, (5, 10), (6, 0)), (6, 0));
    assert!(daily_time_reached_at(true, 5, 30, (5, 10), (6, 0)));
    assert!(!daily_time_reached_at(false, 5, 30, (5, 10), (6, 0)));
}

#[test]
fn maintenance_window_is_found_on_its_day_only() {
    let windows = vec![(Weekday::Thu, 5, 0, 6, 30), (Weekday::Fri, 4, 0, 5, 0)];
    assert_eq!(maintenance_hit(Weekday::Thu, 5, 45, &windows), Some((Weekday::Thu, 5, 0, 6, 30)));
    assert_eq!(maintenance_hit(Weekday::Thu, 6, 30, &windows), None);
    assert_eq!(maintenance_hit(Weekday::Wed, 5, 45, &windows), None);
    assert_eq!(maintenance_hit(Weekday::Fri, 4, 0, &windows), Some((Weekday::Fri, 4, 0, 5, 0)));
}

#[test]
fn forced_round_runs_what_the_clock_allows() {
    let n = role_needs(true, false, true, true, true, true, None, None, Some(false));
    assert!(!n.daily);
    assert!(n.periodic);
    assert!(!n.weekly);
    let n = role_needs(true, true, true, true, false, false, None, Some(true), Some(false));
    assert!(n.daily && n.periodic && n.weekly);
}

#[test]
fn finished_role_waits_unless_cars_are_due() {
    let done = all_done_flags();
    let n = role_needs(false, true, false, true, true, false, Some(&done), None, Some(false));
    assert!(!n.any());
    let n = role_needs(false, true, false, true, true, true, Some(&done), None, Some(false));
    assert!(n.daily);
    let mut sent = all_done_flags();
    sent.car_send_done = true;
    let n = role_needs(false, true, false, true, true, true, Some(&sent), None, Some(false));
    assert!(!n.daily);
}

#[test]
fn unseen_role_needs_periodic_and_daily() {
    let n = role_needs(false, true, false, false, false, false, None, None, None);
    assert!(n.daily);
    assert!(n.periodic);
    assert!(!n.weekly);
    let fresh = RoleDailyFlags::default();
    let n = role_needs(false, false, false, false, false, false, Some(&fresh), None, Some(false));
    assert!(!n.any());
}

#[test]
fn weekly_quiz_runs_once_on_its_day() {
    let n = role_needs(false, true, true, true, false, false, None, Some(false), Some(false));
    assert!(n.weekly);
    let n = role_needs(false, true, true, true, false, false, None, Some(true), Some(false));
    assert!(!n.weekly);
    let n = role_needs(false, true, false, true, false, false, None, Some(false), Some(false));
    assert!(!n.weekly);
}
