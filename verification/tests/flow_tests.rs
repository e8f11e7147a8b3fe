use koc_core::bytes_io::DataReader;
use koc_core::cli_evotower::{merge_goes_on, merge_round, MergeRound, MergeStop};
use koc_core::study::AnswerBank;
use koc_core::wildcard::wildcard_match;
use koc_core::cli_evotower::{evo_flow_start, evo_flow_step, evo_recovery_claims, evo_reward_due, EvoFlowAction, EvoFlowEvent};
use koc_core::daily::{arena_fight_stops, stateful_daily_after, stateful_daily_plan, DailyTask};
use koc_core::kpi::DailyTaskStatus;
use koc_core::state::RoleDailyFlags;
use koc_core::tower::{tower_flow_start, tower_flow_step, FlowStop, TowerFlowAction, TowerFlowEvent};
use koc_core::value::Value;

#[test]
fn stateful_plan_keeps_the_stage_gates() {
    let flags = RoleDailyFlags::default();
    let status = DailyTaskStatus::default();
    let low = stateful_daily_plan(&flags, &status, 1, 399);
    assert_eq!(low.arena_fights, 0);
    assert!(low.genie_sweeps.is_empty());
    assert_eq!(low.sweep_tickets, 0);
    let mid = stateful_daily_plan(&flags, &status, 1, 400);
    assert_eq!(mid.arena_fights, 3);
    assert!(mid.genie_sweeps.is_empty());
    let high = stateful_daily_plan(&flags, &status, 1, 3000);
    assert_eq!(high.genie_sweeps, vec![1, 2, 3, 4]);
    assert_eq!(high.sweep_tickets, 3);
    assert!(high.nightmare);
    assert_eq!(high.boss_fights, 3);
    assert_eq!(high.buy_gold_times, 3);
    let mut done = RoleDailyFlags::default();
    done.buy_gold = true;
    done.boss = true;
    let p = stateful_daily_plan(&done, &status, 2, 5000);
    assert_eq!(p.buy_gold_times, 0);
    assert_eq!(p.boss_fights, 0);
    assert!(!p.nightmare);
}

#[test]
fn stateful_flags_follow_the_answers() {
    let flags = RoleDailyFlags::default();
    let gold = vec![Ok(Value::Null), Err("boom".to_string()), Ok(Value::Null)];
    assert!(!stateful_daily_after(flags, DailyTask::BuyGold, &gold).buy_gold);
    let gold_ok = vec![Ok(Value::Null), Ok(Value::Null), Ok(Value::Null)];
    assert!(stateful_daily_after(flags, DailyTask::BuyGold, &gold_ok).buy_gold);
    let card = vec![Ok(Value::Null), Err("boom".to_string())];
    assert!(!stateful_daily_after(flags, DailyTask::Card, &card).card);
    let arena = vec![Err("boom".to_string())];
    let after = stateful_daily_after(flags, DailyTask::Arena, &arena);
    assert!(after.arena);
    assert!(!after.card);
    assert!(arena_fight_stops(&Err("error 200750: no tickets".to_string())));
    assert!(!arena_fight_stops(&Err("error 200751".to_string())));
    assert!(!arena_fight_stops(&Ok(Value::Null)));
}

#[test]
fn tower_flow_climbs_refreshes_and_stops() {
    let (st, a) = tower_flow_start(2, 0, true, 1000, Some(5), Some(20));
    assert_eq!(st.refresh_every, 1);
    assert!(a == TowerFlowAction::Climb(0));
    let (st, a) = tower_flow_step(st, TowerFlowEvent::Fought(Some(21)));
    assert_eq!(st.climbs, 1);
    assert_eq!(st.energy, 4);
    assert_eq!(st.tower_id, Some(21));
    assert!(a == TowerFlowAction::Refresh);
    let (st, a) = tower_flow_step(st, TowerFlowEvent::Refreshed(Some(9), None));
    assert_eq!(st.energy, 9);
    assert!(a == TowerFlowAction::Climb(1000));
    let (st, a) = tower_flow_step(st, TowerFlowEvent::Failed("[1500040] reward".to_string()));
    assert!(a == TowerFlowAction::ClaimReward);
    let (st, _) = tower_flow_step(st, TowerFlowEvent::Failed("boom".to_string()));
    let (st, a) = tower_flow_step(st, TowerFlowEvent::Failed("boom".to_string()));
    assert!(a == TowerFlowAction::RefreshAfterFailure);
    let (st, a) = tower_flow_step(st, TowerFlowEvent::Failed("boom".to_string()));
    assert_eq!(st.consecutive_failures, 3);
    assert!(a == TowerFlowAction::Stop(FlowStop::Failures));
    let (_, a) = tower_flow_start(5, 1, true, 0, Some(0), None);
    assert!(a == TowerFlowAction::Stop(FlowStop::NoEnergy));
    let (st, _) = tower_flow_start(1, 5, true, 0, Some(3), None);
    let (_, a) = tower_flow_step(st, TowerFlowEvent::Fought(None));
    assert!(a == TowerFlowAction::Stop(FlowStop::MaxClimb));
    let (st, _) = tower_flow_start(9, 5, true, 0, Some(3), None);
    let (_, a) = tower_flow_step(st, TowerFlowEvent::Failed("[1500010] cleared".to_string()));
    assert!(a == TowerFlowAction::Stop(FlowStop::Cleared));
}

#[test]
fn evo_flow_counts_failures_and_refreshes() {
    let (st, a) = evo_flow_start(10, 2, 2, 500, 4, Some(30));
    assert!(a == EvoFlowAction::Climb(0));
    let (st, a) = evo_flow_step(st, EvoFlowEvent::Fought);
    assert!(a == EvoFlowAction::Climb(500));
    let (st, a) = evo_flow_step(st, EvoFlowEvent::Fought);
    assert_eq!(st.climbs, 2);
    assert!(a == EvoFlowAction::Refresh);
    let (st, a) = evo_flow_step(st, EvoFlowEvent::Refreshed(Some(0), None));
    assert!(a == EvoFlowAction::Stop(FlowStop::EnergyOut));
    let st = koc_core::cli_evotower::EvoFlow { energy: 3, ..st };
    let ev = EvoFlowEvent::ReadyFailed { error: "boom".to_string(), recovered: false, energy: None, tower_id: None };
    let (st, a) = evo_flow_step(st, ev);
    assert_eq!(st.consecutive_failures, 1);
    assert!(a == EvoFlowAction::Climb(1000));
    let (st2, a) = evo_flow_step(st, EvoFlowEvent::FightFailed("[200400] slow".to_string()));
    assert_eq!(st2.consecutive_failures, 2);
    assert!(a == EvoFlowAction::Stop(FlowStop::Failures));
    let ev = EvoFlowEvent::ReadyFailed { error: "[12200020] pending".to_string(), recovered: true, energy: Some(7), tower_id: Some(40) };
    let (st3, a) = evo_flow_step(st, ev);
    assert_eq!(st3.consecutive_failures, 0);
    assert_eq!(st3.energy, 7);
    assert!(a == EvoFlowAction::Climb(0));
    let (_, a) = evo_flow_start(10, 2, 2, 500, 0, None);
    assert!(a == EvoFlowAction::Stop(FlowStop::NoEnergy));
    assert!(evo_recovery_claims(true, Some(40)));
    assert!(!evo_recovery_claims(true, Some(41)));
    assert!(!evo_recovery_claims(true, Some(0)));
    assert!(!evo_recovery_claims(false, Some(40)));
    assert!(evo_reward_due(true, true, Some(50)));
    assert!(!evo_reward_due(true, false, Some(50)));
}

fn obj(list: Vec<(&str, Value)>) -> Value {
    Value::Object(list.into_iter().map(|(k, v)| (k.to_string(), v)).collect())
}

#[test]
fn merge_rounds_stop_for_their_reasons() {
    assert!(matches!(merge_round(&Err("[200160] closed".to_string())), MergeRound::Stop(MergeStop::NotOpen)));
    assert!(matches!(merge_round(&Err("boom".to_string())), MergeRound::Stop(MergeStop::InfoFailed)));
    assert!(matches!(merge_round(&Ok(obj(vec![]))), MergeRound::Stop(MergeStop::NoBox)));
    assert!(matches!(merge_round(&Ok(obj(vec![("mergeBox", obj(vec![]))]))), MergeRound::Stop(MergeStop::NothingToMerge)));
    assert!(merge_goes_on(&MergeRound::AutoMerge, false, 0) == Some(MergeStop::AutoMergeFailed));
    assert!(merge_goes_on(&MergeRound::AutoMerge, true, 0).is_none());
    assert!(merge_goes_on(&MergeRound::Manual(vec![]), true, 0) == Some(MergeStop::NoManualMerge));
    assert!(merge_goes_on(&MergeRound::Manual(vec![]), true, 2).is_none());
}

#[test]
fn answer_bank_loads_only_nonempty_item_lists() {
    let mut bank = AnswerBank::from_items(&vec![("Question One".to_string(), 3)]);
    let bad = vec![("".to_string(), 2), ("x".to_string(), 0)];
    assert_eq!(bank.load_items(&bad), Err("External answer.json is empty or invalid".to_string()));
    assert_eq!(bank.find_answer("questionone"), 3);
    assert_eq!(bank.load_items(&vec![("Other".to_string(), 2)]), Ok(1));
    assert_eq!(bank.find_answer("other"), 2);
    assert_eq!(bank.find_answer("nothing like it"), 1);
}

#[test]
fn wildcard_reads_a_star_in_the_value_literally_first() {
    assert!(wildcard_match("a*c", "a*c"));
    assert!(!wildcard_match("a*", "a*b"));
    assert!(wildcard_match("a*", "ab*"));
    assert!(!wildcard_match("*b", "**b"));
    assert!(!wildcard_match("*", "**"));
    assert!(wildcard_match("a*c", "ab*c"));
    assert!(!wildcard_match("a", "*"));
}

#[test]
fn readers_stop_where_the_failed_read_left_off() {
    let mut r = DataReader::new(vec![1, 2, 3, 4, 5, 6]);
    assert_eq!(r.read_i64(), None);
    assert_eq!(r.read_u8(), Some(5));
    let mut r = DataReader::new(vec![0x80, 0x80]);
    assert_eq!(r.read_7bit_int(), None);
    assert_eq!(r.read_u8(), None);
    let mut r = DataReader::new(vec![0x61, 0x62]);
    assert_eq!(r.read_utf_bytes(3), None);
    assert_eq!(r.read_u8(), Some(0x61));
}
