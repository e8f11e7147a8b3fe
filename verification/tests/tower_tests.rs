use koc_core::tower::{
    days_since_friday, evotower_active, skinc_act_id_for,
    parse_tower_battle_result, should_claim_reward, skinc_boss_killed,
    skinc_act_id, skinc_act_start, skinc_after_fight, skinc_open_towers, skinc_targets, BossStep,
    evo_after_fight, evo_climb_start, pending_reward_floor, should_fight, tower_after_fight, tower_after_refresh,
    tower_climb_start, tower_energy_from_role_info, tower_finish, tower_recheck_after, EvoClimb, TowerClimb,
    TowerStep,
};
use koc_core::value::Value;

fn obj(list: Vec<(&str, Value)>) -> Value {
    Value::Object(list.into_iter().map(|(k, v)| (k.to_string(), v)).collect())
}

fn role(energy: i64, id: i64) -> Value {
    obj(vec![("role", obj(vec![("tower", obj(vec![("energy", Value::Int(energy)), ("id", Value::Int(id))]))]))])
}

fn climb(energy: i64, tower_id: u64) -> TowerClimb {
    TowerClimb { energy, tower_id, climbs: 0, failures: 0, cleared: false }
}

#[test]
fn climb_starts_from_role_data() {
    let st = tower_climb_start(Some(&role(7, 1230)));
    assert_eq!((st.energy, st.tower_id, st.cleared), (7, 1230, false));
    let st = tower_climb_start(Some(&obj(vec![("tower", obj(vec![("id", Value::Int(4500))]))])));
    assert_eq!((st.energy, st.tower_id, st.cleared), (0, 4500, true));
    let st = tower_climb_start(None);
    assert_eq!((st.energy, st.tower_id, st.cleared), (0, 0, false));
    assert_eq!(tower_energy_from_role_info(&obj(vec![("tower", obj(vec![("energy", Value::Int(3))]))])), Some(3));
    assert_eq!(pending_reward_floor(120), Some(12));
    assert_eq!(pending_reward_floor(121), None);
    assert_eq!(pending_reward_floor(0), None);
}

#[test]
fn won_fight_spends_energy_and_moves_on() {
    let resp = obj(vec![("battleData", obj(vec![("options", obj(vec![("towerId", Value::Int(1231))]))]))]);
    let (st, step) = tower_after_fight(climb(2, 1230), &Ok(resp));
    assert!(matches!(step, TowerStep::Fight));
    assert_eq!((st.energy, st.tower_id, st.climbs), (1, 1231, 1));
    let (st, _) = tower_after_fight(st, &Ok(obj(vec![])));
    assert_eq!((st.energy, st.tower_id, st.climbs), (0, 1231, 2));
    assert!(!should_fight(&st));
}

#[test]
fn failed_fights_follow_their_codes() {
    let (st, step) = tower_after_fight(climb(5, 1230), &Err("[1500040] need claim".to_string()));
    assert!(matches!(step, TowerStep::ClaimReward(123)));
    assert_eq!(st.failures, 0);
    let (st, step) = tower_after_fight(climb(5, 1230), &Err("[1500010] done".to_string()));
    assert!(matches!(step, TowerStep::Stop));
    assert!(st.cleared);
    let (_, step) = tower_after_fight(climb(5, 1230), &Err("[1500020] no energy".to_string()));
    assert!(matches!(step, TowerStep::Stop));
    let (_, step) = tower_after_fight(climb(5, 1230), &Err("[200400] slow down".to_string()));
    assert!(matches!(step, TowerStep::Backoff));
    let (st, step) = tower_after_fight(climb(5, 1230), &Err("network".to_string()));
    assert!(matches!(step, TowerStep::Retry));
    let (st, step) = tower_after_fight(st, &Err("[1] x".to_string()));
    assert!(matches!(step, TowerStep::Retry));
    let (st, step) = tower_after_fight(st, &Err("[1] x".to_string()));
    assert!(matches!(step, TowerStep::Stop));
    assert_eq!(st.failures, 3);
    assert!(!should_fight(&st));
}

#[test]
fn refresh_and_finish() {
    let st = tower_after_refresh(climb(1, 10), Some(&role(4, 1240)));
    assert_eq!((st.energy, st.tower_id), (4, 1240));
    let st = tower_after_refresh(st, None);
    assert_eq!((st.energy, st.tower_id), (4, 1240));
    assert_eq!(tower_finish(&climb(3, 100), None), (false, Some(12600)));
    assert_eq!(tower_finish(&climb(3, 100), Some(&role(10, 100))), (false, Some(0)));
    assert_eq!(tower_finish(&climb(3, 4500), None), (true, None));
    assert_eq!(tower_recheck_after(12), -3600);
    assert_eq!(tower_recheck_after(i64::MIN), i64::MAX);
}

#[test]
fn evotower_claims_tasks_and_sections() {
    let info = obj(vec![("evoTower", obj(vec![("energy", Value::Int(3)), ("towerId", Value::Int(19))]))]);
    let st = evo_climb_start(&info);
    assert_eq!((st.energy, st.tower_id, st.climbs), (3, 19, 0));
    let won = obj(vec![("winList", Value::Array(vec![Value::Bool(true)]))]);
    let after = obj(vec![("evoTower", obj(vec![("energy", Value::Int(2)), ("towerId", Value::Int(20))]))]);
    let st = EvoClimb { energy: 3, tower_id: 19, climbs: 2 };
    let (st, step) = evo_after_fight(st, &Ok(won), Some(&after)).unwrap();
    assert_eq!((st.energy, st.tower_id, st.climbs), (2, 20, 3));
    assert_eq!(step.claim_task, Some(1));
    assert!(step.claim_section);
    let lost = obj(vec![("winList", Value::Array(vec![Value::Bool(false)]))]);
    let (st, step) = evo_after_fight(st, &Ok(lost), None).unwrap();
    assert_eq!((st.energy, st.tower_id, st.climbs), (1, 20, 4));
    assert_eq!(step.claim_task, None);
    assert!(!step.claim_section);
    assert!(evo_after_fight(st, &Err("x".to_string()), None).is_none());
}

#[test]
fn skin_challenge_reads_its_activity_and_bosses() {
    assert_eq!(skinc_act_id(&obj(vec![("actId", Value::Int(250612))])), 250612);
    assert_eq!(skinc_act_id(&obj(vec![("towerData", obj(vec![("actId", Value::Int(250613))]))])), 250613);
    assert_eq!(skinc_act_id(&obj(vec![])), 0);
    assert_eq!(skinc_act_start(250612), Some((2025, 6, 12)));
    assert_eq!(skinc_act_start(2506129), Some((2025, 6, 12)));
    assert_eq!(skinc_act_start(99999), None);
    assert_eq!(skinc_open_towers(5), vec![1]);
    assert_eq!(skinc_open_towers(0), vec![3]);
    assert_eq!(skinc_open_towers(4), vec![1, 2, 3, 4, 5, 6]);
    assert_eq!(skinc_open_towers(7), Vec::<u64>::new());
    let map = vec![("2008".to_string(), Value::Bool(true)), ("3007".to_string(), Value::Bool(true))];
    assert_eq!(skinc_targets(&vec![1, 2, 3, 4, 5, 6], &map), vec![1, 3, 4, 5, 6]);
    assert!(matches!(skinc_after_fight(true, 2), BossStep::Beaten));
    assert!(matches!(skinc_after_fight(false, 0), BossStep::Failed(1)));
    assert!(matches!(skinc_after_fight(false, 2), BossStep::GiveUp));
}

#[test]
fn battle_answers_are_read() {
    let won = obj(vec![(
        "battleData",
        obj(vec![
            ("result", obj(vec![("sponsor", obj(vec![("ext", obj(vec![("curHP", Value::Float(12.5f64.to_bits()))]))]))])),
            ("options", obj(vec![("towerId", Value::Int(77))])),
        ]),
    )]);
    assert_eq!(parse_tower_battle_result(&won), Some((true, Some(77))));
    let lost = obj(vec![(
        "battleData",
        obj(vec![("result", obj(vec![("sponsor", obj(vec![("ext", obj(vec![("curHP", Value::Int(0))]))]))]))]),
    )]);
    assert_eq!(parse_tower_battle_result(&lost), Some((false, None)));
    assert_eq!(parse_tower_battle_result(&obj(vec![("battleData", obj(vec![]))])), None);
    assert_eq!(parse_tower_battle_result(&obj(vec![])), None);

    let hp = |v: Value| {
        obj(vec![(
            "battleData",
            obj(vec![("result", obj(vec![("accept", obj(vec![("ext", obj(vec![("curHP", v)]))]))]))]),
        )])
    };
    assert!(skinc_boss_killed(&hp(Value::Int(0))));
    assert!(skinc_boss_killed(&hp(Value::Float(0.0f64.to_bits()))));
    assert!(skinc_boss_killed(&hp(Value::Float((-0.0f64).to_bits()))));
    assert!(!skinc_boss_killed(&hp(Value::Float(12.5f64.to_bits()))));
    assert!(!skinc_boss_killed(&hp(Value::Str("0".to_string()))));
    assert!(!skinc_boss_killed(&obj(vec![])));

    let role = obj(vec![(
        "role",
        obj(vec![("tower", obj(vec![("reward", obj(vec![("12", Value::Bool(true)), ("13", Value::Bool(false))]))]))]),
    )]);
    assert!(!should_claim_reward(Some(&role), 12));
    assert!(should_claim_reward(Some(&role), 13));
    assert!(should_claim_reward(Some(&role), 14));
    assert!(should_claim_reward(None, 1));
    let listed = obj(vec![("tower", obj(vec![("reward", Value::Array(vec![Value::Bool(false), Value::Bool(true)]))]))]);
    assert!(!should_claim_reward(Some(&listed), 1));
    assert!(should_claim_reward(Some(&listed), 0));
}

#[test]
fn activity_calendar() {
    assert_eq!(days_since_friday(4), 0);
    assert_eq!(days_since_friday(5), 1);
    assert_eq!(days_since_friday(0), 3);
    assert_eq!(days_since_friday(3), 6);
    assert_eq!(skinc_act_id_for(2025, 6, 13), 2506131);
    assert_eq!(skinc_act_id_for(2101, 1, 2), 101021);
    assert_eq!(skinc_act_id_for(-5, 1, 2), 0);
    assert_eq!(skinc_act_id_for(-200, 1, 2), 1021);
    assert!(evotower_active(0));
    assert!(evotower_active(604_799));
    assert!(!evotower_active(604_800));
    assert!(evotower_active(1_814_400 + 10));
    assert!(!evotower_active(-1));
}
