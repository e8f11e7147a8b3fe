use koc_core::cli_evotower::{
    collect_claimed_evotower_tasks, collect_merge_cells, collect_merge_groups, get_evo_energy, get_evo_tower_id,
    is_merge_level8_or_above, merge_pairs, merge_progress_to_claim, parse_evotower_fight_result,
    should_claim_evotower_task, should_claim_task_now,
};
use koc_core::value::Value;

fn obj(list: Vec<(&str, Value)>) -> Value {
    Value::Object(list.into_iter().map(|(k, v)| (k.to_string(), v)).collect())
}

#[test]
fn tower_data_is_read_with_fallbacks() {
    let nested = obj(vec![("evoTower", obj(vec![("energy", Value::Int(4)), ("towerId", Value::Int(31))]))]);
    assert_eq!(get_evo_energy(&nested), Some(4));
    assert_eq!(get_evo_tower_id(&nested), Some(31));
    let flat = obj(vec![("energy", Value::Int(2)), ("towerId", Value::Int(7))]);
    assert_eq!(get_evo_energy(&flat), Some(2));
    assert_eq!(get_evo_tower_id(&flat), Some(7));
    assert_eq!(get_evo_energy(&obj(vec![])), None);
}

#[test]
fn fight_results_are_read() {
    let won = obj(vec![("winList", Value::Array(vec![Value::Bool(true)]))]);
    let lost = obj(vec![("battleData", obj(vec![("winList", Value::Array(vec![Value::Bool(false)]))]))]);
    assert_eq!(parse_evotower_fight_result(&won), Some(true));
    assert_eq!(parse_evotower_fight_result(&lost), Some(false));
    assert_eq!(parse_evotower_fight_result(&obj(vec![])), None);
}

#[test]
fn task_claims_follow_the_day() {
    let day = obj(vec![("1", Value::Bool(true)), ("2", Value::Bool(false))]);
    let info = obj(vec![("evoTower", obj(vec![("taskClaimMap", obj(vec![("250101", day)]))]))]);
    assert!(!should_claim_evotower_task(&info, "250101", 1));
    assert!(should_claim_evotower_task(&info, "250101", 2));
    assert!(should_claim_evotower_task(&info, "250101", 3));
    assert!(should_claim_evotower_task(&info, "250102", 1));
    assert!(!should_claim_evotower_task(&obj(vec![]), "250101", 1));
    assert_eq!(collect_claimed_evotower_tasks(&info, "250101"), vec![1]);
    assert_eq!(collect_claimed_evotower_tasks(&info, "250102"), Vec::<u64>::new());
    let listed = obj(vec![(
        "evoTower",
        obj(vec![(
            "taskClaimMap",
            obj(vec![("d", Value::Array(vec![Value::Bool(false), Value::Bool(true), Value::Bool(true), Value::Bool(true)]))]),
        )]),
    )]);
    assert_eq!(collect_claimed_evotower_tasks(&listed, "d"), vec![1, 2, 3]);
}

fn cell(conf: i64, item: i64, lock: bool) -> Value {
    obj(vec![("gridConfId", Value::Int(conf)), ("gridItemId", Value::Int(item)), ("isLock", Value::Bool(lock))])
}

#[test]
fn merge_box_rules() {
    let merge_box = obj(vec![
        (
            "gridMap",
            obj(vec![
                ("0", obj(vec![("0", cell(0, 5, false)), ("1", cell(0, 6, false)), ("2", cell(0, 5, true))])),
                ("1", obj(vec![("0", cell(0, 5, false)), ("1", cell(1, 6, false)), ("x", cell(0, 6, false))])),
                ("2", obj(vec![("0", cell(0, 5, false)), ("1", cell(0, 0, false))])),
            ]),
        ),
        ("taskMap", obj(vec![("11", Value::Int(1)), ("12", Value::Int(0)), ("13", Value::Int(1)), ("251212208", Value::Int(0))])),
        ("taskClaimMap", obj(vec![("13", Value::Bool(true))])),
    ]);
    assert_eq!(collect_merge_cells(&merge_box), vec![(5, 0, 0), (6, 0, 1), (5, 1, 0), (5, 2, 0)]);
    let groups = collect_merge_groups(&merge_box);
    assert_eq!(groups.len(), 1);
    assert_eq!(groups[0].0, 5);
    assert_eq!(groups[0].1, vec![(0, 0), (1, 0), (2, 0)]);
    assert_eq!(merge_pairs(&groups), vec![((2, 0), (1, 0))]);
    assert_eq!(merge_progress_to_claim(&merge_box), vec![11]);
    assert!(!is_merge_level8_or_above(&merge_box));
    assert!(is_merge_level8_or_above(&obj(vec![("taskMap", obj(vec![("251212208", Value::Int(3))]))])));
}

#[test]
fn claimed_tasks_are_not_claimed_again() {
    let info = obj(vec![("evoTower", obj(vec![("taskClaimMap", obj(vec![]))]))]);
    let mut claimed: Vec<u64> = vec![];
    assert!(should_claim_task_now(&claimed, &info, "250101", 2));
    claimed.push(2);
    assert!(!should_claim_task_now(&claimed, &info, "250101", 2));
    assert!(should_claim_task_now(&claimed, &info, "250101", 3));
}
