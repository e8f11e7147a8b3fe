//! The rules of the monthly top-up: the calendar, what the role's data says
//! of fishing rods, free fishing and points, the batches of paid fishing,
//! and which arena opponent to pick.

use vstd::prelude::*;
use crate::value::{Value, Json};
use crate::lookup::{at_path, member, or_else, json_i64, json_u64, get_member, get_opt, get_zero, as_i64, as_u64, step_zero};

verus! {

/// Whether a year is a leap year of the Gregorian calendar.
pub open spec fn leap_year(year: int) -> bool {
    (year % 4 == 0 && year % 100 != 0) || year % 400 == 0
}

/// The number of days of a month of the Gregorian calendar.
pub open spec fn month_days(year: int, month: int) -> u32 {
    if month == 2 {
        if leap_year(year) { 29 } else { 28 }
    } else if month == 4 || month == 6 || month == 9 || month == 11 {
        30
    } else {
        31
    }
}

/// The last day of a month (1 to 12) of the Gregorian calendar.
pub fn last_day_of_month(year: i32, month: u32) -> (r: u32)
    requires
        1 <= month <= 12,
        -262_143 <= year <= 262_142,
        month == 12 ==> year <= 262_141,
    ensures
        r == month_days(year as int, month as int),
{
    if month == 2 {
        if (year % 4 == 0 && year % 100 != 0) || year % 400 == 0 {
            29
        } else {
            28
        }
    } else if month == 4 || month == 6 || month == 9 || month == 11 {
        30
    } else {
        31
    }
}

/// Whether a daily chance last used at `last_time_sec` is available again:
/// it was never used, or last used before the start of today.
pub fn is_today_available(last_time_sec: i64, start_of_day: i64) -> (r: bool)
    ensures
        r == (last_time_sec <= 0 || last_time_sec < start_of_day),
{
    last_time_sec <= 0 || last_time_sec < start_of_day
}

proof fn lemma_path2(j: Json, a: Seq<char>, b: Seq<char>)
    ensures
        at_path(j, seq![a, b]) == match member(j, a) {
            Some(x1) => member(x1, b),
            None => None,
        },
{
    reveal_with_fuel(at_path, 3);
    assert(seq![a, b].drop_last() =~= seq![a]);
    assert(seq![a].drop_last() =~= Seq::<Seq<char>>::empty());
}

proof fn lemma_path3(j: Json, a: Seq<char>, b: Seq<char>, c: Seq<char>)
    ensures
        at_path(j, seq![a, b, c]) == match member(j, a) {
            Some(x1) => match member(x1, b) {
                Some(x2) => member(x2, c),
                None => None,
            },
            None => None,
        },
{
    reveal_with_fuel(at_path, 4);
    assert(seq![a, b, c].drop_last() =~= seq![a, b]);
    assert(seq![a, b].drop_last() =~= seq![a]);
    assert(seq![a].drop_last() =~= Seq::<Seq<char>>::empty());
}

proof fn lemma_path4(j: Json, a: Seq<char>, b: Seq<char>, c: Seq<char>, d: Seq<char>)
    ensures
        at_path(j, seq![a, b, c, d]) == match at_path(j, seq![a, b, c]) {
            Some(x3) => member(x3, d),
            None => None,
        },
{
    assert(seq![a, b, c, d].drop_last() =~= seq![a, b, c]);
}

/// When the free fishing was last used, from the role's statistics (0 when
/// unknown).
pub open spec fn free_fish_time(j: Json) -> i64 {
    match json_i64(
        or_else(
            at_path(j, seq!["role"@, "statisticsTime"@, "artifact:normal:lottery:time"@]),
            at_path(j, seq!["statisticsTime"@, "artifact:normal:lottery:time"@]),
        ),
    ) {
        Some(t) => t,
        None => 0,
    }
}

/// Reads when the free fishing was last used.
pub fn fish_last_free_time(role_info: &Value) -> (r: i64)
    ensures
        r == free_fish_time(role_info@),
{
    proof {
        lemma_path3(role_info@, "role"@, "statisticsTime"@, "artifact:normal:lottery:time"@);
        lemma_path2(role_info@, "statisticsTime"@, "artifact:normal:lottery:time"@);
    }
    let a = get_opt(get_opt(get_member(role_info, "role"), "statisticsTime"), "artifact:normal:lottery:time");
    let found = match a {
        Some(x) => Some(x),
        None => get_opt(get_member(role_info, "statisticsTime"), "artifact:normal:lottery:time"),
    };
    match as_i64(found) {
        Some(t) => t,
        None => 0,
    }
}

/// How many of an item the role holds, under `role/items` or `items`.
pub open spec fn item_quantity(j: Json, item: Seq<char>) -> Option<u64> {
    json_u64(
        or_else(
            at_path(j, seq!["role"@, "items"@, item, "quantity"@]),
            at_path(j, seq!["items"@, item, "quantity"@]),
        ),
    )
}

/// The fishing rods (item 1011) the role holds, `otherwise` when its data
/// does not say, cut to 32 bits.
pub open spec fn rods_of(j: Json, otherwise: u64) -> u32 {
    match item_quantity(j, "1011"@) {
        Some(q) => q as u32,
        None => otherwise as u32,
    }
}

/// Reads the fishing rods the role holds.
pub fn fish_rod_count(role_info: &Value, otherwise: u64) -> (r: u32)
    ensures
        r == rods_of(role_info@, otherwise),
{
    proof {
        lemma_path3(role_info@, "role"@, "items"@, "1011"@);
        lemma_path4(role_info@, "role"@, "items"@, "1011"@, "quantity"@);
        lemma_path3(role_info@, "items"@, "1011"@, "quantity"@);
    }
    let a = get_opt(get_opt(get_opt(get_member(role_info, "role"), "items"), "1011"), "quantity");
    let found = match a {
        Some(x) => Some(x),
        None => get_opt(get_opt(get_member(role_info, "items"), "1011"), "quantity"),
    };
    match as_u64(found) {
        Some(q) => q as u32,
        None => otherwise as u32,
    }
}

/// How many free fishing draws to take: three, but no more than are needed.
pub fn free_fish_draws(remaining: u32) -> (r: u32)
    ensures
        r == if remaining < 3 { remaining } else { 3 },
{
    if remaining < 3 {
        remaining
    } else {
        3
    }
}

/// The size of the next paid fishing batch: the batch size (at least 1),
/// but no more than remain.
pub fn fish_batch(remaining: u32, batch_size: u32) -> (r: u32)
    ensures
        r == if batch_size == 0 {
            if remaining < 1 { remaining } else { 1 }
        } else if remaining < batch_size {
            remaining
        } else {
            batch_size
        },
{
    let size = if batch_size == 0 {
        1
    } else {
        batch_size
    };
    if remaining < size {
        remaining
    } else {
        size
    }
}

/// Whether the rods are counted again after a paid batch: fishing is not
/// done, and a multiple of fifty has been drawn.
pub fn fish_rods_resync_due(remaining: u32, total_paid: u32) -> (r: bool)
    ensures
        r == (remaining > 0 && total_paid > 0 && total_paid % 50 == 0),
{
    remaining > 0 && total_paid > 0 && total_paid % 50 == 0
}

/// The fishing still to do, no more than the rods held.
pub fn fish_within_rods(remaining: u32, rods: u32) -> (r: u32)
    ensures
        r == if rods < remaining { rods } else { remaining },
{
    if rods < remaining {
        rods
    } else {
        remaining
    }
}

/// The fishing points the role holds (0 when unknown), cut to 32 bits.
pub open spec fn fish_points(j: Json) -> u32 {
    match json_u64(
        or_else(
            at_path(j, seq!["role"@, "statistics"@, "artifact:point"@]),
            at_path(j, seq!["statistics"@, "artifact:point"@]),
        ),
    ) {
        Some(p) => p as u32,
        None => 0,
    }
}

/// How many point exchanges the role can make: one per 20 points.
pub fn fish_exchange_count(role_info: &Value) -> (r: u32)
    ensures
        r == fish_points(role_info@) / 20,
{
    proof {
        lemma_path3(role_info@, "role"@, "statistics"@, "artifact:point"@);
        lemma_path2(role_info@, "statistics"@, "artifact:point"@);
    }
    let a = get_opt(get_opt(get_member(role_info, "role"), "statistics"), "artifact:point");
    let found = match a {
        Some(x) => Some(x),
        None => get_opt(get_member(role_info, "statistics"), "artifact:point"),
    };
    let points: u32 = match as_u64(found) {
        Some(p) => p as u32,
        None => 0,
    };
    points / 20
}

/// An opponent's id in a candidate entry: its `roleId`, `id` or
/// `targetId`, the first present.
pub open spec fn candidate_id(j: Json) -> Option<u64> {
    json_u64(or_else(member(j, "roleId"@), or_else(member(j, "id"@), member(j, "targetId"@))))
}

/// The id of the first entry found at `key/0`.
pub open spec fn listed_id(j: Json, key: Seq<char>) -> Option<u64> {
    match member(j, key) {
        Some(l) => match step_zero(l) {
            Some(c) => candidate_id(c),
            None => None,
        },
        None => None,
    }
}

/// The arena opponent to fight: the first entry of a list; else the first
/// entry of `rankList`, `roleList`, `targets`, `targetList` or `list` that
/// names one; else the answer's own id.
pub open spec fn arena_pick(j: Json) -> Option<u64> {
    match j {
        Json::Array(items) => if items.len() > 0 {
            candidate_id(items[0])
        } else {
            candidate_id(j)
        },
        _ => or_else(
            listed_id(j, "rankList"@),
            or_else(
                listed_id(j, "roleList"@),
                or_else(
                    listed_id(j, "targets"@),
                    or_else(listed_id(j, "targetList"@), or_else(listed_id(j, "list"@), candidate_id(j))),
                ),
            ),
        ),
    }
}

fn candidate_id_of(v: &Value) -> (r: Option<u64>)
    ensures
        r == candidate_id(v@),
{
    let a = get_member(v, "roleId");
    let b = match a {
        Some(x) => Some(x),
        None => match get_member(v, "id") {
            Some(x) => Some(x),
            None => get_member(v, "targetId"),
        },
    };
    as_u64(b)
}

fn listed_id_of(v: &Value, key: &str) -> (r: Option<u64>)
    ensures
        r == listed_id(v@, key@),
{
    match get_zero(get_member(v, key)) {
        Some(c) => candidate_id_of(c),
        None => None,
    }
}

/// Picks the arena opponent from a target list.
pub fn pick_arena_target_id(targets: &Value) -> (r: Option<u64>)
    ensures
        r == arena_pick(targets@),
{
    if let Value::Array(items) = targets {
        proof {
            crate::value::lemma_model_items_len(items@);
        }
        if items.len() > 0 {
            return candidate_id_of(&items[0]);
        }
        return candidate_id_of(targets);
    }
    if let Some(id) = listed_id_of(targets, "rankList") {
        return Some(id);
    }
    if let Some(id) = listed_id_of(targets, "roleList") {
        return Some(id);
    }
    if let Some(id) = listed_id_of(targets, "targets") {
        return Some(id);
    }
    if let Some(id) = listed_id_of(targets, "targetList") {
        return Some(id);
    }
    if let Some(id) = listed_id_of(targets, "list") {
        return Some(id);
    }
    candidate_id_of(targets)
}

/// The arena tickets (item 1007) the role holds, `otherwise` when its data
/// does not say, cut to 32 bits.
pub open spec fn arena_tickets_of(j: Json, otherwise: u64) -> u32 {
    match item_quantity(j, "1007"@) {
        Some(q) => q as u32,
        None => otherwise as u32,
    }
}

/// Reads the arena tickets the role holds.
pub fn arena_ticket_count(role_info: &Value, otherwise: u64) -> (r: u32)
    ensures
        r == arena_tickets_of(role_info@, otherwise),
{
    proof {
        lemma_path3(role_info@, "role"@, "items"@, "1007"@);
        lemma_path4(role_info@, "role"@, "items"@, "1007"@, "quantity"@);
        lemma_path3(role_info@, "items"@, "1007"@, "quantity"@);
    }
    let a = get_opt(get_opt(get_opt(get_member(role_info, "role"), "items"), "1007"), "quantity");
    let found = match a {
        Some(x) => Some(x),
        None => get_opt(get_opt(get_member(role_info, "items"), "1007"), "quantity"),
    };
    match as_u64(found) {
        Some(q) => q as u32,
        None => otherwise as u32,
    }
}

/// The arena fights of a round: half of what remains, rounded up, but no
/// more than the tickets left.
pub fn arena_round_fights(remaining: u32, tickets: u32) -> (r: u32)
    ensures
        r == if (remaining + 1) / 2 < tickets { ((remaining + 1) / 2) as u32 } else { tickets },
{
    let half: u32 = (remaining / 2) + (remaining % 2);
    assert(half == (remaining + 1) / 2);
    if half < tickets {
        half
    } else {
        tickets
    }
}

/// The arena fights still to do after a round: what the target still
/// needs, but no more than the tickets left.
pub fn arena_remaining(target: u32, current: u32, tickets: u32) -> (r: u32)
    ensures
        r == ({
            let need: int = if current >= target { 0 } else { target - current };
            if need < tickets { need } else { tickets as int }
        }),
{
    let need = if current >= target {
        0
    } else {
        target - current
    };
    if need < tickets {
        need
    } else {
        tickets
    }
}

/// Which monthly tasks a run tops up.
#[derive(Clone, Copy, PartialEq, Eq, Structural)]
pub enum MonthlyMode {
    Fish,
    Arena,
    All,
}

/// Whether a run tops up the fishing task.
pub fn tops_up_fish(mode: MonthlyMode) -> (r: bool)
    ensures
        r == (mode == MonthlyMode::Fish || mode == MonthlyMode::All),
{
    match mode {
        MonthlyMode::Fish | MonthlyMode::All => true,
        MonthlyMode::Arena => false,
    }
}

/// Whether a run tops up the arena task.
pub fn tops_up_arena(mode: MonthlyMode) -> (r: bool)
    ensures
        r == (mode == MonthlyMode::Arena || mode == MonthlyMode::All),
{
    match mode {
        MonthlyMode::Arena | MonthlyMode::All => true,
        MonthlyMode::Fish => false,
    }
}

/// The lists searched for an arena opponent, in order.
pub open spec fn arena_list_keys() -> Seq<Seq<char>> {
    seq!["rankList"@, "roleList"@, "targets"@, "targetList"@, "list"@]
}

/// In an answer that is an object, the opponent is the `roleId` of the first
/// entry of the first of `rankList`, `roleList`, `targets`, `targetList` and
/// `list` that is there: with no `rankList` and a `roleList` whose first
/// entry has `roleId` 77, the opponent is 77.
pub proof fn law_arena_pick_first_list(es: Seq<(Seq<char>, Json)>, p: int, items: Seq<Json>, n: i64)
    requires
        0 <= p < 5,
        forall|q: int|
            0 <= q < p ==> member(Json::Object(es), #[trigger] arena_list_keys()[q]) is None,
        member(Json::Object(es), arena_list_keys()[p]) == Some(Json::Array(items)),
        items.len() > 0,
        member(items[0], "roleId"@) == Some(Json::Int(n)),
        n >= 0,
    ensures
        arena_pick(Json::Object(es)) == Some(n as u64),
{
    let j = Json::Object(es);
    let ks = arena_list_keys();
    assert(ks[0] == "rankList"@);
    assert(ks[1] == "roleList"@);
    assert(ks[2] == "targets"@);
    assert(ks[3] == "targetList"@);
    assert(ks[4] == "list"@);
    assert(step_zero(Json::Array(items)) == Some(items[0]));
    assert(candidate_id(items[0]) == Some(n as u64));
    assert(listed_id(j, ks[p]) == Some(n as u64));
    if p >= 1 {
        assert(member(j, ks[0]) is None);
        assert(listed_id(j, "rankList"@) is None);
    }
    if p >= 2 {
        assert(member(j, ks[1]) is None);
        assert(listed_id(j, "roleList"@) is None);
    }
    if p >= 3 {
        assert(member(j, ks[2]) is None);
        assert(listed_id(j, "targets"@) is None);
    }
    if p >= 4 {
        assert(member(j, ks[3]) is None);
        assert(listed_id(j, "targetList"@) is None);
    }
}

/// In an answer that is a non-empty list, the opponent is the `roleId` of its
/// first entry.
pub proof fn law_arena_pick_list_answer(items: Seq<Json>, n: i64)
    requires
        items.len() > 0,
        member(items[0], "roleId"@) == Some(Json::Int(n)),
        n >= 0,
    ensures
        arena_pick(Json::Array(items)) == Some(n as u64),
{
}

} // verus!
