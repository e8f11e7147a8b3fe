//! Rules of the Evo Tower climb and its merge box: what the tower's data
//! says, which task a climb count earns and whether it is still to claim,
//! which errors end the climb, and which merge-box rewards and merges are
//! due.

use vstd::prelude::*;
use crate::error_codes::{code_in_error, done_codes};
use crate::study::text_contains;
use crate::value::{Value, Json, model_entries};
use crate::lookup::{
    at_path, member, field, element, step_zero, json_i64, json_u64, json_bool, or_else, get_member, get_opt,
    get_index, get_zero, as_i64, as_u64, as_bool, entries_get,
};
use crate::text::{decimal, u64_text};

verus! {

/// The task claimed after a number of climbs: 3, 6 and 10 climbs earn tasks
/// 1, 2 and 3.
pub open spec fn claim_task(climb_count: u32) -> Option<u64> {
    if climb_count == 3 {
        Some(1)
    } else if climb_count == 6 {
        Some(2)
    } else if climb_count == 10 {
        Some(3)
    } else {
        None
    }
}

pub fn claimtask_id_for_climb(climb_count: u32) -> (r: Option<u64>)
    ensures
        r == claim_task(climb_count),
{
    match climb_count {
        3 => Some(1),
        6 => Some(2),
        10 => Some(3),
        _ => None,
    }
}

/// An error saying the tower is not open: codes 200160 and 2100010.
pub open spec fn not_open(err: Seq<char>) -> bool {
    code_in_error(vstd::utf8::encode_utf8(err)) == Some(200160i32) || code_in_error(
        vstd::utf8::encode_utf8(err),
    ) == Some(2100010i32)
}

/// An error that ends the climb: the tower is not open, the code says the
/// task is done, or the text says energy has run out or all floors are
/// cleared.
pub open spec fn terminal(err: Seq<char>) -> bool {
    not_open(err) || (match code_in_error(vstd::utf8::encode_utf8(err)) {
        Some(c) => done_codes().contains(c),
        None => false,
    }) || text_contains(err, "能量不足"@) || text_contains(err, "已全部通关"@) || text_contains(
        err,
        "已经全部通关"@,
    )
}

pub fn is_evotower_not_open_error(err: &str) -> (r: bool)
    ensures
        r == not_open(err@),
{
    match crate::error_codes::extract_code_from_error(err) {
        Some(c) => c == 200160 || c == 2100010,
        None => false,
    }
}

pub fn is_evotower_terminal_error(err: &str) -> (r: bool)
    ensures
        r == terminal(err@),
{
    if is_evotower_not_open_error(err) {
        return true;
    }
    if let Some(code) = crate::error_codes::extract_code_from_error(err) {
        if crate::error_codes::is_done_error(code) {
            return true;
        }
    }
    let b = err.as_bytes();
    crate::study::bytes_contain(b, "能量不足".as_bytes()) || crate::study::bytes_contain(
        b,
        "已全部通关".as_bytes(),
    ) || crate::study::bytes_contain(b, "已经全部通关".as_bytes())
}

/// Why the climb stopped, as logged: the error's code when it has one.
pub fn terminal_reason_from_error(err: &str) -> (r: String)
    ensures
        r@ == match code_in_error(vstd::utf8::encode_utf8(err@)) {
            Some(c) => "terminal error code "@ + crate::b64::ascii_chars(crate::text::int_decimal(c as int)),
            None => "terminal error"@,
        },
{
    match crate::error_codes::extract_code_from_error(err) {
        Some(code) => {
            let mut m = String::from_str("terminal error code ");
            m.append(crate::text::int_text(code as i64).as_str());
            m
        },
        None => String::from_str("terminal error"),
    }
}

// ------------------------------------------------------------------
// The tower's data
// ------------------------------------------------------------------

/// The energy the tower's data reports, under `evoTower` or at the top.
pub open spec fn evo_energy(j: Json) -> Option<i64> {
    json_i64(or_else(at_path(j, seq!["evoTower"@, "energy"@]), member(j, "energy"@)))
}

/// The floor the tower's data reports, under `evoTower` or at the top.
pub open spec fn evo_tower(j: Json) -> Option<u64> {
    json_u64(or_else(at_path(j, seq!["evoTower"@, "towerId"@]), member(j, "towerId"@)))
}

proof fn lemma_two_steps(a: Seq<char>, b: Seq<char>, j: Json)
    ensures
        at_path(j, seq![a, b]) == match member(j, a) {
            Some(p) => member(p, b),
            None => None,
        },
{
    reveal_with_fuel(at_path, 3);
    assert(seq![a, b].drop_last() =~= seq![a]);
    assert(seq![a].drop_last() =~= Seq::<Seq<char>>::empty());
}

/// Reads the energy from the tower's data.
pub fn get_evo_energy(info: &Value) -> (r: Option<i64>)
    ensures
        r == evo_energy(info@),
{
    proof {
        lemma_two_steps("evoTower"@, "energy"@, info@);
    }
    let a = get_opt(get_member(info, "evoTower"), "energy");
    as_i64(
        match a {
            Some(x) => Some(x),
            None => get_member(info, "energy"),
        },
    )
}

/// Reads the floor from the tower's data.
pub fn get_evo_tower_id(info: &Value) -> (r: Option<u64>)
    ensures
        r == evo_tower(info@),
{
    proof {
        lemma_two_steps("evoTower"@, "towerId"@, info@);
    }
    let a = get_opt(get_member(info, "evoTower"), "towerId");
    as_u64(
        match a {
            Some(x) => Some(x),
            None => get_member(info, "towerId"),
        },
    )
}

/// Whether a fight was won, lost, or does not say: the first entry of its
/// win list, at the top or under `battleData`.
pub open spec fn evo_fight_result(j: Json) -> Option<bool> {
    let top = match member(j, "winList"@) {
        Some(l) => step_zero(l),
        None => None,
    };
    let nested = match at_path(j, seq!["battleData"@, "winList"@]) {
        Some(l) => step_zero(l),
        None => None,
    };
    json_bool(or_else(top, nested))
}

/// Reads whether a fight was won.
pub fn parse_evotower_fight_result(resp: &Value) -> (r: Option<bool>)
    ensures
        r == evo_fight_result(resp@),
{
    proof {
        lemma_two_steps("battleData"@, "winList"@, resp@);
    }
    let top = get_zero(get_member(resp, "winList"));
    as_bool(
        match top {
            Some(x) => Some(x),
            None => get_zero(get_opt(get_member(resp, "battleData"), "winList")),
        },
    )
}

/// The day's entry of a task in the claim map: by the task's number as a
/// key, else by its index in a list.
pub open spec fn task_entry(daily: Json, task_id: u64) -> Option<Json> {
    or_else(member(daily, decimal(task_id as nat)), element(daily, (task_id as usize) as int))
}

/// The day's claims in the tower's data, under the date key.
pub open spec fn day_claims(j: Json, date_key: Seq<char>) -> Option<Option<Json>> {
    match at_path(j, seq!["evoTower"@, "taskClaimMap"@]) {
        Some(m) => Some(member(m, date_key)),
        None => None,
    }
}

/// Whether a task is still to claim: there is a claim map, and the day has
/// no entry, or the task's entry is not `true`.
pub open spec fn task_to_claim(j: Json, date_key: Seq<char>, task_id: u64) -> bool {
    match day_claims(j, date_key) {
        None => false,
        Some(None) => true,
        Some(Some(daily)) => match task_entry(daily, task_id) {
            Some(v) => json_bool(Some(v)) != Some(true),
            None => true,
        },
    }
}

fn task_entry_of(daily: &Value, task_id: u64) -> (r: Option<&Value>)
    ensures
        match task_entry(daily@, task_id) {
            Some(j) => r matches Some(x) && x@ == j,
            None => r is None,
        },
{
    let key = crate::text::nat_text(task_id);
    match get_member(daily, key.as_str()) {
        Some(x) => Some(x),
        None => get_index(Some(daily), task_id as usize),
    }
}

fn day_claims_of<'a>(info: &'a Value, date_key: &str) -> (r: Option<Option<&'a Value>>)
    ensures
        match day_claims(info@, date_key@) {
            None => r is None,
            Some(None) => r matches Some(None),
            Some(Some(j)) => r matches Some(Some(x)) && x@ == j,
        },
{
    proof {
        lemma_two_steps("evoTower"@, "taskClaimMap"@, info@);
    }
    match get_opt(get_member(info, "evoTower"), "taskClaimMap") {
        Some(m) => Some(get_member(m, date_key)),
        None => None,
    }
}

/// Whether a climb task is still to claim on the day `date_key`.
pub fn should_claim_evotower_task(info: &Value, date_key: &str, task_id: u64) -> (r: bool)
    ensures
        r == task_to_claim(info@, date_key@, task_id),
{
    match day_claims_of(info, date_key) {
        None => false,
        Some(None) => true,
        Some(Some(daily)) => match task_entry_of(daily, task_id) {
            Some(v) => as_bool(Some(v)) != Some(true),
            None => true,
        },
    }
}

/// Whether the day's claim map marks a task as claimed.
pub open spec fn task_claimed(j: Json, date_key: Seq<char>, task_id: u64) -> bool {
    match day_claims(j, date_key) {
        Some(Some(daily)) => json_bool(task_entry(daily, task_id)) == Some(true),
        _ => false,
    }
}

/// The climb tasks (1, 2 and 3) that the day's claim map marks as claimed,
/// in order.
pub open spec fn claimed_tasks(j: Json, date_key: Seq<char>) -> Seq<u64> {
    seq![1u64, 2u64, 3u64].filter(|t: u64| task_claimed(j, date_key, t))
}

/// The climb tasks already claimed on the day `date_key`.
pub fn collect_claimed_evotower_tasks(info: &Value, date_key: &str) -> (r: Vec<u64>)
    ensures
        r@ == claimed_tasks(info@, date_key@),
{
    let mut out: Vec<u64> = Vec::new();
    let ghost all = seq![1u64, 2u64, 3u64];
    let ghost f = |t: u64| task_claimed(info@, date_key@, t);
    if let Some(Some(daily)) = day_claims_of(info, date_key) {
        let mut t: u64 = 1;
        while t <= 3
            invariant
                1 <= t <= 4,
                all == seq![1u64, 2u64, 3u64],
                f == (|t: u64| task_claimed(info@, date_key@, t)),
                day_claims(info@, date_key@) == Some(Some(daily@)),
                out@ == all.take(t - 1).filter(f),
            decreases 4 - t,
        {
            proof {
                assert(all.take(t as int).drop_last() =~= all.take(t - 1));
                assert(all.take(t as int).last() == t);
                reveal(Seq::filter);
            }
            if as_bool(task_entry_of(daily, t)) == Some(true) {
                proof {
                    assert(f(t));
                }
                out.push(t);
            } else {
                proof {
                    assert(!f(t));
                }
            }
            t = t + 1;
        }
        assert(all.take(3) =~= all);
    } else {
        proof {
            reveal_with_fuel(Seq::filter, 4);
            assert(!f(1) && !f(2) && !f(3));
            assert(all.drop_last().drop_last().drop_last() =~= Seq::<u64>::empty());
            assert(all.filter(f) =~= Seq::<u64>::empty());
        }
    }
    out
}

// ------------------------------------------------------------------
// The merge box
// ------------------------------------------------------------------

/// Whether the merge box has reached level 8: its task 251212208 is set.
pub open spec fn merge_level8(j: Json) -> bool {
    match json_i64(at_path(j, seq!["taskMap"@, "251212208"@])) {
        Some(v) => v != 0,
        None => false,
    }
}

/// Whether the merge box has reached level 8, where it merges by itself.
pub fn is_merge_level8_or_above(merge_box: &Value) -> (r: bool)
    ensures
        r == merge_level8(merge_box@),
{
    proof {
        lemma_two_steps("taskMap"@, "251212208"@, merge_box@);
    }
    match as_i64(get_opt(get_member(merge_box, "taskMap"), "251212208")) {
        Some(v) => v != 0,
        None => false,
    }
}

/// The merge-box tasks whose progress reward is due, in order: set (a
/// non-zero integer), not marked claimed, with a number for a key.
pub open spec fn progress_due(tasks: Seq<(Seq<char>, Json)>, claims: Seq<(Seq<char>, Json)>) -> Seq<u64>
    decreases tasks.len(),
{
    if tasks.len() == 0 {
        Seq::empty()
    } else {
        let rest = progress_due(tasks.drop_last(), claims);
        let (k, v) = tasks.last();
        let ready = match json_i64(Some(v)) {
            Some(x) => x != 0,
            None => false,
        };
        let claimed = json_bool(field(claims, k)) == Some(true);
        match u64_text(vstd::utf8::encode_utf8(k)) {
            Some(id) => if ready && !claimed {
                rest.push(id)
            } else {
                rest
            },
            None => rest,
        }
    }
}

/// The progress rewards due in a merge box (none without a task map).
pub open spec fn merge_progress_due(j: Json) -> Seq<u64> {
    match member(j, "taskMap"@) {
        Some(Json::Object(tasks)) => progress_due(
            tasks,
            match member(j, "taskClaimMap"@) {
                Some(Json::Object(c)) => c,
                _ => Seq::empty(),
            },
        ),
        _ => Seq::empty(),
    }
}

/// The merge-box tasks whose progress reward is to claim.
pub fn merge_progress_to_claim(merge_box: &Value) -> (r: Vec<u64>)
    ensures
        r@ == merge_progress_due(merge_box@),
{
    let mut out: Vec<u64> = Vec::new();
    let tasks = match get_member(merge_box, "taskMap") {
        Some(Value::Object(t)) => t,
        _ => {
            return out;
        },
    };
    let empty: Vec<(String, Value)> = Vec::new();
    let claims = match get_member(merge_box, "taskClaimMap") {
        Some(Value::Object(c)) => c,
        _ => &empty,
    };
    proof {
        assert(model_entries(empty@) =~= Seq::<(Seq<char>, Json)>::empty());
        crate::value::lemma_model_entries_len(tasks@);
    }
    let ghost m = model_entries(tasks@);
    let ghost c = model_entries(claims@);
    let mut i: usize = 0;
    while i < tasks.len()
        invariant
            i <= tasks@.len(),
            m == model_entries(tasks@),
            m.len() == tasks@.len(),
            forall|q: int| 0 <= q < tasks@.len() ==> #[trigger] m[q] == (tasks@[q].0@, tasks@[q].1@),
            c == model_entries(claims@),
            out@ == progress_due(m.take(i as int), c),
        decreases tasks@.len() - i,
    {
        proof {
            assert(m.take(i + 1).drop_last() =~= m.take(i as int));
            assert(m.take(i + 1).last() == m[i as int]);
        }
        let (k, v) = (&tasks[i].0, &tasks[i].1);
        let ready = match as_i64(Some(v)) {
            Some(x) => x != 0,
            None => false,
        };
        let claimed = as_bool(entries_get(claims, k.as_str())) == Some(true);
        proof {
            vstd::utf8::encode_utf8_decode_utf8(k@);
        }
        match crate::text::parse_u64(k.as_str().as_bytes()) {
            Some(id) => {
                if ready && !claimed {
                    out.push(id);
                }
            },
            None => {},
        }
        i = i + 1;
    }
    assert(m.take(tasks@.len() as int) =~= m);
    out
}

/// A merge-box cell as the grid lists it: the item it holds and its column
/// and row, when its row key is a number and it is a free, unlocked cell
/// with an item.
pub open spec fn cell_of(x: u64, ykey: Seq<char>, cell: Json) -> Option<(u64, u64, u64)> {
    let conf = match json_i64(member(cell, "gridConfId"@)) {
        Some(c) => c as int,
        None => -1,
    };
    let item = match json_u64(member(cell, "gridItemId"@)) {
        Some(i) => i,
        None => 0,
    };
    let lock = match json_bool(member(cell, "isLock"@)) {
        Some(b) => b,
        None => false,
    };
    match u64_text(vstd::utf8::encode_utf8(ykey)) {
        Some(y) => if conf == 0 && item > 0 && !lock {
            Some((item, x, y))
        } else {
            None
        },
        None => None,
    }
}

/// The mergeable cells of a column, in order.
pub open spec fn column_cells(x: u64, col: Seq<(Seq<char>, Json)>) -> Seq<(u64, u64, u64)>
    decreases col.len(),
{
    if col.len() == 0 {
        Seq::empty()
    } else {
        let rest = column_cells(x, col.drop_last());
        match cell_of(x, col.last().0, col.last().1) {
            Some(c) => rest.push(c),
            None => rest,
        }
    }
}

/// The mergeable cells of a grid, column by column (columns whose key is a
/// number and that are objects).
pub open spec fn grid_cells(grid: Seq<(Seq<char>, Json)>) -> Seq<(u64, u64, u64)>
    decreases grid.len(),
{
    if grid.len() == 0 {
        Seq::empty()
    } else {
        let rest = grid_cells(grid.drop_last());
        match (u64_text(vstd::utf8::encode_utf8(grid.last().0)), grid.last().1) {
            (Some(x), Json::Object(col)) => rest + column_cells(x, col),
            _ => rest,
        }
    }
}

/// The mergeable cells of a merge box (none without a grid).
pub open spec fn merge_cells(j: Json) -> Seq<(u64, u64, u64)> {
    match member(j, "gridMap"@) {
        Some(Json::Object(grid)) => grid_cells(grid),
        _ => Seq::empty(),
    }
}

fn parse_key(k: &String) -> (r: Option<u64>)
    ensures
        r == u64_text(vstd::utf8::encode_utf8(k@)),
{
    crate::text::parse_u64(k.as_str().as_bytes())
}

fn cell_from(x: u64, ykey: &String, cell: &Value) -> (r: Option<(u64, u64, u64)>)
    ensures
        r == cell_of(x, ykey@, cell@),
{
    let conf: i64 = match as_i64(get_member(cell, "gridConfId")) {
        Some(c) => c,
        None => -1,
    };
    let item: u64 = match as_u64(get_member(cell, "gridItemId")) {
        Some(i) => i,
        None => 0,
    };
    let lock = match as_bool(get_member(cell, "isLock")) {
        Some(b) => b,
        None => false,
    };
    match parse_key(ykey) {
        Some(y) => if conf == 0 && item > 0 && !lock {
            Some((item, x, y))
        } else {
            None
        },
        None => None,
    }
}

/// The mergeable cells of a merge box: free, unlocked cells holding an item.
pub fn collect_merge_cells(merge_box: &Value) -> (r: Vec<(u64, u64, u64)>)
    ensures
        r@ == merge_cells(merge_box@),
{
    let mut out: Vec<(u64, u64, u64)> = Vec::new();
    let grid = match get_member(merge_box, "gridMap") {
        Some(Value::Object(g)) => g,
        _ => {
            return out;
        },
    };
    let ghost gm = model_entries(grid@);
    proof {
        crate::value::lemma_model_entries_len(grid@);
    }
    let mut i: usize = 0;
    while i < grid.len()
        invariant
            i <= grid@.len(),
            gm == model_entries(grid@),
            gm.len() == grid@.len(),
            forall|q: int| 0 <= q < grid@.len() ==> #[trigger] gm[q] == (grid@[q].0@, grid@[q].1@),
            out@ == grid_cells(gm.take(i as int)),
        decreases grid@.len() - i,
    {
        proof {
            assert(gm.take(i + 1).drop_last() =~= gm.take(i as int));
            assert(gm.take(i + 1).last() == gm[i as int]);
        }
        let x = parse_key(&grid[i].0);
        match (x, &grid[i].1) {
            (Some(x), Value::Object(col)) => {
                let ghost cm = model_entries(col@);
                let ghost before = out@;
                proof {
                    crate::value::lemma_model_entries_len(col@);
                    assert(column_cells(x, cm.take(0)) =~= Seq::<(u64, u64, u64)>::empty());
                }
                let mut j: usize = 0;
                while j < col.len()
                    invariant
                        j <= col@.len(),
                        cm == model_entries(col@),
                        cm.len() == col@.len(),
                        forall|q: int| 0 <= q < col@.len() ==> #[trigger] cm[q] == (col@[q].0@, col@[q].1@),
                        out@ == before + column_cells(x, cm.take(j as int)),
                    decreases col@.len() - j,
                {
                    proof {
                        assert(cm.take(j + 1).drop_last() =~= cm.take(j as int));
                        assert(cm.take(j + 1).last() == cm[j as int]);
                    }
                    match cell_from(x, &col[j].0, &col[j].1) {
                        Some(c) => {
                            out.push(c);
                            assert(out@ =~= before + column_cells(x, cm.take(j + 1)));
                        },
                        None => {},
                    }
                    j = j + 1;
                }
                assert(cm.take(col@.len() as int) =~= cm);
            },
            _ => {},
        }
        i = i + 1;
    }
    assert(gm.take(grid@.len() as int) =~= gm);
    out
}

/// The cells holding `item`, as column and row, in order.
pub open spec fn positions(cells: Seq<(u64, u64, u64)>, item: u64) -> Seq<(u64, u64)>
    decreases cells.len(),
{
    if cells.len() == 0 {
        Seq::empty()
    } else {
        let rest = positions(cells.drop_last(), item);
        if cells.last().0 == item {
            rest.push((cells.last().1, cells.last().2))
        } else {
            rest
        }
    }
}

/// The items of the cells, each once, in order of first appearance.
pub open spec fn items_of(cells: Seq<(u64, u64, u64)>) -> Seq<u64>
    decreases cells.len(),
{
    if cells.len() == 0 {
        Seq::empty()
    } else {
        let rest = items_of(cells.drop_last());
        if rest.contains(cells.last().0) {
            rest
        } else {
            rest.push(cells.last().0)
        }
    }
}

/// The items that two or more cells hold, with their cells, in order of
/// first appearance.
pub open spec fn merge_groups(cells: Seq<(u64, u64, u64)>) -> Seq<(u64, Seq<(u64, u64)>)> {
    items_of(cells).filter(|it: u64| positions(cells, it).len() >= 2).map_values(
        |it: u64| (it, positions(cells, it)),
    )
}

pub open spec fn group_views(g: Seq<(u64, Vec<(u64, u64)>)>) -> Seq<(u64, Seq<(u64, u64)>)> {
    g.map_values(|e: (u64, Vec<(u64, u64)>)| (e.0, e.1@))
}

proof fn lemma_positions_push(cells: Seq<(u64, u64, u64)>, c: (u64, u64, u64), it: u64)
    ensures
        positions(cells.push(c), it) == if c.0 == it {
            positions(cells, it).push((c.1, c.2))
        } else {
            positions(cells, it)
        },
{
    assert(cells.push(c).drop_last() =~= cells);
}

proof fn lemma_positions_absent(cells: Seq<(u64, u64, u64)>, it: u64)
    requires
        !items_of(cells).contains(it),
    ensures
        positions(cells, it) == Seq::<(u64, u64)>::empty(),
    decreases cells.len(),
{
    if cells.len() > 0 {
        let rest = items_of(cells.drop_last());
        if !rest.contains(it) {
            lemma_positions_absent(cells.drop_last(), it);
        } else {
            let w = choose|w: int| 0 <= w < rest.len() && rest[w] == it;
            assert(items_of(cells)[w] == it);
        }
        if cells.last().0 == it {
            if rest.contains(it) {
                assert(items_of(cells) == rest);
            } else {
                assert(items_of(cells) == rest.push(it));
                assert(items_of(cells)[rest.len() as int] == it);
            }
        }
    }
}

proof fn lemma_items_distinct(cells: Seq<(u64, u64, u64)>)
    ensures
        forall|i: int, j: int| 0 <= i < j < items_of(cells).len() ==> items_of(cells)[i] != items_of(cells)[j],
    decreases cells.len(),
{
    if cells.len() > 0 {
        let rest = items_of(cells.drop_last());
        lemma_items_distinct(cells.drop_last());
        let all = items_of(cells);
        assert forall|i: int, j: int| 0 <= i < j < all.len() implies all[i] != all[j] by {
            if !rest.contains(cells.last().0) && j == rest.len() {
                assert(all[i] == rest[i]);
            } else {
                assert(all[i] == rest[i] && all[j] == rest[j]);
            }
        }
    }
}

/// Groups the mergeable cells by the item they hold, keeping the items that
/// two or more cells hold.
pub fn group_merge_cells(cells: &Vec<(u64, u64, u64)>) -> (r: Vec<(u64, Vec<(u64, u64)>)>)
    ensures
        group_views(r@) == merge_groups(cells@),
{
    let mut groups: Vec<(u64, Vec<(u64, u64)>)> = Vec::new();
    let mut i: usize = 0;
    assert(group_views(groups@) =~= items_of(cells@.take(0)).map_values(
        |it: u64| (it, positions(cells@.take(0), it)),
    ));
    while i < cells.len()
        invariant
            i <= cells@.len(),
            group_views(groups@) == items_of(cells@.take(i as int)).map_values(
                |it: u64| (it, positions(cells@.take(i as int), it)),
            ),
        decreases cells@.len() - i,
    {
        let ghost pre = cells@.take(i as int);
        let ghost post = cells@.take(i + 1);
        let c = cells[i];
        proof {
            assert(post.drop_last() =~= pre);
            assert(post.last() == c);
            assert(post == pre.push(c));
            lemma_items_distinct(pre);
        }
        let ghost before = group_views(groups@);
        let mut k: usize = 0;
        while k < groups.len() && groups[k].0 != c.0
            invariant
                k <= groups@.len(),
                before == group_views(groups@),
                forall|q: int| 0 <= q < k ==> #[trigger] groups@[q].0 != c.0,
            decreases groups@.len() - k,
        {
            k = k + 1;
        }
        if k < groups.len() {
            proof {
                assert(before.len() == items_of(pre).len());
                assert(group_views(groups@)[k as int] == (groups@[k as int].0, groups@[k as int].1@));
                assert(before[k as int] == (items_of(pre)[k as int], positions(pre, items_of(pre)[k as int])));
                assert(items_of(pre)[k as int] == c.0);
                assert(items_of(pre).contains(c.0));
                assert(items_of(post) == items_of(pre));
            }
            let ghost g0 = groups@;
            let mut tmp: (u64, Vec<(u64, u64)>) = (0, Vec::new());
            groups.set_and_swap(k, &mut tmp);
            let ghost taken = tmp;
            tmp.1.push((c.1, c.2));
            groups.set_and_swap(k, &mut tmp);
            proof {
                assert(taken == g0[k as int]);
                let want = items_of(post).map_values(|it: u64| (it, positions(post, it)));
                assert(want.len() == g0.len());
                assert forall|q: int| 0 <= q < want.len() implies #[trigger] group_views(groups@)[q] == want[q] by {
                    let it = items_of(pre)[q];
                    lemma_positions_push(pre, c, it);
                    assert(group_views(groups@)[q] == (groups@[q].0, groups@[q].1@));
                    assert(want[q] == (items_of(post)[q], positions(post, items_of(post)[q])));
                    assert(group_views(g0)[q] == (g0[q].0, g0[q].1@));
                    assert(before[q] == (it, positions(pre, it)));
                    if q != k {
                        assert(items_of(pre)[q] != items_of(pre)[k as int]);
                        assert(groups@[q] == g0[q]);
                    } else {
                        assert(groups@[q].0 == g0[q].0);
                        assert(groups@[q].1@ == g0[q].1@.push((c.1, c.2)));
                    }
                }
                assert(group_views(groups@) =~= want);
            }
        } else {
            proof {
                assert(before.len() == items_of(pre).len());
                assert forall|q: int| 0 <= q < items_of(pre).len() implies #[trigger] items_of(pre)[q] != c.0 by {
                    assert(group_views(groups@)[q] == (groups@[q].0, groups@[q].1@));
                    assert(before[q] == (items_of(pre)[q], positions(pre, items_of(pre)[q])));
                    assert(groups@[q].0 != c.0);
                }
                assert(!items_of(pre).contains(c.0));
                assert(items_of(post) == items_of(pre).push(c.0));
                lemma_positions_absent(pre, c.0);
                lemma_positions_push(pre, c, c.0);
            }
            let ghost g0 = groups@;
            let mut v: Vec<(u64, u64)> = Vec::new();
            v.push((c.1, c.2));
            groups.push((c.0, v));
            proof {
                let want = items_of(post).map_values(|it: u64| (it, positions(post, it)));
                assert(want.len() == g0.len() + 1);
                assert forall|q: int| 0 <= q < want.len() implies #[trigger] group_views(groups@)[q] == want[q] by {
                    lemma_positions_push(pre, c, items_of(post)[q]);
                    assert(group_views(groups@)[q] == (groups@[q].0, groups@[q].1@));
                    assert(want[q] == (items_of(post)[q], positions(post, items_of(post)[q])));
                    if q < items_of(pre).len() {
                        assert(items_of(pre)[q] != c.0);
                        assert(items_of(post)[q] == items_of(pre)[q]);
                        assert(groups@[q] == g0[q]);
                        assert(group_views(g0)[q] == (g0[q].0, g0[q].1@));
                        assert(before[q] == (items_of(pre)[q], positions(pre, items_of(pre)[q])));
                    } else {
                        assert(items_of(post)[q] == c.0);
                        assert(positions(post, c.0) =~= seq![(c.1, c.2)]);
                        assert(groups@[q].1@ =~= seq![(c.1, c.2)]);
                    }
                }
                assert(group_views(groups@) =~= want);
            }
        }
        i = i + 1;
    }
    let ghost all = cells@;
    assert(cells@.take(cells@.len() as int) =~= all);
    let ghost items = items_of(all);
    let ghost pred = |it: u64| positions(all, it).len() >= 2;
    let ghost f = |it: u64| (it, positions(all, it));
    let ghost full = group_views(groups@);
    assert(full == items.map_values(f));
    let mut out: Vec<(u64, Vec<(u64, u64)>)> = Vec::new();
    let mut j: usize = 0;
    let n = groups.len();
    assert(group_views(out@) =~= items.take(0).filter(pred).map_values(f)) by {
        reveal(Seq::filter);
    }
    while j < n
        invariant
            n == groups@.len(),
            j <= n,
            full.len() == n,
            items.len() == n,
            pred == (|it: u64| positions(all, it).len() >= 2),
            f == (|it: u64| (it, positions(all, it))),
            full == items.map_values(f),
            forall|q: int| j <= q < n ==> #[trigger] group_views(groups@)[q] == full[q],
            group_views(out@) == items.take(j as int).filter(pred).map_values(f),
        decreases n - j,
    {
        let ghost gv = groups@;
        let mut tmp: (u64, Vec<(u64, u64)>) = (0, Vec::new());
        groups.set_and_swap(j, &mut tmp);
        proof {
            assert(tmp == gv[j as int]);
            assert(group_views(gv)[j as int] == (gv[j as int].0, gv[j as int].1@));
            assert(items.take(j + 1).drop_last() =~= items.take(j as int));
            assert(items.take(j + 1).last() == items[j as int]);
            assert((tmp.0, tmp.1@) == full[j as int]);
            assert(full[j as int] == f(items[j as int]));
            reveal(Seq::filter);
        }
        let ghost prev = group_views(out@);
        if tmp.1.len() >= 2 {
            let ghost entry = (tmp.0, tmp.1@);
            out.push(tmp);
            proof {
                assert(group_views(out@) =~= prev.push(entry));
                assert(pred(items[j as int]));
                assert(items.take(j + 1).filter(pred) == items.take(j as int).filter(pred).push(items[j as int]));
                assert(group_views(out@) =~= items.take(j + 1).filter(pred).map_values(f));
            }
        } else {
            proof {
                assert(!pred(items[j as int]));
                assert(items.take(j + 1).filter(pred) == items.take(j as int).filter(pred));
            }
        }
        proof {
            assert forall|q: int| j + 1 <= q < n implies #[trigger] group_views(groups@)[q] == full[q] by {
                assert(groups@[q] == gv[q]);
                assert(group_views(gv)[q] == full[q]);
            }
        }
        j = j + 1;
    }
    assert(items.take(n as int) =~= items);
    out
}

/// The mergeable items of a merge box with their cells.
pub fn collect_merge_groups(merge_box: &Value) -> (r: Vec<(u64, Vec<(u64, u64)>)>)
    ensures
        group_views(r@) == merge_groups(merge_cells(merge_box@)),
{
    let cells = collect_merge_cells(merge_box);
    group_merge_cells(&cells)
}

/// The merges of one item's cells, taken from the end: the last cell is
/// merged into the one before it, then the two before those, and so on.
pub open spec fn pairs_from(pos: Seq<(u64, u64)>) -> Seq<((u64, u64), (u64, u64))>
    decreases pos.len(),
{
    if pos.len() < 2 {
        Seq::empty()
    } else {
        seq![(pos.last(), pos[pos.len() - 2])] + pairs_from(pos.take(pos.len() - 2))
    }
}

/// The merges of all groups, group by group: source then target cell.
pub open spec fn merge_moves(groups: Seq<(u64, Seq<(u64, u64)>)>) -> Seq<((u64, u64), (u64, u64))>
    decreases groups.len(),
{
    if groups.len() == 0 {
        Seq::empty()
    } else {
        merge_moves(groups.drop_last()) + pairs_from(groups.last().1)
    }
}

/// The merges to make, as source and target cells.
pub fn merge_pairs(groups: &Vec<(u64, Vec<(u64, u64)>)>) -> (r: Vec<((u64, u64), (u64, u64))>)
    ensures
        r@ == merge_moves(group_views(groups@)),
{
    let ghost gv = group_views(groups@);
    let mut out: Vec<((u64, u64), (u64, u64))> = Vec::new();
    let mut g: usize = 0;
    assert(gv.take(0) =~= Seq::<(u64, Seq<(u64, u64)>)>::empty());
    while g < groups.len()
        invariant
            g <= groups@.len(),
            gv == group_views(groups@),
            gv.len() == groups@.len(),
            out@ == merge_moves(gv.take(g as int)),
        decreases groups@.len() - g,
    {
        let p = &groups[g].1;
        let ghost start = out@;
        proof {
            assert(gv[g as int] == (groups@[g as int].0, groups@[g as int].1@));
            assert(gv.take(g + 1).drop_last() =~= gv.take(g as int));
            assert(gv.take(g + 1).last().1 == p@);
            assert(p@.take(p@.len() as int) =~= p@);
        }
        let mut i: usize = p.len();
        while i >= 2
            invariant
                i <= p@.len(),
                out@ + pairs_from(p@.take(i as int)) == start + pairs_from(p@),
            decreases i,
        {
            let ghost t = p@.take(i as int);
            proof {
                assert(t.last() == p@[i - 1]);
                assert(t[t.len() - 2] == p@[i - 2]);
                assert(t.take(t.len() - 2) =~= p@.take(i - 2));
            }
            out.push((p[i - 1], p[i - 2]));
            i = i - 2;
        }
        proof {
            assert(pairs_from(p@.take(i as int)) =~= Seq::<((u64, u64), (u64, u64))>::empty());
            assert(out@ =~= start + pairs_from(p@));
        }
        g = g + 1;
    }
    assert(gv.take(groups@.len() as int) =~= gv);
    out
}

/// Whether a climb task is to claim now: it was not claimed earlier in this
/// run, and the day's claim map does not mark it.
pub open spec fn claim_now(claimed: Seq<u64>, j: Json, date_key: Seq<char>, task_id: u64) -> bool {
    !claimed.contains(task_id) && task_to_claim(j, date_key, task_id)
}

/// Whether a climb task is to claim now, given the tasks claimed in this
/// run.
pub fn should_claim_task_now(claimed: &Vec<u64>, info: &Value, date_key: &str, task_id: u64) -> (r: bool)
    ensures
        r == claim_now(claimed@, info@, date_key@, task_id),
{
    let mut k: usize = 0;
    while k < claimed.len()
        invariant
            k <= claimed@.len(),
            forall|q: int| 0 <= q < k ==> claimed@[q] != task_id,
        decreases claimed@.len() - k,
    {
        if claimed[k] == task_id {
            assert(claimed@.contains(task_id));
            return false;
        }
        k = k + 1;
    }
    should_claim_evotower_task(info, date_key, task_id)
}

/// A task claimed in a run is not claimed again in that run.
pub proof fn law_claimed_task_not_claimed_again(claimed: Seq<u64>, j: Json, date_key: Seq<char>, task_id: u64)
    ensures
        !claim_now(claimed.push(task_id), j, date_key, task_id),
{
    assert(claimed.push(task_id)[claimed.len() as int] == task_id);
}


// ------------------------------------------------------------------
// The evolution tower climb of the command line
// ------------------------------------------------------------------

/// The error code of a fight refused while a floor's reward is pending.
pub const EVO_PENDING_REWARD: i32 = 12200020;

/// The evolution tower climb of the command line: its settings (most
/// climbs, how often to look at the tower's data, how many failures in a
/// row end it, the pause between fights) and its progress.
#[derive(Clone, Copy, PartialEq, Eq, Structural)]
pub struct EvoFlow {
    pub max_climb: u32,
    pub refresh_every: u32,
    pub failure_limit: u32,
    pub interval_ms: u64,
    pub climbs: u32,
    pub energy: i64,
    pub tower_id: Option<u64>,
    pub consecutive_failures: u32,
}

/// What the climb does next.
#[derive(Clone, Copy, PartialEq, Eq, Structural)]
pub enum EvoFlowAction {
    /// Wait this long, then get ready and fight.
    Climb(u64),
    /// Read the tower's data again (then claim what is due).
    Refresh,
    /// The climb is over.
    Stop(crate::tower::FlowStop),
}

/// What the app reports back.
pub enum EvoFlowEvent {
    /// Getting ready failed with this error. On `12200020` the app first
    /// tries the pending-reward recovery: `recovered` says whether it
    /// claimed the reward, and the energy and floor are what the tower's
    /// data reported then (none when it was not read).
    ReadyFailed { error: String, recovered: bool, energy: Option<i64>, tower_id: Option<u64> },
    /// The fight answered.
    Fought,
    /// The fight failed with this error.
    FightFailed(String),
    /// The tower's data was read again: the energy and floor it reports.
    Refreshed(Option<i64>, Option<u64>),
    /// Reading the tower's data failed with this error.
    RefreshFailed(String),
}

/// Climb on unless the most climbs were made or the energy is out.
pub open spec fn evo_go_on(st: EvoFlow, wait_ms: u64) -> EvoFlowAction {
    if st.climbs >= st.max_climb {
        EvoFlowAction::Stop(crate::tower::FlowStop::MaxClimb)
    } else if st.energy <= 0 {
        EvoFlowAction::Stop(crate::tower::FlowStop::EnergyOut)
    } else {
        EvoFlowAction::Climb(wait_ms)
    }
}

fn evo_go_on_exec(st: EvoFlow, wait_ms: u64) -> (r: EvoFlowAction)
    ensures
        r == evo_go_on(st, wait_ms),
{
    if st.climbs >= st.max_climb {
        EvoFlowAction::Stop(crate::tower::FlowStop::MaxClimb)
    } else if st.energy <= 0 {
        EvoFlowAction::Stop(crate::tower::FlowStop::EnergyOut)
    } else {
        EvoFlowAction::Climb(wait_ms)
    }
}

/// A failure counted: the limit ends the climb, else it goes on after a
/// wait.
pub open spec fn evo_failed(st: EvoFlow, wait_ms: u64) -> (EvoFlow, EvoFlowAction) {
    let n = EvoFlow { consecutive_failures: (st.consecutive_failures + 1) as u32, ..st };
    if n.consecutive_failures >= st.failure_limit {
        (n, EvoFlowAction::Stop(crate::tower::FlowStop::Failures))
    } else {
        (n, evo_go_on(n, wait_ms))
    }
}

/// The climb and what it does next after an event.
///
/// - A failed readiness whose pending reward was recovered clears the
///   failures and climbs on at once; a terminal error ends the climb; any
///   other counts a failure (the limit ends the climb, else it goes on after
///   1 s). The data read during the recovery replaces energy and floor.
/// - A fight that answered counts a climb and clears the failures; every
///   `refresh_every` climbs the data is read, else the climb goes on after
///   the pause.
/// - A failed fight: a terminal error ends the climb; any other counts a
///   failure, and the climb goes on after 3 s when rate limited (200400),
///   else after 1 s.
/// - Fresh data replaces energy and floor, and the climb goes on after the
///   pause; a failed read ends the climb when terminal, else the climb goes
///   on after 1 s.
pub open spec fn evo_flow_after(st: EvoFlow, ev: EvoFlowEvent) -> (EvoFlow, EvoFlowAction) {
    match ev {
        EvoFlowEvent::ReadyFailed { error, recovered, energy, tower_id } => {
            let n = EvoFlow {
                energy: match energy {
                    Some(x) => x,
                    None => st.energy,
                },
                tower_id: match tower_id {
                    Some(x) => Some(x),
                    None => st.tower_id,
                },
                ..st
            };
            if recovered {
                let m = EvoFlow { consecutive_failures: 0, ..n };
                (m, evo_go_on(m, 0))
            } else if terminal(error@) {
                (n, EvoFlowAction::Stop(crate::tower::FlowStop::Terminal))
            } else {
                evo_failed(n, 1000)
            }
        },
        EvoFlowEvent::Fought => {
            let n = EvoFlow { climbs: (st.climbs + 1) as u32, consecutive_failures: 0, ..st };
            if n.climbs % st.refresh_every == 0 {
                (n, EvoFlowAction::Refresh)
            } else {
                (n, evo_go_on(n, st.interval_ms))
            }
        },
        EvoFlowEvent::FightFailed(e) => {
            if terminal(e@) {
                (st, EvoFlowAction::Stop(crate::tower::FlowStop::Terminal))
            } else if code_in_error(vstd::utf8::encode_utf8(e@)) == Some(200400i32) {
                evo_failed(st, 3000)
            } else {
                evo_failed(st, 1000)
            }
        },
        EvoFlowEvent::Refreshed(energy, tower_id) => {
            let n = EvoFlow {
                energy: match energy {
                    Some(x) => x,
                    None => st.energy,
                },
                tower_id: match tower_id {
                    Some(x) => Some(x),
                    None => st.tower_id,
                },
                ..st
            };
            (n, evo_go_on(n, st.interval_ms))
        },
        EvoFlowEvent::RefreshFailed(e) => {
            if terminal(e@) {
                (st, EvoFlowAction::Stop(crate::tower::FlowStop::Terminal))
            } else {
                (st, evo_go_on(st, 1000))
            }
        },
    }
}

/// The climb at its start: looking every `refresh_every` climbs and ending
/// after `failure_limit` failures in a row (each at least 1); nothing to do
/// without energy.
pub fn evo_flow_start(
    max_climb: u32,
    refresh_every: u32,
    failure_limit: u32,
    interval_ms: u64,
    energy: i64,
    tower_id: Option<u64>,
) -> (r: (EvoFlow, EvoFlowAction))
    ensures
        r.0 == (EvoFlow {
            max_climb,
            refresh_every: if refresh_every >= 1 { refresh_every } else { 1 },
            failure_limit: if failure_limit >= 1 { failure_limit } else { 1 },
            interval_ms,
            climbs: 0,
            energy,
            tower_id,
            consecutive_failures: 0,
        }),
        r.1 == if energy <= 0 {
            EvoFlowAction::Stop(crate::tower::FlowStop::NoEnergy)
        } else {
            evo_go_on(r.0, 0)
        },
{
    let st = EvoFlow {
        max_climb,
        refresh_every: if refresh_every >= 1 { refresh_every } else { 1 },
        failure_limit: if failure_limit >= 1 { failure_limit } else { 1 },
        interval_ms,
        climbs: 0,
        energy,
        tower_id,
        consecutive_failures: 0,
    };
    if energy <= 0 {
        (st, EvoFlowAction::Stop(crate::tower::FlowStop::NoEnergy))
    } else {
        let a = evo_go_on_exec(st, 0);
        (st, a)
    }
}

fn evo_failed_exec(st: EvoFlow, wait_ms: u64) -> (r: (EvoFlow, EvoFlowAction))
    requires
        st.consecutive_failures < u32::MAX,
    ensures
        r == evo_failed(st, wait_ms),
{
    let n = EvoFlow { consecutive_failures: st.consecutive_failures + 1, ..st };
    if n.consecutive_failures >= st.failure_limit {
        (n, EvoFlowAction::Stop(crate::tower::FlowStop::Failures))
    } else {
        let a = evo_go_on_exec(n, wait_ms);
        (n, a)
    }
}

/// The climb and what it does next after an event (see `evo_flow_after`).
pub fn evo_flow_step(st: EvoFlow, ev: EvoFlowEvent) -> (r: (EvoFlow, EvoFlowAction))
    requires
        st.failure_limit >= 1,
        st.refresh_every >= 1,
        st.climbs < u32::MAX,
        st.consecutive_failures < u32::MAX,
    ensures
        r == evo_flow_after(st, ev),
        ev matches EvoFlowEvent::ReadyFailed { error, recovered, .. } && !recovered && !terminal(error@)
            ==> r.0.consecutive_failures == st.consecutive_failures + 1 && (r.1 matches EvoFlowAction::Stop(
            why) && why == crate::tower::FlowStop::Failures <==> r.0.consecutive_failures >= st.failure_limit),
        ev is Fought ==> r.0.climbs == st.climbs + 1 && r.0.consecutive_failures == 0 && (r.0.climbs
            % st.refresh_every == 0 ==> r.1 is Refresh),
        !(r.1 is Refresh) && (r.0.climbs >= r.0.max_climb || r.0.energy <= 0) ==> r.1 is Stop,
{
    match ev {
        EvoFlowEvent::ReadyFailed { error, recovered, energy, tower_id } => {
            let n = EvoFlow {
                energy: match energy {
                    Some(x) => x,
                    None => st.energy,
                },
                tower_id: match tower_id {
                    Some(x) => Some(x),
                    None => st.tower_id,
                },
                ..st
            };
            if recovered {
                let m = EvoFlow { consecutive_failures: 0, ..n };
                let a = evo_go_on_exec(m, 0);
                (m, a)
            } else if is_evotower_terminal_error(error.as_str()) {
                (n, EvoFlowAction::Stop(crate::tower::FlowStop::Terminal))
            } else {
                evo_failed_exec(n, 1000)
            }
        },
        EvoFlowEvent::Fought => {
            let n = EvoFlow { climbs: st.climbs + 1, consecutive_failures: 0, ..st };
            if n.climbs % st.refresh_every == 0 {
                (n, EvoFlowAction::Refresh)
            } else {
                let a = evo_go_on_exec(n, st.interval_ms);
                (n, a)
            }
        },
        EvoFlowEvent::FightFailed(e) => {
            if is_evotower_terminal_error(e.as_str()) {
                (st, EvoFlowAction::Stop(crate::tower::FlowStop::Terminal))
            } else if crate::error_codes::extract_code_from_error(e.as_str()) == Some(200400i32) {
                evo_failed_exec(st, 3000)
            } else {
                evo_failed_exec(st, 1000)
            }
        },
        EvoFlowEvent::Refreshed(energy, tower_id) => {
            let n = EvoFlow {
                energy: match energy {
                    Some(x) => x,
                    None => st.energy,
                },
                tower_id: match tower_id {
                    Some(x) => Some(x),
                    None => st.tower_id,
                },
                ..st
            };
            let a = evo_go_on_exec(n, st.interval_ms);
            (n, a)
        },
        EvoFlowEvent::RefreshFailed(e) => {
            if is_evotower_terminal_error(e.as_str()) {
                (st, EvoFlowAction::Stop(crate::tower::FlowStop::Terminal))
            } else {
                let a = evo_go_on_exec(st, 1000);
                (st, a)
            }
        },
    }
}

/// Whether a pending floor's reward is recovered: only when rewards are
/// claimed and the floor the tower reports closes a chapter (a multiple of
/// ten above 0).
pub fn evo_recovery_claims(auto_claim_reward: bool, tower_id: Option<u64>) -> (r: bool)
    ensures
        r == match tower_id {
            Some(id) => auto_claim_reward && id / 10 > 0 && id % 10 == 0,
            None => false,
        },
{
    match tower_id {
        Some(id) => auto_claim_reward && id / 10 > 0 && id % 10 == 0,
        None => false,
    }
}

/// Whether to claim a chapter's reward after a refresh: rewards are
/// claimed, the fight just fought was won, and the floor the tower now
/// reports is the first of a chapter.
pub fn evo_reward_due(auto_claim_reward: bool, just_won: bool, tower_id: Option<u64>) -> (r: bool)
    ensures
        r == match tower_id {
            Some(id) => auto_claim_reward && just_won && id % 10 == 0,
            None => false,
        },
{
    match tower_id {
        Some(id) => auto_claim_reward && just_won && id % 10 == 0,
        None => false,
    }
}


// ------------------------------------------------------------------
// One round of the merge box
// ------------------------------------------------------------------

/// Why the merge rounds ended.
#[derive(Clone, Copy, PartialEq, Eq, Structural)]
pub enum MergeStop {
    /// The merge box is not open.
    NotOpen,
    /// Reading the merge box failed.
    InfoFailed,
    /// The answer has no `mergeBox`.
    NoBox,
    /// No item has two cells to merge.
    NothingToMerge,
    /// The automatic merge failed.
    AutoMergeFailed,
    /// A round of manual merges merged nothing.
    NoManualMerge,
}

/// What a round of the merge box does.
pub enum MergeRound {
    /// Stop the rounds.
    Stop(MergeStop),
    /// Let the server merge everything (level 8 reached).
    AutoMerge,
    /// Merge these cells, source first, in order.
    Manual(Vec<((u64, u64), (u64, u64))>),
}

/// A round of the merge box, from the answer to reading it: an error ends
/// the rounds (not open, or failed); so does an answer without `mergeBox`,
/// or a box with nothing to merge; past level 8 the server merges, else
/// the cells are merged pair by pair.
pub fn merge_round(info: &Result<Value, String>) -> (r: MergeRound)
    ensures
        match info {
            Err(e) => if not_open(e@) {
                r matches MergeRound::Stop(w) && w == MergeStop::NotOpen
            } else {
                r matches MergeRound::Stop(w) && w == MergeStop::InfoFailed
            },
            Ok(v) => match member(v@, "mergeBox"@) {
                None => r matches MergeRound::Stop(w) && w == MergeStop::NoBox,
                Some(b) => if merge_groups(merge_cells(b)).len() == 0 {
                    r matches MergeRound::Stop(w) && w == MergeStop::NothingToMerge
                } else if merge_level8(b) {
                    r is AutoMerge
                } else {
                    r matches MergeRound::Manual(ms) && ms@ == merge_moves(merge_groups(merge_cells(b)))
                },
            },
        },
{
    let v = match info {
        Ok(v) => v,
        Err(e) => {
            if is_evotower_not_open_error(e.as_str()) {
                return MergeRound::Stop(MergeStop::NotOpen);
            }
            return MergeRound::Stop(MergeStop::InfoFailed);
        },
    };
    let b = match get_member(v, "mergeBox") {
        Some(b) => b,
        None => {
            return MergeRound::Stop(MergeStop::NoBox);
        },
    };
    let groups = collect_merge_groups(b);
    if groups.len() == 0 {
        proof {
            assert(group_views(groups@).len() == groups@.len());
        }
        return MergeRound::Stop(MergeStop::NothingToMerge);
    }
    proof {
        assert(group_views(groups@).len() == groups@.len());
    }
    if is_merge_level8_or_above(b) {
        MergeRound::AutoMerge
    } else {
        MergeRound::Manual(merge_pairs(&groups))
    }
}

/// Whether the rounds go on after one: an automatic merge must have
/// answered, and a round of manual merges must have merged something.
pub fn merge_goes_on(round: &MergeRound, auto_ok: bool, manual_merged: u32) -> (r: Option<MergeStop>)
    ensures
        match round {
            MergeRound::AutoMerge => r == if auto_ok { None } else { Some(MergeStop::AutoMergeFailed) },
            MergeRound::Manual(_) => r == if manual_merged > 0 { None } else { Some(MergeStop::NoManualMerge) },
            MergeRound::Stop(w) => r == Some(*w),
        },
{
    match round {
        MergeRound::AutoMerge => if auto_ok {
            None
        } else {
            Some(MergeStop::AutoMergeFailed)
        },
        MergeRound::Manual(_) => if manual_merged > 0 {
            None
        } else {
            Some(MergeStop::NoManualMerge)
        },
        MergeRound::Stop(w) => Some(*w),
    }
}

} // verus!
