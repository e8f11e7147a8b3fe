//! The decisions of the tower climbs: what the role's data says at the
//! start, what each fight's answer leads to, and when to look again.

use vstd::prelude::*;
use crate::value::{Value, Json};
use crate::lookup::{at_path, member, json_i64, json_u64, or_else, get_member, get_opt, as_i64, as_u64};
use crate::kpi::{tower_id_of, TOWER_CLEAR_ID};
use crate::error_codes::code_in_error;

verus! {

/// The most fights of one climb.
pub const MAX_TOWER_CLIMBS: u32 = 100;

/// The tower energy in a role's data, under `role/tower` or `tower`.
pub open spec fn tower_energy_of(j: Json) -> Option<i64> {
    json_i64(or_else(at_path(j, seq!["role"@, "tower"@, "energy"@]), at_path(j, seq!["tower"@, "energy"@])))
}

/// Reads the tower energy from the role's data.
pub fn tower_energy_from_role_info(role_info: &Value) -> (r: Option<i64>)
    ensures
        r == tower_energy_of(role_info@),
{
    let k_role = "role";
    let k_tower = "tower";
    let k_energy = "energy";
    proof {
        reveal_with_fuel(at_path, 4);
        assert(seq!["role"@, "tower"@, "energy"@].drop_last() =~= seq!["role"@, "tower"@]);
        assert(seq!["role"@, "tower"@].drop_last() =~= seq!["role"@]);
        assert(seq!["role"@].drop_last() =~= Seq::<Seq<char>>::empty());
        assert(seq!["tower"@, "energy"@].drop_last() =~= seq!["tower"@]);
        assert(seq!["tower"@].drop_last() =~= Seq::<Seq<char>>::empty());
    }
    let a = get_opt(get_opt(get_member(role_info, k_role), k_tower), k_energy);
    let found = match a {
        Some(x) => Some(x),
        None => get_opt(get_member(role_info, k_tower), k_energy),
    };
    as_i64(found)
}

/// A climb of the tower in progress.
pub struct TowerClimb {
    pub energy: i64,
    pub tower_id: u64,
    pub climbs: u32,
    pub failures: u32,
    pub cleared: bool,
}

/// The climb that a role's data starts: its energy and tower id (0 when
/// unknown); cleared when the id has reached the last floor's.
pub open spec fn climb_start(j: Option<Json>) -> (i64, u64, bool) {
    let energy = match j {
        Some(v) => match tower_energy_of(v) {
            Some(e) => e,
            None => 0,
        },
        None => 0,
    };
    let id = match j {
        Some(v) => match tower_id_of(v) {
            Some(t) => t,
            None => 0,
        },
        None => 0,
    };
    (energy, id, id >= TOWER_CLEAR_ID)
}

/// Starts a climb from the role's data.
pub fn tower_climb_start(role_info: Option<&Value>) -> (r: TowerClimb)
    ensures
        ({
            let (e, t, c) = climb_start(
                match role_info {
                    Some(v) => Some(v@),
                    None => None,
                },
            );
            r.energy == e && r.tower_id == t && r.cleared == c && r.climbs == 0 && r.failures == 0
        }),
{
    let (energy, tower_id) = match role_info {
        Some(v) => (
            match tower_energy_from_role_info(v) {
                Some(e) => e,
                None => 0,
            },
            match crate::kpi::tower_id_from_role_info(v) {
                Some(t) => t,
                None => 0,
            },
        ),
        None => (0, 0),
    };
    TowerClimb { energy, tower_id, climbs: 0, failures: 0, cleared: tower_id >= TOWER_CLEAR_ID }
}

/// The floor whose reward waits: that of a positive tower id that is a
/// multiple of ten, its tenth.
pub fn pending_reward_floor(tower_id: u64) -> (r: Option<u64>)
    ensures
        r == if tower_id > 0 && tower_id % 10 == 0 {
            Some((tower_id / 10) as u64)
        } else {
            None
        },
{
    if tower_id > 0 && tower_id % 10 == 0 {
        Some(tower_id / 10)
    } else {
        None
    }
}

/// Whether the climb fights again: energy is left, fewer than the most
/// fights were fought, fewer than three fights in a row failed, and the
/// tower is not cleared.
pub fn should_fight(st: &TowerClimb) -> (r: bool)
    ensures
        r == (st.energy > 0 && st.climbs < MAX_TOWER_CLIMBS && st.failures < 3 && !st.cleared),
{
    st.energy > 0 && st.climbs < MAX_TOWER_CLIMBS && st.failures < 3 && !st.cleared
}

/// What follows a fight.
pub enum TowerStep {
    /// Fight again.
    Fight,
    /// Energy is short of a reward: claim the reward of this floor (when it
    /// is above 0), read the role's data again, then fight on.
    ClaimReward(u64),
    /// Rate limited: wait a while, then fight on.
    Backoff,
    /// The fight failed: wait, then try again.
    Retry,
    /// The climb is over.
    Stop,
}

/// The tower id a won fight reports.
pub open spec fn fight_tower_id(j: Json) -> Option<u64> {
    json_u64(at_path(j, seq!["battleData"@, "options"@, "towerId"@]))
}

fn fight_tower_id_of(resp: &Value) -> (r: Option<u64>)
    ensures
        r == fight_tower_id(resp@),
{
    let k_battle = "battleData";
    let k_options = "options";
    let k_id = "towerId";
    proof {
        reveal_with_fuel(at_path, 4);
        assert(seq!["battleData"@, "options"@, "towerId"@].drop_last() =~= seq!["battleData"@, "options"@]);
        assert(seq!["battleData"@, "options"@].drop_last() =~= seq!["battleData"@]);
        assert(seq!["battleData"@].drop_last() =~= Seq::<Seq<char>>::empty());
    }
    as_u64(get_opt(get_opt(get_member(resp, k_battle), k_options), k_id))
}

/// The climb and the step after a fight answered `fight`: a won fight
/// spends one energy and may move the tower id; a failed one is read by its
/// error code (1500040 short of a reward, 1500010 cleared, 1500020 out of
/// energy, 200400 rate limited, other codes count as failures and three in a
/// row end the climb).
pub fn tower_after_fight(st: TowerClimb, fight: &Result<Value, String>) -> (r: (TowerClimb, TowerStep))
    requires
        st.climbs < MAX_TOWER_CLIMBS,
        st.failures < 3,
    ensures
        match fight {
            Ok(resp) => r.0.climbs == st.climbs + 1 && r.0.failures == 0 && r.0.energy == (if st.energy
                > i64::MIN {
                st.energy - 1
            } else {
                st.energy as int
            }) && r.0.tower_id == match fight_tower_id(resp@) {
                Some(t) => t,
                None => st.tower_id,
            } && r.0.cleared == st.cleared && r.1 is Fight,
            Err(e) => {
                let code = code_in_error(vstd::utf8::encode_utf8(e@));
                &&& r.0.energy == st.energy && r.0.tower_id == st.tower_id && r.0.climbs == st.climbs
                &&& code == Some(1500040i32) ==> r.0.failures == 0 && r.0.cleared == st.cleared && r.1
                    == TowerStep::ClaimReward((st.tower_id / 10) as u64)
                &&& code == Some(1500010i32) ==> r.0.failures == st.failures && r.0.cleared && r.1 is Stop
                &&& code == Some(1500020i32) ==> r.0.failures == st.failures && r.0.cleared == st.cleared
                    && r.1 is Stop
                &&& code == Some(200400i32) ==> r.0.failures == st.failures && r.0.cleared == st.cleared
                    && r.1 is Backoff
                &&& (code != Some(1500040i32) && code != Some(1500010i32) && code != Some(1500020i32)
                    && code != Some(200400i32)) ==> r.0.failures == st.failures + 1 && r.0.cleared
                    == st.cleared && (if st.failures + 1 >= 3 {
                    r.1 is Stop
                } else {
                    r.1 is Retry
                })
            },
        },
{
    match fight {
        Ok(resp) => {
            let tower_id = match fight_tower_id_of(resp) {
                Some(t) => t,
                None => st.tower_id,
            };
            let next = TowerClimb {
                energy: if st.energy > i64::MIN {
                    st.energy - 1
                } else {
                    st.energy
                },
                tower_id,
                climbs: st.climbs + 1,
                failures: 0,
                cleared: st.cleared,
            };
            (next, TowerStep::Fight)
        },
        Err(e) => {
            let code = crate::error_codes::extract_code_from_error(e.as_str());
            match code {
                Some(1500040) => {
                    let floor = st.tower_id / 10;
                    (TowerClimb { failures: 0, ..st }, TowerStep::ClaimReward(floor))
                },
                Some(1500010) => (TowerClimb { cleared: true, ..st }, TowerStep::Stop),
                Some(1500020) => (st, TowerStep::Stop),
                Some(200400) => (st, TowerStep::Backoff),
                _ => {
                    let failures = st.failures + 1;
                    let step = if failures >= 3 {
                        TowerStep::Stop
                    } else {
                        TowerStep::Retry
                    };
                    (TowerClimb { failures, ..st }, step)
                },
            }
        },
    }
}

/// The climb after the role's data was read again: the energy and tower id
/// it reports replace the old ones.
pub fn tower_after_refresh(st: TowerClimb, role_info: Option<&Value>) -> (r: TowerClimb)
    ensures
        r.climbs == st.climbs && r.failures == st.failures && r.cleared == st.cleared,
        r.energy == match role_info {
            Some(v) => match tower_energy_of(v@) {
                Some(e) => e,
                None => st.energy,
            },
            None => st.energy,
        },
        r.tower_id == match role_info {
            Some(v) => match tower_id_of(v@) {
                Some(t) => t,
                None => st.tower_id,
            },
            None => st.tower_id,
        },
{
    match role_info {
        Some(v) => {
            let energy = match tower_energy_from_role_info(v) {
                Some(e) => e,
                None => st.energy,
            };
            let tower_id = match crate::kpi::tower_id_from_role_info(v) {
                Some(t) => t,
                None => st.tower_id,
            };
            TowerClimb { energy, tower_id, ..st }
        },
        None => st,
    }
}

/// Seconds until a tower with this much energy is worth a look again: half
/// an hour for each energy short of ten (negative when above ten).
pub open spec fn recheck_secs(energy: i64) -> int {
    let short = if 10 - energy > i64::MAX {
        i64::MAX as int
    } else {
        10 - energy
    };
    let s = short * 1800;
    if s > i64::MAX {
        i64::MAX as int
    } else if s < i64::MIN {
        i64::MIN as int
    } else {
        s
    }
}

/// Seconds until the tower is worth a look again.
pub fn tower_recheck_after(energy: i64) -> (r: i64)
    ensures
        r == recheck_secs(energy),
{
    let wide: i128 = 10i128 - energy as i128;
    let short: i128 = if wide > i64::MAX as i128 {
        i64::MAX as i128
    } else {
        wide
    };
    let s: i128 = short * 1800;
    if s > i64::MAX as i128 {
        i64::MAX
    } else if s < i64::MIN as i128 {
        i64::MIN
    } else {
        s as i64
    }
}

/// When the climb ends: whether the tower is now cleared (it was, or the
/// tower id has reached the last floor's), and if not, after how many
/// seconds to look again, by the energy that the role's data reports (or
/// the climb's own).
pub fn tower_finish(st: &TowerClimb, role_info: Option<&Value>) -> (r: (bool, Option<i64>))
    ensures
        ({
            let energy = match role_info {
                Some(v) => match tower_energy_of(v@) {
                    Some(e) => e,
                    None => st.energy,
                },
                None => st.energy,
            };
            let cleared = st.cleared || st.tower_id >= TOWER_CLEAR_ID;
            r == (cleared, if cleared {
                None::<i64>
            } else {
                Some(recheck_secs(energy) as i64)
            })
        }),
{
    let energy = match role_info {
        Some(v) => match tower_energy_from_role_info(v) {
            Some(e) => e,
            None => st.energy,
        },
        None => st.energy,
    };
    let cleared = st.cleared || st.tower_id >= TOWER_CLEAR_ID;
    if cleared {
        (true, None)
    } else {
        (false, Some(tower_recheck_after(energy)))
    }
}

// ------------------------------------------------------------------
// The evolution tower
// ------------------------------------------------------------------

/// A climb of the evolution tower in progress.
pub struct EvoClimb {
    pub energy: i64,
    pub tower_id: u64,
    pub climbs: u32,
}

/// The evolution tower's energy in its data.
pub open spec fn evo_energy_of(j: Json) -> Option<i64> {
    json_i64(at_path(j, seq!["evoTower"@, "energy"@]))
}

/// The evolution tower's floor in its data.
pub open spec fn evo_tower_of(j: Json) -> Option<u64> {
    json_u64(at_path(j, seq!["evoTower"@, "towerId"@]))
}

fn evo_fields(info: &Value) -> (r: (Option<i64>, Option<u64>))
    ensures
        r == (evo_energy_of(info@), evo_tower_of(info@)),
{
    let k_evo = "evoTower";
    let k_energy = "energy";
    let k_id = "towerId";
    proof {
        reveal_with_fuel(at_path, 3);
        assert(seq!["evoTower"@, "energy"@].drop_last() =~= seq!["evoTower"@]);
        assert(seq!["evoTower"@, "towerId"@].drop_last() =~= seq!["evoTower"@]);
        assert(seq!["evoTower"@].drop_last() =~= Seq::<Seq<char>>::empty());
    }
    let evo = get_member(info, k_evo);
    (as_i64(get_opt(evo, k_energy)), as_u64(get_opt(evo, k_id)))
}

/// Starts a climb from the tower's data (0 for what it does not say).
pub fn evo_climb_start(info: &Value) -> (r: EvoClimb)
    ensures
        r.energy == match evo_energy_of(info@) {
            Some(e) => e,
            None => 0,
        },
        r.tower_id == match evo_tower_of(info@) {
            Some(t) => t,
            None => 0,
        },
        r.climbs == 0,
{
    let (e, t) = evo_fields(info);
    EvoClimb {
        energy: match e {
            Some(x) => x,
            None => 0,
        },
        tower_id: match t {
            Some(x) => x,
            None => 0,
        },
        climbs: 0,
    }
}

/// Whether a fight was won: the first entry of its win list is `true`.
pub open spec fn fight_won(j: Json) -> bool {
    match member(j, "winList"@) {
        Some(l) => crate::lookup::json_bool(crate::lookup::step_zero(l)) == Some(true),
        None => false,
    }
}

fn fight_won_of(resp: &Value) -> (r: bool)
    ensures
        r == fight_won(resp@),
{
    crate::lookup::as_bool(crate::lookup::get_zero(get_member(resp, "winList"))) == Some(true)
}

/// What to claim after a fight of the evolution tower.
pub struct EvoStep {
    /// The climb task whose reward is due, if any.
    pub claim_task: Option<u64>,
    /// Whether a section reward is due: the fight was won on a floor that
    /// is a positive multiple of ten.
    pub claim_section: bool,
}

/// The climb and what to claim after a fight answered `fight` and the
/// tower's data was read again (`info`, when it could be): a failed fight
/// ends the climb (`None`); a fought one counts, spends one energy, and the
/// data read replaces the energy and floor.
pub fn evo_after_fight(st: EvoClimb, fight: &Result<Value, String>, info: Option<&Value>) -> (r: Option<
    (EvoClimb, EvoStep),
>)
    requires
        st.climbs < u32::MAX,
    ensures
        match fight {
            Err(_) => r is None,
            Ok(resp) => r matches Some((c, step)) && {
                let spent: int = if st.energy > i64::MIN {
                    st.energy - 1
                } else {
                    st.energy as int
                };
                &&& c.climbs == st.climbs + 1
                &&& c.energy == match info {
                    Some(v) => match evo_energy_of(v@) {
                        Some(e) => e as int,
                        None => spent,
                    },
                    None => spent,
                }
                &&& c.tower_id == match info {
                    Some(v) => match evo_tower_of(v@) {
                        Some(t) => t,
                        None => st.tower_id,
                    },
                    None => st.tower_id,
                }
                &&& step.claim_task == crate::cli_evotower::claim_task(c.climbs)
                &&& step.claim_section == (fight_won(resp@) && c.tower_id > 0 && c.tower_id % 10 == 0)
            },
        },
{
    let resp = match fight {
        Ok(v) => v,
        Err(_) => {
            return None;
        },
    };
    let climbs = st.climbs + 1;
    let spent = if st.energy > i64::MIN {
        st.energy - 1
    } else {
        st.energy
    };
    let won = fight_won_of(resp);
    let (energy, tower_id) = match info {
        Some(v) => {
            let (e, t) = evo_fields(v);
            (
                match e {
                    Some(x) => x,
                    None => spent,
                },
                match t {
                    Some(x) => x,
                    None => st.tower_id,
                },
            )
        },
        None => (spent, st.tower_id),
    };
    let claim_task = crate::cli_evotower::claimtask_id_for_climb(climbs);
    let claim_section = won && tower_id > 0 && tower_id % 10 == 0;
    Some((EvoClimb { energy, tower_id, climbs }, EvoStep { claim_task, claim_section }))
}

// ------------------------------------------------------------------
// The skin challenge
// ------------------------------------------------------------------

/// The skin challenge's activity id in its data (0 when it has none).
pub open spec fn skinc_act_of(j: Json) -> u64 {
    match json_u64(or_else(member(j, "actId"@), at_path(j, seq!["towerData"@, "actId"@]))) {
        Some(a) => a,
        None => 0,
    }
}

/// Reads the skin challenge's activity id.
pub fn skinc_act_id(info: &Value) -> (r: u64)
    ensures
        r == skinc_act_of(info@),
{
    let k_act = "actId";
    let k_data = "towerData";
    proof {
        reveal_with_fuel(at_path, 3);
        assert(seq!["towerData"@, "actId"@].drop_last() =~= seq!["towerData"@]);
        assert(seq!["towerData"@].drop_last() =~= Seq::<Seq<char>>::empty());
    }
    let found = match get_member(info, k_act) {
        Some(x) => Some(x),
        None => get_opt(get_member(info, k_data), k_act),
    };
    match as_u64(found) {
        Some(a) => a,
        None => 0,
    }
}

/// The value of a decimal digit byte.
pub open spec fn digit_at(d: Seq<u8>, i: int) -> int {
    d[i] - 48
}

/// The day an activity starts, from the first six digits of its id read as
/// `YYMMDD` (year 20YY); ids below 100000 name no activity.
pub open spec fn act_start(act_id: u64) -> Option<(i32, u32, u32)> {
    if act_id < 100000 {
        None
    } else {
        let d = crate::text::nat_decimal(act_id as nat);
        Some(
            (
                (2000 + digit_at(d, 0) * 10 + digit_at(d, 1)) as i32,
                (digit_at(d, 2) * 10 + digit_at(d, 3)) as u32,
                (digit_at(d, 4) * 10 + digit_at(d, 5)) as u32,
            ),
        )
    }
}

proof fn lemma_decimal_digits(n: nat)
    ensures
        forall|i: int| 0 <= i < crate::text::nat_decimal(n).len() ==> 48 <= #[trigger] crate::text::nat_decimal(n)[i] <= 57,
        crate::text::nat_decimal(n).len() >= 1,
        n >= 10 ==> crate::text::nat_decimal(n).len() == crate::text::nat_decimal(n / 10).len() + 1,
    decreases n,
{
    if n >= 10 {
        lemma_decimal_digits(n / 10);
        let d = crate::text::nat_decimal(n);
        let p = crate::text::nat_decimal(n / 10);
        assert forall|i: int| 0 <= i < d.len() implies 48 <= #[trigger] d[i] <= 57 by {
            if i < p.len() {
                assert(d[i] == p[i]);
            }
        }
    }
}

proof fn lemma_decimal_six(n: nat)
    requires
        n >= 100000,
    ensures
        crate::text::nat_decimal(n).len() >= 6,
{
    lemma_decimal_digits(n);
    lemma_decimal_digits(n / 10);
    lemma_decimal_digits(n / 100);
    lemma_decimal_digits(n / 1000);
    lemma_decimal_digits(n / 10000);
    assert(n / 10 / 10 == n / 100);
    assert(n / 100 / 10 == n / 1000);
    assert(n / 1000 / 10 == n / 10000);
}

/// The day an activity starts, as year, month and day.
pub fn skinc_act_start(act_id: u64) -> (r: Option<(i32, u32, u32)>)
    ensures
        r == act_start(act_id),
{
    if act_id < 100000 {
        return None;
    }
    let mut d: Vec<u8> = Vec::new();
    crate::text::push_decimal(&mut d, act_id);
    proof {
        assert(d@ =~= crate::text::nat_decimal(act_id as nat));
        lemma_decimal_six(act_id as nat);
        lemma_decimal_digits(act_id as nat);
        assert(48 <= d@[0] <= 57 && 48 <= d@[1] <= 57 && 48 <= d@[2] <= 57);
        assert(48 <= d@[3] <= 57 && 48 <= d@[4] <= 57 && 48 <= d@[5] <= 57);
    }
    let year: i32 = 2000 + ((d[0] - 48) as i32) * 10 + (d[1] - 48) as i32;
    let month: u32 = ((d[2] - 48) as u32) * 10 + (d[3] - 48) as u32;
    let day: u32 = ((d[4] - 48) as u32) * 10 + (d[5] - 48) as u32;
    Some((year, month, day))
}

/// The bosses open on a weekday counted from Sunday (0): one each day,
/// all six on Thursday.
pub open spec fn open_bosses(weekday: u32) -> Seq<u64> {
    if weekday == 5 {
        seq![1u64]
    } else if weekday == 6 {
        seq![2u64]
    } else if weekday == 0 {
        seq![3u64]
    } else if weekday == 1 {
        seq![4u64]
    } else if weekday == 2 {
        seq![5u64]
    } else if weekday == 3 {
        seq![6u64]
    } else if weekday == 4 {
        seq![1u64, 2, 3, 4, 5, 6]
    } else {
        Seq::empty()
    }
}

/// The bosses open on a weekday counted from Sunday.
pub fn skinc_open_towers(weekday: u32) -> (r: Vec<u64>)
    ensures
        r@ == open_bosses(weekday),
{
    let r = match weekday {
        5 => vec![1],
        6 => vec![2],
        0 => vec![3],
        1 => vec![4],
        2 => vec![5],
        3 => vec![6],
        4 => vec![1, 2, 3, 4, 5, 6],
        _ => vec![],
    };
    assert(r@ =~= open_bosses(weekday));
    r
}

/// The open bosses whose last floor is not yet rewarded, in order.
pub open spec fn bosses_left(open: Seq<u64>, es: Seq<(Seq<char>, Json)>) -> Seq<u64> {
    open.filter(|t: u64| crate::lookup::field(es, crate::kpi::floor_key(t, 8)) is None)
}

/// The open bosses still to beat: those whose last floor's reward was not
/// taken.
pub fn skinc_targets(open: &Vec<u64>, level_reward_map: &Vec<(String, Value)>) -> (r: Vec<u64>)
    ensures
        r@ == bosses_left(open@, crate::value::model_entries(level_reward_map@)),
{
    let ghost es = crate::value::model_entries(level_reward_map@);
    let ghost f = |t: u64| crate::lookup::field(es, crate::kpi::floor_key(t, 8)) is None;
    let mut out: Vec<u64> = Vec::new();
    let mut i: usize = 0;
    while i < open.len()
        invariant
            i <= open@.len(),
            es == crate::value::model_entries(level_reward_map@),
            f == (|t: u64| crate::lookup::field(es, crate::kpi::floor_key(t, 8)) is None),
            out@ == open@.take(i as int).filter(f),
        decreases open@.len() - i,
    {
        let t = open[i];
        let mut key = crate::text::nat_text(t);
        key.append("008");
        proof {
            reveal_strlit("008");
            reveal_strlit("00");
            assert(crate::text::decimal(8) =~= seq!['8']);
            assert(key@ =~= crate::kpi::floor_key(t, 8));
            assert(open@.take(i + 1).drop_last() =~= open@.take(i as int));
            assert(open@.take(i + 1).last() == t);
            reveal(Seq::filter);
        }
        if crate::lookup::entries_get(level_reward_map, key.as_str()).is_none() {
            proof {
                assert(f(t));
            }
            out.push(t);
        } else {
            proof {
                assert(!f(t));
            }
        }
        i = i + 1;
    }
    assert(open@.take(open@.len() as int) =~= open@);
    out
}

/// What follows a fight against a boss.
pub enum BossStep {
    /// The boss fell: read the floors again, and go on unless its last floor
    /// is now rewarded.
    Beaten,
    /// The boss stood: start again, unless this was the third failure in a
    /// row, which ends this boss.
    Failed(u32),
    /// Three failures in a row: leave this boss.
    GiveUp,
}

/// The step after a fight against a boss that left it with no health
/// (`killed`) or not, given the failures in a row so far.
pub fn skinc_after_fight(killed: bool, failures: u32) -> (r: BossStep)
    requires
        failures < 3,
    ensures
        killed ==> r is Beaten,
        !killed && failures + 1 >= 3 ==> r is GiveUp,
        !killed && failures + 1 < 3 ==> r == BossStep::Failed((failures + 1) as u32),
{
    if killed {
        BossStep::Beaten
    } else if failures + 1 >= 3 {
        BossStep::GiveUp
    } else {
        BossStep::Failed(failures + 1)
    }
}

// ------------------------------------------------------------------
// Battle answers
// ------------------------------------------------------------------

/// Whether a number is above zero (`None` for what is not a number).
pub open spec fn number_positive(j: Option<Json>) -> Option<bool> {
    match j {
        Some(Json::Int(i)) => Some(i > 0),
        Some(Json::Float(b)) => Some(crate::float_bits::f64_positive(b)),
        _ => None,
    }
}

/// Whether a number is zero (`None` for what is not a number).
pub open spec fn number_zero(j: Option<Json>) -> Option<bool> {
    match j {
        Some(Json::Int(i)) => Some(i == 0),
        Some(Json::Float(b)) => Some(crate::float_bits::f64_zero(b)),
        _ => None,
    }
}

fn positive_of(v: Option<&Value>) -> (r: Option<bool>)
    ensures
        r == number_positive(
            match v {
                Some(x) => Some(x@),
                None => None,
            },
        ),
{
    match v {
        Some(Value::Int(i)) => Some(*i > 0),
        Some(Value::Float(b)) => Some(0 < *b && *b <= 0x7ff0_0000_0000_0000),
        _ => None,
    }
}

fn zero_of(v: Option<&Value>) -> (r: Option<bool>)
    ensures
        r == number_zero(
            match v {
                Some(x) => Some(x@),
                None => None,
            },
        ),
{
    match v {
        Some(Value::Int(i)) => Some(*i == 0),
        Some(Value::Float(b)) => Some(*b == 0 || *b == 0x8000_0000_0000_0000),
        _ => None,
    }
}

/// What a tower battle answer says: whether the attacker still stands
/// (its health above zero) and the floor it reports; nothing when there is
/// no battle data or no health number.
pub open spec fn tower_battle(j: Json) -> Option<(bool, Option<u64>)> {
    match member(j, "battleData"@) {
        None => None,
        Some(b) => match number_positive(at_path(b, seq!["result"@, "sponsor"@, "ext"@, "curHP"@])) {
            None => None,
            Some(won) => Some((won, json_u64(at_path(b, seq!["options"@, "towerId"@])))),
        },
    }
}

proof fn lemma_path4(j: Json, a: Seq<char>, b: Seq<char>, c: Seq<char>, d: Seq<char>)
    ensures
        at_path(j, seq![a, b, c, d]) == match member(j, a) {
            Some(x1) => match member(x1, b) {
                Some(x2) => match member(x2, c) {
                    Some(x3) => member(x3, d),
                    None => None,
                },
                None => None,
            },
            None => None,
        },
{
    reveal_with_fuel(at_path, 5);
    assert(seq![a, b, c, d].drop_last() =~= seq![a, b, c]);
    assert(seq![a, b, c].drop_last() =~= seq![a, b]);
    assert(seq![a, b].drop_last() =~= seq![a]);
    assert(seq![a].drop_last() =~= Seq::<Seq<char>>::empty());
}

proof fn lemma_path2(j: Json, a: Seq<char>, b: Seq<char>)
    ensures
        at_path(j, seq![a, b]) == match member(j, a) {
            Some(x1) => member(x1, b),
            None => None,
        },
{
    reveal_with_fuel(at_path, 3);
    assert(seq![a, b].drop_last() =~= seq![a]);
    assert(seq![a].drop_last() =~= Seq::<Seq<char>>::empty());
}

/// Reads a tower battle answer.
pub fn parse_tower_battle_result(resp: &Value) -> (r: Option<(bool, Option<u64>)>)
    ensures
        r == tower_battle(resp@),
{
    let b = match get_member(resp, "battleData") {
        Some(b) => b,
        None => {
            return None;
        },
    };
    proof {
        lemma_path4(b@, "result"@, "sponsor"@, "ext"@, "curHP"@);
        lemma_path2(b@, "options"@, "towerId"@);
    }
    let hp = get_opt(get_opt(get_opt(get_member(b, "result"), "sponsor"), "ext"), "curHP");
    match positive_of(hp) {
        None => None,
        Some(won) => Some((won, as_u64(get_opt(get_member(b, "options"), "towerId")))),
    }
}

/// Whether a boss fight left the boss with no health: its health under
/// `battleData/result/accept/ext` is a number equal to zero.
pub open spec fn boss_killed(j: Json) -> bool {
    match member(j, "battleData"@) {
        Some(b) => number_zero(at_path(b, seq!["result"@, "accept"@, "ext"@, "curHP"@])) == Some(true),
        None => false,
    }
}

/// Whether a boss fight of the skin challenge killed the boss.
pub fn skinc_boss_killed(resp: &Value) -> (r: bool)
    ensures
        r == boss_killed(resp@),
{
    match get_member(resp, "battleData") {
        Some(b) => {
            proof {
                lemma_path4(b@, "result"@, "accept"@, "ext"@, "curHP"@);
            }
            let hp = get_opt(get_opt(get_opt(get_member(b, "result"), "accept"), "ext"), "curHP");
            zero_of(hp) == Some(true)
        },
        None => false,
    }
}

/// The tower's reward record in a role's data, under `role/tower` or
/// `tower`.
pub open spec fn reward_record(j: Json) -> Option<Json> {
    or_else(at_path(j, seq!["role"@, "tower"@, "reward"@]), at_path(j, seq!["tower"@, "reward"@]))
}

/// Whether a floor's reward is still to claim: the role's reward record
/// does not mark it `true` (by the floor's number in a map, or its index in
/// a list); without a record, or with another kind of record, it is.
pub open spec fn reward_to_claim(j: Option<Json>, floor: u64) -> bool {
    match (match j {
        Some(v) => reward_record(v),
        None => None,
    }) {
        Some(Json::Object(es)) => match crate::lookup::field(es, crate::text::decimal(floor as nat)) {
            Some(v) => crate::lookup::json_bool(Some(v)) != Some(true),
            None => true,
        },
        Some(Json::Array(items)) => crate::lookup::json_bool(crate::lookup::element(Json::Array(items), (floor as usize) as int)) != Some(true),
        _ => true,
    }
}

/// Whether a floor's tower reward is still to claim.
pub fn should_claim_reward(role_info: Option<&Value>, reward_floor: u64) -> (r: bool)
    ensures
        r == reward_to_claim(
            match role_info {
                Some(v) => Some(v@),
                None => None,
            },
            reward_floor,
        ),
{
    let rec = match role_info {
        Some(v) => {
            proof {
                reveal_with_fuel(at_path, 4);
                assert(seq!["role"@, "tower"@, "reward"@].drop_last() =~= seq!["role"@, "tower"@]);
                assert(seq!["role"@, "tower"@].drop_last() =~= seq!["role"@]);
                assert(seq!["role"@].drop_last() =~= Seq::<Seq<char>>::empty());
                assert(seq!["tower"@, "reward"@].drop_last() =~= seq!["tower"@]);
                assert(seq!["tower"@].drop_last() =~= Seq::<Seq<char>>::empty());
            }
            match get_opt(get_opt(get_member(v, "role"), "tower"), "reward") {
                Some(x) => Some(x),
                None => get_opt(get_member(v, "tower"), "reward"),
            }
        },
        None => None,
    };
    match rec {
        Some(Value::Object(es)) => {
            let key = crate::text::nat_text(reward_floor);
            match crate::lookup::entries_get(es, key.as_str()) {
                Some(v) => crate::lookup::as_bool(Some(v)) != Some(true),
                None => true,
            }
        },
        Some(Value::Array(_)) => crate::lookup::as_bool(crate::lookup::get_index(rec, reward_floor as usize)) != Some(true),
        _ => true,
    }
}

// ------------------------------------------------------------------
// Calendar of the activities
// ------------------------------------------------------------------

/// Days since the last Friday (0 on a Friday), for a weekday counted from
/// Monday (0 to 6).
pub fn days_since_friday(weekday_from_monday: u32) -> (r: u32)
    requires
        weekday_from_monday < 7,
    ensures
        r == (weekday_from_monday + 3) % 7,
        r < 7,
{
    (weekday_from_monday + 7 - 4) % 7
}

/// The skin challenge's activity id for the Friday it starts on: the date
/// as `YYMMDD` followed by `1` (0 for a year before the common era, whose
/// two digits do not read as a number).
pub open spec fn act_id_for(year: i32, month: u32, day: u32) -> u64 {
    if year < 0 && year % 100 != 0 {
        0
    } else {
        ((((year % 100) * 100 + month) * 100 + day) * 10 + 1) as u64
    }
}

/// The skin challenge's activity id for the Friday it starts on.
pub fn skinc_act_id_for(year: i32, month: u32, day: u32) -> (r: u64)
    requires
        1 <= month <= 12,
        1 <= day <= 31,
    ensures
        r == act_id_for(year, month, day),
{
    if year < 0 {
        let neg: u32 = (-(year as i64)) as u32;
        if neg % 100 != 0 {
            return 0;
        }
        assert(year % 100 == 0) by (nonlinear_arith)
            requires
                neg == -year,
                neg % 100 == 0,
                year < 0,
        ;
        return ((month as u64) * 100 + day as u64) * 10 + 1;
    }
    let y: u32 = (year as u32) % 100;
    (((y as u64) * 100 + month as u64) * 100 + day as u64) * 10 + 1
}

/// The evolution tower's cycle: three weeks, counted from its first
/// opening.
pub const EVO_CYCLE_SECS: i64 = 1814400;

/// How long the evolution tower stays open in each cycle: one week.
pub const EVO_OPEN_SECS: i64 = 604800;

/// Whether the evolution tower is open, `elapsed` seconds after its first
/// opening: in the first week of each three-week cycle.
pub fn evotower_active(elapsed: i64) -> (r: bool)
    ensures
        r == (elapsed >= 0 && elapsed % EVO_CYCLE_SECS < EVO_OPEN_SECS),
{
    elapsed >= 0 && elapsed % EVO_CYCLE_SECS < EVO_OPEN_SECS
}


// ------------------------------------------------------------------
// The tower climb of the command line
// ------------------------------------------------------------------

/// Why a climb of the command line ended.
#[derive(Clone, Copy, PartialEq, Eq, Structural)]
pub enum FlowStop {
    /// There was no energy to start with.
    NoEnergy,
    /// The most climbs asked for were made.
    MaxClimb,
    /// The energy ran out.
    EnergyOut,
    /// The server said the energy is spent (1500020).
    Exhausted,
    /// The server said the tower is cleared (1500010).
    Cleared,
    /// Too many requests in a row failed.
    Failures,
    /// The server answered with an error that ends the climb.
    Terminal,
}

/// What a refresh of the role's data was asked for.
#[derive(Clone, Copy, PartialEq, Eq, Structural)]
pub enum RefreshCause {
    /// The periodic look after a fight.
    AfterFight,
    /// A reward was pending: claim it, then look again.
    AfterClaim,
    /// A fight failed: wait, then look again.
    AfterFailure,
}

/// The tower climb of the command line: its settings (most climbs, how
/// often to look at the role's data, whether to claim pending rewards, the
/// pause between fights) and its progress.
#[derive(Clone, Copy, PartialEq, Eq, Structural)]
pub struct TowerFlow {
    pub max_climb: u32,
    pub refresh_every: u32,
    pub auto_claim: bool,
    pub interval_ms: u64,
    pub climbs: u32,
    pub energy: i64,
    pub tower_id: Option<u64>,
    pub consecutive_failures: u32,
    pub refresh_for: RefreshCause,
}

/// What the climb does next.
#[derive(Clone, Copy, PartialEq, Eq, Structural)]
pub enum TowerFlowAction {
    /// Wait this long, then fight.
    Climb(u64),
    /// Read the role's data again.
    Refresh,
    /// Read the role's data, claim the pending reward of the floor it
    /// reports when it is unclaimed (`should_claim_reward`), wait 1.5 s and
    /// read the data again.
    ClaimReward,
    /// Wait 2 s, then read the role's data again.
    RefreshAfterFailure,
    /// Wait 5 s, then fight.
    Backoff,
    /// The climb is over.
    Stop(FlowStop),
}

/// What the app reports back.
pub enum TowerFlowEvent {
    /// The fight answered; the tower id its result reports, if any.
    Fought(Option<u64>),
    /// The fight failed with this error.
    Failed(String),
    /// The role's data was read again: the energy and tower id it reports.
    Refreshed(Option<i64>, Option<u64>),
}

/// The most consecutive failed fights of the tower climb.
pub const TOWER_FAILURE_LIMIT: u32 = 3;

/// Fight on unless the most climbs were made or the energy is out.
pub open spec fn tower_go_on(st: TowerFlow, wait_ms: u64) -> TowerFlowAction {
    if st.climbs >= st.max_climb {
        TowerFlowAction::Stop(FlowStop::MaxClimb)
    } else if st.energy <= 0 {
        TowerFlowAction::Stop(FlowStop::EnergyOut)
    } else {
        TowerFlowAction::Climb(wait_ms)
    }
}

fn tower_go_on_exec(st: TowerFlow, wait_ms: u64) -> (r: TowerFlowAction)
    ensures
        r == tower_go_on(st, wait_ms),
{
    if st.climbs >= st.max_climb {
        TowerFlowAction::Stop(FlowStop::MaxClimb)
    } else if st.energy <= 0 {
        TowerFlowAction::Stop(FlowStop::EnergyOut)
    } else {
        TowerFlowAction::Climb(wait_ms)
    }
}

/// The climb at its start: looking at the data every `refresh_every`
/// fights (at least every fight); nothing to do without energy.
pub fn tower_flow_start(
    max_climb: u32,
    refresh_every: u32,
    auto_claim: bool,
    interval_ms: u64,
    energy: Option<i64>,
    tower_id: Option<u64>,
) -> (r: (TowerFlow, TowerFlowAction))
    ensures
        r.0 == (TowerFlow {
            max_climb,
            refresh_every: if refresh_every >= 1 { refresh_every } else { 1 },
            auto_claim,
            interval_ms,
            climbs: 0,
            energy: match energy {
                Some(e) => e,
                None => 0,
            },
            tower_id,
            consecutive_failures: 0,
            refresh_for: RefreshCause::AfterFight,
        }),
        r.1 == if r.0.energy <= 0 {
            TowerFlowAction::Stop(FlowStop::NoEnergy)
        } else {
            tower_go_on(r.0, 0)
        },
{
    let st = TowerFlow {
        max_climb,
        refresh_every: if refresh_every >= 1 { refresh_every } else { 1 },
        auto_claim,
        interval_ms,
        climbs: 0,
        energy: match energy {
            Some(e) => e,
            None => 0,
        },
        tower_id,
        consecutive_failures: 0,
        refresh_for: RefreshCause::AfterFight,
    };
    if st.energy <= 0 {
        (st, TowerFlowAction::Stop(FlowStop::NoEnergy))
    } else {
        let a = tower_go_on_exec(st, 0);
        (st, a)
    }
}

/// The climb and what it does next after an event.
///
/// - A fight that answered counts a climb, clears the failures, spends one
///   energy (while any is left) and takes the tower id it reports; every
///   `refresh_every` climbs the data is read, else the climb goes on after
///   the pause.
/// - A failed fight is read by its code: 1500020 and 1500010 end the climb;
///   1500040, when pending rewards are claimed, clears the failures and
///   claims; 200400 backs off; any other error counts a failure, and three
///   in a row end the climb, else the data is read after a wait.
/// - Fresh data replaces the energy and the tower id it reports; the climb
///   goes on, after the pause when the look followed a fight.
pub open spec fn tower_flow_after(st: TowerFlow, ev: TowerFlowEvent) -> (TowerFlow, TowerFlowAction) {
    match ev {
        TowerFlowEvent::Fought(t) => {
            let n = TowerFlow {
                climbs: (st.climbs + 1) as u32,
                consecutive_failures: 0,
                energy: if st.energy > 0 { (st.energy - 1) as i64 } else { st.energy },
                tower_id: match t {
                    Some(x) => Some(x),
                    None => st.tower_id,
                },
                ..st
            };
            if n.climbs % st.refresh_every == 0 {
                (TowerFlow { refresh_for: RefreshCause::AfterFight, ..n }, TowerFlowAction::Refresh)
            } else {
                (n, tower_go_on(n, st.interval_ms))
            }
        },
        TowerFlowEvent::Failed(e) => {
            let code = code_in_error(vstd::utf8::encode_utf8(e@));
            if code == Some(1500020i32) {
                (st, TowerFlowAction::Stop(FlowStop::Exhausted))
            } else if code == Some(1500010i32) {
                (st, TowerFlowAction::Stop(FlowStop::Cleared))
            } else if code == Some(1500040i32) && st.auto_claim {
                (
                    TowerFlow { consecutive_failures: 0, refresh_for: RefreshCause::AfterClaim, ..st },
                    TowerFlowAction::ClaimReward,
                )
            } else if code == Some(200400i32) {
                (st, TowerFlowAction::Backoff)
            } else {
                let n = TowerFlow { consecutive_failures: (st.consecutive_failures + 1) as u32, ..st };
                if n.consecutive_failures >= TOWER_FAILURE_LIMIT {
                    (n, TowerFlowAction::Stop(FlowStop::Failures))
                } else {
                    (TowerFlow { refresh_for: RefreshCause::AfterFailure, ..n }, TowerFlowAction::RefreshAfterFailure)
                }
            }
        },
        TowerFlowEvent::Refreshed(energy, t) => {
            let n = TowerFlow {
                energy: match energy {
                    Some(x) => x,
                    None => st.energy,
                },
                tower_id: match t {
                    Some(x) => Some(x),
                    None => st.tower_id,
                },
                ..st
            };
            (n, tower_go_on(n, if st.refresh_for == RefreshCause::AfterFight { st.interval_ms } else { 0 }))
        },
    }
}

/// The climb and what it does next after an event (see `tower_flow_after`).
pub fn tower_flow_step(st: TowerFlow, ev: TowerFlowEvent) -> (r: (TowerFlow, TowerFlowAction))
    requires
        st.refresh_every >= 1,
        st.climbs < u32::MAX,
        st.consecutive_failures < u32::MAX,
    ensures
        r == tower_flow_after(st, ev),
        ev is Fought ==> r.0.climbs == st.climbs + 1 && r.0.consecutive_failures == 0 && (r.0.climbs
            % st.refresh_every == 0 <==> r.1 is Refresh),
        r.1 is Climb ==> r.0.climbs < r.0.max_climb && r.0.energy > 0,
        ev is Refreshed && (r.0.climbs >= r.0.max_climb || r.0.energy <= 0) ==> r.1 is Stop,
{
    match ev {
        TowerFlowEvent::Fought(t) => {
            let n = TowerFlow {
                climbs: st.climbs + 1,
                consecutive_failures: 0,
                energy: if st.energy > 0 { st.energy - 1 } else { st.energy },
                tower_id: match t {
                    Some(x) => Some(x),
                    None => st.tower_id,
                },
                ..st
            };
            if n.climbs % st.refresh_every == 0 {
                (TowerFlow { refresh_for: RefreshCause::AfterFight, ..n }, TowerFlowAction::Refresh)
            } else {
                let a = tower_go_on_exec(n, st.interval_ms);
                (n, a)
            }
        },
        TowerFlowEvent::Failed(e) => {
            let code = crate::error_codes::extract_code_from_error(e.as_str());
            if code == Some(1500020i32) {
                (st, TowerFlowAction::Stop(FlowStop::Exhausted))
            } else if code == Some(1500010i32) {
                (st, TowerFlowAction::Stop(FlowStop::Cleared))
            } else if code == Some(1500040i32) && st.auto_claim {
                (
                    TowerFlow { consecutive_failures: 0, refresh_for: RefreshCause::AfterClaim, ..st },
                    TowerFlowAction::ClaimReward,
                )
            } else if code == Some(200400i32) {
                (st, TowerFlowAction::Backoff)
            } else {
                let n = TowerFlow { consecutive_failures: st.consecutive_failures + 1, ..st };
                if n.consecutive_failures >= TOWER_FAILURE_LIMIT {
                    (n, TowerFlowAction::Stop(FlowStop::Failures))
                } else {
                    (TowerFlow { refresh_for: RefreshCause::AfterFailure, ..n }, TowerFlowAction::RefreshAfterFailure)
                }
            }
        },
        TowerFlowEvent::Refreshed(energy, t) => {
            let n = TowerFlow {
                energy: match energy {
                    Some(x) => x,
                    None => st.energy,
                },
                tower_id: match t {
                    Some(x) => Some(x),
                    None => st.tower_id,
                },
                ..st
            };
            let wait = if st.refresh_for == RefreshCause::AfterFight { st.interval_ms } else { 0 };
            let a = tower_go_on_exec(n, wait);
            (n, a)
        },
    }
}

} // verus!
