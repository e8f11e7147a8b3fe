//! The plan of the daily run: which daily actions to take and how often,
//! from what the server says is done, the weekday and the role's stage; and
//! the bookkeeping of what was done.

use vstd::prelude::*;
use crate::value::{Value, Json};
use crate::lookup::{json_u64, or_else, get_member, as_u64};
use crate::kpi::DailyTaskStatus;
use crate::state::RoleDailyFlags;

verus! {

/// The daily boss of each weekday, counted from Sunday.
pub open spec fn day_boss(weekday: u32) -> u64 {
    if weekday == 0 {
        9904
    } else if weekday == 1 {
        9905
    } else if weekday == 2 {
        9901
    } else if weekday == 3 {
        9902
    } else if weekday == 4 {
        9903
    } else if weekday == 5 {
        9904
    } else {
        9905
    }
}

/// The daily boss of a weekday counted from Sunday (0 to 6).
pub fn day_boss_id(weekday: u32) -> (r: u64)
    requires
        weekday < 7,
    ensures
        r == day_boss(weekday),
{
    let map: [u64; 7] = [9904, 9905, 9901, 9902, 9903, 9904, 9905];
    map[weekday as usize]
}

/// Free arena fights a day.
pub const ARENA_FREE: u32 = 3;

/// Free club boss fights a day.
pub const LEGION_BOSS_FREE: u32 = 2;

/// What is left of a daily allowance after `done` uses.
pub open spec fn left_of(free: u32, done: u32) -> u32 {
    if done >= free {
        0
    } else {
        (free - done) as u32
    }
}

/// The daily run's actions: each flag says whether the action is taken,
/// each count how often.
pub struct DailyPlan {
    pub share: bool,
    pub friend_gift: bool,
    pub recruit: bool,
    pub buy_gold_times: u32,
    pub open_box: bool,
    pub store_purchase: bool,
    pub arena_fights: u32,
    pub boss_id: u64,
    pub boss_fights: u32,
    pub legion_boss_fights: u32,
    pub fishing_times: u32,
    pub genie_sweeps: Vec<u64>,
    pub sweep_tickets: u32,
    pub legacy_claim: bool,
    pub nightmare: bool,
}

/// The kingdoms whose genie is still to sweep today, in order.
pub open spec fn genies_left(s: DailyTaskStatus) -> Seq<u64> {
    let a: Seq<u64> = if s.genie_1_today { seq![] } else { seq![1u64] };
    let b: Seq<u64> = if s.genie_2_today { seq![] } else { seq![2u64] };
    let c: Seq<u64> = if s.genie_3_today { seq![] } else { seq![3u64] };
    let d: Seq<u64> = if s.genie_4_today { seq![] } else { seq![4u64] };
    a + b + c + d
}

/// Whether the dreamland is open on a weekday counted from Sunday: Sunday,
/// Monday, Wednesday and Thursday.
pub open spec fn dreamland_open(weekday: u32) -> bool {
    weekday == 0 || weekday == 1 || weekday == 3 || weekday == 4
}

fn genies_to_sweep(s: &DailyTaskStatus) -> (r: Vec<u64>)
    ensures
        r@ == genies_left(*s),
{
    let mut r: Vec<u64> = Vec::new();
    if !s.genie_1_today {
        r.push(1);
    }
    if !s.genie_2_today {
        r.push(2);
    }
    if !s.genie_3_today {
        r.push(3);
    }
    if !s.genie_4_today {
        r.push(4);
    }
    assert(r@ =~= genies_left(*s));
    r
}

/// The plan of the daily run: each task the server has not seen done is
/// taken (three gold exchanges, the arena's free fights left), three fights
/// with the weekday's boss, the club boss's free fights left, three fishing
/// draws unless fished today, a sweep of each kingdom's genie not swept
/// today and three sweep tickets, the technique scrolls past stage 8000 and
/// the dreamland on its days.
pub fn daily_plan(status: &DailyTaskStatus, weekday: u32, level_id: u64) -> (r: DailyPlan)
    requires
        weekday < 7,
    ensures
        r.share == !status.share,
        r.friend_gift == !status.friend_gift,
        r.recruit == !status.recruit,
        r.buy_gold_times == if status.buy_gold { 0u32 } else { 3u32 },
        r.open_box == !status.open_box,
        r.store_purchase == !status.store_purchase,
        r.arena_fights == if status.arena { 0u32 } else { left_of(ARENA_FREE, status.arena_done_today) },
        r.boss_id == day_boss(weekday),
        r.boss_fights == 3,
        r.legion_boss_fights == left_of(LEGION_BOSS_FREE, status.legion_boss_done),
        r.fishing_times == if status.artifact_lottery_today { 0u32 } else { 3u32 },
        r.genie_sweeps@ == genies_left(*status),
        r.sweep_tickets == 3,
        r.legacy_claim == (level_id > 8000),
        r.nightmare == dreamland_open(weekday),
{
    let arena_left = if status.arena_done_today >= ARENA_FREE {
        0
    } else {
        ARENA_FREE - status.arena_done_today
    };
    let legion_left = if status.legion_boss_done >= LEGION_BOSS_FREE {
        0
    } else {
        LEGION_BOSS_FREE - status.legion_boss_done
    };
    DailyPlan {
        share: !status.share,
        friend_gift: !status.friend_gift,
        recruit: !status.recruit,
        buy_gold_times: if status.buy_gold { 0 } else { 3 },
        open_box: !status.open_box,
        store_purchase: !status.store_purchase,
        arena_fights: if status.arena { 0 } else { arena_left },
        boss_id: day_boss_id(weekday),
        boss_fights: 3,
        legion_boss_fights: legion_left,
        fishing_times: if status.artifact_lottery_today { 0 } else { 3 },
        genie_sweeps: genies_to_sweep(status),
        sweep_tickets: 3,
        legacy_claim: level_id > 8000,
        nightmare: weekday == 0 || weekday == 1 || weekday == 3 || weekday == 4,
    }
}

/// The opponent an arena target list names first: under `roleList`'s first
/// entry, or the list's own first entry (0 when none).
pub open spec fn arena_target_of(j: Json) -> u64 {
    let first = match crate::lookup::member(j, "roleList"@) {
        Some(l) => crate::lookup::step_zero(l),
        None => None,
    };
    let a = match first {
        Some(x) => crate::lookup::member(x, "roleId"@),
        None => None,
    };
    let b = match crate::lookup::step_zero(j) {
        Some(x) => crate::lookup::member(x, "roleId"@),
        None => None,
    };
    match json_u64(or_else(a, b)) {
        Some(t) => t,
        None => 0,
    }
}

/// The first opponent of an arena target list.
pub fn arena_target_id(targets: &Value) -> (r: u64)
    ensures
        r == arena_target_of(targets@),
{
    let first = crate::lookup::get_zero(get_member(targets, "roleList"));
    let a = match first {
        Some(x) => get_member(x, "roleId"),
        None => None,
    };
    let found = match a {
        Some(x) => Some(x),
        None => match crate::lookup::get_zero(Some(targets)) {
            Some(x) => get_member(x, "roleId"),
            None => None,
        },
    };
    match as_u64(found) {
        Some(t) => t,
        None => 0,
    }
}

/// The flags after what the server says is done today: each task done on
/// the server counts as done.
pub fn sync_with_server(flags: &mut RoleDailyFlags, status: &DailyTaskStatus)
    ensures
        final(flags).share == (old(flags).share || status.share),
        final(flags).friend_gift == (old(flags).friend_gift || status.friend_gift),
        final(flags).recruit == (old(flags).recruit || status.recruit),
        final(flags).hangup_reward == (old(flags).hangup_reward || status.hangup_reward),
        final(flags).buy_gold == (old(flags).buy_gold || status.buy_gold),
        final(flags).open_box == (old(flags).open_box || status.open_box),
        final(flags).store_purchase == (old(flags).store_purchase || status.store_purchase),
        final(flags).bottle_task == (old(flags).bottle_task || status.bottle),
        final(flags).arena == (old(flags).arena || status.arena),
        final(flags).artifact == (old(flags).artifact || status.artifact_lottery_today),
        final(flags).signin == old(flags).signin,
        final(flags).boss == old(flags).boss,
        final(flags).legion_boss == old(flags).legion_boss,
        final(flags).legion_signin == old(flags).legion_signin,
        final(flags).genie == old(flags).genie,
        final(flags).gacha == old(flags).gacha,
        final(flags).discount == old(flags).discount,
        final(flags).card == old(flags).card,
        final(flags).collection == old(flags).collection,
        final(flags).task_rewards == old(flags).task_rewards,
        final(flags).mail == old(flags).mail,
        final(flags).nightmare == old(flags).nightmare,
        final(flags).dream_shop == old(flags).dream_shop,
        final(flags).car_send_done == old(flags).car_send_done,
        final(flags).car_claimed_today == old(flags).car_claimed_today,
{
    let next = RoleDailyFlags {
        signin: flags.signin,
        buy_gold: flags.buy_gold || status.buy_gold,
        share: flags.share || status.share,
        friend_gift: flags.friend_gift || status.friend_gift,
        recruit: flags.recruit || status.recruit,
        hangup_reward: flags.hangup_reward || status.hangup_reward,
        open_box: flags.open_box || status.open_box,
        store_purchase: flags.store_purchase || status.store_purchase,
        arena: flags.arena || status.arena,
        bottle_task: flags.bottle_task || status.bottle,
        boss: flags.boss,
        legion_boss: flags.legion_boss,
        legion_signin: flags.legion_signin,
        artifact: flags.artifact || status.artifact_lottery_today,
        genie: flags.genie,
        gacha: flags.gacha,
        discount: flags.discount,
        card: flags.card,
        collection: flags.collection,
        task_rewards: flags.task_rewards,
        mail: flags.mail,
        nightmare: flags.nightmare,
        dream_shop: flags.dream_shop,
        car_send_done: flags.car_send_done,
        car_claimed_today: flags.car_claimed_today,
    };
    *flags = next;
}

/// Whether a task is done after an attempt answered `result`: it was, or
/// the answer says so (a success or a "done" code).
pub fn done_after(flag: bool, result: &Result<Value, String>) -> (r: bool)
    ensures
        r == (flag || match result {
            Ok(_) => true,
            Err(e) => match crate::error_codes::code_in_error(vstd::utf8::encode_utf8(e@)) {
                Some(c) => crate::error_codes::done_codes().contains(c),
                None => false,
            },
        }),
{
    flag || crate::error_codes::is_done_result(result)
}

// ------------------------------------------------------------------
// The run's configuration
// ------------------------------------------------------------------

/// The teams the daily run fights with.
#[derive(Clone, Copy)]
pub struct DailyFormationPlan {
    pub arena: u64,
    pub boss_daily: u64,
    pub boss_legion: u64,
}

/// How a role's daily run is configured.
pub struct DailyTaskConfig {
    pub formations: Option<DailyFormationPlan>,
    pub dream_shop: Option<crate::dream::DreamShopConfig>,
    pub car_enabled: bool,
    pub gacha_enabled: bool,
}

/// Whether to switch to a fight's team: only when the current team is
/// known and is another one.
pub fn needs_team_switch(original_team: Option<u64>, target_team: u64) -> (r: bool)
    ensures
        r == (original_team matches Some(o) && o != target_team),
{
    match original_team {
        Some(o) => o != target_team,
        None => false,
    }
}

/// Whether to switch back after a fight: the team was switched, the
/// original team is known, and the current team is another one.
pub fn needs_team_restore(switched: bool, original_team: Option<u64>, current_team: u64) -> (r: bool)
    ensures
        r == (switched && (original_team matches Some(o) && o != current_team)),
{
    if !switched {
        return false;
    }
    match original_team {
        Some(o) => o != current_team,
        None => false,
    }
}

/// What the free capsule draw of the day comes to.
#[derive(Clone, Copy, PartialEq, Eq, Structural)]
pub enum GachaStep {
    /// The draw is off, or was already taken care of in this run.
    Off,
    /// The server says it was drawn today: mark it done.
    AlreadyDrawn,
    /// Draw, then mark it done.
    Draw,
}

/// What the free capsule draw comes to: off unless enabled and not yet done
/// in this run; done already when the server says so; else draw.
pub fn gacha_step(config: &DailyTaskConfig, flags: &RoleDailyFlags, status: &DailyTaskStatus) -> (r: GachaStep)
    ensures
        r == if !config.gacha_enabled || flags.gacha {
            GachaStep::Off
        } else if status.gacha_today {
            GachaStep::AlreadyDrawn
        } else {
            GachaStep::Draw
        },
{
    if !config.gacha_enabled || flags.gacha {
        GachaStep::Off
    } else if status.gacha_today {
        GachaStep::AlreadyDrawn
    } else {
        GachaStep::Draw
    }
}


// ------------------------------------------------------------------
// The daily run that keeps the role's flags
// ------------------------------------------------------------------

/// The stage from which the arena is fought.
pub const ARENA_MIN_STAGE: u64 = 400;

/// The stage from which the genies are swept.
pub const GENIE_MIN_STAGE: u64 = 3000;

/// What a daily run that keeps the role's flags takes on: each count says
/// how often an action is taken, each flag whether it is.
pub struct StatefulDailyPlan {
    pub share: bool,
    pub friend_gift: bool,
    pub recruit: bool,
    pub buy_gold_times: u32,
    pub open_box: bool,
    pub store_purchase: bool,
    pub arena_fights: u32,
    pub boss_id: u64,
    pub boss_fights: u32,
    pub legion_boss_fights: u32,
    pub signin: bool,
    pub legion_signin: bool,
    pub discount: bool,
    pub card: bool,
    pub collection: bool,
    pub fishing_times: u32,
    pub genie_sweeps: Vec<u64>,
    pub sweep_tickets: u32,
    pub task_rewards: bool,
    pub mail: bool,
    pub nightmare: bool,
}

/// The plan of a daily run that keeps the role's flags: a task is taken on
/// unless its flag is set (or, for the tasks the server counts, the server
/// says it is done). The arena is left below stage 400 and the genies below
/// stage 3000; the arena fights what is left of its three free fights, the
/// club boss what is left of its two; the dreamland only on its days.
pub fn stateful_daily_plan(flags: &RoleDailyFlags, status: &DailyTaskStatus, weekday: u32, level_id: u64) -> (r:
    StatefulDailyPlan)
    requires
        weekday < 7,
    ensures
        r.share == !(flags.share || status.share),
        r.friend_gift == !(flags.friend_gift || status.friend_gift),
        r.recruit == !(flags.recruit || status.recruit),
        r.buy_gold_times == if flags.buy_gold || status.buy_gold { 0u32 } else { 3u32 },
        r.open_box == !(flags.open_box || status.open_box),
        r.store_purchase == !(flags.store_purchase || status.store_purchase),
        r.arena_fights == if flags.arena || status.arena || level_id < ARENA_MIN_STAGE {
            0u32
        } else {
            left_of(ARENA_FREE, status.arena_done_today)
        },
        r.boss_id == day_boss(weekday),
        r.boss_fights == if flags.boss { 0u32 } else { 3u32 },
        r.legion_boss_fights == if flags.legion_boss { 0u32 } else { left_of(LEGION_BOSS_FREE, status.legion_boss_done) },
        r.signin == !flags.signin,
        r.legion_signin == !flags.legion_signin,
        r.discount == !flags.discount,
        r.card == !flags.card,
        r.collection == !flags.collection,
        r.fishing_times == if flags.artifact || status.artifact_lottery_today { 0u32 } else { 3u32 },
        r.genie_sweeps@ == if flags.genie || level_id < GENIE_MIN_STAGE { seq![] } else { genies_left(*status) },
        r.sweep_tickets == if flags.genie || level_id < GENIE_MIN_STAGE { 0u32 } else { 3u32 },
        r.task_rewards == !flags.task_rewards,
        r.mail == !flags.mail,
        r.nightmare == (!flags.nightmare && dreamland_open(weekday)),
{
    let base = daily_plan(status, weekday, level_id);
    let genie_off = flags.genie || level_id < GENIE_MIN_STAGE;
    StatefulDailyPlan {
        share: !flags.share && base.share,
        friend_gift: !flags.friend_gift && base.friend_gift,
        recruit: !flags.recruit && base.recruit,
        buy_gold_times: if flags.buy_gold { 0 } else { base.buy_gold_times },
        open_box: !flags.open_box && base.open_box,
        store_purchase: !flags.store_purchase && base.store_purchase,
        arena_fights: if flags.arena || level_id < ARENA_MIN_STAGE { 0 } else { base.arena_fights },
        boss_id: base.boss_id,
        boss_fights: if flags.boss { 0 } else { 3 },
        legion_boss_fights: if flags.legion_boss { 0 } else { base.legion_boss_fights },
        signin: !flags.signin,
        legion_signin: !flags.legion_signin,
        discount: !flags.discount,
        card: !flags.card,
        collection: !flags.collection,
        fishing_times: if flags.artifact { 0 } else { base.fishing_times },
        genie_sweeps: if genie_off { Vec::new() } else { base.genie_sweeps },
        sweep_tickets: if genie_off { 0 } else { 3 },
        task_rewards: !flags.task_rewards,
        mail: !flags.mail,
        nightmare: !flags.nightmare && base.nightmare,
    }
}

/// A task of the daily run whose flag the run keeps.
#[derive(Clone, Copy, PartialEq, Eq, Structural)]
pub enum DailyTask {
    Share,
    FriendGift,
    Recruit,
    BuyGold,
    OpenBox,
    StorePurchase,
    Arena,
    Boss,
    LegionBoss,
    Signin,
    LegionSignin,
    Discount,
    Card,
    Collection,
    Fishing,
    Genie,
    TaskRewards,
    Mail,
    Nightmare,
}

/// Whether an answer leaves a task needing no further attempt: a success,
/// or an error whose code says the task is done.
pub open spec fn counts_done(r: Result<Value, String>) -> bool {
    match r {
        Ok(_) => true,
        Err(e) => match crate::error_codes::code_in_error(vstd::utf8::encode_utf8(e@)) {
            Some(c) => crate::error_codes::done_codes().contains(c),
            None => false,
        },
    }
}

/// Whether every answer counts as done (and there was one).
pub open spec fn all_done(rs: Seq<Result<Value, String>>) -> bool {
    rs.len() > 0 && forall|i: int| 0 <= i < rs.len() ==> counts_done(#[trigger] rs[i])
}

/// The tasks that count as done once tried, whatever the answers: the
/// arena, the bosses, fishing, the genies and the task rewards.
pub open spec fn done_once_tried(t: DailyTask) -> bool {
    t == DailyTask::Arena || t == DailyTask::Boss || t == DailyTask::LegionBoss || t == DailyTask::Fishing
        || t == DailyTask::Genie || t == DailyTask::TaskRewards
}

/// The flag a task sets.
pub open spec fn task_flag(f: RoleDailyFlags, t: DailyTask) -> bool {
    match t {
        DailyTask::Share => f.share,
        DailyTask::FriendGift => f.friend_gift,
        DailyTask::Recruit => f.recruit,
        DailyTask::BuyGold => f.buy_gold,
        DailyTask::OpenBox => f.open_box,
        DailyTask::StorePurchase => f.store_purchase,
        DailyTask::Arena => f.arena,
        DailyTask::Boss => f.boss,
        DailyTask::LegionBoss => f.legion_boss,
        DailyTask::Signin => f.signin,
        DailyTask::LegionSignin => f.legion_signin,
        DailyTask::Discount => f.discount,
        DailyTask::Card => f.card,
        DailyTask::Collection => f.collection,
        DailyTask::Fishing => f.artifact,
        DailyTask::Genie => f.genie,
        DailyTask::TaskRewards => f.task_rewards,
        DailyTask::Mail => f.mail,
        DailyTask::Nightmare => f.nightmare,
    }
}

/// The flags with a task's flag set to `v`.
pub open spec fn with_task_flag(f: RoleDailyFlags, t: DailyTask, v: bool) -> RoleDailyFlags {
    match t {
        DailyTask::Share => RoleDailyFlags { share: v, ..f },
        DailyTask::FriendGift => RoleDailyFlags { friend_gift: v, ..f },
        DailyTask::Recruit => RoleDailyFlags { recruit: v, ..f },
        DailyTask::BuyGold => RoleDailyFlags { buy_gold: v, ..f },
        DailyTask::OpenBox => RoleDailyFlags { open_box: v, ..f },
        DailyTask::StorePurchase => RoleDailyFlags { store_purchase: v, ..f },
        DailyTask::Arena => RoleDailyFlags { arena: v, ..f },
        DailyTask::Boss => RoleDailyFlags { boss: v, ..f },
        DailyTask::LegionBoss => RoleDailyFlags { legion_boss: v, ..f },
        DailyTask::Signin => RoleDailyFlags { signin: v, ..f },
        DailyTask::LegionSignin => RoleDailyFlags { legion_signin: v, ..f },
        DailyTask::Discount => RoleDailyFlags { discount: v, ..f },
        DailyTask::Card => RoleDailyFlags { card: v, ..f },
        DailyTask::Collection => RoleDailyFlags { collection: v, ..f },
        DailyTask::Fishing => RoleDailyFlags { artifact: v, ..f },
        DailyTask::Genie => RoleDailyFlags { genie: v, ..f },
        DailyTask::TaskRewards => RoleDailyFlags { task_rewards: v, ..f },
        DailyTask::Mail => RoleDailyFlags { mail: v, ..f },
        DailyTask::Nightmare => RoleDailyFlags { nightmare: v, ..f },
    }
}

fn all_results_done(results: &Vec<Result<Value, String>>) -> (r: bool)
    ensures
        r == all_done(results@),
{
    if results.len() == 0 {
        return false;
    }
    let mut i: usize = 0;
    while i < results.len()
        invariant
            i <= results@.len(),
            forall|k: int| 0 <= k < i ==> counts_done(#[trigger] results@[k]),
        decreases results@.len() - i,
    {
        if !crate::error_codes::is_done_result(&results[i]) {
            return false;
        }
        i = i + 1;
    }
    true
}

/// The flags after a task was tried with these answers (in the order they
/// came): the arena, the bosses, fishing, the genies and the task rewards
/// count as done once tried; the gold exchange only when all three
/// exchanges are done, the card packs only when both claims are, and each
/// other task when its answer is. A flag already set stays set, and the
/// other flags are unchanged.
pub fn stateful_daily_after(flags: RoleDailyFlags, task: DailyTask, results: &Vec<Result<Value, String>>) -> (r:
    RoleDailyFlags)
    ensures
        r == with_task_flag(flags, task, task_flag(flags, task) || done_once_tried(task) || all_done(results@)),
{
    let done = all_results_done(results);
    let keep = match task {
        DailyTask::Share => flags.share,
        DailyTask::FriendGift => flags.friend_gift,
        DailyTask::Recruit => flags.recruit,
        DailyTask::BuyGold => flags.buy_gold,
        DailyTask::OpenBox => flags.open_box,
        DailyTask::StorePurchase => flags.store_purchase,
        DailyTask::Arena => flags.arena,
        DailyTask::Boss => flags.boss,
        DailyTask::LegionBoss => flags.legion_boss,
        DailyTask::Signin => flags.signin,
        DailyTask::LegionSignin => flags.legion_signin,
        DailyTask::Discount => flags.discount,
        DailyTask::Card => flags.card,
        DailyTask::Collection => flags.collection,
        DailyTask::Fishing => flags.artifact,
        DailyTask::Genie => flags.genie,
        DailyTask::TaskRewards => flags.task_rewards,
        DailyTask::Mail => flags.mail,
        DailyTask::Nightmare => flags.nightmare,
    };
    let once = match task {
        DailyTask::Arena | DailyTask::Boss | DailyTask::LegionBoss | DailyTask::Fishing | DailyTask::Genie
        | DailyTask::TaskRewards => true,
        _ => false,
    };
    let v = keep || once || done;
    match task {
        DailyTask::Share => RoleDailyFlags { share: v, ..flags },
        DailyTask::FriendGift => RoleDailyFlags { friend_gift: v, ..flags },
        DailyTask::Recruit => RoleDailyFlags { recruit: v, ..flags },
        DailyTask::BuyGold => RoleDailyFlags { buy_gold: v, ..flags },
        DailyTask::OpenBox => RoleDailyFlags { open_box: v, ..flags },
        DailyTask::StorePurchase => RoleDailyFlags { store_purchase: v, ..flags },
        DailyTask::Arena => RoleDailyFlags { arena: v, ..flags },
        DailyTask::Boss => RoleDailyFlags { boss: v, ..flags },
        DailyTask::LegionBoss => RoleDailyFlags { legion_boss: v, ..flags },
        DailyTask::Signin => RoleDailyFlags { signin: v, ..flags },
        DailyTask::LegionSignin => RoleDailyFlags { legion_signin: v, ..flags },
        DailyTask::Discount => RoleDailyFlags { discount: v, ..flags },
        DailyTask::Card => RoleDailyFlags { card: v, ..flags },
        DailyTask::Collection => RoleDailyFlags { collection: v, ..flags },
        DailyTask::Fishing => RoleDailyFlags { artifact: v, ..flags },
        DailyTask::Genie => RoleDailyFlags { genie: v, ..flags },
        DailyTask::TaskRewards => RoleDailyFlags { task_rewards: v, ..flags },
        DailyTask::Mail => RoleDailyFlags { mail: v, ..flags },
        DailyTask::Nightmare => RoleDailyFlags { nightmare: v, ..flags },
    }
}

/// The error code that ends the arena's fights for the day.
pub open spec fn arena_stop(r: Result<Value, String>) -> bool {
    match r {
        Ok(_) => false,
        Err(e) => crate::study::text_contains(e@, "200750"@),
    }
}

/// Whether the arena stops after a fight answered `result`: an error whose
/// text holds `200750` ends the day's fights.
pub fn arena_fight_stops(result: &Result<Value, String>) -> (r: bool)
    ensures
        r == arena_stop(*result),
{
    match result {
        Ok(_) => false,
        Err(e) => crate::study::bytes_contain(e.as_str().as_bytes(), "200750".as_bytes()),
    }
}

} // verus!
