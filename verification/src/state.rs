//! The scheduler's saved state: rounds counted per day, each role's daily
//! task flags, the weekly study flag, and the keys roles are saved under.

use vstd::prelude::*;

verus! {

/// What advancing the round did.
pub struct RoundAdvance {
    pub round: u32,
    pub reset_happened: bool,
    pub previous_date: Option<String>,
    pub current_date: String,
}

/// The round counter: the day it counts and the rounds run that day.
pub struct RoundState {
    pub round_date: Option<String>,
    pub round_count: u32,
}

pub open spec fn opt_text(s: Option<String>) -> Option<Seq<char>> {
    match s {
        Some(x) => Some(x@),
        None => None,
    }
}

impl RoundState {
    pub fn new() -> (r: Self)
        ensures
            r.round_date is None,
            r.round_count == 0,
    {
        RoundState { round_date: None, round_count: 0 }
    }

    /// Counts a round on `today` (a date such as `2026-05-01`): on a new day
    /// the count starts again at 1, else it goes up by one.
    pub fn next_round(&mut self, today: &str) -> (r: RoundAdvance)
        requires
            opt_text(old(self).round_date) == Some(today@) ==> old(self).round_count < u32::MAX,
        ensures
            ({
                let reset = opt_text(old(self).round_date) != Some(today@);
                &&& r.reset_happened == reset
                &&& opt_text(r.previous_date) == opt_text(old(self).round_date)
                &&& r.current_date@ == today@
                &&& opt_text(final(self).round_date) == Some(today@)
                &&& final(self).round_count == if reset {
                    1
                } else {
                    (old(self).round_count + 1) as u32
                }
                &&& r.round == final(self).round_count
            }),
    {
        let previous_date = match &self.round_date {
            Some(d) => Some(d.clone()),
            None => None,
        };
        let same_day = match &self.round_date {
            Some(d) => crate::protocol::str_eq(d.as_str(), today),
            None => false,
        };
        if !same_day {
            self.round_date = Some(String::from_str(today));
            self.round_count = 1;
        } else {
            self.round_count = self.round_count + 1;
        }
        RoundAdvance {
            round: self.round_count,
            reset_happened: !same_day,
            previous_date,
            current_date: String::from_str(today),
        }
    }
}

/// A role's daily flags: the ten main tasks and the other daily chores.
#[derive(Clone, Copy)]
pub struct RoleDailyFlags {
    pub signin: bool,
    pub buy_gold: bool,
    pub share: bool,
    pub friend_gift: bool,
    pub recruit: bool,
    pub hangup_reward: bool,
    pub open_box: bool,
    pub store_purchase: bool,
    pub arena: bool,
    pub bottle_task: bool,
    pub boss: bool,
    pub legion_boss: bool,
    pub legion_signin: bool,
    pub artifact: bool,
    pub genie: bool,
    pub gacha: bool,
    pub discount: bool,
    pub card: bool,
    pub collection: bool,
    pub task_rewards: bool,
    pub mail: bool,
    pub nightmare: bool,
    pub dream_shop: bool,
    pub car_send_done: bool,
    pub car_claimed_today: bool,
}

impl RoleDailyFlags {
    /// Whether the ten main tasks are done.
    pub open spec fn main_done(&self) -> bool {
        self.signin && self.buy_gold && self.share && self.friend_gift && self.recruit
            && self.hangup_reward && self.open_box && self.store_purchase && self.arena
            && self.bottle_task
    }

    pub fn all_main_done(&self) -> (r: bool)
        ensures
            r == self.main_done(),
    {
        self.signin && self.buy_gold && self.share && self.friend_gift && self.recruit
            && self.hangup_reward && self.open_box && self.store_purchase && self.arena
            && self.bottle_task
    }

    /// Whether the main tasks and the daily chores that count are done (free
    /// gacha, the nightmare, the dream shop and the cars do not count).
    pub fn all_done(&self) -> (r: bool)
        ensures
            r == (self.main_done() && self.boss && self.legion_boss && self.legion_signin
                && self.artifact && self.genie && self.discount && self.card && self.collection
                && self.task_rewards && self.mail),
    {
        self.all_main_done() && self.boss && self.legion_boss && self.legion_signin && self.artifact
            && self.genie && self.discount && self.card && self.collection && self.task_rewards
            && self.mail
    }
}

/// The main tasks count as done only when each of the ten is flagged: the
/// sign-in, the gold purchase, the share, the friend gift, the recruit, the
/// idle reward, the box opening, the store purchase, the arena fight and the
/// bottle task. One of them left undone, the arena among them, leaves the
/// main tasks undone.
pub proof fn law_main_done_needs_all_ten(f: RoleDailyFlags)
    ensures
        f.main_done() <==> (f.signin && f.buy_gold && f.share && f.friend_gift && f.recruit
            && f.hangup_reward && f.open_box && f.store_purchase && f.arena && f.bottle_task),
        !f.arena ==> !f.main_done(),
        !f.signin ==> !f.main_done(),
        !f.bottle_task ==> !f.main_done(),
{
}

impl Default for RoleDailyFlags {
    /// A day with nothing done yet.
    fn default() -> (r: Self)
        ensures
            !r.signin,
            !r.buy_gold,
            !r.share,
            !r.friend_gift,
            !r.recruit,
            !r.hangup_reward,
            !r.open_box,
            !r.store_purchase,
            !r.arena,
            !r.bottle_task,
            !r.boss,
            !r.legion_boss,
            !r.legion_signin,
            !r.artifact,
            !r.genie,
            !r.gacha,
            !r.discount,
            !r.card,
            !r.collection,
            !r.task_rewards,
            !r.mail,
            !r.nightmare,
            !r.dream_shop,
            !r.car_send_done,
            !r.car_claimed_today,
    {
        RoleDailyFlags { signin: false, buy_gold: false, share: false, friend_gift: false, recruit: false, hangup_reward: false, open_box: false, store_purchase: false, arena: false, bottle_task: false, boss: false, legion_boss: false, legion_signin: false, artifact: false, genie: false, gacha: false, discount: false, card: false, collection: false, task_rewards: false, mail: false, nightmare: false, dream_shop: false, car_send_done: false, car_claimed_today: false }
    }
}

/// The weekly flags of a role, for one ISO week such as `2026-W18`.
pub struct RoleWeeklyState {
    pub week: Option<String>,
    pub study: bool,
}

impl RoleWeeklyState {
    /// Starts the flags afresh when the week they belong to is not `week`.
    pub fn ensure_this_week(&mut self, week: &str)
        ensures
            opt_text(final(self).week) == Some(week@),
            final(self).study == (opt_text(old(self).week) == Some(week@) && old(self).study),
    {
        let same = match &self.week {
            Some(w) => crate::protocol::str_eq(w.as_str(), week),
            None => false,
        };
        if !same {
            self.week = Some(String::from_str(week));
            self.study = false;
        }
    }
}

/// The position of the last `:`, if there is one.
pub open spec fn last_colon(s: Seq<char>) -> Option<int>
    decreases s.len(),
{
    if s.len() == 0 {
        None
    } else if s.last() == ':' {
        Some(s.len() - 1)
    } else {
        last_colon(s.drop_last())
    }
}

/// The key a role is saved under once its bin path is normalized: a key
/// `path:server` whose server part reads as a `u64` gets its path
/// normalized; any other key stays.
pub open spec fn normalized_role_key(key: Seq<char>) -> Seq<char> {
    match last_colon(key) {
        Some(i) => {
            let sid = key.subrange(i + 1, key.len() as int);
            if crate::text::u64_text(vstd::utf8::encode_utf8(sid)) is Some {
                crate::config::strip_dot_slash(crate::config::forward_slashes(key.subrange(0, i)))
                    + ":"@ + sid
            } else {
                key
            }
        },
        None => key,
    }
}

proof fn lemma_last_colon(s: Seq<char>)
    ensures
        last_colon(s) matches Some(i) ==> 0 <= i < s.len() && s[i] == ':',
    decreases s.len(),
{
    if s.len() > 0 {
        lemma_last_colon(s.drop_last());
    }
}

/// The key a saved role is moved to.
pub fn normalize_role_key(key: &str) -> (r: String)
    ensures
        r@ == normalized_role_key(key@),
{
    let n = key.unicode_len();
    let mut j: usize = n;
    assert(key@.take(n as int) =~= key@);
    while j > 0 && key.get_char(j - 1) != ':'
        invariant
            n == key@.len(),
            j <= n,
            last_colon(key@) == last_colon(key@.take(j as int)),
        decreases j,
    {
        assert(key@.take(j as int).drop_last() =~= key@.take(j - 1));
        j = j - 1;
    }
    if j == 0 {
        assert(key@.take(0) =~= Seq::<char>::empty());
        return String::from_str(key);
    }
    proof {
        assert(key@.take(j as int).last() == ':');
        lemma_last_colon(key@);
    }
    let path = key.substring_char(0, j - 1);
    let sid = key.substring_char(j, n);
    if crate::text::parse_u64(sid.as_bytes()).is_some() {
        let mut out = crate::config::normalize_path_for_id(path);
        out.append(":");
        out.append(sid);
        out
    } else {
        String::from_str(key)
    }
}

/// The position of the last `-`, if there is one.
pub open spec fn last_dash(s: Seq<char>) -> Option<int>
    decreases s.len(),
{
    if s.len() == 0 {
        None
    } else if s.last() == '-' {
        Some(s.len() - 1)
    } else {
        last_dash(s.drop_last())
    }
}

} // verus!
