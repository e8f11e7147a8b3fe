//! The roles the scheduler runs, and the rules of a round: whether the
//! daily start time has come, whether a maintenance window is on, and which
//! work each role needs.

use vstd::prelude::*;
use crate::config::Weekday;
use crate::state::RoleDailyFlags;

verus! {

/// A role to run.
pub struct RoleTask {
    pub key: String,
    pub display: String,
    pub bin_path: String,
    pub server_id: u64,
    pub role_name: String,
}

/// A display name without its last `-` part (the role name).
pub open spec fn short_of(s: Seq<char>) -> Seq<char> {
    match crate::state::last_dash(s) {
        Some(i) => s.subrange(0, i),
        None => s,
    }
}

impl RoleTask {
    /// The role's display name without the role name: `bin/num-idx`.
    pub fn short_display(&self) -> (r: &str)
        ensures
            r@ == short_of(self.display@),
    {
        let s = self.display.as_str();
        let n = s.unicode_len();
        let mut j: usize = n;
        assert(s@.take(n as int) =~= s@);
        while j > 0 && s.get_char(j - 1) != '-'
            invariant
                n == s@.len(),
                j <= n,
                crate::state::last_dash(s@) == crate::state::last_dash(s@.take(j as int)),
            decreases j,
        {
            assert(s@.take(j as int).drop_last() =~= s@.take(j - 1));
            j = j - 1;
        }
        if j == 0 {
            assert(s@.take(0) =~= Seq::<char>::empty());
            return s;
        }
        assert(s@.take(j as int).last() == '-');
        s.substring_char(0, j - 1)
    }
}

// ------------------------------------------------------------------
// The time of a round
// ------------------------------------------------------------------

/// Whether `hour:minute` has reached `h:m`.
pub open spec fn reached(hour: u32, minute: u32, h: u32, m: u32) -> bool {
    hour > h || (hour == h && minute >= m)
}

/// Whether `hour:minute` is still before `h:m`.
pub open spec fn before(hour: u32, minute: u32, h: u32, m: u32) -> bool {
    hour < h || (hour == h && minute < m)
}

/// Whether the time of day `hour:minute` has reached `h:m`.
pub fn is_time_reached(hour: u32, minute: u32, h: u32, m: u32) -> (r: bool)
    ensures
        r == reached(hour, minute, h, m),
{
    hour > h || (hour == h && minute >= m)
}

/// Whether the time of day `hour:minute` is before `h:m`.
pub fn is_time_before(hour: u32, minute: u32, h: u32, m: u32) -> (r: bool)
    ensures
        r == before(hour, minute, h, m),
{
    hour < h || (hour == h && minute < m)
}

/// When the daily run starts: the Friday start on Fridays, the usual one on
/// other days.
pub fn effective_daily_start(is_friday: bool, friday_start: (u32, u32), schedule: (u32, u32)) -> (r: (u32, u32))
    ensures
        r == if is_friday { friday_start } else { schedule },
{
    if is_friday {
        friday_start
    } else {
        schedule
    }
}

/// Whether the daily run's time has come at `hour:minute`: the Friday start
/// on Fridays, the usual one on other days.
pub fn daily_time_reached_at(
    is_friday: bool,
    hour: u32,
    minute: u32,
    friday_start: (u32, u32),
    schedule: (u32, u32),
) -> (r: bool)
    ensures
        r == if is_friday {
            reached(hour, minute, friday_start.0, friday_start.1)
        } else {
            reached(hour, minute, schedule.0, schedule.1)
        },
{
    let (h, m) = effective_daily_start(is_friday, friday_start, schedule);
    is_time_reached(hour, minute, h, m)
}

/// Whether a window is on at a weekday and time of day: the same day, from
/// its start up to (not including) its end.
pub open spec fn window_on(w: (Weekday, u32, u32, u32, u32), day: Weekday, hour: u32, minute: u32) -> bool {
    w.0 == day && reached(hour, minute, w.1, w.2) && before(hour, minute, w.3, w.4)
}

/// The first maintenance window on at a weekday and time of day, if any.
pub open spec fn first_window_on(ws: Seq<(Weekday, u32, u32, u32, u32)>, day: Weekday, hour: u32, minute: u32) -> Option<
    (Weekday, u32, u32, u32, u32),
>
    decreases ws.len(),
{
    if ws.len() == 0 {
        None
    } else {
        match first_window_on(ws.drop_last(), day, hour, minute) {
            Some(w) => Some(w),
            None => if window_on(ws.last(), day, hour, minute) {
                Some(ws.last())
            } else {
                None
            },
        }
    }
}

/// The maintenance window that is on now, if any: the first of the windows
/// (weekday, start and end as hours and minutes) that is.
pub fn maintenance_hit(day: Weekday, hour: u32, minute: u32, windows: &Vec<(Weekday, u32, u32, u32, u32)>) -> (r: Option<
    (Weekday, u32, u32, u32, u32),
>)
    ensures
        r == first_window_on(windows@, day, hour, minute),
{
    let mut i: usize = 0;
    while i < windows.len()
        invariant
            i <= windows@.len(),
            first_window_on(windows@.take(i as int), day, hour, minute) is None,
        decreases windows@.len() - i,
    {
        proof {
            assert(windows@.take(i + 1).drop_last() =~= windows@.take(i as int));
            assert(windows@.take(i + 1).last() == windows@[i as int]);
            lemma_first_window_prefix(windows@, day, hour, minute, i + 1);
        }
        let w = windows[i];
        if w.0 == day && is_time_reached(hour, minute, w.1, w.2) && is_time_before(hour, minute, w.3, w.4) {
            return Some(w);
        }
        i = i + 1;
    }
    assert(windows@.take(windows@.len() as int) =~= windows@);
    None
}

proof fn lemma_first_window_prefix(
    ws: Seq<(Weekday, u32, u32, u32, u32)>,
    day: Weekday,
    hour: u32,
    minute: u32,
    n: int,
)
    requires
        0 <= n <= ws.len(),
    ensures
        first_window_on(ws.take(n), day, hour, minute) is Some ==> first_window_on(ws, day, hour, minute)
            == first_window_on(ws.take(n), day, hour, minute),
    decreases ws.len() - n,
{
    if n < ws.len() {
        assert(ws.take(n + 1).drop_last() =~= ws.take(n));
        lemma_first_window_prefix(ws, day, hour, minute, n + 1);
    } else {
        assert(ws.take(n) =~= ws);
    }
}

// ------------------------------------------------------------------
// The work a role needs
// ------------------------------------------------------------------

/// What a round runs for a role.
#[derive(Clone, Copy, PartialEq, Eq, Structural)]
pub struct RoleNeeds {
    pub daily: bool,
    pub periodic: bool,
    pub weekly: bool,
}

impl RoleNeeds {
    /// Whether the role is run at all this round.
    pub fn any(&self) -> (r: bool)
        ensures
            r == (self.daily || self.periodic || self.weekly),
    {
        self.daily || self.periodic || self.weekly
    }
}

/// What a role needs in a round. Forced rounds run everything that is due
/// by the clock. Otherwise: the daily run once its time has come, unless all
/// is done (or, in the car window with cars on, unless the cars were sent);
/// the periodic checks when one is due (always, for a role never seen); the
/// weekly quiz on its day once the daily time has come, unless done.
/// `periodic_due` is `None` for a role never seen.
pub open spec fn needs_of(
    force_all: bool,
    daily_time_reached: bool,
    is_weekly_day: bool,
    study_enabled: bool,
    car_enabled: bool,
    car_window: bool,
    daily: Option<RoleDailyFlags>,
    study_done: Option<bool>,
    periodic_due: Option<bool>,
) -> RoleNeeds {
    if force_all {
        RoleNeeds {
            daily: daily_time_reached,
            periodic: true,
            weekly: study_enabled && is_weekly_day && daily_time_reached,
        }
    } else {
        let all_done = match daily {
            Some(d) => d.main_done() && d.boss && d.legion_boss && d.legion_signin && d.artifact
                    && d.genie && d.discount && d.card && d.collection && d.task_rewards && d.mail,
            None => false,
        };
        let cars_sent = match daily {
            Some(d) => d.car_send_done,
            None => false,
        };
        RoleNeeds {
            daily: (daily_time_reached && !all_done) || (daily_time_reached && car_enabled && car_window && !cars_sent),
            periodic: match periodic_due {
                Some(p) => p,
                None => true,
            },
            weekly: study_enabled && is_weekly_day && daily_time_reached && !match study_done {
                Some(s) => s,
                None => false,
            },
        }
    }
}

/// What a role needs in a round.
pub fn role_needs(
    force_all: bool,
    daily_time_reached: bool,
    is_weekly_day: bool,
    study_enabled: bool,
    car_enabled: bool,
    car_window: bool,
    daily: Option<&RoleDailyFlags>,
    study_done: Option<bool>,
    periodic_due: Option<bool>,
) -> (r: RoleNeeds)
    ensures
        r == needs_of(
            force_all,
            daily_time_reached,
            is_weekly_day,
            study_enabled,
            car_enabled,
            car_window,
            match daily {
                Some(d) => Some(*d),
                None => None,
            },
            study_done,
            periodic_due,
        ),
{
    if force_all {
        return RoleNeeds {
            daily: daily_time_reached,
            periodic: true,
            weekly: study_enabled && is_weekly_day && daily_time_reached,
        };
    }
    let all_done = match daily {
        Some(d) => d.all_done(),
        None => false,
    };
    let cars_sent = match daily {
        Some(d) => d.car_send_done,
        None => false,
    };
    let done_study = match study_done {
        Some(s) => s,
        None => false,
    };
    RoleNeeds {
        daily: (daily_time_reached && !all_done) || (daily_time_reached && car_enabled && car_window && !cars_sent),
        periodic: match periodic_due {
            Some(p) => p,
            None => true,
        },
        weekly: study_enabled && is_weekly_day && daily_time_reached && !done_study,
    }
}

/// Outside a forced round, once the daily time has come, a role whose flags
/// leave any of the ten main tasks undone (the arena fight, say) is planned
/// for its daily run, whatever its other flags, the weekday, the cars, the
/// quiz and the periodic checks say.
pub proof fn law_unfinished_main_task_plans_daily(
    is_weekly_day: bool,
    study_enabled: bool,
    car_enabled: bool,
    car_window: bool,
    d: RoleDailyFlags,
    study_done: Option<bool>,
    periodic_due: Option<bool>,
)
    requires
        !(d.signin && d.buy_gold && d.share && d.friend_gift && d.recruit && d.hangup_reward
            && d.open_box && d.store_purchase && d.arena && d.bottle_task),
    ensures
        needs_of(
            false,
            true,
            is_weekly_day,
            study_enabled,
            car_enabled,
            car_window,
            Some(d),
            study_done,
            periodic_due,
        ).daily,
{
}

/// Before the daily time, outside a forced round, no role is planned for its
/// daily run.
pub proof fn law_no_daily_before_its_time(
    is_weekly_day: bool,
    study_enabled: bool,
    car_enabled: bool,
    car_window: bool,
    daily: Option<RoleDailyFlags>,
    study_done: Option<bool>,
    periodic_due: Option<bool>,
)
    ensures
        !needs_of(
            false,
            false,
            is_weekly_day,
            study_enabled,
            car_enabled,
            car_window,
            daily,
            study_done,
            periodic_due,
        ).daily,
{
}

} // verus!
