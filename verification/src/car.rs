//! The rules of sending and claiming cars: grades, the prizes worth sending
//! for, when to refresh, which club member guards a car, when a car can be
//! claimed and when the engine can be upgraded.

use vstd::prelude::*;
use crate::value::{Value, Json};
use crate::lookup::{member, json_u64, json_i64, or_else, at_path};

verus! {

/// The name of a car grade.
pub open spec fn grade_name(color: u32) -> Seq<char> {
    if color == 1 {
        "Green · Common"@
    } else if color == 2 {
        "Blue · Rare"@
    } else if color == 3 {
        "Purple · Epic"@
    } else if color == 4 {
        "Orange · Legend"@
    } else if color == 5 {
        "Red · Mythic"@
    } else if color == 6 {
        "Gold · Legendary"@
    } else {
        "Unknown"@
    }
}

pub fn grade_label(color: u32) -> (r: &'static str)
    ensures
        r@ == grade_name(color),
{
    match color {
        1 => "Green · Common",
        2 => "Blue · Rare",
        3 => "Purple · Epic",
        4 => "Orange · Legend",
        5 => "Red · Mythic",
        6 => "Gold · Legendary",
        _ => "Unknown",
    }
}

/// The prizes worth sending a car for: reward type, item and the least
/// amount.
pub open spec fn big_prizes() -> Seq<(i32, i32, u32)> {
    seq![
        (3i32, 3201i32, 10u32),
        (3i32, 1001i32, 10u32),
        (3i32, 1022i32, 2000u32),
        (2i32, 0i32, 2000u32),
        (3i32, 1023i32, 5u32),
        (3i32, 1022i32, 2500u32),
        (3i32, 1001i32, 12u32),
    ]
}

/// A reward's type, item and amount as the rules read them: a missing or
/// unreadable part is 0, and each is cut to 32 bits.
pub open spec fn reward_parts(r: Json) -> (i32, i32, u32) {
    (
        (match json_i64(member(r, "type"@)) {
            Some(v) => v,
            None => 0,
        }) as i32,
        (match json_i64(member(r, "itemId"@)) {
            Some(v) => v,
            None => 0,
        }) as i32,
        (match json_u64(member(r, "value"@)) {
            Some(v) => v,
            None => 0,
        }) as u32,
    )
}

/// Whether a reward is one of the big prizes.
pub open spec fn big_reward(r: Json) -> bool {
    let (t, i, v) = reward_parts(r);
    exists|k: int| 0 <= k < big_prizes().len() && #[trigger] big_prizes()[k].0 == t && big_prizes()[k].1
        == i && v >= big_prizes()[k].2
}

/// Whether a reward is a refresh ticket: type 3, item 35002, amount above 0.
pub open spec fn ticket_reward(r: Json) -> bool {
    json_i64(member(r, "type"@)) == Some(3i64) && json_i64(member(r, "itemId"@)) == Some(35002i64)
        && match json_u64(member(r, "value"@)) {
        Some(v) => v > 0,
        None => false,
    }
}

fn reward_parts_of(r: &Value) -> (p: (i32, i32, u32))
    ensures
        p == reward_parts(r@),
{
    let t = match crate::lookup::as_i64(crate::lookup::get_member(r, "type")) {
        Some(v) => v,
        None => 0,
    };
    let i = match crate::lookup::as_i64(crate::lookup::get_member(r, "itemId")) {
        Some(v) => v,
        None => 0,
    };
    let v = match crate::lookup::as_u64(crate::lookup::get_member(r, "value")) {
        Some(v) => v,
        None => 0,
    };
    (t as i32, i as i32, v as u32)
}

fn is_big_reward(r: &Value) -> (b: bool)
    ensures
        b == big_reward(r@),
{
    let (t, i, v) = reward_parts_of(r);
    let prizes: [(i32, i32, u32); 7] = [
        (3, 3201, 10),
        (3, 1001, 10),
        (3, 1022, 2000),
        (2, 0, 2000),
        (3, 1023, 5),
        (3, 1022, 2500),
        (3, 1001, 12),
    ];
    assert(prizes@ =~= big_prizes());
    let mut k: usize = 0;
    while k < 7
        invariant
            k <= 7,
            prizes@ == big_prizes(),
            (t, i, v) == reward_parts(r@),
            forall|q: int| 0 <= q < k ==> !(#[trigger] big_prizes()[q].0 == t && big_prizes()[q].1 == i && v
                >= big_prizes()[q].2),
        decreases 7 - k,
    {
        let (pt, pi, pv) = prizes[k];
        if t == pt && i == pi && v >= pv {
            return true;
        }
        k = k + 1;
    }
    false
}

/// Whether any reward is a big prize.
pub open spec fn has_big(rs: Seq<Json>) -> bool {
    exists|k: int| 0 <= k < rs.len() && big_reward(#[trigger] rs[k])
}

/// Whether any reward is a refresh ticket.
pub open spec fn has_ticket(rs: Seq<Json>) -> bool {
    exists|k: int| 0 <= k < rs.len() && ticket_reward(#[trigger] rs[k])
}

pub open spec fn items_of(v: Seq<Value>) -> Seq<Json> {
    crate::value::model_items(v)
}

/// Whether any reward is a big prize.
pub fn is_big_prize(rewards: &Vec<Value>) -> (b: bool)
    ensures
        b == has_big(items_of(rewards@)),
{
    let ghost m = items_of(rewards@);
    proof {
        crate::value::lemma_model_items_len(rewards@);
    }
    let mut k: usize = 0;
    while k < rewards.len()
        invariant
            k <= rewards@.len(),
            m == items_of(rewards@),
            m.len() == rewards@.len(),
            forall|q: int| 0 <= q < rewards@.len() ==> #[trigger] m[q] == rewards@[q]@,
            forall|q: int| 0 <= q < k ==> !big_reward(#[trigger] m[q]),
        decreases rewards@.len() - k,
    {
        if is_big_reward(&rewards[k]) {
            assert(big_reward(m[k as int]));
            return true;
        }
        k = k + 1;
    }
    false
}

/// Whether any reward is a refresh ticket.
pub fn has_refresh_ticket(rewards: &Vec<Value>) -> (b: bool)
    ensures
        b == has_ticket(items_of(rewards@)),
{
    let ghost m = items_of(rewards@);
    proof {
        crate::value::lemma_model_items_len(rewards@);
    }
    let mut k: usize = 0;
    while k < rewards.len()
        invariant
            k <= rewards@.len(),
            m == items_of(rewards@),
            m.len() == rewards@.len(),
            forall|q: int| 0 <= q < rewards@.len() ==> #[trigger] m[q] == rewards@[q]@,
            forall|q: int| 0 <= q < k ==> !ticket_reward(#[trigger] m[q]),
        decreases rewards@.len() - k,
    {
        let r = &rewards[k];
        let t = crate::lookup::as_i64(crate::lookup::get_member(r, "type"));
        let i = crate::lookup::as_i64(crate::lookup::get_member(r, "itemId"));
        let v = crate::lookup::as_u64(crate::lookup::get_member(r, "value"));
        let positive = match v {
            Some(x) => x > 0,
            None => false,
        };
        if t == Some(3i64) && i == Some(35002i64) && positive {
            assert(ticket_reward(m[k as int]));
            return true;
        }
        k = k + 1;
    }
    false
}

/// Whether a car is sent as it is: on Wednesday only for a big prize, on
/// other days also for a refresh ticket.
pub open spec fn send_now(is_wednesday: bool, rs: Seq<Json>) -> bool {
    if is_wednesday {
        has_big(rs)
    } else {
        has_ticket(rs) || has_big(rs)
    }
}

pub fn should_send(is_wednesday: bool, rewards: &Vec<Value>) -> (b: bool)
    ensures
        b == send_now(is_wednesday, items_of(rewards@)),
{
    if is_wednesday {
        is_big_prize(rewards)
    } else {
        has_refresh_ticket(rewards) || is_big_prize(rewards)
    }
}

/// The big prizes, line by line: red universal fragments (type 3, item 3201)
/// from 10, recruit orders (type 3, item 1001) from 10, white jade (type 3,
/// item 1022) from 2000, gold ingots (type 2, item 0) from 2000, colored jade
/// (type 3, item 1023) from 5, white jade from 2500 and recruit orders from
/// 12. A reward is a big prize exactly when its type, item and amount meet
/// one of these lines.
pub proof fn law_big_prize_lines(r: Json)
    ensures
        big_reward(r) <==> ({
            let (t, i, v) = reward_parts(r);
            ||| (t == 3 && i == 3201 && v >= 10)
            ||| (t == 3 && i == 1001 && v >= 10)
            ||| (t == 3 && i == 1022 && v >= 2000)
            ||| (t == 2 && i == 0 && v >= 2000)
            ||| (t == 3 && i == 1023 && v >= 5)
            ||| (t == 3 && i == 1022 && v >= 2500)
            ||| (t == 3 && i == 1001 && v >= 12)
        }),
{
    let p = big_prizes();
    assert(p[0] == (3i32, 3201i32, 10u32));
    assert(p[1] == (3i32, 1001i32, 10u32));
    assert(p[2] == (3i32, 1022i32, 2000u32));
    assert(p[3] == (2i32, 0i32, 2000u32));
    assert(p[4] == (3i32, 1023i32, 5u32));
    assert(p[5] == (3i32, 1022i32, 2500u32));
    assert(p[6] == (3i32, 1001i32, 12u32));
    assert(p.len() == 7);
    let (t, i, v) = reward_parts(r);
    if big_reward(r) {
        let k = choose|k: int| 0 <= k < p.len() && #[trigger] p[k].0 == t && p[k].1 == i && v >= p[k].2;
        assert(k == 0 || k == 1 || k == 2 || k == 3 || k == 4 || k == 5 || k == 6);
    }
    if t == 3 && i == 3201 && v >= 10 {
        assert(p[0].0 == t);
    }
    if t == 3 && i == 1001 && v >= 10 {
        assert(p[1].0 == t);
    }
    if t == 3 && i == 1022 && v >= 2000 {
        assert(p[2].0 == t);
    }
    if t == 2 && i == 0 && v >= 2000 {
        assert(p[3].0 == t);
    }
    if t == 3 && i == 1023 && v >= 5 {
        assert(p[4].0 == t);
    }
}

/// A list of rewards holding one whose `type`, `itemId` and `value` fields
/// are integers `t`, `i` and `v` that meet a line of the big prizes sends the
/// car as it is, on a Wednesday or any other day: so 2000 white jade
/// (type 3, item 1022) is worth sending for.
pub proof fn law_big_prize_sends(is_wednesday: bool, rs: Seq<Json>, k: int, t: i64, i: i64, v: i64)
    requires
        0 <= k < rs.len(),
        member(rs[k], "type"@) == Some(Json::Int(t)),
        member(rs[k], "itemId"@) == Some(Json::Int(i)),
        member(rs[k], "value"@) == Some(Json::Int(v)),
        0 <= v <= u32::MAX,
        ({
            ||| (t == 3 && i == 3201 && v >= 10)
            ||| (t == 3 && i == 1001 && v >= 10)
            ||| (t == 3 && i == 1022 && v >= 2000)
            ||| (t == 2 && i == 0 && v >= 2000)
            ||| (t == 3 && i == 1023 && v >= 5)
        }),
    ensures
        big_reward(rs[k]),
        has_big(rs),
        send_now(is_wednesday, rs),
{
    assert(t as i32 == t);
    assert(i as i32 == i);
    assert((v as u64) as u32 == v);
    assert(reward_parts(rs[k]) == (t as i32, i as i32, (v as u64) as u32));
    law_big_prize_lines(rs[k]);
    assert(big_reward(rs[k]));
}

/// Cars can be sent Monday to Wednesday before 20:00.
pub fn is_car_send_window(days_from_monday: u32, hour: u32) -> (r: bool)
    ensures
        r == (days_from_monday <= 2 && hour < 20),
{
    days_from_monday <= 2 && hour < 20
}

/// A send time in milliseconds: times below 10^12 are seconds.
pub open spec fn send_ms(send_at: u64) -> int {
    if send_at < 1_000_000_000_000 {
        send_at * 1000
    } else {
        send_at as int
    }
}

/// A car can be claimed four hours after it was sent.
pub open spec fn claimable(send_at: u64, now_ms: u64) -> bool {
    send_at != 0 && (if now_ms >= send_ms(send_at) {
        now_ms - send_ms(send_at)
    } else {
        0
    }) >= 14_400_000
}

pub fn can_claim_car(send_at: u64, now_ms: u64) -> (r: bool)
    ensures
        r == claimable(send_at, now_ms),
{
    if send_at == 0 {
        return false;
    }
    let ts_ms = if send_at < 1_000_000_000_000 {
        send_at * 1000
    } else {
        send_at
    };
    now_ms.saturating_sub(ts_ms) >= 4 * 3600 * 1000
}

/// The sends counted today: the count when it was reset today, else 0.
pub fn effective_send_count(send_cnt: u32, reset_time: u64, today_start: u64) -> (r: u32)
    ensures
        r == if reset_time >= today_start {
            send_cnt
        } else {
            0
        },
{
    if reset_time >= today_start {
        send_cnt
    } else {
        0
    }
}

// ------------------------------------------------------------------
// One car
// ------------------------------------------------------------------

/// What is known of a car while it waits to be sent.
pub struct CarState {
    pub color: u32,
    pub refresh_count: u32,
    pub rewards: Vec<Value>,
    pub tickets: u32,
}

/// The next thing to do with a car.
pub enum CarAction {
    /// Send it: its rewards are worth it.
    Send,
    /// Refresh it, for free or with a ticket.
    Refresh(bool),
    /// Send it: no refresh is left.
    SendExhausted,
}

/// What to do with a car: send it when its rewards are worth it; else
/// refresh it, for free when it has not been refreshed, else with a ticket;
/// else send it as it is.
pub fn car_next_action(car: &CarState, is_wednesday: bool) -> (a: CarAction)
    ensures
        send_now(is_wednesday, items_of(car.rewards@)) ==> a is Send,
        !send_now(is_wednesday, items_of(car.rewards@)) && car.refresh_count == 0 ==> a matches CarAction::Refresh(true),
        !send_now(is_wednesday, items_of(car.rewards@)) && car.refresh_count != 0 && car.tickets > 0
            ==> a matches CarAction::Refresh(false),
        !send_now(is_wednesday, items_of(car.rewards@)) && car.refresh_count != 0 && car.tickets == 0
            ==> a is SendExhausted,
{
    if should_send(is_wednesday, &car.rewards) {
        return CarAction::Send;
    }
    let free = car.refresh_count == 0;
    if free || car.tickets > 0 {
        CarAction::Refresh(free)
    } else {
        CarAction::SendExhausted
    }
}

/// The car after a refresh answered `data`: the grade, refresh count and
/// rewards it reports (under `car` when present) replace the old ones, and
/// a paid refresh uses a ticket.
pub fn car_after_refresh(car: CarState, data: &Value, free: bool) -> (r: CarState)
    ensures
        ({
            let d = match member(data@, "car"@) {
                Some(c) => c,
                None => data@,
            };
            &&& r.color == match json_u64(member(d, "color"@)) {
                Some(c) => c as u32,
                None => car.color,
            }
            &&& r.refresh_count == match json_u64(member(d, "refreshCount"@)) {
                Some(c) => c as u32,
                None => car.refresh_count,
            }
            &&& items_of(r.rewards@) == match member(d, "rewards"@) {
                Some(Json::Array(items)) => items,
                _ => items_of(car.rewards@),
            }
            &&& r.tickets == if free {
                car.tickets
            } else if car.tickets > 0 {
                (car.tickets - 1) as u32
            } else {
                0
            }
        }),
{
    let d = match crate::lookup::get_member(data, "car") {
        Some(c) => c,
        None => data,
    };
    let color = match crate::lookup::as_u64(crate::lookup::get_member(d, "color")) {
        Some(c) => c as u32,
        None => car.color,
    };
    let refresh_count = match crate::lookup::as_u64(crate::lookup::get_member(d, "refreshCount")) {
        Some(c) => c as u32,
        None => car.refresh_count,
    };
    let rewards = match crate::lookup::get_member(d, "rewards") {
        Some(Value::Array(items)) => crate::value::copy_items(items),
        _ => car.rewards,
    };
    let tickets = if free {
        car.tickets
    } else {
        car.tickets.saturating_sub(1)
    };
    CarState { color, refresh_count, rewards, tickets }
}

// ------------------------------------------------------------------
// Guards
// ------------------------------------------------------------------

/// The members ordered by red quench count, highest first.
pub open spec fn sorted_by_quench(hs: Seq<(u64, String, u32)>) -> bool {
    forall|i: int, j: int| 0 <= i < j < hs.len() ==> #[trigger] hs[i].2 >= #[trigger] hs[j].2
}

/// `h` placed after the last member whose count is at least its own.
pub open spec fn insert_by_quench(s: Seq<(u64, String, u32)>, h: (u64, String, u32)) -> Seq<(u64, String, u32)>
    decreases s.len(),
{
    if s.len() == 0 || s.last().2 >= h.2 {
        s.push(h)
    } else {
        insert_by_quench(s.drop_last(), h).push(s.last())
    }
}

/// The members in stable order of red quench count, highest first: each is
/// placed after every earlier member whose count is at least its own.
pub open spec fn by_quench(hs: Seq<(u64, String, u32)>) -> Seq<(u64, String, u32)>
    decreases hs.len(),
{
    if hs.len() == 0 {
        hs
    } else {
        insert_by_quench(by_quench(hs.drop_last()), hs.last())
    }
}

proof fn lemma_insert_at(s: Seq<(u64, String, u32)>, h: (u64, String, u32), p: int)
    requires
        0 <= p <= s.len(),
        forall|k: int| p <= k < s.len() ==> #[trigger] s[k].2 < h.2,
        p == 0 || s[p - 1].2 >= h.2,
    ensures
        insert_by_quench(s, h) == s.take(p).push(h) + s.skip(p),
    decreases s.len(),
{
    if s.len() == p {
        assert(s.take(p) =~= s);
        assert(s.skip(p) =~= Seq::<(u64, String, u32)>::empty());
        assert(s.take(p).push(h) + s.skip(p) =~= s.push(h));
    } else {
        let d = s.drop_last();
        assert(s.last().2 < h.2);
        assert forall|k: int| p <= k < d.len() implies #[trigger] d[k].2 < h.2 by {
            assert(d[k] == s[k]);
        }
        if p > 0 {
            assert(d[p - 1] == s[p - 1]);
        }
        lemma_insert_at(d, h, p);
        assert(d.take(p) =~= s.take(p));
        assert((d.take(p).push(h) + d.skip(p)).push(s.last()) =~= s.take(p).push(h) + s.skip(p));
    }
}

/// How often a member already guards a car today (0 when unknown).
pub open spec fn usage_of(usage: Seq<(u64, u32)>, id: u64) -> u32
    decreases usage.len(),
{
    if usage.len() == 0 {
        0
    } else if usage.last().0 == id {
        usage.last().1
    } else {
        usage_of(usage.drop_last(), id)
    }
}

/// The first member, in order, who guards fewer than four cars.
pub open spec fn first_free_helper(hs: Seq<(u64, String, u32)>, usage: Seq<(u64, u32)>) -> Option<int>
    decreases hs.len(),
{
    if hs.len() == 0 {
        None
    } else {
        match first_free_helper(hs.drop_last(), usage) {
            Some(i) => Some(i),
            None => if usage_of(usage, hs.last().0) < 4 {
                Some(hs.len() - 1)
            } else {
                None
            },
        }
    }
}

/// Orders the members by red quench count, highest first, keeping the order
/// of members with the same count.
pub fn sort_helpers(hs: Vec<(u64, String, u32)>) -> (r: Vec<(u64, String, u32)>)
    ensures
        r@ == by_quench(hs@),
        sorted_by_quench(r@),
{
    let ghost all = hs@;
    let total = hs.len();
    let mut out: Vec<(u64, String, u32)> = Vec::new();
    let mut rest = hs;
    let mut n: usize = 0;
    assert(all.take(0) =~= Seq::<(u64, String, u32)>::empty());
    while rest.len() > 0
        invariant
            n <= all.len(),
            all.len() == total,
            rest@ == all.skip(n as int),
            out@ == by_quench(all.take(n as int)),
            sorted_by_quench(out@),
        decreases rest@.len(),
    {
        let h = rest.remove(0);
        proof {
            assert(h == all[n as int]);
            assert(rest@ =~= all.skip(n + 1));
            assert(all.take(n + 1).drop_last() =~= all.take(n as int));
            assert(all.take(n + 1).last() == h);
        }
        let mut p: usize = out.len();
        while p > 0 && out[p - 1].2 < h.2
            invariant
                p <= out@.len(),
                forall|k: int| p <= k < out@.len() ==> #[trigger] out@[k].2 < h.2,
            decreases p,
        {
            p = p - 1;
        }
        let ghost before = out@;
        proof {
            lemma_insert_at(before, h, p as int);
        }
        out.insert(p, h);
        proof {
            assert(out@ =~= before.take(p as int).push(h) + before.skip(p as int));
            assert forall|i: int, j: int| 0 <= i < j < out@.len() implies #[trigger] out@[i].2
                >= #[trigger] out@[j].2 by {
                if j < p {
                    assert(out@[i] == before[i] && out@[j] == before[j]);
                } else if j == p {
                    assert(out@[i] == before[i]);
                    assert(before[i].2 >= before[p - 1].2);
                } else if i < p {
                    assert(out@[i] == before[i] && out@[j] == before[j - 1]);
                } else if i == p {
                    assert(out@[j] == before[j - 1]);
                } else {
                    assert(out@[i] == before[i - 1] && out@[j] == before[j - 1]);
                }
            }
        }
        n = n + 1;
    }
    assert(all.take(n as int) =~= all);
    out
}

/// The guard for a car: cars of grade 5 and up get the first member (in
/// the given order) who guards fewer than four cars, whose count then goes
/// up by one; other cars get none (0).
pub fn assign_helper(color: u32, helpers: &Vec<(u64, String, u32)>, usage: &mut Vec<(u64, u32)>) -> (r: u64)
    ensures
        color < 5 ==> r == 0 && final(usage)@ == old(usage)@,
        color >= 5 ==> match first_free_helper(helpers@, old(usage)@) {
            Some(i) => r == helpers@[i].0 && usage_of(final(usage)@, r) == usage_of(old(usage)@, r) + 1,
            None => r == 0 && final(usage)@ == old(usage)@,
        },
        forall|id: u64| id != r ==> #[trigger] usage_of(final(usage)@, id) == usage_of(old(usage)@, id),
        r != 0 ==> usage_of(final(usage)@, r) <= 4,
{
    if color < 5 {
        return 0;
    }
    let mut i: usize = 0;
    while i < helpers.len()
        invariant
            color >= 5,
            i <= helpers@.len(),
            usage@ == old(usage)@,
            first_free_helper(helpers@.take(i as int), usage@) is None,
        decreases helpers@.len() - i,
    {
        proof {
            assert(helpers@.take(i + 1).drop_last() =~= helpers@.take(i as int));
            assert(helpers@.take(i + 1).last() == helpers@[i as int]);
        }
        let id = helpers[i].0;
        let used = usage_count(usage, id);
        if used < 4 {
            proof {
                lemma_first_helper_prefix(helpers@, usage@, i + 1);
            }
            bump_usage(usage, id);
            return id;
        }
        i = i + 1;
    }
    assert(helpers@.take(helpers@.len() as int) =~= helpers@);
    0
}

proof fn lemma_first_helper_prefix(hs: Seq<(u64, String, u32)>, usage: Seq<(u64, u32)>, n: int)
    requires
        0 <= n <= hs.len(),
    ensures
        first_free_helper(hs.take(n), usage) is Some ==> first_free_helper(hs, usage) == first_free_helper(
            hs.take(n),
            usage,
        ),
    decreases hs.len() - n,
{
    if n < hs.len() {
        assert(hs.take(n + 1).drop_last() =~= hs.take(n));
        lemma_first_helper_prefix(hs, usage, n + 1);
    } else {
        assert(hs.take(n) =~= hs);
    }
}

fn usage_count(usage: &Vec<(u64, u32)>, id: u64) -> (r: u32)
    ensures
        r == usage_of(usage@, id),
{
    let mut j: usize = usage.len();
    assert(usage@.take(j as int) =~= usage@);
    while j > 0
        invariant
            j <= usage@.len(),
            usage_of(usage@, id) == usage_of(usage@.take(j as int), id),
        decreases j,
    {
        assert(usage@.take(j as int).drop_last() =~= usage@.take(j - 1));
        assert(usage@.take(j as int).last() == usage@[j - 1]);
        if usage[j - 1].0 == id {
            return usage[j - 1].1;
        }
        j = j - 1;
    }
    0
}

fn bump_usage(usage: &mut Vec<(u64, u32)>, id: u64)
    requires
        usage_of(old(usage)@, id) < 4,
    ensures
        usage_of(final(usage)@, id) == usage_of(old(usage)@, id) + 1,
        forall|other: u64| other != id ==> #[trigger] usage_of(final(usage)@, other) == usage_of(old(usage)@, other),
{
    let n = usage_count(usage, id);
    usage.push((id, n + 1));
    assert(usage@.drop_last() =~= old(usage)@);
}

// ------------------------------------------------------------------
// Claiming
// ------------------------------------------------------------------

/// The pieces each engine level costs, from level 0 on.
pub open spec fn research_costs() -> Seq<u32> {
    seq![
        20u32, 21, 22, 23, 24, 26, 28, 30, 32, 34, 36, 38, 40, 42, 44, 47, 50, 53, 56, 59, 62, 65, 68, 71,
        74, 78, 82, 86, 90, 94, 99, 104, 109, 114, 119, 126, 133, 140, 147, 154, 163, 172, 181, 190, 199,
        210, 221, 232, 243, 369, 393, 422, 457, 498, 548, 607, 678, 763, 865, 1011,
    ]
}

/// Whether the engine can go up a level: a next level exists and the pieces
/// pay for it.
pub fn can_upgrade_engine(level: u32, pieces: u32) -> (r: bool)
    ensures
        r == (level < research_costs().len() && pieces >= research_costs()[level as int]),
{
    let costs: [u32; 60] = [
        20, 21, 22, 23, 24, 26, 28, 30, 32, 34, 36, 38, 40, 42, 44, 47, 50, 53, 56, 59, 62, 65, 68, 71, 74,
        78, 82, 86, 90, 94, 99, 104, 109, 114, 119, 126, 133, 140, 147, 154, 163, 172, 181, 190, 199, 210,
        221, 232, 243, 369, 393, 422, 457, 498, 548, 607, 678, 763, 865, 1011,
    ];
    assert(costs@ =~= research_costs());
    (level as usize) < 60 && pieces >= costs[level as usize]
}

// ------------------------------------------------------------------
// The car list
// ------------------------------------------------------------------

/// A car as the car list gives it: id, grade, send time, refresh count,
/// rewards and guard.
pub type CarRow = (String, u32, u64, u32, Vec<Value>, u64);

/// What is known of a car from the list, as plain values.
pub type CarView = (Seq<char>, u32, u64, u32, Seq<Json>, u64);

/// A number field of a car, 0 when it is missing or not one.
pub open spec fn car_number(info: Json, k: Seq<char>) -> u64 {
    match json_u64(member(info, k)) {
        Some(v) => v,
        None => 0,
    }
}

/// The car that a list entry describes.
pub open spec fn car_of(id: Seq<char>, info: Json) -> CarView {
    (
        id,
        car_number(info, "color"@) as u32,
        car_number(info, "sendAt"@),
        car_number(info, "refreshCount"@) as u32,
        match member(info, "rewards"@) {
            Some(Json::Array(items)) => items,
            _ => Seq::empty(),
        },
        car_number(info, "helperId"@),
    )
}

/// The cars of the entries of a car map, in order.
pub open spec fn cars_of(es: Seq<(Seq<char>, Json)>) -> Seq<CarView>
    decreases es.len(),
{
    if es.len() == 0 {
        Seq::empty()
    } else {
        cars_of(es.drop_last()).push(car_of(es.last().0, es.last().1))
    }
}

/// The car map of a car answer: under `body` when there is one, then under
/// `roleCar` (or `rolecar`), then `carDataMap` (or `cardatamap`).
pub open spec fn car_map_of(j: Json) -> Option<Json> {
    let root = match member(j, "body"@) {
        Some(b) => b,
        None => j,
    };
    match or_else(member(root, "roleCar"@), member(root, "rolecar"@)) {
        Some(rc) => or_else(member(rc, "carDataMap"@), member(rc, "cardatamap"@)),
        None => None,
    }
}

/// The cars a car answer lists (none when it has no car map).
pub open spec fn car_list(j: Json) -> Seq<CarView> {
    match car_map_of(j) {
        Some(Json::Object(es)) => cars_of(es),
        _ => Seq::empty(),
    }
}

pub open spec fn car_views(v: Seq<CarRow>) -> Seq<CarView> {
    v.map_values(|c: CarRow| (c.0@, c.1, c.2, c.3, crate::value::model_items(c.4@), c.5))
}

fn car_from(id: &String, info: &Value) -> (r: CarRow)
    ensures
        (r.0@, r.1, r.2, r.3, crate::value::model_items(r.4@), r.5) == car_of(id@, info@),
{
    let color = match crate::lookup::as_u64(crate::lookup::get_member(info, "color")) {
        Some(v) => v,
        None => 0,
    };
    let send_at = match crate::lookup::as_u64(crate::lookup::get_member(info, "sendAt")) {
        Some(v) => v,
        None => 0,
    };
    let refresh = match crate::lookup::as_u64(crate::lookup::get_member(info, "refreshCount")) {
        Some(v) => v,
        None => 0,
    };
    let helper = match crate::lookup::as_u64(crate::lookup::get_member(info, "helperId")) {
        Some(v) => v,
        None => 0,
    };
    let rewards = match crate::lookup::get_member(info, "rewards") {
        Some(Value::Array(items)) => crate::value::copy_items(items),
        _ => {
            let e: Vec<Value> = Vec::new();
            assert(crate::value::model_items(e@) =~= Seq::<Json>::empty());
            e
        },
    };
    (id.clone(), color as u32, send_at, refresh as u32, rewards, helper)
}

/// The cars a car answer lists, in the order of its car map.
pub fn normalize_car_list(resp: &Value) -> (r: Vec<CarRow>)
    ensures
        car_views(r@) == car_list(resp@),
{
    let root = match crate::lookup::get_member(resp, "body") {
        Some(b) => b,
        None => resp,
    };
    let rc = match crate::lookup::get_member(root, "roleCar") {
        Some(x) => Some(x),
        None => crate::lookup::get_member(root, "rolecar"),
    };
    let map = match rc {
        Some(x) => match crate::lookup::get_member(x, "carDataMap") {
            Some(m) => Some(m),
            None => crate::lookup::get_member(x, "cardatamap"),
        },
        None => None,
    };
    let mut out: Vec<CarRow> = Vec::new();
    let es = match map {
        Some(Value::Object(es)) => es,
        _ => {
            assert(car_views(out@) =~= Seq::<CarView>::empty());
            return out;
        },
    };
    let ghost m = crate::value::model_entries(es@);
    proof {
        crate::value::lemma_model_entries_len(es@);
    }
    let mut i: usize = 0;
    assert(car_views(out@) =~= cars_of(m.take(0)));
    while i < es.len()
        invariant
            i <= es@.len(),
            m == crate::value::model_entries(es@),
            m.len() == es@.len(),
            forall|q: int| 0 <= q < es@.len() ==> #[trigger] m[q] == (es@[q].0@, es@[q].1@),
            car_views(out@) == cars_of(m.take(i as int)),
        decreases es@.len() - i,
    {
        proof {
            assert(m.take(i + 1).drop_last() =~= m.take(i as int));
            assert(m.take(i + 1).last() == m[i as int]);
        }
        let row = car_from(&es[i].0, &es[i].1);
        let ghost prev = car_views(out@);
        let ghost rv = (row.0@, row.1, row.2, row.3, crate::value::model_items(row.4@), row.5);
        out.push(row);
        assert(car_views(out@) =~= prev.push(rv));
        i = i + 1;
    }
    assert(m.take(es@.len() as int) =~= m);
    out
}

/// The engine's research level in a car answer: `research/1` under
/// `roleCar` (or `body/roleCar`), 0 when unknown, cut to 32 bits.
pub open spec fn research_level_of(j: Json) -> u32 {
    let rc = or_else(member(j, "roleCar"@), match member(j, "body"@) {
        Some(b) => member(b, "roleCar"@),
        None => None,
    });
    match rc {
        Some(r) => match json_u64(at_path(r, seq!["research"@, "1"@])) {
            Some(v) => v as u32,
            None => 0,
        },
        None => 0,
    }
}

/// Reads the engine's research level from a car answer.
pub fn car_research_level(resp: &Value) -> (r: u32)
    ensures
        r == research_level_of(resp@),
{
    let rc = match crate::lookup::get_member(resp, "roleCar") {
        Some(x) => Some(x),
        None => crate::lookup::get_opt(crate::lookup::get_member(resp, "body"), "roleCar"),
    };
    match rc {
        Some(r) => {
            proof {
                reveal_with_fuel(at_path, 3);
                assert(seq!["research"@, "1"@].drop_last() =~= seq!["research"@]);
                assert(seq!["research"@].drop_last() =~= Seq::<Seq<char>>::empty());
            }
            match crate::lookup::as_u64(crate::lookup::get_opt(crate::lookup::get_member(r, "research"), "1")) {
                Some(v) => v as u32,
                None => 0,
            }
        },
        None => 0,
    }
}

/// The engine pieces (item 35009) the role holds, 0 when unknown, cut to
/// 32 bits.
pub open spec fn engine_pieces_of(j: Json) -> u32 {
    match json_u64(at_path(j, seq!["role"@, "items"@, "35009"@, "quantity"@])) {
        Some(v) => v as u32,
        None => 0,
    }
}

/// Reads the engine pieces the role holds.
pub fn engine_pieces(role_info: &Value) -> (r: u32)
    ensures
        r == engine_pieces_of(role_info@),
{
    proof {
        reveal_with_fuel(at_path, 5);
        assert(seq!["role"@, "items"@, "35009"@, "quantity"@].drop_last() =~= seq!["role"@, "items"@, "35009"@]);
        assert(seq!["role"@, "items"@, "35009"@].drop_last() =~= seq!["role"@, "items"@]);
        assert(seq!["role"@, "items"@].drop_last() =~= seq!["role"@]);
        assert(seq!["role"@].drop_last() =~= Seq::<Seq<char>>::empty());
    }
    let q = crate::lookup::get_opt(
        crate::lookup::get_opt(crate::lookup::get_opt(crate::lookup::get_member(role_info, "role"), "items"), "35009"),
        "quantity",
    );
    match crate::lookup::as_u64(q) {
        Some(v) => v as u32,
        None => 0,
    }
}

} // verus!
