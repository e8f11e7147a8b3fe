//! The daily-task bookkeeping of a role: which of the ten daily tasks are
//! done, the report of a run of tasks, and the small rules the task runner
//! reads the role's data with.

use vstd::prelude::*;
use crate::value::{Value, Json};
use crate::text::{decimal, u64_text, first_index};
use crate::lookup::{field, member, at_path, json_u64, json_i64, or_else};
use crate::error_codes::{code_in_error, done_codes};

verus! {

// ------------------------------------------------------------------
// The ten daily tasks
// ------------------------------------------------------------------

/// Which daily tasks are done, and the role's counters of the day.
#[derive(Clone, Copy)]
pub struct DailyTaskStatus {
    pub login: bool,
    pub share: bool,
    pub friend_gift: bool,
    pub recruit: bool,
    pub hangup_reward: bool,
    pub buy_gold: bool,
    pub open_box: bool,
    pub store_purchase: bool,
    pub arena: bool,
    pub bottle: bool,
    pub legion_boss_done: u32,
    pub arena_done_today: u32,
    pub buy_gold_today: bool,
    pub artifact_lottery_today: bool,
    pub genie_1_today: bool,
    pub genie_2_today: bool,
    pub genie_3_today: bool,
    pub genie_4_today: bool,
    pub gacha_today: bool,
}

/// Nothing done yet.
pub open spec fn empty_status() -> DailyTaskStatus {
    DailyTaskStatus {
        login: false,
        share: false,
        friend_gift: false,
        recruit: false,
        hangup_reward: false,
        buy_gold: false,
        open_box: false,
        store_purchase: false,
        arena: false,
        bottle: false,
        legion_boss_done: 0,
        arena_done_today: 0,
        buy_gold_today: false,
        artifact_lottery_today: false,
        genie_1_today: false,
        genie_2_today: false,
        genie_3_today: false,
        genie_4_today: false,
        gacha_today: false,
    }
}

impl Default for DailyTaskStatus {
    fn default() -> (r: Self)
        ensures
            r == empty_status(),
    {
        DailyTaskStatus {
            login: false,
            share: false,
            friend_gift: false,
            recruit: false,
            hangup_reward: false,
            buy_gold: false,
            open_box: false,
            store_purchase: false,
            arena: false,
            bottle: false,
            legion_boss_done: 0,
            arena_done_today: 0,
            buy_gold_today: false,
            artifact_lottery_today: false,
            genie_1_today: false,
            genie_2_today: false,
            genie_3_today: false,
            genie_4_today: false,
            gacha_today: false,
        }
    }
}

/// The ten daily tasks by id, with whether each is done, in id order.
pub open spec fn task_flags(s: DailyTaskStatus) -> Seq<(u32, bool)> {
    seq![
        (1u32, s.login),
        (2u32, s.share),
        (3u32, s.friend_gift),
        (4u32, s.recruit),
        (5u32, s.hangup_reward),
        (6u32, s.buy_gold),
        (7u32, s.open_box),
        (12u32, s.store_purchase),
        (13u32, s.arena),
        (14u32, s.bottle),
    ]
}

/// How many of the flags are set.
pub open spec fn count_done(f: Seq<(u32, bool)>) -> nat
    decreases f.len(),
{
    if f.len() == 0 {
        0
    } else {
        count_done(f.drop_last()) + if f.last().1 {
            1nat
        } else {
            0nat
        }
    }
}

/// The ids whose flag is not set, in order.
pub open spec fn pending_ids(f: Seq<(u32, bool)>) -> Seq<u32>
    decreases f.len(),
{
    if f.len() == 0 {
        seq![]
    } else if f.last().1 {
        pending_ids(f.drop_last())
    } else {
        pending_ids(f.drop_last()).push(f.last().0)
    }
}

/// The task names, in id order.
pub open spec fn task_names() -> Seq<Seq<char>> {
    seq![
        "登录游戏"@,
        "分享游戏"@,
        "赠送好友金币"@,
        "进行招募"@,
        "挂机奖励"@,
        "免费点金"@,
        "开启宝箱"@,
        "黑市采购"@,
        "竞技场战斗"@,
        "盐罐收获"@,
    ]
}

/// An id right-aligned in two columns.
pub open spec fn id_column(id: u32) -> Seq<char> {
    if id < 10 {
        " "@ + decimal(id as nat)
    } else {
        decimal(id as nat)
    }
}

/// One line of the status digest: `  [+] id. name` for a done task, with
/// `-` for a pending one.
pub open spec fn task_line(id: u32, name: Seq<char>, done: bool) -> Seq<char> {
    "  ["@ + (if done {
        "+"@
    } else {
        "-"@
    }) + "] "@ + id_column(id) + ". "@ + name
}

/// The lines of the digest for the given tasks, each ending in a line
/// break.
pub open spec fn digest_lines(f: Seq<(u32, bool)>, n: Seq<Seq<char>>) -> Seq<char>
    decreases f.len(),
{
    if f.len() == 0 || n.len() == 0 {
        seq![]
    } else {
        digest_lines(f.drop_last(), n.drop_last()) + task_line(f.last().0, n.last(), f.last().1)
            + "\n"@
    }
}

/// The status digest: a line per task, then `  DONE: n/10`.
pub open spec fn status_digest(s: DailyTaskStatus) -> Seq<char> {
    digest_lines(task_flags(s), task_names()) + "  DONE: "@ + decimal(count_done(task_flags(s)))
        + "/10"@
}

fn push_task_line(out: &mut String, id: u32, name: &str, done: bool)
    requires
        id < 100,
    ensures
        final(out)@ == old(out)@ + task_line(id, name@, done) + "\n"@,
{
    out.append("  [");
    if done {
        out.append("+");
    } else {
        out.append("-");
    }
    out.append("] ");
    if id < 10 {
        out.append(" ");
    }
    out.append(crate::text::nat_text(id as u64).as_str());
    out.append(". ");
    out.append(name);
    out.append("\n");
    proof {
        assert(final(out)@ =~= old(out)@ + task_line(id, name@, done) + "\n"@);
    }
}

impl DailyTaskStatus {
    /// The ten tasks by id with whether each is done.
    fn flags(&self) -> (r: [(u32, bool); 10])
        ensures
            r@ == task_flags(*self),
    {
        let r = [
            (1u32, self.login),
            (2u32, self.share),
            (3u32, self.friend_gift),
            (4u32, self.recruit),
            (5u32, self.hangup_reward),
            (6u32, self.buy_gold),
            (7u32, self.open_box),
            (12u32, self.store_purchase),
            (13u32, self.arena),
            (14u32, self.bottle),
        ];
        assert(r@ =~= task_flags(*self));
        r
    }

    /// How many of the ten daily tasks are done.
    pub fn completed_count(&self) -> (r: u32)
        ensures
            r == count_done(task_flags(*self)),
    {
        let f = self.flags();
        let mut n: u32 = 0;
        let mut i: usize = 0;
        while i < 10
            invariant
                i <= 10,
                f@.len() == 10,
                n == count_done(f@.take(i as int)),
                n <= i,
            decreases 10 - i,
        {
            assert(f@.take(i + 1).drop_last() =~= f@.take(i as int));
            if f[i].1 {
                n = n + 1;
            }
            i = i + 1;
        }
        assert(f@.take(10) =~= f@);
        n
    }

    /// The ids of the daily tasks still to do, in id order.
    pub fn pending_task_ids(&self) -> (r: Vec<u32>)
        ensures
            r@ == pending_ids(task_flags(*self)),
    {
        let f = self.flags();
        let mut v: Vec<u32> = Vec::new();
        let mut i: usize = 0;
        while i < 10
            invariant
                i <= 10,
                f@.len() == 10,
                v@ == pending_ids(f@.take(i as int)),
            decreases 10 - i,
        {
            assert(f@.take(i + 1).drop_last() =~= f@.take(i as int));
            if !f[i].1 {
                v.push(f[i].0);
            }
            i = i + 1;
        }
        assert(f@.take(10) =~= f@);
        v
    }

    /// The status digest, a line per task.
    pub fn summary(&self) -> (r: String)
        ensures
            r@ == status_digest(*self),
    {
        let f = self.flags();
        let names: [&str; 10] = [
            "登录游戏",
            "分享游戏",
            "赠送好友金币",
            "进行招募",
            "挂机奖励",
            "免费点金",
            "开启宝箱",
            "黑市采购",
            "竞技场战斗",
            "盐罐收获",
        ];
        let ghost nv = names@.map_values(|x: &str| x@);
        assert(nv =~= task_names());
        let mut out = String::new();
        let mut i: usize = 0;
        while i < 10
            invariant
                i <= 10,
                f@.len() == 10,
                names@.len() == 10,
                f@ == task_flags(*self),
                nv == names@.map_values(|x: &str| x@),
                forall|k: int| 0 <= k < 10 ==> #[trigger] f@[k].0 < 100,
                out@ == digest_lines(f@.take(i as int), nv.take(i as int)),
            decreases 10 - i,
        {
            assert(f@.take(i + 1).drop_last() =~= f@.take(i as int));
            assert(nv.take(i + 1).drop_last() =~= nv.take(i as int));
            push_task_line(&mut out, f[i].0, names[i], f[i].1);
            i = i + 1;
        }
        assert(f@.take(10) =~= f@);
        assert(nv.take(10) =~= nv);
        let c = self.completed_count();
        out.append("  DONE: ");
        out.append(crate::text::nat_text(c as u64).as_str());
        out.append("/10");
        out
    }
}

// ------------------------------------------------------------------
// The report of a run of tasks
// ------------------------------------------------------------------

/// How one task went.
pub enum TaskResult {
    Succeeded(String),
    Skipped(String),
    Failed(String, String),
}

/// The model of a [`TaskResult`].
pub ghost enum Outcome {
    Succeeded(Seq<char>),
    Skipped(Seq<char>),
    Failed(Seq<char>, Seq<char>),
}

impl View for TaskResult {
    type V = Outcome;

    open spec fn view(&self) -> Outcome {
        match self {
            TaskResult::Succeeded(n) => Outcome::Succeeded(n@),
            TaskResult::Skipped(n) => Outcome::Skipped(n@),
            TaskResult::Failed(n, e) => Outcome::Failed(n@, e@),
        }
    }
}

/// How a task named `name` went, given its error if it failed: an error
/// whose code says the task needs no further attempt counts as skipped.
pub open spec fn outcome_of(name: Seq<char>, err: Option<Seq<char>>) -> Outcome {
    match err {
        None => Outcome::Succeeded(name),
        Some(e) => match code_in_error(vstd::utf8::encode_utf8(e)) {
            Some(c) => if done_codes().contains(c) {
                Outcome::Skipped(name)
            } else {
                Outcome::Failed(name, e)
            },
            None => Outcome::Failed(name, e),
        },
    }
}

pub open spec fn count_ok(s: Seq<Outcome>) -> nat
    decreases s.len(),
{
    if s.len() == 0 {
        0
    } else {
        count_ok(s.drop_last()) + if s.last() is Succeeded {
            1nat
        } else {
            0nat
        }
    }
}

pub open spec fn count_skipped(s: Seq<Outcome>) -> nat
    decreases s.len(),
{
    if s.len() == 0 {
        0
    } else {
        count_skipped(s.drop_last()) + if s.last() is Skipped {
            1nat
        } else {
            0nat
        }
    }
}

pub open spec fn count_failed(s: Seq<Outcome>) -> nat
    decreases s.len(),
{
    if s.len() == 0 {
        0
    } else {
        count_failed(s.drop_last()) + if s.last() is Failed {
            1nat
        } else {
            0nat
        }
    }
}

/// The report line of a run: the three counts and the total.
pub open spec fn report_digest(s: Seq<Outcome>) -> Seq<char> {
    "=== TASK DONE: "@ + decimal(count_ok(s)) + " Succ, "@ + decimal(count_skipped(s))
        + " Skipped, "@ + decimal(count_failed(s)) + " Failed, Total "@ + decimal(s.len())
        + " ==="@
}

/// The outcomes of a run of tasks, in the order they ran.
pub struct DailyTaskReport {
    pub results: Vec<TaskResult>,
}

impl View for DailyTaskReport {
    type V = Seq<Outcome>;

    open spec fn view(&self) -> Seq<Outcome> {
        self.results@.map_values(|r: TaskResult| r@)
    }
}

/// The error of a task's result, if it failed.
pub open spec fn error_of(result: Result<Value, String>) -> Option<Seq<char>> {
    match result {
        Ok(_) => None,
        Err(e) => Some(e@),
    }
}

impl DailyTaskReport {
    pub fn new() -> (r: Self)
        ensures
            r@ == Seq::<Outcome>::empty(),
    {
        let r = Self { results: Vec::new() };
        assert(r@ =~= Seq::<Outcome>::empty());
        r
    }

    fn record(&mut self, r: TaskResult)
        ensures
            final(self)@ == old(self)@.push(r@),
    {
        self.results.push(r);
        assert(final(self)@ =~= old(self)@.push(r@));
    }

    fn outcome(name: &str, result: &Result<Value, String>) -> (r: TaskResult)
        ensures
            r@ == outcome_of(name@, error_of(*result)),
    {
        match result {
            Ok(_) => TaskResult::Succeeded(String::from_str(name)),
            Err(e) => match crate::error_codes::extract_code_from_error(e.as_str()) {
                Some(code) => {
                    if crate::error_codes::is_done_error(code) {
                        TaskResult::Skipped(String::from_str(name))
                    } else {
                        TaskResult::Failed(String::from_str(name), e.clone())
                    }
                },
                None => TaskResult::Failed(String::from_str(name), e.clone()),
            },
        }
    }

    /// Records how a task went: a success, a skip when its error's code
    /// says it needs no further attempt, else a failure with its error.
    pub fn run(&mut self, name: &str, result: Result<Value, String>)
        ensures
            final(self)@ == old(self)@.push(outcome_of(name@, error_of(result))),
    {
        let r = Self::outcome(name, &result);
        self.record(r);
    }

    /// Records a skipped task.
    pub fn skip(&mut self, name: &str)
        ensures
            final(self)@ == old(self)@.push(Outcome::Skipped(name@)),
    {
        self.record(TaskResult::Skipped(String::from_str(name)));
    }

    /// Records a failed task with its error.
    pub fn fail(&mut self, name: &str, err: &str)
        ensures
            final(self)@ == old(self)@.push(Outcome::Failed(name@, err@)),
    {
        self.record(TaskResult::Failed(String::from_str(name), String::from_str(err)));
    }

    /// As `run`; the prefix names the role in the log and does not change
    /// the report.
    pub fn run_with_prefix(&mut self, prefix: &str, name: &str, result: &Result<Value, String>)
        ensures
            final(self)@ == old(self)@.push(outcome_of(name@, error_of(*result))),
    {
        let r = Self::outcome(name, result);
        self.record(r);
    }

    /// As `skip`.
    pub fn skip_with_prefix(&mut self, prefix: &str, name: &str)
        ensures
            final(self)@ == old(self)@.push(Outcome::Skipped(name@)),
    {
        self.skip(name);
    }

    /// As `fail`.
    pub fn fail_with_prefix(&mut self, prefix: &str, name: &str, err: &str)
        ensures
            final(self)@ == old(self)@.push(Outcome::Failed(name@, err@)),
    {
        self.fail(name, err);
    }

    pub fn ok_count(&self) -> (r: usize)
        ensures
            r == count_ok(self@),
    {
        let mut n: usize = 0;
        let mut i: usize = 0;
        while i < self.results.len()
            invariant
                i <= self.results@.len(),
                n == count_ok(self@.take(i as int)),
                n <= i,
            decreases self.results@.len() - i,
        {
            assert(self@.take(i + 1).drop_last() =~= self@.take(i as int));
            if let TaskResult::Succeeded(_) = &self.results[i] {
                n = n + 1;
            }
            i = i + 1;
        }
        assert(self@.take(self@.len() as int) =~= self@);
        n
    }

    pub fn skip_count(&self) -> (r: usize)
        ensures
            r == count_skipped(self@),
    {
        let mut n: usize = 0;
        let mut i: usize = 0;
        while i < self.results.len()
            invariant
                i <= self.results@.len(),
                n == count_skipped(self@.take(i as int)),
                n <= i,
            decreases self.results@.len() - i,
        {
            assert(self@.take(i + 1).drop_last() =~= self@.take(i as int));
            if let TaskResult::Skipped(_) = &self.results[i] {
                n = n + 1;
            }
            i = i + 1;
        }
        assert(self@.take(self@.len() as int) =~= self@);
        n
    }

    pub fn fail_count(&self) -> (r: usize)
        ensures
            r == count_failed(self@),
    {
        let mut n: usize = 0;
        let mut i: usize = 0;
        while i < self.results.len()
            invariant
                i <= self.results@.len(),
                n == count_failed(self@.take(i as int)),
                n <= i,
            decreases self.results@.len() - i,
        {
            assert(self@.take(i + 1).drop_last() =~= self@.take(i as int));
            if let TaskResult::Failed(_, _) = &self.results[i] {
                n = n + 1;
            }
            i = i + 1;
        }
        assert(self@.take(self@.len() as int) =~= self@);
        n
    }

    /// The report line: successes, skips, failures and the total.
    pub fn summary(&self) -> (r: String)
        ensures
            r@ == report_digest(self@),
    {
        let mut m = String::from_str("=== TASK DONE: ");
        m.append(crate::text::nat_text(self.ok_count() as u64).as_str());
        m.append(" Succ, ");
        m.append(crate::text::nat_text(self.skip_count() as u64).as_str());
        m.append(" Skipped, ");
        m.append(crate::text::nat_text(self.fail_count() as u64).as_str());
        m.append(" Failed, Total ");
        m.append(crate::text::nat_text(self.results.len() as u64).as_str());
        m.append(" ===");
        m
    }
}

/// Every recorded outcome is a success, a skip or a failure: the three
/// counts add up to the number of outcomes.
pub proof fn law_report_counts_partition(s: Seq<Outcome>)
    ensures
        count_ok(s) + count_skipped(s) + count_failed(s) == s.len(),
    decreases s.len(),
{
    if s.len() > 0 {
        law_report_counts_partition(s.drop_last());
    }
}

// ------------------------------------------------------------------
// Rules on the role's data
// ------------------------------------------------------------------

/// The first constant of the login seed.
pub const SEED_XOR_A: u32 = 2118920861;

/// The second constant of the login seed.
pub const SEED_XOR_B: u32 = 797788954;

/// The third constant of the login seed.
pub const SEED_XOR_C: u32 = 1513922175;

/// The tower id from which the tower counts as cleared (floor 450).
pub const TOWER_CLEAR_ID: u64 = 4500;

/// The login seed of a last-login time: its low 32 bits XOR the first
/// constant, the halves swapped, then XOR the other two constants.
pub open spec fn seed_of(last_login_time: i64) -> u32 {
    let x = (last_login_time as i32) as u32 ^ SEED_XOR_A;
    ((x << 16u32) | (x >> 16u32)) ^ SEED_XOR_B ^ SEED_XOR_C
}

/// The random seed that the login sends for a last-login time.
pub fn generate_random_seed(last_login_time: i64) -> (r: u32)
    ensures
        r == seed_of(last_login_time),
{
    let mut seed: u32 = (last_login_time as i32) as u32;
    seed = seed ^ SEED_XOR_A;
    seed = (seed << 16u32) | (seed >> 16u32);
    seed = seed ^ SEED_XOR_B;
    seed = seed ^ SEED_XOR_C;
    seed
}

/// A dream-shop purchase key `merchant-index`: the text before the first
/// `-` and the text after it, each read as a `u64`.
pub open spec fn purchase_key(b: Seq<u8>) -> Option<(u64, u64)> {
    match first_index(b, 0x2d) {
        Some(i) => match (u64_text(b.subrange(0, i)), u64_text(b.subrange(i + 1, b.len() as int))) {
            (Some(m), Some(k)) => Some((m, k)),
            _ => None,
        },
        None => None,
    }
}

/// Reads a dream-shop purchase key such as `2-5`.
pub fn parse_dream_purchase_key(raw: &str) -> (r: Option<(u64, u64)>)
    ensures
        r == purchase_key(vstd::utf8::encode_utf8(raw@)),
{
    let b = raw.as_bytes();
    let n = b.len();
    match crate::text::find_byte(b, 0x2d) {
        Some(i) => {
            proof {
                crate::text::lemma_first_index(b@, 0x2d);
            }
            let left = crate::text::slice_between(b, 0, i);
            let right = crate::text::slice_between(b, i + 1, n);
            match (crate::text::parse_u64(left.as_slice()), crate::text::parse_u64(right.as_slice())) {
                (Some(m), Some(k)) => Some((m, k)),
                _ => None,
            }
        },
        None => None,
    }
}

/// The goods of each dream merchant, by item index.
pub open spec fn dream_goods(merchant_id: u64) -> Seq<Seq<char>> {
    if merchant_id == 1 {
        seq![
            "Advancement stone"@,
            "Refined iron"@,
            "Wooden chest"@,
            "Bronze chest"@,
            "Normal fishing rod"@,
            "Salted-Fish God ticket"@,
            "Salted-Fish God torch"@,
        ]
    } else if merchant_id == 2 {
        seq![
            "Nightmare crystal"@,
            "Advancement stone"@,
            "Refined iron"@,
            "Golden chest"@,
            "Golden fishing rod"@,
            "Recruitment order"@,
            "Orange general fragment"@,
            "Purple general fragment"@,
        ]
    } else if merchant_id == 3 {
        seq![
            "Nightmare crystal"@,
            "Platinum chest"@,
            "Golden fishing rod"@,
            "Recruitment order"@,
            "Red general fragment"@,
            "Orange general fragment"@,
            "Red general fragment"@,
            "Normal fishing rod"@,
        ]
    } else {
        seq![]
    }
}

/// The name of a dream merchant's item, `Unknown Goods` for one not sold.
pub open spec fn dream_item(merchant_id: u64, item_index: u64) -> Seq<char> {
    if item_index < dream_goods(merchant_id).len() {
        dream_goods(merchant_id)[item_index as int]
    } else {
        "Unknown Goods"@
    }
}

fn merchant_goods(merchant_id: u64) -> (r: Vec<&'static str>)
    ensures
        r@.map_values(|x: &str| x@) == dream_goods(merchant_id),
{
    let r: Vec<&'static str> = if merchant_id == 1 {
        vec![
            "Advancement stone",
            "Refined iron",
            "Wooden chest",
            "Bronze chest",
            "Normal fishing rod",
            "Salted-Fish God ticket",
            "Salted-Fish God torch",
        ]
    } else if merchant_id == 2 {
        vec![
            "Nightmare crystal",
            "Advancement stone",
            "Refined iron",
            "Golden chest",
            "Golden fishing rod",
            "Recruitment order",
            "Orange general fragment",
            "Purple general fragment",
        ]
    } else if merchant_id == 3 {
        vec![
            "Nightmare crystal",
            "Platinum chest",
            "Golden fishing rod",
            "Recruitment order",
            "Red general fragment",
            "Orange general fragment",
            "Red general fragment",
            "Normal fishing rod",
        ]
    } else {
        Vec::new()
    };
    assert(r@.map_values(|x: &str| x@) =~= dream_goods(merchant_id));
    r
}

/// The name of a dream merchant's item.
pub fn dream_item_name(merchant_id: u64, item_index: u64) -> (r: &'static str)
    ensures
        r@ == dream_item(merchant_id, item_index),
{
    let goods = merchant_goods(merchant_id);
    if item_index < goods.len() as u64 {
        let ghost g = goods@.map_values(|x: &str| x@);
        assert(g[item_index as int] == goods@[item_index as int]@);
        goods[item_index as usize]
    } else {
        "Unknown Goods"
    }
}

/// The first `useTeamId` found in a value, looking at an object's own
/// `useTeamId` first and then into its members and an array's items in
/// order.
pub open spec fn team_id_in(j: Json) -> Option<u64>
    decreases j,
{
    match j {
        Json::Object(es) => match json_u64(field(es, "useTeamId"@)) {
            Some(t) => Some(t),
            None => team_id_in_entries(es),
        },
        Json::Array(items) => team_id_in_items(items),
        _ => None,
    }
}

pub open spec fn team_id_in_items(items: Seq<Json>) -> Option<u64>
    decreases items,
{
    if items.len() == 0 {
        None
    } else {
        match team_id_in_items(items.drop_last()) {
            Some(t) => Some(t),
            None => team_id_in(items.last()),
        }
    }
}

pub open spec fn team_id_in_entries(es: Seq<(Seq<char>, Json)>) -> Option<u64>
    decreases es,
{
    if es.len() == 0 {
        None
    } else {
        match team_id_in_entries(es.drop_last()) {
            Some(t) => Some(t),
            None => team_id_in(es.last().1),
        }
    }
}

/// Finds the team in use anywhere in a formation answer.
pub fn find_use_team_id_rec(value: &Value) -> (r: Option<u64>)
    ensures
        r == team_id_in(value@),
    decreases value, 1nat,
{
    match value {
        Value::Object(es) => {
            let key = "useTeamId";
            proof {
                reveal_strlit("useTeamId");
            }
            match crate::lookup::as_u64(crate::lookup::entries_get(es, key)) {
                Some(t) => Some(t),
                None => team_id_in_entry_values(es),
            }
        },
        Value::Array(items) => team_id_in_values(items),
        _ => None,
    }
}

fn team_id_in_values(items: &Vec<Value>) -> (r: Option<u64>)
    ensures
        r == team_id_in_items(crate::value::model_items(items@)),
    decreases items, 0nat,
{
    let ghost m = crate::value::model_items(items@);
    proof {
        crate::value::lemma_model_items_len(items@);
    }
    let mut i: usize = 0;
    while i < items.len()
        invariant
            i <= items@.len(),
            m == crate::value::model_items(items@),
            m.len() == items@.len(),
            forall|k: int| 0 <= k < items@.len() ==> #[trigger] m[k] == items@[k]@,
            team_id_in_items(m.take(i as int)) is None,
        decreases items@.len() - i,
    {
        proof {
            assert(decreases_to!(items => items@));
            assert(decreases_to!(items@ => items@[i as int]));
            assert(m.take(i + 1).drop_last() =~= m.take(i as int));
        }
        match find_use_team_id_rec(&items[i]) {
            Some(t) => {
                proof {
                    lemma_team_prefix_items(m, i + 1);
                }
                return Some(t);
            },
            None => {},
        }
        i = i + 1;
    }
    assert(m.take(m.len() as int) =~= m);
    None
}

fn team_id_in_entry_values(es: &Vec<(String, Value)>) -> (r: Option<u64>)
    ensures
        r == team_id_in_entries(crate::value::model_entries(es@)),
    decreases es, 0nat,
{
    let ghost m = crate::value::model_entries(es@);
    proof {
        crate::value::lemma_model_entries_len(es@);
    }
    let mut i: usize = 0;
    while i < es.len()
        invariant
            i <= es@.len(),
            m == crate::value::model_entries(es@),
            m.len() == es@.len(),
            forall|k: int| 0 <= k < es@.len() ==> #[trigger] m[k] == (es@[k].0@, es@[k].1@),
            team_id_in_entries(m.take(i as int)) is None,
        decreases es@.len() - i,
    {
        proof {
            assert(decreases_to!(es => es@));
            assert(decreases_to!(es@ => es@[i as int]));
            assert(decreases_to!(es@[i as int] => es@[i as int].1));
            assert(m.take(i + 1).drop_last() =~= m.take(i as int));
        }
        match find_use_team_id_rec(&es[i].1) {
            Some(t) => {
                proof {
                    lemma_team_prefix_entries(m, i + 1);
                }
                return Some(t);
            },
            None => {},
        }
        i = i + 1;
    }
    assert(m.take(m.len() as int) =~= m);
    None
}

proof fn lemma_team_prefix_items(s: Seq<Json>, n: int)
    requires
        0 <= n <= s.len(),
    ensures
        team_id_in_items(s.take(n)) is Some ==> team_id_in_items(s) == team_id_in_items(s.take(n)),
    decreases s.len() - n,
{
    if n < s.len() {
        assert(s.take(n + 1).drop_last() =~= s.take(n));
        lemma_team_prefix_items(s, n + 1);
    } else {
        assert(s.take(n) =~= s);
    }
}

proof fn lemma_team_prefix_entries(s: Seq<(Seq<char>, Json)>, n: int)
    requires
        0 <= n <= s.len(),
    ensures
        team_id_in_entries(s.take(n)) is Some ==> team_id_in_entries(s) == team_id_in_entries(
            s.take(n),
        ),
    decreases s.len() - n,
{
    if n < s.len() {
        assert(s.take(n + 1).drop_last() =~= s.take(n));
        lemma_team_prefix_entries(s, n + 1);
    } else {
        assert(s.take(n) =~= s);
    }
}

/// The role's last login time: `statistics.lastLoginTime`, else
/// `role.statistics.lastLoginTime`, else `role.lastLoginAt`, as an integer.
pub open spec fn last_login_of(j: Json) -> Option<i64> {
    json_i64(
        or_else(
            at_path(j, seq!["statistics"@, "lastLoginTime"@]),
            or_else(
                at_path(j, seq!["role"@, "statistics"@, "lastLoginTime"@]),
                at_path(j, seq!["role"@, "lastLoginAt"@]),
            ),
        ),
    )
}

/// Reads the last login time from a role answer.
pub fn extract_last_login(role_resp: &Value) -> (r: Option<i64>)
    ensures
        r == last_login_of(role_resp@),
{
    let k_stat = "statistics";
    let k_last = "lastLoginTime";
    let k_role = "role";
    let k_at = "lastLoginAt";
    proof {
        reveal_with_fuel(at_path, 4);
        assert(seq!["statistics"@, "lastLoginTime"@].drop_last() =~= seq!["statistics"@]);
        assert(seq!["statistics"@].drop_last() =~= Seq::<Seq<char>>::empty());
        assert(seq!["role"@, "statistics"@, "lastLoginTime"@].drop_last() =~= seq!["role"@, "statistics"@]);
        assert(seq!["role"@, "statistics"@].drop_last() =~= seq!["role"@]);
        assert(seq!["role"@].drop_last() =~= Seq::<Seq<char>>::empty());
        assert(seq!["role"@, "lastLoginAt"@].drop_last() =~= seq!["role"@]);
    }
    let a = crate::lookup::get_opt(crate::lookup::get_member(role_resp, k_stat), k_last);
    let found = match a {
        Some(x) => Some(x),
        None => {
            let b = crate::lookup::get_opt(
                crate::lookup::get_opt(crate::lookup::get_member(role_resp, k_role), k_stat),
                k_last,
            );
            match b {
                Some(x) => Some(x),
                None => crate::lookup::get_opt(crate::lookup::get_member(role_resp, k_role), k_at),
            }
        },
    };
    crate::lookup::as_i64(found)
}

/// The role's tower id: `role.tower.id`, else `tower.id`, as a `u64`.
pub open spec fn tower_id_of(j: Json) -> Option<u64> {
    json_u64(
        or_else(
            at_path(j, seq!["role"@, "tower"@, "id"@]),
            at_path(j, seq!["tower"@, "id"@]),
        ),
    )
}

/// Reads the tower id from the role's data.
pub fn tower_id_from_role_info(role_info: &Value) -> (r: Option<u64>)
    ensures
        r == tower_id_of(role_info@),
{
    let k_role = "role";
    let k_tower = "tower";
    let k_id = "id";
    proof {
        reveal_with_fuel(at_path, 4);
        assert(seq!["role"@, "tower"@, "id"@].drop_last() =~= seq!["role"@, "tower"@]);
        assert(seq!["role"@, "tower"@].drop_last() =~= seq!["role"@]);
        assert(seq!["role"@].drop_last() =~= Seq::<Seq<char>>::empty());
        assert(seq!["tower"@, "id"@].drop_last() =~= seq!["tower"@]);
        assert(seq!["tower"@].drop_last() =~= Seq::<Seq<char>>::empty());
    }
    let a = crate::lookup::get_opt(
        crate::lookup::get_opt(crate::lookup::get_member(role_info, k_role), k_tower),
        k_id,
    );
    let found = match a {
        Some(x) => Some(x),
        None => crate::lookup::get_opt(crate::lookup::get_member(role_info, k_tower), k_id),
    };
    crate::lookup::as_u64(found)
}

/// Whether the role has cleared the tower: its tower id (0 when unknown)
/// has reached the last floor's.
pub fn tower_is_cleared(role_info: &Value) -> (r: bool)
    ensures
        r == (match tower_id_of(role_info@) {
            Some(t) => t,
            None => 0,
        } >= TOWER_CLEAR_ID),
{
    let t = match tower_id_from_role_info(role_info) {
        Some(t) => t,
        None => 0,
    };
    t >= TOWER_CLEAR_ID
}

/// The reward key of a floor of a skin tower: the tower type, `00`, then the
/// floor.
pub open spec fn floor_key(tower_type: u64, floor: u64) -> Seq<char> {
    decimal(tower_type as nat) + "00"@ + decimal(floor as nat)
}

/// The floor to play given the floor rewards taken, looking from `floor`
/// down: the floor after the highest one rewarded (8 stays 8), else 1.
pub open spec fn floor_from(tower_type: u64, es: Seq<(Seq<char>, Json)>, floor: u64) -> u64
    decreases floor,
{
    if floor == 0 {
        1
    } else if field(es, floor_key(tower_type, floor)) is Some {
        if floor == 8 {
            8
        } else {
            (floor + 1) as u64
        }
    } else {
        floor_from(tower_type, es, (floor - 1) as u64)
    }
}

/// The current floor of a skin tower, from the map of floor rewards taken.
pub fn skinc_current_floor(tower_type: u64, level_reward_map: &Vec<(String, Value)>) -> (r: u64)
    ensures
        r == floor_from(tower_type, crate::value::model_entries(level_reward_map@), 8),
{
    let mut floor: u64 = 8;
    while floor >= 1
        invariant
            1 <= floor + 1 <= 9,
            floor_from(tower_type, crate::value::model_entries(level_reward_map@), 8) == floor_from(
                tower_type,
                crate::value::model_entries(level_reward_map@),
                floor,
            ),
        decreases floor,
    {
        let mut key = crate::text::nat_text(tower_type);
        key.append("00");
        key.append(crate::text::nat_text(floor).as_str());
        assert(key@ =~= floor_key(tower_type, floor));
        if crate::lookup::entries_get(level_reward_map, key.as_str()).is_some() {
            return if floor == 8 {
                8
            } else {
                floor + 1
            };
        }
        floor = floor - 1;
    }
    1
}

// ------------------------------------------------------------------
// The daily status read from the role's data
// ------------------------------------------------------------------

/// The current local day as a span of unix seconds, `[start, end)`: a
/// timestamp falls on the current day exactly when it lies in the span.
#[derive(Clone, Copy)]
pub struct DayWindow {
    pub start: i64,
    pub end: i64,
}

/// A timestamp read from a value: an integer as it is, a float's integer
/// part.
pub open spec fn timestamp_of(j: Option<Json>) -> Option<i64> {
    match j {
        Some(Json::Int(i)) => Some(i),
        Some(Json::Float(b)) => Some(crate::float_bits::f64_trunc(b)),
        _ => None,
    }
}

/// Whether an action stamped with `j` is still available today: there is
/// no stamp, or it does not fall on the current day.
pub open spec fn available_today(j: Option<Json>, today: DayWindow) -> bool {
    match timestamp_of(j) {
        Some(ts) => !(today.start <= ts < today.end),
        None => true,
    }
}

/// Whether an action stamped with `ts` is still available today.
pub fn is_today_available(ts: Option<&Value>, today: DayWindow) -> (r: bool)
    ensures
        r == available_today(
            match ts {
                Some(v) => Some(v@),
                None => None,
            },
            today,
        ),
{
    let t = match ts {
        Some(Value::Int(i)) => *i,
        Some(Value::Float(b)) => crate::float_bits::f64_trunc_bits(*b),
        _ => {
            return true;
        },
    };
    !(today.start <= t && t < today.end)
}

/// One entry of the `complete` map: the task whose id the key spells (0 for
/// a key that is not a number) is done when its value is -1.
pub open spec fn apply_complete_entry(s: DailyTaskStatus, k: Seq<char>, v: Json) -> DailyTaskStatus {
    let id = match crate::text::u32_text(vstd::utf8::encode_utf8(k)) {
        Some(n) => n,
        None => 0,
    };
    set_task(s, id, v == Json::Int(-1i64))
}

/// The status with the task `id` marked done or not; other ids change
/// nothing.
pub open spec fn set_task(s: DailyTaskStatus, id: u32, done: bool) -> DailyTaskStatus {
    if id == 1 {
        DailyTaskStatus { login: done, ..s }
    } else if id == 2 {
        DailyTaskStatus { share: done, ..s }
    } else if id == 3 {
        DailyTaskStatus { friend_gift: done, ..s }
    } else if id == 4 {
        DailyTaskStatus { recruit: done, ..s }
    } else if id == 5 {
        DailyTaskStatus { hangup_reward: done, ..s }
    } else if id == 6 {
        DailyTaskStatus { buy_gold: done, ..s }
    } else if id == 7 {
        DailyTaskStatus { open_box: done, ..s }
    } else if id == 12 {
        DailyTaskStatus { store_purchase: done, ..s }
    } else if id == 13 {
        DailyTaskStatus { arena: done, ..s }
    } else if id == 14 {
        DailyTaskStatus { bottle: done, ..s }
    } else {
        s
    }
}

fn set_task_exec(s: DailyTaskStatus, id: u32, done: bool) -> (r: DailyTaskStatus)
    ensures
        r == set_task(s, id, done),
{
    if id == 1 {
        DailyTaskStatus { login: done, ..s }
    } else if id == 2 {
        DailyTaskStatus { share: done, ..s }
    } else if id == 3 {
        DailyTaskStatus { friend_gift: done, ..s }
    } else if id == 4 {
        DailyTaskStatus { recruit: done, ..s }
    } else if id == 5 {
        DailyTaskStatus { hangup_reward: done, ..s }
    } else if id == 6 {
        DailyTaskStatus { buy_gold: done, ..s }
    } else if id == 7 {
        DailyTaskStatus { open_box: done, ..s }
    } else if id == 12 {
        DailyTaskStatus { store_purchase: done, ..s }
    } else if id == 13 {
        DailyTaskStatus { arena: done, ..s }
    } else if id == 14 {
        DailyTaskStatus { bottle: done, ..s }
    } else {
        s
    }
}

/// The `complete` map applied entry by entry, in order.
pub open spec fn apply_complete(s: DailyTaskStatus, es: Seq<(Seq<char>, Json)>) -> DailyTaskStatus
    decreases es.len(),
{
    if es.len() == 0 {
        s
    } else {
        apply_complete_entry(apply_complete(s, es.drop_last()), es.last().0, es.last().1)
    }
}

/// A member under the role, else at the top level.
pub open spec fn role_or_top(info: Json, path: Seq<Seq<char>>) -> Option<Json> {
    or_else(at_path(info, seq!["role"@] + path), at_path(info, path))
}

/// The counters read from `statistics`.
pub open spec fn apply_statistics(s: DailyTaskStatus, stats: Option<Json>) -> DailyTaskStatus {
    match stats {
        Some(st) => DailyTaskStatus {
            legion_boss_done: match json_i64(member(st, "legion:boss"@)) {
                Some(v) => v as u32,
                None => s.legion_boss_done,
            },
            arena_done_today: match json_i64(member(st, "area:arena:last"@)) {
                Some(v) => v as u32,
                None => s.arena_done_today,
            },
            ..s
        },
        None => s,
    }
}

/// The day flags read from `statisticsTime`: an action whose stamp falls on
/// the current day is done today, and a counter whose stamp does not is 0.
pub open spec fn apply_times(
    s: DailyTaskStatus,
    times: Option<Json>,
    stats: Option<Json>,
    today: DayWindow,
) -> DailyTaskStatus {
    match times {
        Some(st) => DailyTaskStatus {
            buy_gold_today: !available_today(member(st, "buy:gold"@), today),
            artifact_lottery_today: !available_today(member(st, "artifact:normal:lottery:time"@), today),
            genie_1_today: !available_today(member(st, "genie:daily:free:1"@), today),
            genie_2_today: !available_today(member(st, "genie:daily:free:2"@), today),
            genie_3_today: !available_today(member(st, "genie:daily:free:3"@), today),
            genie_4_today: !available_today(member(st, "genie:daily:free:4"@), today),
            gacha_today: !available_today(
                or_else(
                    member(st, "gacha:free"@),
                    match stats {
                        Some(x) => member(x, "gacha:free"@),
                        None => None,
                    },
                ),
                today,
            ),
            legion_boss_done: if available_today(member(st, "legion:boss"@), today) {
                0
            } else {
                s.legion_boss_done
            },
            arena_done_today: if available_today(member(st, "area:arena:last"@), today) {
                0
            } else {
                s.arena_done_today
            },
            ..s
        },
        None => s,
    }
}

/// The daily status that the role's data shows on the given day.
pub open spec fn status_of(info: Option<Json>, today: DayWindow) -> DailyTaskStatus {
    match info {
        None => empty_status(),
        Some(j) => {
            let complete = role_or_top(j, seq!["dailyTask"@, "complete"@]);
            let stats = role_or_top(j, seq!["statistics"@]);
            let times = role_or_top(j, seq!["statisticsTime"@]);
            let s1 = match complete {
                Some(Json::Object(es)) => apply_complete(empty_status(), es),
                _ => empty_status(),
            };
            apply_times(apply_statistics(s1, stats), times, stats, today)
        },
    }
}

fn member_under_role<'a>(info: &'a Value, key: &str) -> (r: Option<&'a Value>)
    ensures
        match role_or_top(info@, seq![key@]) {
            Some(j) => r matches Some(x) && x@ == j,
            None => r is None,
        },
{
    let k_role = "role";
    proof {
        reveal_with_fuel(at_path, 3);
        assert((seq!["role"@] + seq![key@]).drop_last() =~= seq!["role"@]);
        assert(seq!["role"@].drop_last() =~= Seq::<Seq<char>>::empty());
        assert(seq![key@].drop_last() =~= Seq::<Seq<char>>::empty());
        assert((seq!["role"@] + seq![key@]).last() == key@);
    }
    match crate::lookup::get_opt(crate::lookup::get_member(info, k_role), key) {
        Some(x) => Some(x),
        None => crate::lookup::get_member(info, key),
    }
}

fn complete_under_role<'a>(info: &'a Value) -> (r: Option<&'a Value>)
    ensures
        match role_or_top(info@, seq!["dailyTask"@, "complete"@]) {
            Some(j) => r matches Some(x) && x@ == j,
            None => r is None,
        },
{
    let k_role = "role";
    let k_daily = "dailyTask";
    let k_complete = "complete";
    proof {
        reveal_with_fuel(at_path, 4);
        let p = seq!["dailyTask"@, "complete"@];
        assert((seq!["role"@] + p).drop_last() =~= seq!["role"@, "dailyTask"@]);
        assert(seq!["role"@, "dailyTask"@].drop_last() =~= seq!["role"@]);
        assert(seq!["role"@].drop_last() =~= Seq::<Seq<char>>::empty());
        assert(p.drop_last() =~= seq!["dailyTask"@]);
        assert(seq!["dailyTask"@].drop_last() =~= Seq::<Seq<char>>::empty());
        assert((seq!["role"@] + p).last() == "complete"@);
    }
    let a = crate::lookup::get_opt(
        crate::lookup::get_opt(crate::lookup::get_member(info, k_role), k_daily),
        k_complete,
    );
    match a {
        Some(x) => Some(x),
        None => crate::lookup::get_opt(crate::lookup::get_member(info, k_daily), k_complete),
    }
}

fn apply_complete_map(s: DailyTaskStatus, es: &Vec<(String, Value)>) -> (r: DailyTaskStatus)
    ensures
        r == apply_complete(s, crate::value::model_entries(es@)),
{
    let ghost m = crate::value::model_entries(es@);
    proof {
        crate::value::lemma_model_entries_len(es@);
    }
    let mut st = s;
    let mut i: usize = 0;
    while i < es.len()
        invariant
            i <= es@.len(),
            m == crate::value::model_entries(es@),
            m.len() == es@.len(),
            forall|k: int| 0 <= k < es@.len() ==> #[trigger] m[k] == (es@[k].0@, es@[k].1@),
            st == apply_complete(s, m.take(i as int)),
        decreases es@.len() - i,
    {
        proof {
            assert(m.take(i + 1).drop_last() =~= m.take(i as int));
        }
        let id: u32 = match crate::text::parse_u32(es[i].0.as_str().as_bytes()) {
            Some(n) => n,
            None => 0,
        };
        let done = match &es[i].1 {
            Value::Int(v) => *v == -1,
            _ => false,
        };
        st = set_task_exec(st, id, done);
        i = i + 1;
    }
    assert(m.take(m.len() as int) =~= m);
    st
}

/// Which daily tasks the role's data shows as done, and its counters of the
/// day; a role without data has done nothing.
pub fn get_daily_task_status(role_info: Option<&Value>, today: DayWindow) -> (r: DailyTaskStatus)
    ensures
        r == status_of(
            match role_info {
                Some(v) => Some(v@),
                None => None,
            },
            today,
        ),
{
    let info = match role_info {
        Some(v) => v,
        None => {
            return DailyTaskStatus::default();
        },
    };
    let complete = complete_under_role(info);
    let statistics = member_under_role(info, "statistics");
    let statistics_time = member_under_role(info, "statisticsTime");
    proof {
        reveal_strlit("statistics");
        reveal_strlit("statisticsTime");
        assert(seq!["statistics"@] == seq!["statistics"@]);
    }
    let mut status = DailyTaskStatus::default();
    if let Some(Value::Object(es)) = complete {
        status = apply_complete_map(status, es);
    }
    let status = statistics_counters(status, statistics);
    day_flags(status, statistics_time, statistics, today)
}

fn statistics_counters(s: DailyTaskStatus, statistics: Option<&Value>) -> (r: DailyTaskStatus)
    ensures
        r == apply_statistics(
            s,
            match statistics {
                Some(v) => Some(v@),
                None => None,
            },
        ),
{
    match statistics {
        Some(stats) => {
            let lb = match crate::lookup::as_i64(crate::lookup::get_member(stats, "legion:boss")) {
                Some(v) => v as u32,
                None => s.legion_boss_done,
            };
            let ad = match crate::lookup::as_i64(crate::lookup::get_member(stats, "area:arena:last")) {
                Some(v) => v as u32,
                None => s.arena_done_today,
            };
            DailyTaskStatus { legion_boss_done: lb, arena_done_today: ad, ..s }
        },
        None => s,
    }
}

fn day_flags(
    s: DailyTaskStatus,
    times: Option<&Value>,
    statistics: Option<&Value>,
    today: DayWindow,
) -> (r: DailyTaskStatus)
    ensures
        r == apply_times(
            s,
            match times {
                Some(v) => Some(v@),
                None => None,
            },
            match statistics {
                Some(v) => Some(v@),
                None => None,
            },
            today,
        ),
{
    match times {
        Some(st) => {
            let buy_gold_today = !is_today_available(crate::lookup::get_member(st, "buy:gold"), today);
            let artifact_lottery_today = !is_today_available(
                crate::lookup::get_member(st, "artifact:normal:lottery:time"),
                today,
            );
            let genie_1_today = !is_today_available(crate::lookup::get_member(st, "genie:daily:free:1"), today);
            let genie_2_today = !is_today_available(crate::lookup::get_member(st, "genie:daily:free:2"), today);
            let genie_3_today = !is_today_available(crate::lookup::get_member(st, "genie:daily:free:3"), today);
            let genie_4_today = !is_today_available(crate::lookup::get_member(st, "genie:daily:free:4"), today);
            let gacha = match crate::lookup::get_member(st, "gacha:free") {
                Some(x) => Some(x),
                None => crate::lookup::get_opt(statistics, "gacha:free"),
            };
            let gacha_today = !is_today_available(gacha, today);
            let legion_boss_done = if is_today_available(crate::lookup::get_member(st, "legion:boss"), today) {
                0
            } else {
                s.legion_boss_done
            };
            let arena_done_today = if is_today_available(crate::lookup::get_member(st, "area:arena:last"), today) {
                0
            } else {
                s.arena_done_today
            };
            DailyTaskStatus {
                buy_gold_today,
                artifact_lottery_today,
                genie_1_today,
                genie_2_today,
                genie_3_today,
                genie_4_today,
                gacha_today,
                legion_boss_done,
                arena_done_today,
                ..s
            }
        },
        None => s,
    }
}

// ------------------------------------------------------------------
// Durations
// ------------------------------------------------------------------

/// Whole seconds written as `HH:MM:SS`, each part at least two digits.
pub open spec fn hms_text(total: u64) -> Seq<char> {
    crate::config::two_digits((total / 3600) as nat) + ":"@ + crate::config::two_digits(((total % 3600) / 60) as nat)
        + ":"@ + crate::config::two_digits((total % 60) as nat)
}

fn push_two(out: &mut String, n: u64)
    ensures
        final(out)@ == old(out)@ + crate::config::two_digits(n as nat),
{
    if n < 10 {
        out.append("0");
    }
    out.append(crate::text::nat_text(n).as_str());
}

/// Writes whole seconds as `HH:MM:SS`.
pub fn fmt_hms(total: u64) -> (r: String)
    ensures
        r@ == hms_text(total),
{
    let mut out = String::new();
    push_two(&mut out, total / 3600);
    out.append(":");
    push_two(&mut out, (total % 3600) / 60);
    out.append(":");
    push_two(&mut out, total % 60);
    out
}

// ------------------------------------------------------------------
// The role's stage and the evolution tower's extras
// ------------------------------------------------------------------

/// The stage the role has reached, under `role/levelId` or `levelId` (0 when
/// unknown or without data).
pub open spec fn level_of(j: Option<Json>) -> u64 {
    match j {
        Some(v) => match json_u64(or_else(at_path(v, seq!["role"@, "levelId"@]), member(v, "levelId"@))) {
            Some(l) => l,
            None => 0,
        },
        None => 0,
    }
}

/// Reads the stage the role has reached.
pub fn level_id(role_info: Option<&Value>) -> (r: u64)
    ensures
        r == level_of(
            match role_info {
                Some(v) => Some(v@),
                None => None,
            },
        ),
{
    match role_info {
        Some(v) => {
            proof {
                reveal_with_fuel(at_path, 3);
                assert(seq!["role"@, "levelId"@].drop_last() =~= seq!["role"@]);
                assert(seq!["role"@].drop_last() =~= Seq::<Seq<char>>::empty());
            }
            let a = crate::lookup::get_opt(crate::lookup::get_member(v, "role"), "levelId");
            let found = match a {
                Some(x) => Some(x),
                None => crate::lookup::get_member(v, "levelId"),
            };
            match crate::lookup::as_u64(found) {
                Some(l) => l,
                None => 0,
            }
        },
        None => 0,
    }
}

/// The evolution tower opens at stage 4001.
pub fn is_evotower_unlocked(level: u64) -> (r: bool)
    ensures
        r == (level >= 4001),
{
    level >= 4001
}

/// The battle version a fight answer reports under `battleData/version`.
pub open spec fn battle_version_of(j: Json) -> Option<i64> {
    json_i64(at_path(j, seq!["battleData"@, "version"@]))
}

/// Reads the battle version of a fight answer.
pub fn battle_version(resp: &Value) -> (r: Option<i64>)
    ensures
        r == battle_version_of(resp@),
{
    proof {
        reveal_with_fuel(at_path, 3);
        assert(seq!["battleData"@, "version"@].drop_last() =~= seq!["battleData"@]);
        assert(seq!["battleData"@].drop_last() =~= Seq::<Seq<char>>::empty());
    }
    crate::lookup::as_i64(crate::lookup::get_opt(crate::lookup::get_member(resp, "battleData"), "version"))
}

/// The team a formation answer says is in use: its `useTeamId` (under
/// `presetTeamInfo` when the answer has one), else `presetTeamInfo/useTeamId`
/// below that, else the first `useTeamId` anywhere below, else team 1.
pub open spec fn current_team_of(j: Json) -> u64 {
    let root = match member(j, "presetTeamInfo"@) {
        Some(r) => r,
        None => j,
    };
    let direct = or_else(member(root, "useTeamId"@), at_path(root, seq!["presetTeamInfo"@, "useTeamId"@]));
    match json_u64(direct) {
        Some(t) => t,
        None => match team_id_in(root) {
            Some(t) => t,
            None => 1,
        },
    }
}

/// Reads the team in use from a formation answer.
pub fn current_team_from_info(info: &Value) -> (r: u64)
    ensures
        r == current_team_of(info@),
{
    proof {
        reveal_with_fuel(at_path, 3);
        assert(seq!["presetTeamInfo"@, "useTeamId"@].drop_last() =~= seq!["presetTeamInfo"@]);
        assert(seq!["presetTeamInfo"@].drop_last() =~= Seq::<Seq<char>>::empty());
    }
    let root = match crate::lookup::get_member(info, "presetTeamInfo") {
        Some(r) => r,
        None => info,
    };
    let direct = match crate::lookup::get_member(root, "useTeamId") {
        Some(v) => Some(v),
        None => crate::lookup::get_opt(crate::lookup::get_member(root, "presetTeamInfo"), "useTeamId"),
    };
    match crate::lookup::as_u64(direct) {
        Some(t) => t,
        None => match find_use_team_id_rec(root) {
            Some(t) => t,
            None => 1,
        },
    }
}

/// The parameters of a fight with the battle version added: when a version
/// is known and the parameters are an object, `battleVersion` is set to it.
pub fn with_battle_version(params: &mut Value, version: Option<i64>)
    ensures
        match (version, *old(params)) {
            (Some(v), Value::Object(es)) => final(params)@ == Json::Object(
                crate::bon::obj_insert(crate::value::model_entries(es@), "battleVersion"@, Json::Int(v)),
            ),
            _ => final(params)@ == old(params)@,
        },
{
    match version {
        Some(v) => match params {
            Value::Object(es) => {
                crate::bon::BonDecoder::insert_entry(es, String::from_str("battleVersion"), Value::Int(v));
            },
            _ => {},
        },
        None => {},
    }
}

/// A number under two keys of a value (0 when unknown).
pub open spec fn number_at(j: Json, a: Seq<char>, b: Seq<char>) -> i64 {
    match json_i64(at_path(j, seq![a, b])) {
        Some(v) => v,
        None => 0,
    }
}

/// Reads a number under two keys of a value, such as the merge box's free
/// energy (`mergeBox/freeEnergy`) or the boxes left to open
/// (`evoTower/lotteryLeftCnt`); 0 when unknown.
pub fn number_under(v: &Value, a: &str, b: &str) -> (r: i64)
    ensures
        r == number_at(v@, a@, b@),
{
    proof {
        reveal_with_fuel(at_path, 3);
        assert(seq![a@, b@].drop_last() =~= seq![a@]);
        assert(seq![a@].drop_last() =~= Seq::<Seq<char>>::empty());
    }
    match crate::lookup::as_i64(crate::lookup::get_opt(crate::lookup::get_member(v, a), b)) {
        Some(x) => x,
        None => 0,
    }
}

/// Where to open the next merge-box box, by the boxes opened so far: a
/// different cell before 2, before 102, and after.
pub fn openbox_pos(cost_total: i64) -> (r: (u64, u64))
    ensures
        r == if cost_total < 2 {
            (4u64, 5u64)
        } else if cost_total < 102 {
            (7u64, 3u64)
        } else {
            (6u64, 3u64)
        },
{
    if cost_total < 2 {
        (4, 5)
    } else if cost_total < 102 {
        (7, 3)
    } else {
        (6, 3)
    }
}

} // verus!
