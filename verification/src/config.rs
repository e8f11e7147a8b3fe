//! The batch configuration's own rules: formation contexts and their team
//! ids, the defaults, weekday and `HH:MM` reading, maintenance windows, and
//! the way bin paths and role keys are written.

use vstd::prelude::*;
use crate::text::{decimal, u32_text, first_index, swap_char, lower_char};

verus! {

// ------------------------------------------------------------------
// Formations
// ------------------------------------------------------------------

/// Where a formation is used.
#[derive(Clone, Copy, PartialEq, Eq, Structural)]
pub enum FormationContext {
    Arena,
    Tower,
    Evotower,
    BossDaily,
    BossLegion,
}

/// The name of a formation context, as the configuration writes it.
pub open spec fn context_name(c: FormationContext) -> Seq<char> {
    match c {
        FormationContext::Arena => "arena"@,
        FormationContext::Tower => "tower"@,
        FormationContext::Evotower => "evotower"@,
        FormationContext::BossDaily => "boss_daily"@,
        FormationContext::BossLegion => "boss_legion"@,
    }
}

impl FormationContext {
    pub fn as_str(self) -> (r: &'static str)
        ensures
            r@ == context_name(self),
    {
        match self {
            FormationContext::Arena => "arena",
            FormationContext::Tower => "tower",
            FormationContext::Evotower => "evotower",
            FormationContext::BossDaily => "boss_daily",
            FormationContext::BossLegion => "boss_legion",
        }
    }
}

/// The team used in each context unless a role says otherwise.
#[derive(Clone, Copy)]
pub struct FormationDefaults {
    pub arena: u64,
    pub tower: u64,
    pub evotower: u64,
    pub boss_daily: u64,
    pub boss_legion: u64,
}

/// A role's own teams, where it has them.
#[derive(Clone, Copy)]
pub struct FormationOverride {
    pub arena: Option<u64>,
    pub tower: Option<u64>,
    pub evotower: Option<u64>,
    pub boss_daily: Option<u64>,
    pub boss_legion: Option<u64>,
}

impl FormationDefaults {
    /// The default team of a context.
    pub fn resolve(&self, context: FormationContext) -> (r: u64)
        ensures
            r == match context {
                FormationContext::Arena => self.arena,
                FormationContext::Tower => self.tower,
                FormationContext::Evotower => self.evotower,
                FormationContext::BossDaily => self.boss_daily,
                FormationContext::BossLegion => self.boss_legion,
            },
    {
        match context {
            FormationContext::Arena => self.arena,
            FormationContext::Tower => self.tower,
            FormationContext::Evotower => self.evotower,
            FormationContext::BossDaily => self.boss_daily,
            FormationContext::BossLegion => self.boss_legion,
        }
    }
}

impl FormationOverride {
    /// The role's own team for a context, if it has one.
    pub fn resolve(&self, context: FormationContext) -> (r: Option<u64>)
        ensures
            r == match context {
                FormationContext::Arena => self.arena,
                FormationContext::Tower => self.tower,
                FormationContext::Evotower => self.evotower,
                FormationContext::BossDaily => self.boss_daily,
                FormationContext::BossLegion => self.boss_legion,
            },
    {
        match context {
            FormationContext::Arena => self.arena,
            FormationContext::Tower => self.tower,
            FormationContext::Evotower => self.evotower,
            FormationContext::BossDaily => self.boss_daily,
            FormationContext::BossLegion => self.boss_legion,
        }
    }
}

/// Team 1 in every context.
pub fn default_formation_defaults() -> (r: FormationDefaults)
    ensures
        r == (FormationDefaults { arena: 1, tower: 1, evotower: 1, boss_daily: 1, boss_legion: 1 }),
{
    let t = default_team_id();
    FormationDefaults { arena: t, tower: t, evotower: t, boss_daily: t, boss_legion: t }
}

/// The team a role uses in a context: its own where it has one (`role`),
/// else the default (`default`).
pub fn resolve_with_source(
    role: Option<&FormationOverride>,
    defaults: &FormationDefaults,
    context: FormationContext,
) -> (r: (u64, &'static str))
    ensures
        match role {
            Some(o) => match o.resolve_spec(context) {
                Some(t) => r.0 == t && r.1@ == "role"@,
                None => r.0 == defaults.resolve_spec(context) && r.1@ == "default"@,
            },
            None => r.0 == defaults.resolve_spec(context) && r.1@ == "default"@,
        },
{
    if let Some(o) = role {
        if let Some(t) = o.resolve(context) {
            return (t, "role");
        }
    }
    (defaults.resolve(context), "default")
}

impl FormationDefaults {
    pub open spec fn resolve_spec(&self, context: FormationContext) -> u64 {
        match context {
            FormationContext::Arena => self.arena,
            FormationContext::Tower => self.tower,
            FormationContext::Evotower => self.evotower,
            FormationContext::BossDaily => self.boss_daily,
            FormationContext::BossLegion => self.boss_legion,
        }
    }
}

impl FormationOverride {
    pub open spec fn resolve_spec(&self, context: FormationContext) -> Option<u64> {
        match context {
            FormationContext::Arena => self.arena,
            FormationContext::Tower => self.tower,
            FormationContext::Evotower => self.evotower,
            FormationContext::BossDaily => self.boss_daily,
            FormationContext::BossLegion => self.boss_legion,
        }
    }
}

// ------------------------------------------------------------------
// Defaults
// ------------------------------------------------------------------

pub fn default_concurrency() -> (r: usize)
    ensures
        r == 5,
{
    5
}

pub fn default_delay_between_ms() -> (r: u64)
    ensures
        r == 2000,
{
    2000
}

pub fn default_schedule_time() -> (r: String)
    ensures
        r@ == "06:00"@,
{
    String::from_str("06:00")
}

pub fn default_friday_daily_start_time() -> (r: String)
    ensures
        r@ == "12:10"@,
{
    String::from_str("12:10")
}

pub fn default_max_daily_retries() -> (r: u32)
    ensures
        r == 3,
{
    3
}

pub fn default_car_enabled() -> (r: bool)
    ensures
        r,
{
    true
}

pub fn default_weekly_schedule_day() -> (r: String)
    ensures
        r@ == "Sat"@,
{
    String::from_str("Sat")
}

pub fn default_study_enabled() -> (r: bool)
    ensures
        r,
{
    true
}

pub fn default_tower_enabled() -> (r: bool)
    ensures
        r,
{
    true
}

pub fn default_evotower_enabled() -> (r: bool)
    ensures
        r,
{
    true
}

pub fn default_gacha_enabled() -> (r: bool)
    ensures
        r,
{
    true
}

pub fn default_check_interval_secs() -> (r: u64)
    ensures
        r == 60,
{
    60
}

pub fn default_bin_output_dir() -> (r: String)
    ensures
        r@ == "bins/"@,
{
    String::from_str("bins/")
}

pub fn default_default_bin_path() -> (r: String)
    ensures
        r@ == "bins"@,
{
    String::from_str("bins")
}

pub fn default_team_id() -> (r: u64)
    ensures
        r == 1,
{
    1
}

// ------------------------------------------------------------------
// Weekdays and times of day
// ------------------------------------------------------------------

/// A day of the week.
#[derive(Clone, Copy, Debug, PartialEq, Eq, Structural)]
pub enum Weekday {
    Mon,
    Tue,
    Wed,
    Thu,
    Fri,
    Sat,
    Sun,
}

/// Days since Monday.
pub open spec fn day_index(w: Weekday) -> nat {
    match w {
        Weekday::Mon => 0,
        Weekday::Tue => 1,
        Weekday::Wed => 2,
        Weekday::Thu => 3,
        Weekday::Fri => 4,
        Weekday::Sat => 5,
        Weekday::Sun => 6,
    }
}

/// The day a name stands for, in any letter case: the three-letter name,
/// the full name, and `tues`, `thur` and `thurs`.
pub open spec fn weekday_named(s: Seq<char>) -> Option<Weekday> {
    let l = s.map_values(lower_char());
    if l == "mon"@ || l == "monday"@ {
        Some(Weekday::Mon)
    } else if l == "tue"@ || l == "tues"@ || l == "tuesday"@ {
        Some(Weekday::Tue)
    } else if l == "wed"@ || l == "wednesday"@ {
        Some(Weekday::Wed)
    } else if l == "thu"@ || l == "thur"@ || l == "thurs"@ || l == "thursday"@ {
        Some(Weekday::Thu)
    } else if l == "fri"@ || l == "friday"@ {
        Some(Weekday::Fri)
    } else if l == "sat"@ || l == "saturday"@ {
        Some(Weekday::Sat)
    } else if l == "sun"@ || l == "sunday"@ {
        Some(Weekday::Sun)
    } else {
        None
    }
}

/// The three-letter name of a day.
pub open spec fn weekday_short(w: Weekday) -> Seq<char> {
    match w {
        Weekday::Mon => "Mon"@,
        Weekday::Tue => "Tue"@,
        Weekday::Wed => "Wed"@,
        Weekday::Thu => "Thu"@,
        Weekday::Fri => "Fri"@,
        Weekday::Sat => "Sat"@,
        Weekday::Sun => "Sun"@,
    }
}

/// Reads a day name.
pub fn parse_weekday(raw: &str) -> (r: Option<Weekday>)
    ensures
        r == weekday_named(raw@),
{
    let lower = crate::text::to_ascii_lowercase(raw);
    let l = lower.as_str();
    if crate::protocol::str_eq(l, "mon") || crate::protocol::str_eq(l, "monday") {
        Some(Weekday::Mon)
    } else if crate::protocol::str_eq(l, "tue") || crate::protocol::str_eq(l, "tues")
        || crate::protocol::str_eq(l, "tuesday") {
        Some(Weekday::Tue)
    } else if crate::protocol::str_eq(l, "wed") || crate::protocol::str_eq(l, "wednesday") {
        Some(Weekday::Wed)
    } else if crate::protocol::str_eq(l, "thu") || crate::protocol::str_eq(l, "thur")
        || crate::protocol::str_eq(l, "thurs") || crate::protocol::str_eq(l, "thursday") {
        Some(Weekday::Thu)
    } else if crate::protocol::str_eq(l, "fri") || crate::protocol::str_eq(l, "friday") {
        Some(Weekday::Fri)
    } else if crate::protocol::str_eq(l, "sat") || crate::protocol::str_eq(l, "saturday") {
        Some(Weekday::Sat)
    } else if crate::protocol::str_eq(l, "sun") || crate::protocol::str_eq(l, "sunday") {
        Some(Weekday::Sun)
    } else {
        None
    }
}

/// The three-letter name of a day.
pub fn weekday_to_short(w: Weekday) -> (r: &'static str)
    ensures
        r@ == weekday_short(w),
{
    match w {
        Weekday::Mon => "Mon",
        Weekday::Tue => "Tue",
        Weekday::Wed => "Wed",
        Weekday::Thu => "Thu",
        Weekday::Fri => "Fri",
        Weekday::Sat => "Sat",
        Weekday::Sun => "Sun",
    }
}

/// A time of day `H:M`: exactly one `:`, an hour up to 23 and a minute up
/// to 59, each read as a `u32`.
pub open spec fn hhmm_of(b: Seq<u8>) -> Option<(u32, u32)> {
    match first_index(b, 0x3a) {
        None => None,
        Some(i) => {
            let rest = b.subrange(i + 1, b.len() as int);
            if first_index(rest, 0x3a) is Some {
                None
            } else {
                match (u32_text(b.subrange(0, i)), u32_text(rest)) {
                    (Some(h), Some(m)) => if h > 23 || m > 59 {
                        None
                    } else {
                        Some((h, m))
                    },
                    _ => None,
                }
            }
        },
    }
}

/// Reads a time of day `HH:MM`.
pub fn parse_hhmm_strict(raw: &str) -> (r: Option<(u32, u32)>)
    ensures
        r == hhmm_of(vstd::utf8::encode_utf8(raw@)),
{
    let b = raw.as_bytes();
    let n = b.len();
    let i = match crate::text::find_byte(b, 0x3a) {
        Some(i) => i,
        None => {
            return None;
        },
    };
    proof {
        crate::text::lemma_first_index(b@, 0x3a);
    }
    let rest = crate::text::slice_between(b, i + 1, n);
    if crate::text::find_byte(rest.as_slice(), 0x3a).is_some() {
        return None;
    }
    let head = crate::text::slice_between(b, 0, i);
    let h = match crate::text::parse_u32(head.as_slice()) {
        Some(h) => h,
        None => {
            return None;
        },
    };
    let m = match crate::text::parse_u32(rest.as_slice()) {
        Some(m) => m,
        None => {
            return None;
        },
    };
    if h > 23 || m > 59 {
        return None;
    }
    Some((h, m))
}

/// A time of day, or the fallback when it cannot be read.
pub fn parse_hhmm_with_fallback(raw: &str, fallback: (u32, u32)) -> (r: (u32, u32))
    ensures
        r == match hhmm_of(vstd::utf8::encode_utf8(raw@)) {
            Some(t) => t,
            None => fallback,
        },
{
    match parse_hhmm_strict(raw) {
        Some(t) => t,
        None => fallback,
    }
}

/// A number written with at least two digits.
pub open spec fn two_digits(n: nat) -> Seq<char> {
    if n < 10 {
        "0"@ + decimal(n)
    } else {
        decimal(n)
    }
}

/// A count of minutes written as `HH:MM`.
pub open spec fn hhmm_text(total: u32) -> Seq<char> {
    two_digits((total / 60) as nat) + ":"@ + two_digits((total % 60) as nat)
}

fn push_two_digits(out: &mut String, n: u32)
    ensures
        final(out)@ == old(out)@ + two_digits(n as nat),
{
    if n < 10 {
        out.append("0");
    }
    out.append(crate::text::nat_text(n as u64).as_str());
}

/// Writes a count of minutes as `HH:MM`.
pub fn minutes_to_hhmm(total_mins: u32) -> (r: String)
    ensures
        r@ == hhmm_text(total_mins),
{
    let mut out = String::new();
    push_two_digits(&mut out, total_mins / 60);
    out.append(":");
    push_two_digits(&mut out, total_mins % 60);
    out
}

// ------------------------------------------------------------------
// Paths and keys
// ------------------------------------------------------------------

/// Backslashes written as slashes.
pub open spec fn forward_slashes(s: Seq<char>) -> Seq<char> {
    s.map_values(swap_char('\\', '/'))
}

/// Trailing slashes dropped, keeping at least one character.
pub open spec fn trim_trailing_slashes(s: Seq<char>) -> Seq<char>
    decreases s.len(),
{
    if s.len() > 1 && s.last() == '/' {
        trim_trailing_slashes(s.drop_last())
    } else {
        s
    }
}

/// Leading `./` dropped, as often as it occurs.
pub open spec fn strip_dot_slash(s: Seq<char>) -> Seq<char>
    decreases s.len(),
{
    if s.len() >= 2 && s[0] == '.' && s[1] == '/' {
        strip_dot_slash(s.skip(2))
    } else {
        s
    }
}

/// A directory as the configuration keeps it: forward slashes, no trailing
/// slash.
pub fn normalize_dir(raw: &str) -> (r: String)
    ensures
        r@ == trim_trailing_slashes(forward_slashes(raw@)),
{
    let s = crate::text::replace_ascii_char(raw, 0x5c, 0x2f);
    proof {
        assert(0x5c as char == '\\');
        assert(0x2f as char == '/');
    }
    let t = s.as_str();
    let mut n = t.unicode_len();
    assert(t@.take(n as int) =~= t@);
    while n > 1 && t.get_char(n - 1) == '/'
        invariant
            n <= t@.len(),
            trim_trailing_slashes(t@) == trim_trailing_slashes(t@.take(n as int)),
        decreases n,
    {
        assert(t@.take(n as int).drop_last() =~= t@.take(n - 1));
        n = n - 1;
    }
    assert(t@.take(n as int) =~= t@.subrange(0, n as int));
    String::from_str(t.substring_char(0, n))
}

/// A bin path as the configuration keeps it: forward slashes, no leading
/// `./`.
pub fn normalize_path_for_id(path: &str) -> (r: String)
    ensures
        r@ == strip_dot_slash(forward_slashes(path@)),
{
    let s = crate::text::replace_ascii_char(path, 0x5c, 0x2f);
    proof {
        assert(0x5c as char == '\\');
        assert(0x2f as char == '/');
    }
    let t = s.as_str();
    let n = t.unicode_len();
    let mut k: usize = 0;
    assert(t@.skip(0) =~= t@);
    while n - k > 1 && t.get_char(k) == '.' && t.get_char(k + 1) == '/'
        invariant
            k <= n,
            n == t@.len(),
            strip_dot_slash(t@) == strip_dot_slash(t@.skip(k as int)),
        decreases n - k,
    {
        assert(t@.skip(k as int).skip(2) =~= t@.skip(k + 2));
        k = k + 2;
    }
    assert(t@.skip(k as int) =~= t@.subrange(k as int, n as int));
    String::from_str(t.substring_char(k, n))
}

/// Where a bin lives: a bin with a directory part is taken as it is, a bare
/// name lies in the default directory.
pub open spec fn runtime_bin_path(default_bin_path: Seq<char>, bin: Seq<char>) -> Seq<char> {
    let b = strip_dot_slash(forward_slashes(bin));
    if b.contains('/') {
        b
    } else {
        default_bin_path + "/"@ + b
    }
}

pub fn build_runtime_bin_path(default_bin_path: &str, bin: &str) -> (r: String)
    ensures
        r@ == runtime_bin_path(default_bin_path@, bin@),
{
    let b = normalize_path_for_id(bin);
    if crate::text::contains_char(b.as_str(), '/') {
        b
    } else {
        let mut out = String::from_str(default_bin_path);
        out.append("/");
        out.append(b.as_str());
        out
    }
}

/// The number a server id shows: ids from 1 000 000 and from 2 000 000 are
/// the second and third ranges; the number is the offset in the range less
/// 27 (not below 0).
pub open spec fn server_number(server_id: u64) -> (u64, u32) {
    let (base, idx) = if server_id >= 2_000_000 {
        ((server_id - 2_000_000) as u64, 2u32)
    } else if server_id >= 1_000_000 {
        ((server_id - 1_000_000) as u64, 1u32)
    } else {
        (server_id, 0u32)
    };
    (if base >= 27 {
        (base - 27) as u64
    } else {
        0
    }, idx)
}

pub fn parse_server_id(server_id: u64) -> (r: (u64, u32))
    ensures
        r == server_number(server_id),
{
    let (base, idx) = if server_id >= 2_000_000 {
        (server_id - 2_000_000, 2u32)
    } else if server_id >= 1_000_000 {
        (server_id - 1_000_000, 1u32)
    } else {
        (server_id, 0u32)
    };
    (base.saturating_sub(27), idx)
}

/// The key of a role in the state: `bin:server`.
pub fn role_key(bin_path: &str, server_id: u64) -> (r: String)
    ensures
        r@ == bin_path@ + ":"@ + decimal(server_id as nat),
{
    let mut out = String::from_str(bin_path);
    out.append(":");
    out.append(crate::text::nat_text(server_id).as_str());
    out
}

/// A token binary of the batch and the roles to run with it.
pub struct BinConfig {
    pub bin: String,
    pub path: String,
    pub server_ids: Vec<u64>,
}


// ------------------------------------------------------------------
// Names a bin path shows
// ------------------------------------------------------------------

/// `std::path::Path::file_name` of a path, as text. What it gives follows the
/// platform's path rules; on every platform a name holds no `/`, which
/// separates components everywhere.
#[verifier::external_body]
fn path_file_name(path: &str) -> (r: Option<String>)
    ensures
        r matches Some(n) ==> !n@.contains('/'),
{
    match std::path::Path::new(path).file_name() {
        Some(f) => match f.to_str() {
            Some(t) => Some(t.to_string()),
            None => None,
        },
        None => None,
    }
}

/// `std::path::Path::file_stem` of a path, as text. What it gives follows the
/// platform's path rules; on every platform a stem holds no `/`, which
/// separates components everywhere.
#[verifier::external_body]
fn path_file_stem(path: &str) -> (r: Option<String>)
    ensures
        r matches Some(n) ==> !n@.contains('/'),
{
    match std::path::Path::new(path).file_stem() {
        Some(f) => match f.to_str() {
            Some(t) => Some(t.to_string()),
            None => None,
        },
        None => None,
    }
}

pub open spec fn opt_view(s: Option<String>) -> Option<Seq<char>> {
    match s {
        Some(t) => Some(t@),
        None => None,
    }
}

/// The name a bin goes by: its file name (the whole path when it has none),
/// with forward slashes.
pub open spec fn bin_name_of(file_name: Option<Seq<char>>, path: Seq<char>) -> Seq<char> {
    forward_slashes(
        match file_name {
            Some(n) => n,
            None => path,
        },
    )
}

/// The name a bin goes by, from the file name of its path.
pub fn bin_name_with(file_name: Option<&str>, path: &str) -> (r: String)
    ensures
        r@ == bin_name_of(
            match file_name {
                Some(n) => Some(n@),
                None => None,
            },
            path@,
        ),
{
    let n = match file_name {
        Some(n) => n,
        None => path,
    };
    proof {
        assert(0x5c as char == '\\');
        assert(0x2f as char == '/');
    }
    crate::text::replace_ascii_char(n, 0x5c, 0x2f)
}

/// The name a bin goes by: the file name of its path, with forward slashes.
pub fn bin_name_from_path(path: &str) -> (r: String)
    ensures
        exists|n: Option<Seq<char>>| r@ == #[trigger] bin_name_of(n, path@),
{
    let n = path_file_name(path);
    let r = match &n {
        Some(t) => bin_name_with(Some(t.as_str()), path),
        None => bin_name_with(None, path),
    };
    assert(r@ == bin_name_of(opt_view(n), path@));
    r
}

/// How a role is shown: the bin's file stem (the whole path when it has
/// none), then `/server-range-name`.
pub open spec fn display_of(stem: Option<Seq<char>>, bin_path: Seq<char>, server_id: u64, role_name: Seq<char>) -> Seq<char> {
    let f = match stem {
        Some(s) => s,
        None => bin_path,
    };
    let (num, idx) = server_number(server_id);
    f + "/"@ + decimal(num as nat) + "-"@ + decimal(idx as nat) + "-"@ + role_name
}

/// How a role is shown, from the file stem of its bin.
pub fn role_display_with(stem: Option<&str>, bin_path: &str, server_id: u64, role_name: &str) -> (r: String)
    ensures
        r@ == display_of(
            match stem {
                Some(s) => Some(s@),
                None => None,
            },
            bin_path@,
            server_id,
            role_name@,
        ),
{
    let f = match stem {
        Some(s) => s,
        None => bin_path,
    };
    let (num, idx) = parse_server_id(server_id);
    let mut out = String::from_str(f);
    out.append("/");
    out.append(crate::text::nat_text(num).as_str());
    out.append("-");
    out.append(crate::text::nat_text(idx as u64).as_str());
    out.append("-");
    out.append(role_name);
    proof {
        reveal_strlit("/");
        reveal_strlit("-");
    }
    out
}

/// How a role is shown: the file stem of its bin, the server number, the
/// server range and the role's name.
pub fn role_display(bin_path: &str, server_id: u64, role_name: &str) -> (r: String)
    ensures
        exists|stem: Option<Seq<char>>| r@ == #[trigger] display_of(stem, bin_path@, server_id, role_name@),
{
    let stem = path_file_stem(bin_path);
    let r = match &stem {
        Some(t) => role_display_with(Some(t.as_str()), bin_path, server_id, role_name),
        None => role_display_with(None, bin_path, server_id, role_name),
    };
    assert(r@ == display_of(opt_view(stem), bin_path@, server_id, role_name@));
    r
}

} // verus!
