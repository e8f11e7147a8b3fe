//! The client core: token ids, the server list's roles and the session
//! fields of a token.

use vstd::prelude::*;
use crate::value::{Value, Json, model_entries};
use crate::lookup::{member, json_u64};
use crate::protocol::{ProtoMsg, parse_message, parse_outcome, CLIENT_MAX_WIRE_SIZE};
use crate::bon::client_limits;
use crate::b64::{ascii_chars, all_ascii, lemma_ascii_utf8};

verus! {

/// The MD5 digest of a byte sequence.
pub uninterp spec fn md5_digest(data: Seq<u8>) -> Seq<u8>;

/// Calls `md5::Md5::digest`: the MD5 digest of `data`, which is sixteen
/// bytes long. What the digest is, is only named here.
#[verifier::external_body]
fn md5_of(data: &[u8]) -> (d: Vec<u8>)
    ensures
        d@ == md5_digest(data@),
        d@.len() == 16,
{
    <md5::Md5 as md5::Digest>::digest(data).to_vec()
}

/// The lower-case hexadecimal digit of a value below 16.
pub open spec fn hex_digit(n: int) -> u8 {
    if n < 10 {
        (48 + n) as u8
    } else {
        (87 + n) as u8
    }
}

/// Bytes written as lower-case hexadecimal, two digits each, high first.
pub open spec fn hex_bytes(d: Seq<u8>) -> Seq<u8> {
    Seq::new(
        2 * d.len(),
        |i: int|
            if i % 2 == 0 {
                hex_digit((d[i / 2] / 16) as int)
            } else {
                hex_digit((d[i / 2] % 16) as int)
            },
    )
}

/// Bytes written as lower-case hexadecimal text.
pub open spec fn hex_text(d: Seq<u8>) -> Seq<char> {
    ascii_chars(hex_bytes(d))
}

fn hex_digit_of(n: u8) -> (r: u8)
    requires
        n < 16,
    ensures
        r == hex_digit(n as int),
        r < 0x80,
{
    if n < 10 {
        48 + n
    } else {
        87 + n
    }
}

/// Writes bytes as lower-case hexadecimal, two digits each.
pub fn hex_lower(d: &[u8]) -> (r: String)
    requires
        d@.len() <= usize::MAX / 2,
    ensures
        r@ == hex_text(d@),
{
    let mut out: Vec<u8> = Vec::new();
    let mut i: usize = 0;
    while i < d.len()
        invariant
            i <= d@.len() <= usize::MAX / 2,
            out@.len() == 2 * i,
            forall|k: int| 0 <= k < 2 * i ==> #[trigger] out@[k] == hex_bytes(d@)[k],
        decreases d@.len() - i,
    {
        let b = d[i];
        out.push(hex_digit_of(b / 16));
        out.push(hex_digit_of(b % 16));
        proof {
            assert((2 * i) % 2 == 0 && (2 * i) / 2 == i) by (nonlinear_arith);
            assert((2 * i + 1) % 2 == 1 && (2 * i + 1) / 2 == i) by (nonlinear_arith);
        }
        i = i + 1;
    }
    let ghost h = hex_bytes(d@);
    assert(out@ =~= h);
    proof {
        assert(all_ascii(h)) by {
            assert forall|k: int| 0 <= k < h.len() implies #[trigger] h[k] < 0x80 by {
                assert(d@[k / 2] / 16 < 16 && d@[k / 2] % 16 < 16);
            }
        }
        lemma_ascii_utf8(h);
    }
    crate::text::from_utf8_lossy(out.as_slice())
}

// ------------------------------------------------------------------
// Roles and tokens
// ------------------------------------------------------------------

/// A role of the account, as the server list reports it.
#[derive(Debug)]
pub struct RoleInfo {
    pub role_id: u64,
    pub name: String,
    pub server_id: u64,
    pub power: u64,
    pub level: u32,
}

/// What is known of a role, as plain values.
pub ghost struct RoleModel {
    pub role_id: u64,
    pub name: Seq<char>,
    pub server_id: u64,
    pub power: u64,
    pub level: u32,
}

impl View for RoleInfo {
    type V = RoleModel;

    open spec fn view(&self) -> RoleModel {
        RoleModel {
            role_id: self.role_id,
            name: self.name@,
            server_id: self.server_id,
            power: self.power,
            level: self.level,
        }
    }
}

/// A saved game token and where it came from.
#[derive(Debug)]
pub struct TokenData {
    pub id: String,
    pub name: String,
    pub token: String,
    pub server: String,
    pub role_id: u64,
    pub ws_url: Option<String>,
    pub import_method: String,
}

/// A number field read as `u64`, 0 when it is missing or not one.
pub open spec fn number_or_zero(j: Json, k: Seq<char>) -> u64 {
    match json_u64(member(j, k)) {
        Some(v) => v,
        None => 0,
    }
}

/// The role that a server-list entry describes: missing numbers are 0, a
/// missing name is empty, and the level is cut to 32 bits.
pub open spec fn role_of(j: Json) -> RoleModel {
    RoleModel {
        role_id: number_or_zero(j, "roleId"@),
        name: match member(j, "name"@) {
            Some(Json::Str(s)) => s,
            _ => Seq::empty(),
        },
        server_id: number_or_zero(j, "serverId"@),
        power: number_or_zero(j, "power"@),
        level: number_or_zero(j, "level"@) as u32,
    }
}

/// The roles of the entries that are objects, in order.
pub open spec fn roles_of(es: Seq<(Seq<char>, Json)>) -> Seq<RoleModel>
    decreases es.len(),
{
    if es.len() == 0 {
        Seq::empty()
    } else {
        let rest = roles_of(es.drop_last());
        match es.last().1 {
            Json::Object(_) => rest.push(role_of(es.last().1)),
            _ => rest,
        }
    }
}

/// `r` placed after the last role whose power is at least its own.
pub open spec fn insert_by_power(s: Seq<RoleModel>, r: RoleModel) -> Seq<RoleModel>
    decreases s.len(),
{
    if s.len() == 0 || s.last().power >= r.power {
        s.push(r)
    } else {
        insert_by_power(s.drop_last(), r).push(s.last())
    }
}

/// Roles in stable order of power, strongest first.
pub open spec fn by_power(rs: Seq<RoleModel>) -> Seq<RoleModel>
    decreases rs.len(),
{
    if rs.len() == 0 {
        rs
    } else {
        insert_by_power(by_power(rs.drop_last()), rs.last())
    }
}

/// The roles that a server-list body lists under `roles`, strongest first.
pub open spec fn listed_roles(body: Seq<(Seq<char>, Json)>) -> Seq<RoleModel> {
    match crate::lookup::field(body, "roles"@) {
        Some(Json::Object(es)) => by_power(roles_of(es)),
        _ => Seq::empty(),
    }
}

pub open spec fn role_views(s: Seq<RoleInfo>) -> Seq<RoleModel> {
    s.map_values(|r: RoleInfo| r@)
}

proof fn lemma_insert_power_at(s: Seq<RoleModel>, r: RoleModel, p: int)
    requires
        0 <= p <= s.len(),
        forall|k: int| p <= k < s.len() ==> #[trigger] s[k].power < r.power,
        p == 0 || s[p - 1].power >= r.power,
    ensures
        insert_by_power(s, r) == s.take(p).push(r) + s.skip(p),
    decreases s.len(),
{
    if s.len() == p {
        assert(s.take(p) =~= s);
        assert(s.take(p).push(r) + s.skip(p) =~= s.push(r));
    } else {
        let d = s.drop_last();
        assert(s.last().power < r.power);
        assert forall|k: int| p <= k < d.len() implies #[trigger] d[k].power < r.power by {
            assert(d[k] == s[k]);
        }
        if p > 0 {
            assert(d[p - 1] == s[p - 1]);
        }
        lemma_insert_power_at(d, r, p);
        assert(d.take(p) =~= s.take(p));
        assert((d.take(p).push(r) + d.skip(p)).push(s.last()) =~= s.take(p).push(r) + s.skip(p));
    }
}

fn text_or_empty(v: Option<&Value>) -> (r: String)
    ensures
        r@ == match v {
            Some(Value::Str(s)) => s@,
            _ => Seq::<char>::empty(),
        },
{
    match v {
        Some(Value::Str(s)) => s.clone(),
        _ => String::new(),
    }
}

fn role_from(v: &Value) -> (r: RoleInfo)
    ensures
        r@ == role_of(v@),
{
    let role_id = match crate::lookup::as_u64(crate::lookup::get_member(v, "roleId")) {
        Some(x) => x,
        None => 0,
    };
    let name = text_or_empty(crate::lookup::get_member(v, "name"));
    let server_id = match crate::lookup::as_u64(crate::lookup::get_member(v, "serverId")) {
        Some(x) => x,
        None => 0,
    };
    let power = match crate::lookup::as_u64(crate::lookup::get_member(v, "power")) {
        Some(x) => x,
        None => 0,
    };
    let level = match crate::lookup::as_u64(crate::lookup::get_member(v, "level")) {
        Some(x) => x as u32,
        None => 0,
    };
    RoleInfo { role_id, name, server_id, power, level }
}

/// Places a role after the last one whose power is at least its own.
fn insert_role(out: &mut Vec<RoleInfo>, r: RoleInfo)
    ensures
        role_views(final(out)@) == insert_by_power(role_views(old(out)@), r@),
{
    let ghost before = role_views(out@);
    let mut p: usize = out.len();
    while p > 0 && out[p - 1].power < r.power
        invariant
            p <= out@.len(),
            before == role_views(out@),
            forall|k: int| p <= k < out@.len() ==> #[trigger] out@[k].power < r.power,
        decreases p,
    {
        p = p - 1;
    }
    proof {
        assert forall|k: int| p <= k < before.len() implies #[trigger] before[k].power < r.power by {
            assert(before[k] == out@[k]@);
        }
        if p > 0 {
            assert(before[p - 1] == out@[p - 1]@);
        }
        lemma_insert_power_at(before, r@, p as int);
    }
    let ghost old_out = out@;
    out.insert(p as usize, r);
    assert(role_views(out@) =~= before.take(p as int).push(r@) + before.skip(p as int)) by {
        assert forall|k: int| 0 <= k < out@.len() implies #[trigger] role_views(out@)[k] == (before.take(
            p as int,
        ).push(r@) + before.skip(p as int))[k] by {
            if k < p {
                assert(out@[k] == old_out[k]);
            } else if k > p {
                assert(out@[k] == old_out[k - 1]);
            }
        }
    }
}

/// The client core. The network side lives with the caller; this holds the
/// computations around it.
pub struct KocCore;

impl KocCore {
    pub fn new() -> (r: Self) {
        KocCore
    }

    /// A token's id: the MD5 digest of its binary, in lower-case hex.
    pub fn get_token_id(bin_data: &[u8]) -> (r: String)
        ensures
            r@ == hex_text(md5_digest(bin_data@)),
    {
        let d = md5_of(bin_data);
        hex_lower(d.as_slice())
    }

    /// The fields of a token binary: the body's when the body is an object,
    /// else the message's own.
    pub fn parse_bin(&self, bin_data: &[u8]) -> (r: Result<Vec<(String, Value)>, String>)
        ensures
            match parse_outcome(bin_data@, CLIENT_MAX_WIRE_SIZE, crate::crypto::DEFAULT_MAX_DECOMPRESSED_SIZE, client_limits()) {
                Ok(es) => r matches Ok(d) && model_entries(d@) == match crate::lookup::field(es, seq!['b', 'o', 'd', 'y']) {
                    Some(Json::Object(b)) => b,
                    _ => es,
                },
                Err(e) => r matches Err(x) && x@ == e,
            },
    {
        match parse_message(bin_data) {
            Ok(msg) => Ok(crate::value::copy_entries(msg.get_data())),
            Err(e) => Err(e),
        }
    }

    /// Encodes fields as a token binary (BON, then the `x` cipher).
    pub fn encode_bin(&self, data: &Vec<(String, Value)>) -> (r: Result<Vec<u8>, String>)
        requires
            crate::bon::encodable(Json::Object(model_entries(data@))),
        ensures
            r matches Ok(bytes) && exists|m: u8, w: u32|
                2 <= m < 250 && bytes@ == crate::crypto::x_frame(
                    crate::bon::bon_bytes(Json::Object(model_entries(data@))),
                    m,
                    w,
                ),
    {
        crate::protocol::create_message(data, None)
    }

    /// The roles of a server-list answer as it came over the wire.
    pub fn roles_from_response(&self, response: &[u8]) -> (r: Result<Vec<RoleInfo>, String>)
        ensures
            match parse_outcome(response@, CLIENT_MAX_WIRE_SIZE, crate::crypto::DEFAULT_MAX_DECOMPRESSED_SIZE, client_limits()) {
                Err(e) => r matches Err(x) && x@ == e,
                Ok(es) => match crate::protocol::body_outcome(es, client_limits()) {
                    Ok(Some(Json::Object(body))) => r matches Ok(v) && role_views(v@) == listed_roles(body),
                    Ok(Some(_)) => r matches Err(e) && e@ == "Body is not an object"@,
                    _ => r matches Err(e) && e@ == "Failed to decode body"@,
                },
            },
    {
        match parse_message(response) {
            Ok(msg) => self.server_roles(&msg),
            Err(e) => Err(e),
        }
    }

    /// The token fields of a login answer as it came over the wire, with the
    /// session of a token made at `now_ms` from two random draws.
    pub fn token_from_response(&self, response: &[u8], now_ms: u64, d1: u64, d2: u64) -> (r: Result<Vec<(String, Value)>, String>)
        requires
            now_ms <= 92_233_720_368_547_757,
        ensures
            match parse_outcome(response@, CLIENT_MAX_WIRE_SIZE, crate::crypto::DEFAULT_MAX_DECOMPRESSED_SIZE, client_limits()) {
                Err(e) => r matches Err(x) && x@ == e,
                Ok(es) => match token_source_of(es, client_limits()) {
                    Ok(t) => r matches Ok(v) && model_entries(v@) == with_session(t, now_ms, d1, d2),
                    Err(e) => r matches Err(x) && x@ == e,
                },
            },
    {
        match parse_message(response) {
            Ok(msg) => {
                match token_source(&msg) {
                    Ok(mut data) => {
                        add_session_fields(&mut data, now_ms, d1, d2);
                        Ok(data)
                    },
                    Err(e) => Err(e),
                }
            },
            Err(e) => Err(e),
        }
    }

    /// The roles that a server-list answer lists, strongest first (a stable
    /// order); an answer whose body is not an object is refused.
    pub fn server_roles(&self, msg: &ProtoMsg) -> (r: Result<Vec<RoleInfo>, String>)
        ensures
            match crate::protocol::body_outcome(msg.entries(), msg.limits()) {
                Ok(Some(Json::Object(body))) => r matches Ok(v) && role_views(v@) == listed_roles(body),
                Ok(Some(_)) => r matches Err(e) && e@ == "Body is not an object"@,
                _ => r matches Err(e) && e@ == "Failed to decode body"@,
            },
    {
        let body = match msg.raw_data() {
            Some(b) => b,
            None => {
                return Err(String::from_str("Failed to decode body"));
            },
        };
        let es = match &body {
            Value::Object(es) => es,
            _ => {
                return Err(String::from_str("Body is not an object"));
            },
        };
        let mut out: Vec<RoleInfo> = Vec::new();
        let roles = match crate::lookup::entries_get(es, "roles") {
            Some(Value::Object(rs)) => rs,
            _ => {
                assert(role_views(out@) =~= Seq::<RoleModel>::empty());
                return Ok(out);
            },
        };
        let ghost m = model_entries(roles@);
        proof {
            crate::value::lemma_model_entries_len(roles@);
        }
        let mut i: usize = 0;
        while i < roles.len()
            invariant
                i <= roles@.len(),
                m == model_entries(roles@),
                m.len() == roles@.len(),
                forall|q: int| 0 <= q < roles@.len() ==> #[trigger] m[q] == (roles@[q].0@, roles@[q].1@),
                role_views(out@) == by_power(roles_of(m.take(i as int))),
            decreases roles@.len() - i,
        {
            proof {
                assert(m.take(i + 1).drop_last() =~= m.take(i as int));
                assert(m.take(i + 1).last() == m[i as int]);
            }
            let v = &roles[i].1;
            let ghost prev = roles_of(m.take(i as int));
            assert(m[i as int].1 == v@);
            match v {
                Value::Object(_) => {
                    let role = role_from(v);
                    insert_role(&mut out, role);
                    assert(roles_of(m.take(i + 1)) == prev.push(role_of(v@)));
                    assert(prev.push(role_of(v@)).drop_last() =~= prev);
                },
                _ => {
                    assert(roles_of(m.take(i + 1)) == prev);
                },
            }
            i = i + 1;
        }
        assert(m.take(roles@.len() as int) =~= m);
        Ok(out)
    }
}


// ------------------------------------------------------------------
// Session fields
// ------------------------------------------------------------------

/// What a token is made of: the body when it reads as an object, else the
/// message's fields (or the body's, when the body is an object); a message
/// whose body cannot be read, or has none, is refused.
pub open spec fn token_source_of(fields: Seq<(Seq<char>, Json)>, lim: crate::bon::BonDecodeLimits) -> Result<
    Seq<(Seq<char>, Json)>,
    Seq<char>,
> {
    match crate::protocol::body_outcome(fields, lim) {
        Ok(Some(Json::Object(es))) => Ok(es),
        Ok(Some(_)) => Ok(
            match crate::lookup::field(fields, seq!['b', 'o', 'd', 'y']) {
                Some(Json::Object(b)) => b,
                _ => fields,
            },
        ),
        _ => Err("Failed to decode body"@),
    }
}

/// The fields a token is made of, taken from the login answer.
pub fn token_source(msg: &ProtoMsg) -> (r: Result<Vec<(String, Value)>, String>)
    ensures
        match token_source_of(msg.entries(), msg.limits()) {
            Ok(es) => r matches Ok(v) && model_entries(v@) == es,
            Err(e) => r matches Err(x) && x@ == e,
        },
{
    match msg.raw_data() {
        Some(Value::Object(es)) => Ok(es),
        Some(_) => Ok(crate::value::copy_entries(msg.get_data())),
        None => Err(String::from_str("Failed to decode body")),
    }
}

/// The session id of a token made at `now_ms`: the milliseconds times 100
/// plus a draw below 100.
pub open spec fn session_id(now_ms: u64, draw: u64) -> int {
    now_ms * 100 + draw % 100
}

/// The connection id of a token made at `now_ms`: the milliseconds plus a
/// draw below 10.
pub open spec fn connection_id(now_ms: u64, draw: u64) -> int {
    now_ms + draw % 10
}

/// The token fields with the session set: `sessId`, `connId` and
/// `isRestore` (0), each inserted as a map inserts.
pub open spec fn with_session(es: Seq<(Seq<char>, Json)>, now_ms: u64, d1: u64, d2: u64) -> Seq<(Seq<char>, Json)> {
    let a = crate::bon::obj_insert(es, "sessId"@, Json::Int(session_id(now_ms, d1) as i64));
    let b = crate::bon::obj_insert(a, "connId"@, Json::Int(connection_id(now_ms, d2) as i64));
    crate::bon::obj_insert(b, "isRestore"@, Json::Int(0))
}

/// Adds the session to a token's fields, from the time in milliseconds and
/// two random draws.
pub fn add_session_fields(data: &mut Vec<(String, Value)>, now_ms: u64, d1: u64, d2: u64)
    requires
        now_ms <= 92_233_720_368_547_757,
    ensures
        model_entries(final(data)@) == with_session(model_entries(old(data)@), now_ms, d1, d2),
{
    let sess = now_ms * 100 + d1 % 100;
    let conn = now_ms + d2 % 10;
    crate::bon::BonDecoder::insert_entry(data, String::from_str("sessId"), Value::Int(sess as i64));
    crate::bon::BonDecoder::insert_entry(data, String::from_str("connId"), Value::Int(conn as i64));
    crate::bon::BonDecoder::insert_entry(data, String::from_str("isRestore"), Value::Int(0));
}

/// Points a token's fields at another server: `serverId` is set to it.
pub fn set_server_id(fields: &mut Vec<(String, Value)>, server_id: u64)
    requires
        server_id <= i64::MAX,
    ensures
        model_entries(final(fields)@) == crate::bon::obj_insert(
            model_entries(old(fields)@),
            "serverId"@,
            Json::Int(server_id as i64),
        ),
{
    crate::bon::BonDecoder::insert_entry(fields, String::from_str("serverId"), Value::Int(server_id as i64));
}

/// A draw taken from the clock's nanoseconds, as the session ids use it.
pub fn clock_draw(nanos: u32) -> (r: u64)
    requires
        nanos < 1_000_000_000,
    ensures
        r == nanos * 1103515245 + 12345,
{
    assert(nanos * 1103515245 + 12345 < 0x1_0000_0000_0000_0000) by (nonlinear_arith)
        requires
            nanos < 1_000_000_000,
    ;
    (nanos as u64) * 1103515245 + 12345
}

/// Reading a key after inserting it gives the inserted value, and the other
/// keys read as before.
pub proof fn law_insert_reads_back(es: Seq<(Seq<char>, Json)>, k: Seq<char>, v: Json, other: Seq<char>)
    requires
        other != k,
    ensures
        crate::lookup::field(crate::bon::obj_insert(es, k, v), k) == Some(v),
        crate::lookup::field(crate::bon::obj_insert(es, k, v), other) == crate::lookup::field(es, other),
{
    lemma_find_after_insert(es, k, v, k);
    lemma_find_after_insert(es, k, v, other);
}

proof fn lemma_find_key_range(es: Seq<(Seq<char>, Json)>, k: Seq<char>)
    ensures
        -1 <= crate::bon::find_key(es, k) < es.len(),
        crate::bon::find_key(es, k) >= 0 ==> es[crate::bon::find_key(es, k)].0 == k,
        crate::bon::find_key(es, k) == -1 ==> forall|q: int| 0 <= q < es.len() ==> #[trigger] es[q].0 != k,
        forall|q: int| crate::bon::find_key(es, k) < q < es.len() ==> #[trigger] es[q].0 != k,
    decreases es.len(),
{
    if es.len() > 0 {
        lemma_find_key_range(es.drop_last(), k);
        assert forall|q: int| 0 <= q < es.len() - 1 implies #[trigger] es[q] == es.drop_last()[q] by {}
    }
}

proof fn lemma_find_key_unique(es: Seq<(Seq<char>, Json)>, k: Seq<char>, i: int)
    requires
        0 <= i < es.len(),
        es[i].0 == k,
        forall|q: int| i < q < es.len() ==> #[trigger] es[q].0 != k,
    ensures
        crate::bon::find_key(es, k) == i,
    decreases es.len(),
{
    if es.len() - 1 > i {
        assert(es.last().0 != k);
        assert forall|q: int| i < q < es.len() - 1 implies #[trigger] es.drop_last()[q].0 != k by {
            assert(es.drop_last()[q] == es[q]);
        }
        lemma_find_key_unique(es.drop_last(), k, i);
    }
}

proof fn lemma_find_key_absent(es: Seq<(Seq<char>, Json)>, k: Seq<char>)
    requires
        forall|q: int| 0 <= q < es.len() ==> #[trigger] es[q].0 != k,
    ensures
        crate::bon::find_key(es, k) == -1,
    decreases es.len(),
{
    if es.len() > 0 {
        assert forall|q: int| 0 <= q < es.len() - 1 implies #[trigger] es.drop_last()[q].0 != k by {
            assert(es.drop_last()[q] == es[q]);
        }
        lemma_find_key_absent(es.drop_last(), k);
    }
}

proof fn lemma_find_after_insert(es: Seq<(Seq<char>, Json)>, k: Seq<char>, v: Json, q: Seq<char>)
    ensures
        crate::lookup::field(crate::bon::obj_insert(es, k, v), q) == if q == k {
            Some(v)
        } else {
            crate::lookup::field(es, q)
        },
{
    let n = crate::bon::obj_insert(es, k, v);
    let i = crate::bon::find_key(es, k);
    lemma_find_key_range(es, k);
    lemma_find_key_range(es, q);
    if i >= 0 {
        assert(n == es.update(i, (k, v)));
        if q == k {
            lemma_find_key_unique(n, k, i);
        } else {
            let j = crate::bon::find_key(es, q);
            if j >= 0 {
                assert(j != i);
                assert forall|p: int| j < p < n.len() implies #[trigger] n[p].0 != q by {
                    if p != i {
                        assert(n[p] == es[p]);
                    }
                }
                lemma_find_key_unique(n, q, j);
            } else {
                assert forall|p: int| 0 <= p < n.len() implies #[trigger] n[p].0 != q by {
                    if p != i {
                        assert(n[p] == es[p]);
                    }
                }
                lemma_find_key_absent(n, q);
            }
        }
    } else {
        assert(n == es.push((k, v)));
        if q == k {
            lemma_find_key_unique(n, k, es.len() as int);
        } else {
            assert(n.drop_last() =~= es);
        }
    }
}

} // verus!
