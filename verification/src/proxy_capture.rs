//! Captured relay frames: what a frame's payload decodes to, how a response
//! is matched to its request, which fields are redacted, and how capture
//! lines are read within a size bound.

use vstd::prelude::*;
use crate::value::{Value, Json};
use crate::b64::{b64_encode, standard_error_text};
use crate::protocol::{field_text, field_u32, field_code, body_outcome, parse_outcome, ProtoMsg};
use crate::bon::relay_limits;
use crate::crypto::DEFAULT_MAX_DECOMPRESSED_SIZE;
use crate::protocol::DEFAULT_MAX_WIRE_SIZE;
use crate::text::decimal;

verus! {

/// The version of the capture record format.
pub const CAPTURE_SCHEMA_VERSION: u8 = 1;

/// The longest capture line read (48 MiB).
pub const MAX_CAPTURE_LINE_BYTES: usize = 50331648;

/// The longest command name kept, in bytes.
pub const MAX_COMMAND_BYTES: usize = 256;

/// The longest connection id a capture record may carry, in bytes.
pub const MAX_CONNECTION_ID_BYTES: usize = 256;

/// How many requests may wait for their response before old ones are
/// dropped.
pub const MAX_PENDING: usize = 10000;

/// How long a request may wait for its response once the table is full.
pub const PENDING_WINDOW_MS: u64 = 600000;

/// Which way a frame went.
#[derive(Clone, Copy, PartialEq, Eq, Structural)]
pub enum Direction {
    ClientToServer,
    ServerToClient,
}

/// The kind of a websocket frame.
#[derive(Clone, Copy, PartialEq, Eq, Structural)]
pub enum FrameOpcode {
    Binary,
    Text,
    Ping,
    Pong,
    Close,
    Frame,
}

/// How a payload is wrapped.
#[derive(Clone, Copy, PartialEq, Eq, Structural)]
pub enum PayloadEncoding {
    X,
    Lx,
    Plain,
}

/// A captured frame.
pub struct CaptureRecord {
    pub version: u8,
    pub connection_id: String,
    pub frame_index: u64,
    pub timestamp_ms: u64,
    pub direction: Direction,
    pub opcode: FrameOpcode,
    pub payload_base64: Option<String>,
}

/// What the payload of a captured frame is: nothing for a frame that is not
/// binary, the decoded bytes of a binary one, or an error.
pub open spec fn payload_outcome(opcode: FrameOpcode, payload: Option<Seq<char>>) -> Result<Option<Seq<u8>>, Seq<char>> {
    if opcode != FrameOpcode::Binary {
        Ok(None)
    } else {
        match payload {
            None => Err("binary capture record has no payload"@),
            Some(t) => {
                let b = vstd::utf8::encode_utf8(t);
                if exists|d: Seq<u8>| b64_encode(d) == b {
                    Ok(Some(choose|d: Seq<u8>| b64_encode(d) == b))
                } else {
                    Err("invalid capture payload base64: "@ + standard_error_text(b))
                }
            },
        }
    }
}

pub open spec fn opt_text(s: Option<String>) -> Option<Seq<char>> {
    match s {
        Some(x) => Some(x@),
        None => None,
    }
}

/// Two byte sequences with the same base64 encoding are the same.
proof fn lemma_b64_injective(a: Seq<u8>, b: Seq<u8>)
    requires
        b64_encode(a) == b64_encode(b),
    ensures
        a == b,
{
    crate::b64::law_b64_roundtrip(a);
    crate::b64::law_b64_roundtrip(b);
    crate::b64::lemma_encode_ascii(a);
    crate::b64::lemma_encode_ascii(b);
    crate::b64::lemma_ascii_utf8(b64_encode(a));
}

impl CaptureRecord {
    /// The bytes of a binary frame; nothing for other frames.
    pub fn binary_payload(&self) -> (r: Result<Option<Vec<u8>>, String>)
        ensures
            match payload_outcome(self.opcode, opt_text(self.payload_base64)) {
                Ok(Some(d)) => r matches Ok(Some(v)) && v@ == d,
                Ok(None) => r matches Ok(None),
                Err(e) => r matches Err(x) && x@ == e,
            },
    {
        if self.opcode != FrameOpcode::Binary {
            return Ok(None);
        }
        let encoded = match &self.payload_base64 {
            Some(t) => t.as_str(),
            None => {
                return Err(String::from_str("binary capture record has no payload"));
            },
        };
        match crate::b64::standard_decode(encoded) {
            Ok(d) => {
                proof {
                    let b = vstd::utf8::encode_utf8(encoded@);
                    let c = choose|x: Seq<u8>| b64_encode(x) == b;
                    lemma_b64_injective(c, d@);
                }
                Ok(Some(d))
            },
            Err(e) => {
                let mut m = String::from_str("invalid capture payload base64: ");
                m.append(e.as_str());
                Err(m)
            },
        }
    }
}

/// How a payload is wrapped: `px` starts an `x` payload, `pl` an `lx` one.
pub open spec fn encoding_of(p: Seq<u8>) -> PayloadEncoding {
    if p.len() >= 2 && p[0] == 112 && p[1] == 120 {
        PayloadEncoding::X
    } else if p.len() >= 2 && p[0] == 112 && p[1] == 108 {
        PayloadEncoding::Lx
    } else {
        PayloadEncoding::Plain
    }
}

pub fn detect_encoding(payload: &[u8]) -> (r: PayloadEncoding)
    ensures
        r == encoding_of(payload@),
{
    if payload.len() >= 2 && payload[0] == 112 && payload[1] == 120 {
        PayloadEncoding::X
    } else if payload.len() >= 2 && payload[0] == 112 && payload[1] == 108 {
        PayloadEncoding::Lx
    } else {
        PayloadEncoding::Plain
    }
}

// ------------------------------------------------------------------
// Redaction
// ------------------------------------------------------------------

/// The keys whose values are redacted, lower case, without `_` or `-`.
pub open spec fn sensitive_words() -> Seq<Seq<char>> {
    seq![
        "token"@,
        "accesstoken"@,
        "refreshtoken"@,
        "session"@,
        "sessionid"@,
        "sessid"@,
        "connid"@,
        "connectionid"@,
        "openid"@,
        "unionid"@,
        "roleid"@,
        "userid"@,
        "accountid"@,
        "deviceid"@,
        "uid"@,
        "name"@,
        "nickname"@,
        "sessionkey"@,
        "sessiontoken"@,
        "authtoken"@,
        "credential"@,
        "authorization"@,
        "password"@,
        "secret"@,
    ]
}

/// Whether a normalized key is one whose value is redacted.
pub open spec fn sensitive(k: Seq<char>) -> bool {
    sensitive_words().contains(k)
}

/// A key as it is compared: ASCII letters in lower case, `_` and `-`
/// dropped.
pub open spec fn normalized_key(k: Seq<char>) -> Seq<char>
    decreases k.len(),
{
    if k.len() == 0 {
        seq![]
    } else {
        let c = k.last();
        if c == '_' || c == '-' {
            normalized_key(k.drop_last())
        } else {
            normalized_key(k.drop_last()).push((crate::text::lower_char())(c))
        }
    }
}

/// Whether a normalized key is one whose value is redacted.
pub fn is_sensitive_key(key: &str) -> (r: bool)
    ensures
        r == sensitive(key@),
{
    let words: [&str; 24] = [
        "token",
        "accesstoken",
        "refreshtoken",
        "session",
        "sessionid",
        "sessid",
        "connid",
        "connectionid",
        "openid",
        "unionid",
        "roleid",
        "userid",
        "accountid",
        "deviceid",
        "uid",
        "name",
        "nickname",
        "sessionkey",
        "sessiontoken",
        "authtoken",
        "credential",
        "authorization",
        "password",
        "secret",
    ];
    let ghost ws = words@.map_values(|x: &str| x@);
    assert(ws =~= sensitive_words());
    let mut i: usize = 0;
    while i < 24
        invariant
            i <= 24,
            words@.len() == 24,
            ws == words@.map_values(|x: &str| x@),
            ws == sensitive_words(),
            forall|k: int| 0 <= k < i ==> ws[k] != key@,
        decreases 24 - i,
    {
        if crate::protocol::str_eq(words[i], key) {
            assert(ws[i as int] == key@);
            return true;
        }
        i = i + 1;
    }
    false
}

/// A key normalized for comparison.
pub fn normalize_key(key: &str) -> (r: String)
    ensures
        r@ == normalized_key(key@),
{
    let lower = crate::text::to_ascii_lowercase(key);
    let n = lower.as_str().unicode_len();
    let ghost f = crate::text::lower_char();
    let mut out = String::new();
    let mut i: usize = 0;
    assert(key@.take(0) =~= Seq::<char>::empty());
    while i < n
        invariant
            n == lower@.len(),
            lower@ == key@.map_values(f),
            f == crate::text::lower_char(),
            i <= n,
            out@ == normalized_key(key@.take(i as int)),
        decreases n - i,
    {
        let c = lower.as_str().get_char(i);
        proof {
            assert(key@.take(i + 1).drop_last() =~= key@.take(i as int));
            assert(key@.take(i + 1).last() == key@[i as int]);
            assert(c == f(key@[i as int]));
        }
        let orig = key.get_char(i);
        let ghost prev = out@;
        if orig != '_' && orig != '-' {
            let piece = lower.as_str().substring_char(i, i + 1);
            proof {
                assert(piece@ =~= seq![c]);
            }
            out.append(piece);
            proof {
                assert(out@ =~= prev.push(c));
                assert(normalized_key(key@.take(i + 1)) == normalized_key(key@.take(i as int)).push(f(orig)));
            }
        } else {
            assert(normalized_key(key@.take(i + 1)) == normalized_key(key@.take(i as int)));
        }
        i = i + 1;
    }
    assert(key@.take(n as int) =~= key@);
    out
}

/// A value with every member under a sensitive key replaced by
/// `[REDACTED]`, at any depth.
pub open spec fn redacted(j: Json) -> Json
    decreases j,
{
    match j {
        Json::Object(es) => Json::Object(redacted_entries(es)),
        Json::Array(items) => Json::Array(redacted_items(items)),
        _ => j,
    }
}

pub open spec fn redacted_items(items: Seq<Json>) -> Seq<Json>
    decreases items,
{
    if items.len() == 0 {
        seq![]
    } else {
        redacted_items(items.drop_last()).push(redacted(items.last()))
    }
}

pub open spec fn redacted_entries(es: Seq<(Seq<char>, Json)>) -> Seq<(Seq<char>, Json)>
    decreases es,
{
    if es.len() == 0 {
        seq![]
    } else {
        let (k, v) = es.last();
        redacted_entries(es.drop_last()).push(
            (k, if sensitive(normalized_key(k)) {
                Json::Str("[REDACTED]"@)
            } else {
                redacted(v)
            }),
        )
    }
}

fn redact_copy(value: &Value) -> (r: Value)
    ensures
        r@ == redacted(value@),
    decreases value, 1nat,
{
    match value {
        Value::Object(es) => Value::Object(redact_entries_copy(es)),
        Value::Array(items) => Value::Array(redact_items_copy(items)),
        _ => value.copy(),
    }
}

fn redact_items_copy(items: &Vec<Value>) -> (out: Vec<Value>)
    ensures
        crate::value::model_items(out@) == redacted_items(crate::value::model_items(items@)),
    decreases items, 0nat,
{
    let ghost m = crate::value::model_items(items@);
    proof {
        crate::value::lemma_model_items_len(items@);
    }
    let mut out: Vec<Value> = Vec::new();
    let mut i: usize = 0;
    while i < items.len()
        invariant
            i <= items@.len(),
            m == crate::value::model_items(items@),
            m.len() == items@.len(),
            forall|k: int| 0 <= k < items@.len() ==> #[trigger] m[k] == items@[k]@,
            crate::value::model_items(out@) == redacted_items(m.take(i as int)),
        decreases items@.len() - i,
    {
        proof {
            assert(decreases_to!(items => items@));
            assert(decreases_to!(items@ => items@[i as int]));
            assert(m.take(i + 1).drop_last() =~= m.take(i as int));
        }
        let c = redact_copy(&items[i]);
        let ghost before = out@;
        out.push(c);
        proof {
            assert(out@.drop_last() =~= before);
        }
        i = i + 1;
    }
    assert(m.take(m.len() as int) =~= m);
    out
}

fn redact_entries_copy(es: &Vec<(String, Value)>) -> (out: Vec<(String, Value)>)
    ensures
        crate::value::model_entries(out@) == redacted_entries(crate::value::model_entries(es@)),
    decreases es, 0nat,
{
    let ghost m = crate::value::model_entries(es@);
    proof {
        crate::value::lemma_model_entries_len(es@);
    }
    let mut out: Vec<(String, Value)> = Vec::new();
    let mut i: usize = 0;
    while i < es.len()
        invariant
            i <= es@.len(),
            m == crate::value::model_entries(es@),
            m.len() == es@.len(),
            forall|k: int| 0 <= k < es@.len() ==> #[trigger] m[k] == (es@[k].0@, es@[k].1@),
            crate::value::model_entries(out@) == redacted_entries(m.take(i as int)),
        decreases es@.len() - i,
    {
        proof {
            assert(decreases_to!(es => es@));
            assert(decreases_to!(es@ => es@[i as int]));
            assert(decreases_to!(es@[i as int] => es@[i as int].1));
            assert(m.take(i + 1).drop_last() =~= m.take(i as int));
        }
        let key = es[i].0.clone();
        let normalized = normalize_key(key.as_str());
        let v = if is_sensitive_key(normalized.as_str()) {
            Value::Str(String::from_str("[REDACTED]"))
        } else {
            redact_copy(&es[i].1)
        };
        let ghost before = out@;
        let ghost kv = (key@, v@);
        out.push((key, v));
        proof {
            assert(out@.drop_last() =~= before);
            assert(m.take(i + 1).last() == m[i as int]);
            assert(crate::value::model_entries(out@) == crate::value::model_entries(before).push(kv));
            assert(redacted_entries(m.take(i + 1)) == redacted_entries(m.take(i as int)).push(kv));
        }
        i = i + 1;
    }
    assert(m.take(m.len() as int) =~= m);
    out
}

/// Replaces, at any depth, every member under a sensitive key by
/// `[REDACTED]`.
pub fn redact_value(value: &mut Value)
    ensures
        final(value)@ == redacted(old(value)@),
{
    let r = redact_copy(value);
    *value = r;
}

// ------------------------------------------------------------------
// Decoding a frame
// ------------------------------------------------------------------

/// What a captured frame shows.
pub struct DecodedEvent {
    pub connection_id: String,
    pub frame_index: u64,
    pub timestamp_ms: u64,
    pub direction: Direction,
    pub opcode: FrameOpcode,
    pub wire_size: usize,
    pub encoding: Option<PayloadEncoding>,
    pub cmd: Option<String>,
    pub seq: u32,
    pub ack: u32,
    pub resp: u32,
    pub code: Option<i32>,
    pub body: Option<Value>,
    pub matched_request: Option<String>,
    pub latency_ms: Option<u64>,
    pub decode_error: Option<String>,
    pub body_decode_error: Option<String>,
}

/// The model of what a frame shows: the fields the payload decides.
pub struct EventModel {
    pub wire_size: nat,
    pub encoding: Option<PayloadEncoding>,
    pub cmd: Option<Seq<char>>,
    pub seq: u32,
    pub ack: u32,
    pub resp: u32,
    pub code: Option<i32>,
    pub body: Option<Json>,
    pub decode_error: Option<Seq<char>>,
    pub body_decode_error: Option<Seq<char>>,
}

/// Nothing decoded.
pub open spec fn blank_model() -> EventModel {
    EventModel {
        wire_size: 0,
        encoding: None,
        cmd: None,
        seq: 0,
        ack: 0,
        resp: 0,
        code: None,
        body: None,
        decode_error: None,
        body_decode_error: None,
    }
}

/// The message for a command name over the length bound.
pub open spec fn long_command_message(len: nat) -> Seq<char> {
    "command exceeds limit: "@ + decimal(len) + " > "@ + decimal(MAX_COMMAND_BYTES as nat) + " bytes"@
}

/// What the fields of a decoded message show.
pub open spec fn message_model(p: Seq<u8>, es: Seq<(Seq<char>, Json)>) -> EventModel {
    let (cmd, cmd_error) = match field_text(es, "cmd"@) {
        Some(c) => {
            let n = vstd::utf8::encode_utf8(c).len();
            if n > MAX_COMMAND_BYTES {
                (None, Some(long_command_message(n)))
            } else {
                (Some(c), None)
            }
        },
        None => (None, None),
    };
    let (body, body_error) = match body_outcome(es, relay_limits()) {
        Ok(b) => (b, None),
        Err(e) => (None, Some(e)),
    };
    EventModel {
        wire_size: p.len(),
        encoding: Some(encoding_of(p)),
        cmd,
        seq: field_u32(es, "seq"@),
        ack: field_u32(es, "ack"@),
        resp: field_u32(es, "resp"@),
        code: field_code(es),
        body,
        decode_error: cmd_error,
        body_decode_error: body_error,
    }
}

/// What a captured frame shows, before it is matched with a request.
pub open spec fn frame_model(opcode: FrameOpcode, payload: Option<Seq<char>>) -> EventModel {
    match payload_outcome(opcode, payload) {
        Err(e) => EventModel { decode_error: Some(e), ..blank_model() },
        Ok(None) => blank_model(),
        Ok(Some(p)) => match parse_outcome(p, DEFAULT_MAX_WIRE_SIZE, DEFAULT_MAX_DECOMPRESSED_SIZE, relay_limits()) {
            Err(e) => EventModel {
                wire_size: p.len(),
                encoding: Some(encoding_of(p)),
                decode_error: Some(e),
                ..blank_model()
            },
            Ok(es) => message_model(p, es),
        },
    }
}

pub open spec fn opt_json(v: Option<Value>) -> Option<Json> {
    match v {
        Some(x) => Some(x@),
        None => None,
    }
}

impl DecodedEvent {
    /// The fields of the event that the payload decides.
    pub open spec fn model(&self) -> EventModel {
        EventModel {
            wire_size: self.wire_size as nat,
            encoding: self.encoding,
            cmd: opt_text(self.cmd),
            seq: self.seq,
            ack: self.ack,
            resp: self.resp,
            code: self.code,
            body: opt_json(self.body),
            decode_error: opt_text(self.decode_error),
            body_decode_error: opt_text(self.body_decode_error),
        }
    }
}

fn blank_event(record: &CaptureRecord) -> (e: DecodedEvent)
    ensures
        e.model() == blank_model(),
        e.connection_id@ == record.connection_id@,
        e.frame_index == record.frame_index,
        e.timestamp_ms == record.timestamp_ms,
        e.direction == record.direction,
        e.opcode == record.opcode,
        e.matched_request is None,
        e.latency_ms is None,
{
    DecodedEvent {
        connection_id: record.connection_id.clone(),
        frame_index: record.frame_index,
        timestamp_ms: record.timestamp_ms,
        direction: record.direction,
        opcode: record.opcode,
        wire_size: 0,
        encoding: None,
        cmd: None,
        seq: 0,
        ack: 0,
        resp: 0,
        code: None,
        body: None,
        matched_request: None,
        latency_ms: None,
        decode_error: None,
        body_decode_error: None,
    }
}

/// Decodes a captured frame: its payload, the message it carries and the
/// message's body, each with its error.
pub fn decode_record(record: &CaptureRecord) -> (e: DecodedEvent)
    ensures
        e.model() == frame_model(record.opcode, opt_text(record.payload_base64)),
        e.connection_id@ == record.connection_id@,
        e.frame_index == record.frame_index,
        e.timestamp_ms == record.timestamp_ms,
        e.direction == record.direction,
        e.opcode == record.opcode,
        e.matched_request is None,
        e.latency_ms is None,
{
    let mut event = blank_event(record);
    let payload = match record.binary_payload() {
        Ok(Some(p)) => p,
        Ok(None) => {
            return event;
        },
        Err(error) => {
            event.decode_error = Some(error);
            return event;
        },
    };
    event.wire_size = payload.len();
    event.encoding = Some(detect_encoding(payload.as_slice()));
    let proto = match crate::protocol::parse_message_limited(
        payload.as_slice(),
        DEFAULT_MAX_WIRE_SIZE,
        DEFAULT_MAX_DECOMPRESSED_SIZE,
    ) {
        Ok(p) => p,
        Err(error) => {
            event.decode_error = Some(error);
            return event;
        },
    };
    fill_from_message(&mut event, &proto, Ghost(payload@));
    event
}

/// The command of a message and the error for one over the length bound.
fn command_fields(cmd: Option<&str>) -> (r: (Option<String>, Option<String>))
    ensures
        match cmd {
            Some(c) => {
                let n = vstd::utf8::encode_utf8(c@).len();
                if n > MAX_COMMAND_BYTES {
                    &&& r.0 is None
                    &&& r.1 matches Some(m) && m@ == long_command_message(n)
                } else {
                    &&& r.0 matches Some(x) && x@ == c@
                    &&& r.1 is None
                }
            },
            None => r.0 is None && r.1 is None,
        },
{
    match cmd {
        Some(c) => {
            let n = c.as_bytes().len();
            if n > MAX_COMMAND_BYTES {
                let mut m = String::from_str("command exceeds limit: ");
                m.append(crate::text::nat_text(n as u64).as_str());
                m.append(" > ");
                m.append(crate::text::nat_text(MAX_COMMAND_BYTES as u64).as_str());
                m.append(" bytes");
                (None, Some(m))
            } else {
                (Some(String::from_str(c)), None)
            }
        },
        None => (None, None),
    }
}

fn fill_from_message(event: &mut DecodedEvent, proto: &ProtoMsg, Ghost(p): Ghost<Seq<u8>>)
    requires
        old(event).wire_size == p.len(),
        old(event).encoding == Some(encoding_of(p)),
        old(event).cmd is None,
        old(event).body is None,
        old(event).decode_error is None,
        old(event).body_decode_error is None,
        proto.limits() == relay_limits(),
    ensures
        final(event).model() == message_model(p, proto.entries()),
        final(event).connection_id == old(event).connection_id,
        final(event).frame_index == old(event).frame_index,
        final(event).timestamp_ms == old(event).timestamp_ms,
        final(event).direction == old(event).direction,
        final(event).opcode == old(event).opcode,
        final(event).matched_request == old(event).matched_request,
        final(event).latency_ms == old(event).latency_ms,
{
    proof {
        reveal_strlit("cmd");
        reveal_strlit("seq");
        reveal_strlit("ack");
        reveal_strlit("resp");
        assert("cmd"@ =~= seq!['c', 'm', 'd']);
        assert("seq"@ =~= seq!['s', 'e', 'q']);
        assert("ack"@ =~= seq!['a', 'c', 'k']);
        assert("resp"@ =~= seq!['r', 'e', 's', 'p']);
    }
    let (cmd, cmd_error) = command_fields(proto.cmd());
    event.cmd = cmd;
    event.decode_error = cmd_error;
    event.seq = proto.seq();
    event.ack = proto.ack();
    event.resp = proto.resp();
    event.code = proto.code_opt();
    match proto.raw_data_result() {
        Ok(body) => {
            event.body = body;
        },
        Err(error) => {
            event.body_decode_error = Some(error);
        },
    }
}

// ------------------------------------------------------------------
// Matching responses with requests
// ------------------------------------------------------------------

/// A request waiting for its response.
pub struct PendingRequest {
    pub connection_id: String,
    pub seq: u32,
    pub cmd: String,
    pub timestamp_ms: u64,
}

/// A waiting request: connection, sequence number, command and time.
pub type PendingView = (Seq<char>, u32, Seq<char>, u64);

impl View for PendingRequest {
    type V = PendingView;

    open spec fn view(&self) -> PendingView {
        (self.connection_id@, self.seq, self.cmd@, self.timestamp_ms)
    }
}

/// The position of the request waiting on a connection with a sequence
/// number, or -1.
pub open spec fn find_pending(ps: Seq<PendingView>, conn: Seq<char>, n: u32) -> int
    decreases ps.len(),
{
    if ps.len() == 0 {
        -1
    } else if ps.last().0 == conn && ps.last().1 == n {
        ps.len() - 1
    } else {
        find_pending(ps.drop_last(), conn, n)
    }
}

/// No two requests wait on the same connection with the same number.
pub open spec fn unique_pending(ps: Seq<PendingView>) -> bool {
    forall|i: int, j: int|
        0 <= i < j < ps.len() ==> !(#[trigger] ps[i].0 == #[trigger] ps[j].0 && ps[i].1 == ps[j].1)
}

/// The requests made at or after `cutoff`, in order.
pub open spec fn keep_recent(ps: Seq<PendingView>, cutoff: u64) -> Seq<PendingView>
    decreases ps.len(),
{
    if ps.len() == 0 {
        seq![]
    } else if ps.last().3 >= cutoff {
        keep_recent(ps.drop_last(), cutoff).push(ps.last())
    } else {
        keep_recent(ps.drop_last(), cutoff)
    }
}

pub open spec fn sat_sub(a: u64, b: u64) -> u64 {
    if a >= b {
        (a - b) as u64
    } else {
        0
    }
}

/// The waiting requests once a request is recorded: a full table first
/// drops the requests older than the window, and is emptied if still full;
/// then the request replaces the one waiting under its key, or joins.
pub open spec fn after_request(ps: Seq<PendingView>, entry: PendingView) -> Seq<PendingView> {
    let p1 = if ps.len() >= MAX_PENDING {
        let f = keep_recent(ps, sat_sub(entry.3, PENDING_WINDOW_MS));
        if f.len() >= MAX_PENDING {
            Seq::empty()
        } else {
            f
        }
    } else {
        ps
    };
    let i = find_pending(p1, entry.0, entry.1);
    if i >= 0 {
        p1.update(i, entry)
    } else {
        p1.push(entry)
    }
}

/// Inspects captured frames, matching each response with its request.
pub struct Inspector {
    pending: Vec<PendingRequest>,
    redact_sensitive: bool,
}

impl Inspector {
    /// The requests waiting for their response.
    pub closed spec fn pending(&self) -> Seq<PendingView> {
        self.pending@.map_values(|r: PendingRequest| r@)
    }

    /// Whether bodies are redacted.
    pub closed spec fn redacts(&self) -> bool {
        self.redact_sensitive
    }

    /// Each request waits at most once.
    #[verifier::type_invariant]
    closed spec fn wf(&self) -> bool {
        unique_pending(self.pending@.map_values(|r: PendingRequest| r@))
    }

    pub fn new(redact_sensitive: bool) -> (r: Self)
        ensures
            r.pending() == Seq::<PendingView>::empty(),
            r.redacts() == redact_sensitive,
    {
        let r = Self { pending: Vec::new(), redact_sensitive };
        assert(r.pending() =~= Seq::<PendingView>::empty());
        r
    }

}

proof fn lemma_find_pending(ps: Seq<PendingView>, conn: Seq<char>, n: u32)
    ensures
        -1 <= find_pending(ps, conn, n) < ps.len(),
        find_pending(ps, conn, n) >= 0 ==> ps[find_pending(ps, conn, n)].0 == conn && ps[find_pending(
            ps,
            conn,
            n,
        )].1 == n,
        find_pending(ps, conn, n) == -1 ==> forall|k: int|
            0 <= k < ps.len() ==> !(#[trigger] ps[k].0 == conn && ps[k].1 == n),
    decreases ps.len(),
{
    if ps.len() > 0 {
        lemma_find_pending(ps.drop_last(), conn, n);
        assert forall|k: int| 0 <= k < ps.len() - 1 implies ps.drop_last()[k] == ps[k] by {}
    }
}

proof fn lemma_keep_recent(ps: Seq<PendingView>, cutoff: u64)
    ensures
        keep_recent(ps, cutoff).len() <= ps.len(),
        forall|k: int| 0 <= k < keep_recent(ps, cutoff).len() ==> ps.contains(#[trigger] keep_recent(ps, cutoff)[k]),
        unique_pending(ps) ==> unique_pending(keep_recent(ps, cutoff)),
    decreases ps.len(),
{
    if ps.len() > 0 {
        let p = ps.drop_last();
        lemma_keep_recent(p, cutoff);
        let f = keep_recent(p, cutoff);
        assert forall|k: int| 0 <= k < keep_recent(ps, cutoff).len() implies ps.contains(
            #[trigger] keep_recent(ps, cutoff)[k],
        ) by {
            if k < f.len() {
                assert(keep_recent(ps, cutoff)[k] == f[k]);
                let i = choose|i: int| 0 <= i < p.len() && p[i] == f[k];
                assert(ps[i] == p[i]);
            } else {
                assert(ps[ps.len() - 1] == ps.last());
            }
        }
        if unique_pending(ps) {
            assert(unique_pending(p)) by {
                assert forall|i: int, j: int| 0 <= i < j < p.len() implies !(#[trigger] p[i].0
                    == #[trigger] p[j].0 && p[i].1 == p[j].1) by {
                    assert(p[i] == ps[i] && p[j] == ps[j]);
                }
            }
            if ps.last().3 >= cutoff {
                let g = keep_recent(ps, cutoff);
                assert forall|i: int, j: int| 0 <= i < j < g.len() implies !(#[trigger] g[i].0
                    == #[trigger] g[j].0 && g[i].1 == g[j].1) by {
                    if j == g.len() - 1 {
                        assert(g[i] == f[i]);
                        let a = choose|a: int| 0 <= a < p.len() && p[a] == f[i];
                        assert(ps[a] == p[a]);
                        assert(!(ps[a].0 == ps[ps.len() - 1].0 && ps[a].1 == ps[ps.len() - 1].1));
                    } else {
                        assert(g[i] == f[i] && g[j] == f[j]);
                    }
                }
            }
        }
    }
}

/// The waiting requests stay unique when a request is recorded.
proof fn lemma_after_request_unique(ps: Seq<PendingView>, entry: PendingView)
    requires
        unique_pending(ps),
    ensures
        unique_pending(after_request(ps, entry)),
{
    let p1 = if ps.len() >= MAX_PENDING {
        let f = keep_recent(ps, sat_sub(entry.3, PENDING_WINDOW_MS));
        if f.len() >= MAX_PENDING {
            Seq::empty()
        } else {
            f
        }
    } else {
        ps
    };
    lemma_keep_recent(ps, sat_sub(entry.3, PENDING_WINDOW_MS));
    assert(unique_pending(p1));
    lemma_find_pending(p1, entry.0, entry.1);
    let r = after_request(ps, entry);
    assert forall|i: int, j: int| 0 <= i < j < r.len() implies !(#[trigger] r[i].0 == #[trigger] r[j].0
        && r[i].1 == r[j].1) by {
        let f = find_pending(p1, entry.0, entry.1);
        if f >= 0 {
            if i == f {
                assert(r[j] == p1[j]);
                assert(!(p1[i].0 == p1[j].0 && p1[i].1 == p1[j].1));
            } else if j == f {
                assert(r[i] == p1[i]);
                assert(!(p1[i].0 == p1[j].0 && p1[i].1 == p1[j].1));
            } else {
                assert(r[i] == p1[i] && r[j] == p1[j]);
            }
        } else {
            if j == p1.len() {
                assert(r[i] == p1[i]);
            } else {
                assert(r[i] == p1[i] && r[j] == p1[j]);
            }
        }
    }
}

pub open spec fn pending_view(v: Seq<PendingRequest>) -> Seq<PendingView> {
    v.map_values(|r: PendingRequest| r@)
}

fn find_in(ps: &Vec<PendingRequest>, conn: &str, n: u32) -> (r: Option<usize>)
    ensures
        match r {
            Some(i) => find_pending(pending_view(ps@), conn@, n) == i as int,
            None => find_pending(pending_view(ps@), conn@, n) == -1,
        },
{
    let ghost pv = pending_view(ps@);
    let mut j: usize = ps.len();
    assert(pv.take(j as int) =~= pv);
    while j > 0
        invariant
            j <= ps@.len(),
            pv == pending_view(ps@),
            pv.len() == ps@.len(),
            find_pending(pv, conn@, n) == find_pending(pv.take(j as int), conn@, n),
        decreases j,
    {
        let e = &ps[j - 1];
        proof {
            assert(pv.take(j as int).last() == pv[j - 1]);
            assert(pv[j - 1] == e@);
            assert(pv.take(j as int).drop_last() =~= pv.take(j - 1));
        }
        if e.seq == n && crate::protocol::str_eq(e.connection_id.as_str(), conn) {
            return Some(j - 1);
        }
        j = j - 1;
    }
    None
}

fn copy_request(r: &PendingRequest) -> (c: PendingRequest)
    ensures
        c@ == r@,
{
    PendingRequest {
        connection_id: r.connection_id.clone(),
        seq: r.seq,
        cmd: r.cmd.clone(),
        timestamp_ms: r.timestamp_ms,
    }
}

fn retain_recent(ps: &Vec<PendingRequest>, cutoff: u64) -> (r: Vec<PendingRequest>)
    ensures
        pending_view(r@) == keep_recent(pending_view(ps@), cutoff),
{
    let ghost pv = pending_view(ps@);
    let mut out: Vec<PendingRequest> = Vec::new();
    let mut i: usize = 0;
    while i < ps.len()
        invariant
            i <= ps@.len(),
            pv == pending_view(ps@),
            pv.len() == ps@.len(),
            pending_view(out@) == keep_recent(pv.take(i as int), cutoff),
        decreases ps@.len() - i,
    {
        proof {
            assert(pv.take(i + 1).drop_last() =~= pv.take(i as int));
            assert(pv.take(i + 1).last() == ps@[i as int]@);
        }
        if ps[i].timestamp_ms >= cutoff {
            let c = copy_request(&ps[i]);
            let ghost before = out@;
            out.push(c);
            proof {
                assert(pending_view(out@) =~= pending_view(before).push(ps@[i as int]@));
            }
        }
        i = i + 1;
    }
    assert(pv.take(pv.len() as int) =~= pv);
    out
}

fn record_request(ps: Vec<PendingRequest>, entry: PendingRequest) -> (r: Vec<PendingRequest>)
    ensures
        pending_view(r@) == after_request(pending_view(ps@), entry@),
{
    let ghost pv = pending_view(ps@);
    let p1: Vec<PendingRequest> = if ps.len() >= MAX_PENDING {
        let cutoff = entry.timestamp_ms.saturating_sub(PENDING_WINDOW_MS);
        let f = retain_recent(&ps, cutoff);
        if f.len() >= MAX_PENDING {
            let e: Vec<PendingRequest> = Vec::new();
            assert(pending_view(e@) =~= Seq::<PendingView>::empty());
            e
        } else {
            f
        }
    } else {
        ps
    };
    let mut p1 = p1;
    match find_in(&p1, entry.connection_id.as_str(), entry.seq) {
        Some(i) => {
            let ghost before = p1@;
            proof {
                lemma_find_pending(pending_view(p1@), entry.connection_id@, entry.seq);
            }
            p1.set(i, entry);
            assert(pending_view(p1@) =~= pending_view(before).update(i as int, entry@));
        },
        None => {
            let ghost before = p1@;
            p1.push(entry);
            assert(pending_view(p1@) =~= pending_view(before).push(entry@));
        },
    }
    p1
}

proof fn lemma_remove_unique(ps: Seq<PendingView>, i: int)
    requires
        unique_pending(ps),
        0 <= i < ps.len(),
    ensures
        unique_pending(ps.remove(i)),
{
    let r = ps.remove(i);
    assert forall|a: int, b: int| 0 <= a < b < r.len() implies !(#[trigger] r[a].0 == #[trigger] r[b].0
        && r[a].1 == r[b].1) by {
        let a2 = if a < i { a } else { a + 1 };
        let b2 = if b < i { b } else { b + 1 };
        assert(r[a] == ps[a2] && r[b] == ps[b2]);
    }
}

/// What the inspector records as the text of a request without a command.
pub open spec fn unknown_command() -> Seq<char> {
    "<unknown>"@
}

/// The event's fields as the payload decides them, with the body redacted
/// when the inspector redacts.
pub open spec fn shown_model(m: EventModel, redact: bool) -> EventModel {
    EventModel {
        body: if redact {
            match m.body {
                Some(b) => Some(redacted(b)),
                None => None,
            }
        } else {
            m.body
        },
        ..m
    }
}

impl Inspector {
    /// Decodes a captured frame. A response is matched with the request
    /// waiting on its connection under its number, which then stops
    /// waiting; a request starts waiting under its number.
    pub fn inspect(&mut self, record: &CaptureRecord) -> (e: DecodedEvent)
        ensures
            ({
                let m = frame_model(record.opcode, opt_text(record.payload_base64));
                let ps = old(self).pending();
                let conn = record.connection_id@;
                let ts = record.timestamp_ms;
                let i = find_pending(ps, conn, m.resp);
                let responds = record.direction == Direction::ServerToClient && m.resp > 0 && i >= 0;
                &&& e.model() == shown_model(m, old(self).redacts())
                &&& e.connection_id@ == conn
                &&& e.frame_index == record.frame_index
                &&& e.timestamp_ms == ts
                &&& e.direction == record.direction
                &&& e.opcode == record.opcode
                &&& responds ==> opt_text(e.matched_request) == Some(ps[i].2) && e.latency_ms == Some(
                    sat_sub(ts, ps[i].3),
                )
                &&& !responds ==> e.matched_request is None && e.latency_ms is None
                &&& final(self).pending() == if responds {
                    ps.remove(i)
                } else if record.direction == Direction::ClientToServer && m.seq > 0 {
                    after_request(
                        ps,
                        (
                            conn,
                            m.seq,
                            match m.cmd {
                                Some(c) => c,
                                None => unknown_command(),
                            },
                            ts,
                        ),
                    )
                } else {
                    ps
                }
                &&& final(self).redacts() == old(self).redacts()
            }),
    {
        proof {
            use_type_invariant(&*self);
        }
        let mut event = decode_record(record);
        let ts = record.timestamp_ms;
        let mut ps: Vec<PendingRequest> = Vec::new();
        std::mem::swap(&mut ps, &mut self.pending);
        let ghost pv = pending_view(ps@);
        assert(pv == old(self).pending());
        if record.direction == Direction::ServerToClient && event.resp > 0 {
            match find_in(&ps, record.connection_id.as_str(), event.resp) {
                Some(i) => {
                    proof {
                        lemma_find_pending(pv, record.connection_id@, event.resp);
                    }
                    let req = ps.remove(i);
                    proof {
                        assert(pending_view(ps@) =~= pv.remove(i as int));
                        lemma_remove_unique(pv, i as int);
                    }
                    event.latency_ms = Some(ts.saturating_sub(req.timestamp_ms));
                    event.matched_request = Some(req.cmd);
                },
                None => {},
            }
        }
        if record.direction == Direction::ClientToServer && event.seq > 0 {
            let cmd = match &event.cmd {
                Some(c) => c.clone(),
                None => String::from_str("<unknown>"),
            };
            let entry = PendingRequest {
                connection_id: record.connection_id.clone(),
                seq: event.seq,
                cmd,
                timestamp_ms: ts,
            };
            proof {
                lemma_after_request_unique(pv, entry@);
            }
            ps = record_request(ps, entry);
        }
        self.pending = ps;
        if self.redact_sensitive {
            let redacted_body = match &event.body {
                Some(b) => Some(redact_copy(b)),
                None => None,
            };
            event.body = redacted_body;
        }
        event
    }
}

impl Default for Inspector {
    fn default() -> (r: Self)
        ensures
            r.pending() == Seq::<PendingView>::empty(),
            r.redacts(),
    {
        Self::new(true)
    }
}

/// The command an event is filed under: the matched request's, else its own.
pub open spec fn event_command(e: &DecodedEvent) -> Seq<char> {
    match opt_text(e.matched_request) {
        Some(c) => c,
        None => match opt_text(e.cmd) {
            Some(c) => c,
            None => seq![],
        },
    }
}

/// Whether an event passes the command filter: no filter passes everything,
/// else the filter's wildcards must match the event's command.
pub fn matches_command(pattern: Option<&str>, event: &DecodedEvent) -> (r: bool)
    ensures
        match pattern {
            None => r,
            Some(p) => r == crate::wildcard::greedy(
                vstd::utf8::encode_utf8(p@),
                vstd::utf8::encode_utf8(event_command(event)),
                0,
                0,
                None,
                0,
            ) && (no_star_text(event_command(event)) ==> r == crate::wildcard::glob(
                vstd::utf8::encode_utf8(p@),
                vstd::utf8::encode_utf8(event_command(event)),
            )),
        },
{
    let p = match pattern {
        Some(p) => p,
        None => {
            return true;
        },
    };
    let command: &str = match &event.matched_request {
        Some(c) => c.as_str(),
        None => match &event.cmd {
            Some(c) => c.as_str(),
            None => "",
        },
    };
    proof {
        reveal_strlit("");
    }
    crate::wildcard::wildcard_match(p, command)
}

/// Whether a text's bytes hold no `*`.
pub open spec fn no_star_text(s: Seq<char>) -> bool {
    crate::wildcard::no_star(vstd::utf8::encode_utf8(s))
}

// ------------------------------------------------------------------
// Reading capture lines
// ------------------------------------------------------------------

/// Bytes read in chunks, with a position.
pub struct ByteCursor {
    data: Vec<u8>,
    pos: usize,
}

impl ByteCursor {
    #[verifier::type_invariant]
    closed spec fn pos_in_range(&self) -> bool {
        self.pos <= self.data@.len()
    }

    /// The bytes not yet consumed.
    pub closed spec fn rest(&self) -> Seq<u8> {
        self.data@.skip(self.pos as int)
    }

    pub fn new(data: Vec<u8>) -> (r: Self)
        ensures
            r.rest() == data@,
    {
        let r = ByteCursor { data, pos: 0 };
        assert(r.data@.skip(0) =~= r.data@);
        r
    }

    /// The bytes not yet consumed, all of them at once.
    pub fn fill_buf(&self) -> (r: &[u8])
        ensures
            r@ == self.rest(),
    {
        proof {
            use_type_invariant(self);
        }
        let s = vstd::slice::slice_subrange(self.data.as_slice(), self.pos, self.data.len());
        assert(s@ =~= self.rest());
        s
    }

    /// Marks `n` more bytes as consumed.
    pub fn consume(&mut self, n: usize)
        requires
            n <= old(self).rest().len(),
        ensures
            final(self).rest() == old(self).rest().skip(n as int),
    {
        proof {
            use_type_invariant(&*self);
        }
        let len = self.data.len();
        assert(self.pos + n <= len);
        self.pos = self.pos + n;
        assert(self.data@.skip(self.pos as int) =~= old(self).data@.skip(old(self).pos as int).skip(n as int));
    }
}

/// What to do with the next chunk of a line.
pub enum LineStep {
    /// The stream has ended.
    End,
    /// Take this many bytes; `true` when they end the line.
    Take(usize, bool),
    /// The line would grow over the bound.
    TooLong,
}

/// How many bytes of a chunk belong to the current line: up to and
/// including the first line break, else all of it.
pub open spec fn line_take(avail: Seq<u8>) -> int {
    match crate::text::first_index(avail, 0x0a) {
        Some(i) => i + 1,
        None => avail.len() as int,
    }
}

/// A length, saturated at the largest `usize`.
pub open spec fn sat_len(n: int) -> int {
    if n > usize::MAX {
        usize::MAX as int
    } else {
        n
    }
}

/// The step for a chunk, given how long the line already is.
pub fn line_step(line_len: usize, available: &[u8], max_bytes: usize) -> (r: LineStep)
    ensures
        available@.len() == 0 ==> r is End,
        available@.len() > 0 && sat_len(line_len + line_take(available@)) > max_bytes ==> r is TooLong,
        available@.len() > 0 && sat_len(line_len + line_take(available@)) <= max_bytes ==> (r matches LineStep::Take(
            n,
            complete,
        ) && n == line_take(available@) && complete == (crate::text::first_index(available@, 0x0a) is Some)),
{
    if available.len() == 0 {
        return LineStep::End;
    }
    let (take, complete) = match crate::text::find_byte(available, 0x0a) {
        Some(i) => {
            proof {
                crate::text::lemma_first_index(available@, 0x0a);
            }
            (i + 1, true)
        },
        None => (available.len(), false),
    };
    if line_len.saturating_add(take) > max_bytes {
        LineStep::TooLong
    } else {
        LineStep::Take(take, complete)
    }
}

/// The message for a line over the bound.
pub open spec fn long_line_message(max: usize) -> Seq<char> {
    "capture line exceeds "@ + decimal(max as nat) + " bytes"@
}

/// What reading one line gives: nothing at the end of the stream, the line
/// with its line break, or an error for a line over the bound.
pub open spec fn line_outcome(rest: Seq<u8>, max: usize) -> Result<Option<Seq<u8>>, Seq<char>> {
    if rest.len() == 0 {
        Ok(None)
    } else if line_take(rest) > max {
        Err(long_line_message(max))
    } else {
        Ok(Some(rest.take(line_take(rest))))
    }
}

/// Reads one line of at most `max_bytes` bytes, its line break included.
pub fn read_bounded_line(reader: &mut ByteCursor, max_bytes: usize) -> (r: Result<Option<Vec<u8>>, String>)
    ensures
        match line_outcome(old(reader).rest(), max_bytes) {
            Ok(Some(l)) => (r matches Ok(Some(v)) && v@ == l) && final(reader).rest() == old(
                reader,
            ).rest().skip(l.len() as int),
            Ok(None) => (r matches Ok(None)) && final(reader).rest() == old(reader).rest(),
            Err(e) => (r matches Err(x) && x@ == e) && final(reader).rest() == old(reader).rest(),
        },
{
    let available = reader.fill_buf();
    match line_step(0, available, max_bytes) {
        LineStep::End => Ok(None),
        LineStep::TooLong => {
            let mut m = String::from_str("capture line exceeds ");
            m.append(crate::text::nat_text(max_bytes as u64).as_str());
            m.append(" bytes");
            Err(m)
        },
        LineStep::Take(n, _) => {
            proof {
                match crate::text::first_index(available@, 0x0a) {
                    Some(i) => {
                        crate::text::lemma_first_index(available@, 0x0a);
                    },
                    None => {},
                }
            }
            let line = crate::text::slice_between(available, 0, n);
            assert(line@ =~= available@.take(n as int));
            reader.consume(n);
            Ok(Some(line))
        },
    }
}

/// Whether a capture record read from line `line` may be inspected: it is
/// of the schema version this library writes, and its connection id is at
/// most [`MAX_CONNECTION_ID_BYTES`] bytes long.
pub open spec fn record_check(version: u8, conn: Seq<char>, line: usize) -> Result<(), Seq<char>> {
    if version != CAPTURE_SCHEMA_VERSION {
        Err(
            "unsupported capture schema version "@ + crate::text::decimal(version as nat) + " on line "@
                + crate::text::decimal(line as nat),
        )
    } else if vstd::utf8::encode_utf8(conn).len() > MAX_CONNECTION_ID_BYTES {
        Err("connection_id is too long on line "@ + crate::text::decimal(line as nat))
    } else {
        Ok(())
    }
}

/// Checks a capture record read from line `line` before it is inspected.
pub fn check_capture_record(record: &CaptureRecord, line: usize) -> (r: Result<(), String>)
    ensures
        match record_check(record.version, record.connection_id@, line) {
            Ok(()) => r is Ok,
            Err(e) => r matches Err(x) && x@ == e,
        },
{
    if record.version != CAPTURE_SCHEMA_VERSION {
        let mut m = String::from_str("unsupported capture schema version ");
        m.append(crate::text::nat_text(record.version as u64).as_str());
        m.append(" on line ");
        m.append(crate::text::nat_text(line as u64).as_str());
        return Err(m);
    }
    if record.connection_id.as_str().as_bytes().len() > MAX_CONNECTION_ID_BYTES {
        let mut m = String::from_str("connection_id is too long on line ");
        m.append(crate::text::nat_text(line as u64).as_str());
        return Err(m);
    }
    Ok(())
}

/// Whether an event is shown: a control frame only when control frames are
/// asked for, only frames going the asked way when a way is asked for, and
/// then as the command filter says.
pub fn should_display(
    include_control: bool,
    direction: Option<Direction>,
    pattern: Option<&str>,
    event: &DecodedEvent,
) -> (r: bool)
    ensures
        (!include_control && event.opcode != FrameOpcode::Binary) ==> !r,
        (direction matches Some(d) && event.direction != d) ==> !r,
        !(!include_control && event.opcode != FrameOpcode::Binary) && !(direction matches Some(d)
            && event.direction != d) ==> match pattern {
            None => r,
            Some(p) => r == crate::wildcard::greedy(
                vstd::utf8::encode_utf8(p@),
                vstd::utf8::encode_utf8(event_command(event)),
                0,
                0,
                None,
                0,
            ) && (no_star_text(event_command(event)) ==> r == crate::wildcard::glob(
                vstd::utf8::encode_utf8(p@),
                vstd::utf8::encode_utf8(event_command(event)),
            )),
        },
{
    if !include_control && event.opcode != FrameOpcode::Binary {
        return false;
    }
    if let Some(d) = direction {
        if event.direction != d {
            return false;
        }
    }
    matches_command(pattern, event)
}

/// The requests kept by [`keep_recent`] were all made at or after the
/// cutoff.
proof fn lemma_keep_recent_cutoff(ps: Seq<PendingView>, cutoff: u64)
    ensures
        forall|k: int| 0 <= k < keep_recent(ps, cutoff).len() ==> #[trigger] keep_recent(ps, cutoff)[k].3 >= cutoff,
    decreases ps.len(),
{
    if ps.len() > 0 {
        let f = keep_recent(ps.drop_last(), cutoff);
        lemma_keep_recent_cutoff(ps.drop_last(), cutoff);
        let g = keep_recent(ps, cutoff);
        assert forall|k: int| 0 <= k < g.len() implies #[trigger] g[k].3 >= cutoff by {
            if k < f.len() {
                assert(g[k] == f[k]);
            }
        }
    }
}

/// The table of waiting requests stays bounded: recording a request in a
/// table of at most [`MAX_PENDING`] requests leaves at most that many.
pub proof fn law_pending_bounded(ps: Seq<PendingView>, entry: PendingView)
    requires
        ps.len() <= MAX_PENDING,
    ensures
        after_request(ps, entry).len() <= MAX_PENDING,
{
    lemma_find_pending(ps, entry.0, entry.1);
    let f = keep_recent(ps, sat_sub(entry.3, PENDING_WINDOW_MS));
    lemma_find_pending(f, entry.0, entry.1);
    lemma_find_pending(Seq::<PendingView>::empty(), entry.0, entry.1);
}

/// Stale requests are discarded: once a full table takes a new request,
/// every request that waits, but the new one, was made within the window
/// before it.
pub proof fn law_full_table_drops_stale(ps: Seq<PendingView>, entry: PendingView)
    requires
        ps.len() >= MAX_PENDING,
    ensures
        forall|k: int|
            0 <= k < after_request(ps, entry).len() ==> #[trigger] after_request(ps, entry)[k] == entry
                || after_request(ps, entry)[k].3 >= sat_sub(entry.3, PENDING_WINDOW_MS),
{
    let cutoff = sat_sub(entry.3, PENDING_WINDOW_MS);
    let f = keep_recent(ps, cutoff);
    lemma_keep_recent_cutoff(ps, cutoff);
    lemma_find_pending(f, entry.0, entry.1);
    lemma_find_pending(Seq::<PendingView>::empty(), entry.0, entry.1);
}

} // verus!
