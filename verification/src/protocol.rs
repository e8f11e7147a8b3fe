//! The game message envelope: a BON object with `cmd`, `ack`, `seq`, `time`,
//! `resp`, `code`, `error`, `hint` and a `body`, carried in an `x`, `lx` or
//! plain payload.

use vstd::prelude::*;
use crate::value::{Value, Json, model_entries};
use crate::lookup::field;
use crate::bon::{BonDecodeLimits, bon_decoded, bon_bytes, encodable, client_limits, relay_limits, enc_value};
use crate::bon_laws::{carried, law_bon_roundtrip};
use crate::crypto::{auto_outcome, exceeds_message, x_frame, lx_frame, lz4_frame, Encryptor, DEFAULT_MAX_DECOMPRESSED_SIZE};

verus! {

/// The largest wire message the relay inspects (8 MiB).
pub const DEFAULT_MAX_WIRE_SIZE: usize = 8388608;

/// The largest wire message the client accepts (32 MiB).
pub const CLIENT_MAX_WIRE_SIZE: usize = 33554432;

/// A field read as a `u32`: a non-negative integer in range, else 0.
pub open spec fn field_u32(es: Seq<(Seq<char>, Json)>, k: Seq<char>) -> u32 {
    match field(es, k) {
        Some(Json::Int(i)) => if 0 <= i <= u32::MAX {
            i as u32
        } else {
            0
        },
        _ => 0,
    }
}

/// A field read as text.
pub open spec fn field_text(es: Seq<(Seq<char>, Json)>, k: Seq<char>) -> Option<Seq<char>> {
    match field(es, k) {
        Some(Json::Str(s)) => Some(s),
        _ => None,
    }
}

/// The `code` field, when it is an integer in the `i32` range.
pub open spec fn field_code(es: Seq<(Seq<char>, Json)>) -> Option<i32> {
    match field(es, seq!['c', 'o', 'd', 'e']) {
        Some(Json::Int(i)) => if i32::MIN <= i <= i32::MAX {
            Some(i as i32)
        } else {
            None
        },
        _ => None,
    }
}

/// What reading the body gives: a binary body (carried as base64 text) is
/// decoded as BON; an object body is itself; no body or a null body is
/// nothing; anything else is an error.
pub open spec fn body_outcome(es: Seq<(Seq<char>, Json)>, lim: BonDecodeLimits) -> Result<Option<Json>, Seq<char>> {
    match field(es, seq!['b', 'o', 'd', 'y']) {
        None => Ok(None),
        Some(Json::Str(s)) => match crate::b64::b64_decode(vstd::utf8::encode_utf8(s)) {
            None => Err("body base64 decode failed"@),
            Some(bytes) => match bon_decoded(bytes, lim) {
                Some(j) => Ok(Some(j)),
                None => Err("body BON decode failed"@),
            },
        },
        Some(Json::Object(o)) => Ok(Some(Json::Object(o))),
        Some(Json::Null) => Ok(None),
        Some(_) => Err("body is neither BON binary nor an object"@),
    }
}

/// What parsing a wire message gives: its fields, or the error text.
pub open spec fn parse_outcome(
    d: Seq<u8>,
    max_wire: usize,
    max_plain: usize,
    lim: BonDecodeLimits,
) -> Result<Seq<(Seq<char>, Json)>, Seq<char>> {
    if d.len() > max_wire {
        Err(exceeds_message("wire payload"@, d.len(), max_wire as nat))
    } else {
        match auto_outcome(d, max_plain) {
            Err(e) => Err(e),
            Ok(p) => match bon_decoded(p, lim) {
                None => Err("BON decode failed"@),
                Some(Json::Object(es)) => Ok(es),
                Some(_) => Err("Expected object"@),
            },
        }
    }
}

/// Whether two texts are equal.
pub fn str_eq(a: &str, b: &str) -> (r: bool)
    ensures
        r == (a@ == b@),
{
    let x = a.as_bytes();
    let y = b.as_bytes();
    proof {
        vstd::utf8::encode_utf8_decode_utf8(a@);
        vstd::utf8::encode_utf8_decode_utf8(b@);
        if a@ == b@ {
            assert(x@ =~= y@);
        }
    }
    if x.len() != y.len() {
        return false;
    }
    let mut i: usize = 0;
    while i < x.len()
        invariant
            x.len() == y.len(),
            i <= x.len(),
            a@ == b@ ==> x@ == y@,
            forall|j: int| 0 <= j < i ==> x@[j] == y@[j],
        decreases x.len() - i,
    {
        if x[i] != y[i] {
            return false;
        }
        i = i + 1;
    }
    assert(x@ =~= y@);
    true
}

/// A decoded game message.
pub struct ProtoMsg {
    raw: Vec<(String, Value)>,
    body_decode_limits: BonDecodeLimits,
}

impl ProtoMsg {
    /// The message's fields.
    pub closed spec fn entries(&self) -> Seq<(Seq<char>, Json)> {
        model_entries(self.raw@)
    }

    /// The bounds used to decode the body.
    pub closed spec fn limits(&self) -> BonDecodeLimits {
        self.body_decode_limits
    }

    pub fn new(raw: Vec<(String, Value)>) -> (r: Self)
        ensures
            r.entries() == model_entries(raw@),
            r.limits() == client_limits(),
    {
        Self::with_limits(raw, BonDecodeLimits::default())
    }

    fn with_limits(raw: Vec<(String, Value)>, body_decode_limits: BonDecodeLimits) -> (r: Self)
        ensures
            r.entries() == model_entries(raw@),
            r.limits() == body_decode_limits,
    {
        Self { raw, body_decode_limits }
    }

    fn get(&self, key: &str) -> (r: Option<&Value>)
        ensures
            match field(self.entries(), key@) {
                Some(j) => r matches Some(v) && v@ == j,
                None => r is None,
            },
    {
        crate::lookup::entries_get(&self.raw, key)
    }

    fn get_text(&self, key: &str) -> (r: Option<&str>)
        ensures
            match field_text(self.entries(), key@) {
                Some(s) => r matches Some(x) && x@ == s,
                None => r is None,
            },
    {
        match self.get(key) {
            Some(Value::Str(s)) => Some(s.as_str()),
            _ => None,
        }
    }

    fn get_u32(&self, key: &str) -> (r: u32)
        ensures
            r == field_u32(self.entries(), key@),
    {
        match self.get(key) {
            Some(Value::Int(i)) => {
                if 0 <= *i && *i <= u32::MAX as i64 {
                    *i as u32
                } else {
                    0
                }
            },
            _ => 0,
        }
    }

    pub fn cmd(&self) -> (r: Option<&str>)
        ensures
            match field_text(self.entries(), seq!['c', 'm', 'd']) {
                Some(s) => r matches Some(x) && x@ == s,
                None => r is None,
            },
    {
        let key = "cmd";
        proof {
            reveal_strlit("cmd");
            assert(key@ =~= seq!['c', 'm', 'd']);
        }
        self.get_text(key)
    }

    pub fn ack(&self) -> (r: u32)
        ensures
            r == field_u32(self.entries(), seq!['a', 'c', 'k']),
    {
        let key = "ack";
        proof {
            reveal_strlit("ack");
            assert(key@ =~= seq!['a', 'c', 'k']);
        }
        self.get_u32(key)
    }

    pub fn seq(&self) -> (r: u32)
        ensures
            r == field_u32(self.entries(), seq!['s', 'e', 'q']),
    {
        let key = "seq";
        proof {
            reveal_strlit("seq");
            assert(key@ =~= seq!['s', 'e', 'q']);
        }
        self.get_u32(key)
    }

    pub fn resp(&self) -> (r: u32)
        ensures
            r == field_u32(self.entries(), seq!['r', 'e', 's', 'p']),
    {
        let key = "resp";
        proof {
            reveal_strlit("resp");
            assert(key@ =~= seq!['r', 'e', 's', 'p']);
        }
        self.get_u32(key)
    }

    /// The `time` field when it is an integer, else 0.
    pub fn time(&self) -> (r: i64)
        ensures
            r == match field(self.entries(), seq!['t', 'i', 'm', 'e']) {
                Some(Json::Int(i)) => i,
                _ => 0,
            },
    {
        let key = "time";
        proof {
            reveal_strlit("time");
            assert(key@ =~= seq!['t', 'i', 'm', 'e']);
        }
        match self.get(key) {
            Some(Value::Int(i)) => *i,
            _ => 0,
        }
    }

    pub fn code_opt(&self) -> (r: Option<i32>)
        ensures
            r == field_code(self.entries()),
    {
        let key = "code";
        proof {
            reveal_strlit("code");
            assert(key@ =~= seq!['c', 'o', 'd', 'e']);
        }
        match self.get(key) {
            Some(Value::Int(i)) => {
                if i32::MIN as i64 <= *i && *i <= i32::MAX as i64 {
                    Some(*i as i32)
                } else {
                    None
                }
            },
            _ => None,
        }
    }

    /// The `code` field, 0 when it is absent or out of range.
    pub fn code(&self) -> (r: i32)
        ensures
            r == match field_code(self.entries()) {
                Some(c) => c,
                None => 0,
            },
    {
        match self.code_opt() {
            Some(c) => c,
            None => 0,
        }
    }

    pub fn error(&self) -> (r: Option<&str>)
        ensures
            match field_text(self.entries(), seq!['e', 'r', 'r', 'o', 'r']) {
                Some(s) => r matches Some(x) && x@ == s,
                None => r is None,
            },
    {
        let key = "error";
        proof {
            reveal_strlit("error");
            assert(key@ =~= seq!['e', 'r', 'r', 'o', 'r']);
        }
        self.get_text(key)
    }

    pub fn hint(&self) -> (r: Option<&str>)
        ensures
            match field_text(self.entries(), seq!['h', 'i', 'n', 't']) {
                Some(s) => r matches Some(x) && x@ == s,
                None => r is None,
            },
    {
        let key = "hint";
        proof {
            reveal_strlit("hint");
            assert(key@ =~= seq!['h', 'i', 'n', 't']);
        }
        self.get_text(key)
    }

    pub fn body(&self) -> (r: Option<&Value>)
        ensures
            match field(self.entries(), seq!['b', 'o', 'd', 'y']) {
                Some(j) => r matches Some(v) && v@ == j,
                None => r is None,
            },
    {
        let key = "body";
        proof {
            reveal_strlit("body");
            assert(key@ =~= seq!['b', 'o', 'd', 'y']);
        }
        self.get(key)
    }

    /// The body's fields when the body is an object, else the message's own.
    pub fn get_data(&self) -> (r: &Vec<(String, Value)>)
        ensures
            model_entries(r@) == match field(self.entries(), seq!['b', 'o', 'd', 'y']) {
                Some(Json::Object(es)) => es,
                _ => self.entries(),
            },
    {
        match self.body() {
            Some(Value::Object(obj)) => obj,
            _ => &self.raw,
        }
    }

    /// Reads the body: a binary body is decoded as BON within this message's
    /// bounds.
    pub fn raw_data_result(&self) -> (r: Result<Option<Value>, String>)
        ensures
            match body_outcome(self.entries(), self.limits()) {
                Ok(Some(j)) => r matches Ok(Some(v)) && v@ == j,
                Ok(None) => r matches Ok(None),
                Err(e) => r matches Err(x) && x@ == e,
            },
    {
        let body = match self.body() {
            Some(b) => b,
            None => {
                return Ok(None);
            },
        };
        match body {
            Value::Str(s) => {
                let bytes = match crate::b64::decode(s.as_str()) {
                    Some(b) => b,
                    None => {
                        return Err(String::from_str("body base64 decode failed"));
                    },
                };
                match crate::bon::decode_with_limits(bytes.as_slice(), self.body_decode_limits) {
                    Some(v) => Ok(Some(v)),
                    None => Err(String::from_str("body BON decode failed")),
                }
            },
            Value::Object(_) => Ok(Some(body.copy())),
            Value::Null => Ok(None),
            _ => Err(String::from_str("body is neither BON binary nor an object")),
        }
    }

    /// The body, or nothing when it is absent or cannot be read.
    pub fn raw_data(&self) -> (r: Option<Value>)
        ensures
            match body_outcome(self.entries(), self.limits()) {
                Ok(Some(j)) => r matches Some(v) && v@ == j,
                _ => r is None,
            },
    {
        match self.raw_data_result() {
            Ok(Some(v)) => Some(v),
            _ => None,
        }
    }

    pub fn into_data(self) -> (r: Vec<(String, Value)>)
        ensures
            model_entries(r@) == self.entries(),
    {
        self.raw
    }
}

pub open spec fn parse_ok(r: Result<ProtoMsg, String>, o: Result<Seq<(Seq<char>, Json)>, Seq<char>>, lim: BonDecodeLimits) -> bool {
    match o {
        Ok(es) => r matches Ok(m) && m.entries() == es && m.limits() == lim,
        Err(e) => r matches Err(x) && x@ == e,
    }
}

fn parse_message_with_limits(
    data: &[u8],
    max_wire_size: usize,
    max_decompressed_size: usize,
    bon_limits: BonDecodeLimits,
) -> (r: Result<ProtoMsg, String>)
    ensures
        parse_ok(r, parse_outcome(data@, max_wire_size, max_decompressed_size, bon_limits), bon_limits),
{
    if data.len() > max_wire_size {
        return Err(crate::crypto::exceeds_text("wire payload", data.len(), max_wire_size));
    }
    let decrypted = match crate::crypto::try_auto_decrypt(data, max_decompressed_size) {
        Ok(d) => d,
        Err(e) => {
            return Err(e);
        },
    };
    let value = match crate::bon::decode_with_limits(decrypted.as_slice(), bon_limits) {
        Some(v) => v,
        None => {
            return Err(String::from_str("BON decode failed"));
        },
    };
    match value {
        Value::Object(obj) => Ok(ProtoMsg::with_limits(obj, bon_limits)),
        _ => Err(String::from_str("Expected object")),
    }
}

/// Parses a wire message with the client's bounds.
pub fn parse_message(data: &[u8]) -> (r: Result<ProtoMsg, String>)
    ensures
        parse_ok(
            r,
            parse_outcome(
                data@,
                CLIENT_MAX_WIRE_SIZE,
                crate::crypto::DEFAULT_MAX_DECOMPRESSED_SIZE,
                client_limits(),
            ),
            client_limits(),
        ),
{
    parse_message_with_limits(
        data,
        CLIENT_MAX_WIRE_SIZE,
        crate::crypto::DEFAULT_MAX_DECOMPRESSED_SIZE,
        BonDecodeLimits::default(),
    )
}

/// Parses a wire message with the relay's bounds.
pub fn parse_message_limited(data: &[u8], max_wire_size: usize, max_decompressed_size: usize) -> (r:
    Result<ProtoMsg, String>)
    ensures
        parse_ok(
            r,
            parse_outcome(data@, max_wire_size, max_decompressed_size, relay_limits()),
            relay_limits(),
        ),
{
    parse_message_with_limits(data, max_wire_size, max_decompressed_size, BonDecodeLimits::proxy())
}

/// Parses a message with a cipher chosen by name; a payload the cipher
/// cannot read decodes as no bytes.
pub fn parse_message_enc(data: &[u8], enc_name: &str) -> (r: Result<ProtoMsg, String>)
    ensures
        enc_name@ != seq!['l', 'x'] ==> parse_ok(
            r,
            match bon_decoded(crate::crypto::x_plain(data@), crate::bon::open_limits()) {
                None => Err("BON decode failed"@),
                Some(Json::Object(es)) => Ok(es),
                Some(_) => Err("Expected object"@),
            },
            client_limits(),
        ),
        enc_name@ == seq!['l', 'x'] ==> parse_ok(
            r,
            match bon_decoded(
                match crate::crypto::lx_outcome(data@, crate::crypto::DEFAULT_MAX_DECOMPRESSED_SIZE) {
                    Ok(v) => v,
                    Err(_) => Seq::<u8>::empty(),
                },
                crate::bon::open_limits(),
            ) {
                None => Err("BON decode failed"@),
                Some(Json::Object(es)) => Ok(es),
                Some(_) => Err("Expected object"@),
            },
            client_limits(),
        ),
{
    let enc = crate::crypto::get_encryptor(enc_name);
    let decrypted = enc.decrypt(data);
    let value = match crate::bon::decode(decrypted.as_slice()) {
        Some(v) => v,
        None => {
            return Err(String::from_str("BON decode failed"));
        },
    };
    match value {
        Value::Object(obj) => Ok(ProtoMsg::new(obj)),
        _ => Err(String::from_str("Expected object")),
    }
}

/// Encodes fields as a BON object and encrypts it with the named cipher
/// (`x` when none is named).
pub fn create_message(data: &Vec<(String, Value)>, enc_name: Option<&str>) -> (r: Result<Vec<u8>, String>)
    requires
        encodable(Json::Object(model_entries(data@))),
    ensures
        r matches Ok(bytes) && ({
            let plain = bon_bytes(Json::Object(model_entries(data@)));
            if enc_name matches Some(n) && n@ == seq!['l', 'x'] {
                exists|m: u8| 2 <= m < 250 && bytes@ == lx_frame(lz4_frame(plain), m)
            } else {
                exists|m: u8, w: u32| 2 <= m < 250 && bytes@ == x_frame(plain, m, w)
            }
        }),
{
    let name = match enc_name {
        Some(n) => n,
        None => "x",
    };
    proof {
        reveal_strlit("x");
    }
    let enc = crate::crypto::get_encryptor(name);
    let entries = crate::value::copy_entries(data);
    let obj = Value::Object(entries);
    let encoded = crate::bon::encode(&obj);
    Ok(enc.encrypt(encoded.as_slice()))
}

/// A message written with the `x` cipher reads back as the same fields: for
/// fields that BON carries within the client's bounds and whose encoding fits
/// the client's wire limit, parsing the payload that `create_message` makes
/// (whatever mask and random word it drew) gives the fields back.
pub proof fn law_message_roundtrip(es: Seq<(Seq<char>, Json)>, mask: u8, w: u32)
    requires
        carried(Json::Object(es), client_limits().max_depth as nat, client_limits()),
        enc_value(Json::Object(es), seq![]).1.len() <= 0x1_0000_0000,
        bon_bytes(Json::Object(es)).len() + 4 <= CLIENT_MAX_WIRE_SIZE,
    ensures
        parse_outcome(
            x_frame(bon_bytes(Json::Object(es)), mask, w),
            CLIENT_MAX_WIRE_SIZE,
            DEFAULT_MAX_DECOMPRESSED_SIZE,
            client_limits(),
        ) == Ok::<Seq<(Seq<char>, Json)>, Seq<char>>(es),
{
    let plain = bon_bytes(Json::Object(es));
    let d = x_frame(plain, mask, w);
    crate::crypto::law_x_auto_roundtrip(plain, mask, w, DEFAULT_MAX_DECOMPRESSED_SIZE);
    assert(d.len() == plain.len() + 4);
    law_bon_roundtrip(Json::Object(es), client_limits());
}

} // verus!
