//! BON (Binary Object Notation): the game's tagged binary encoding of
//! documents. Every value starts with a tag byte:
//! 0 null, 1 i32, 2 i64, 3 f32, 4 f64, 5 string, 6 bool, 7 binary,
//! 8 object, 9 array, 10 date-time (i64), 99 back-reference to an earlier
//! string. Texts and counts use variable-length integers.

use vstd::prelude::*;
use crate::value::{Value, Json, model, model_items, model_entries, lemma_model_items_len, lemma_model_entries_len};
use crate::bytes_io::{DataReader, DataWriter, enc7, le32, le64_words, utf_field, le_u32_at, rd_u8, rd_i32, rd_i64, rd_bytes, rd_varint};
use crate::float_bits::{f32_is_finite, f32_widened, f64_is_finite};

verus! {

// ------------------------------------------------------------------
// Encoding, as a function of the value and the table of strings written
// ------------------------------------------------------------------

/// The index of the first occurrence of `s` in `t`, or -1.
pub open spec fn find_index(t: Seq<Seq<char>>, s: Seq<char>) -> int
    decreases t.len(),
{
    if t.len() == 0 {
        -1
    } else if t[0] == s {
        0
    } else {
        let r = find_index(t.drop_first(), s);
        if r < 0 {
            -1
        } else {
            r + 1
        }
    }
}

/// The eight little-endian bytes of a 64-bit pattern: its low word, then
/// its high word.
pub open spec fn le64_bits(b: u64) -> Seq<u8> {
    le32(b as int % 0x1_0000_0000) + le32(b as int / 0x1_0000_0000)
}

/// A string is written in full the first time (tag 5) and as a
/// back-reference to its table index afterwards (tag 99).
pub open spec fn enc_str(s: Seq<char>, t: Seq<Seq<char>>) -> (Seq<u8>, Seq<Seq<char>>) {
    let i = find_index(t, s);
    if i >= 0 {
        (seq![99u8] + enc7(i as u32), t)
    } else {
        (seq![5u8] + utf_field(s), t.push(s))
    }
}

/// An integer is written in 32 bits when it fits, in 64 bits otherwise.
pub open spec fn enc_int(i: i64) -> Seq<u8> {
    if i32::MIN <= i <= i32::MAX {
        seq![1u8] + le32(i as int)
    } else {
        seq![2u8] + le64_words(i as int)
    }
}

pub open spec fn enc_value(v: Json, t: Seq<Seq<char>>) -> (Seq<u8>, Seq<Seq<char>>)
    decreases v,
{
    match v {
        Json::Null => (seq![0u8], t),
        Json::Bool(b) => (seq![6u8, if b { 1u8 } else { 0u8 }], t),
        Json::Int(i) => (enc_int(i), t),
        Json::Float(bits) => (seq![4u8] + le64_bits(bits), t),
        Json::Str(s) => enc_str(s, t),
        Json::Array(items) => {
            let (b, t2) = enc_items(items, t);
            (seq![9u8] + enc7(items.len() as u32) + b, t2)
        },
        Json::Object(entries) => {
            let (b, t2) = enc_entries(entries, t);
            (seq![8u8] + enc7(entries.len() as u32) + b, t2)
        },
    }
}

pub open spec fn enc_items(items: Seq<Json>, t: Seq<Seq<char>>) -> (Seq<u8>, Seq<Seq<char>>)
    decreases items,
{
    if items.len() == 0 {
        (seq![], t)
    } else {
        let (b1, t1) = enc_items(items.drop_last(), t);
        let (b2, t2) = enc_value(items.last(), t1);
        (b1 + b2, t2)
    }
}

pub open spec fn enc_entries(entries: Seq<(Seq<char>, Json)>, t: Seq<Seq<char>>) -> (
    Seq<u8>,
    Seq<Seq<char>>,
)
    decreases entries,
{
    if entries.len() == 0 {
        (seq![], t)
    } else {
        let (b1, t1) = enc_entries(entries.drop_last(), t);
        let (bk, t2) = enc_str(entries.last().0, t1);
        let (bv, t3) = enc_value(entries.last().1, t2);
        (b1 + bk + bv, t3)
    }
}

/// Whether every integer in the value has a magnitude in range (the 64-bit
/// writer negates negative values).
pub open spec fn encodable(v: Json) -> bool
    decreases v,
{
    match v {
        Json::Int(i) => i != i64::MIN,
        Json::Array(items) => forall|k: int| 0 <= k < items.len() ==> encodable(#[trigger] items[k]),
        Json::Object(entries) => forall|k: int|
            0 <= k < entries.len() ==> encodable(#[trigger] entries[k].1),
        _ => true,
    }
}

/// The BON bytes of a value written by a fresh encoder.
pub open spec fn bon_bytes(v: Json) -> Seq<u8> {
    enc_value(v, seq![]).0
}

// ------------------------------------------------------------------
// Decoding, as a function of the bytes, the position and the table of
// strings read so far
// ------------------------------------------------------------------

/// Bounds that the decoder enforces on untrusted input.
#[derive(Clone, Copy)]
pub struct BonDecodeLimits {
    /// How many containers may enclose a value.
    pub max_depth: usize,
    /// The largest element count of an array or an object.
    pub max_entries: usize,
    /// The largest byte length of a text (tag 5).
    pub max_string_bytes: usize,
    /// The largest byte length of a binary value (tag 7).
    pub max_binary_bytes: usize,
}

/// The bounds for messages of the game client.
pub open spec fn client_limits() -> BonDecodeLimits {
    BonDecodeLimits {
        max_depth: 256,
        max_entries: 16_777_216,
        max_string_bytes: 33_554_432,
        max_binary_bytes: 33_554_432,
    }
}

/// No bounds beyond what the machine holds: the plain decoder's.
pub open spec fn open_limits() -> BonDecodeLimits {
    BonDecodeLimits {
        max_depth: usize::MAX,
        max_entries: usize::MAX,
        max_string_bytes: usize::MAX,
        max_binary_bytes: usize::MAX,
    }
}

/// The tighter bounds for traffic observed by the relay.
pub open spec fn relay_limits() -> BonDecodeLimits {
    BonDecodeLimits {
        max_depth: 64,
        max_entries: 100_000,
        max_string_bytes: 1_048_576,
        max_binary_bytes: 8_388_608,
    }
}

impl BonDecodeLimits {
    /// The bounds for messages of the game client.
    pub fn default() -> (r: Self)
        ensures
            r == client_limits(),
    {
        BonDecodeLimits {
            max_depth: 256,
            max_entries: 16_777_216,
            max_string_bytes: 33_554_432,
            max_binary_bytes: 33_554_432,
        }
    }

    /// No bounds beyond what the machine holds.
    pub fn unbounded() -> (r: Self)
        ensures
            r == open_limits(),
    {
        BonDecodeLimits {
            max_depth: usize::MAX,
            max_entries: usize::MAX,
            max_string_bytes: usize::MAX,
            max_binary_bytes: usize::MAX,
        }
    }

    /// The tighter bounds for traffic observed by the relay.
    pub fn proxy() -> (r: Self)
        ensures
            r == relay_limits(),
    {
        BonDecodeLimits {
            max_depth: 64,
            max_entries: 100_000,
            max_string_bytes: 1_048_576,
            max_binary_bytes: 8_388_608,
        }
    }
}

/// The text that an object key decodes to: a string as it is; null, a boolean
/// or an integer as its JSON text. Other kinds of key are not accepted.
pub open spec fn key_text(k: Json) -> Option<Seq<char>> {
    match k {
        Json::Str(s) => Some(s),
        Json::Null => Some(seq!['n', 'u', 'l', 'l']),
        Json::Bool(b) => if b {
            Some(seq!['t', 'r', 'u', 'e'])
        } else {
            Some(seq!['f', 'a', 'l', 's', 'e'])
        },
        Json::Int(i) => Some(crate::b64::ascii_chars(crate::text::int_decimal(i as int))),
        _ => None,
    }
}

/// The position of key `k` among the entries, or -1.
pub open spec fn find_key(es: Seq<(Seq<char>, Json)>, k: Seq<char>) -> int
    decreases es.len(),
{
    if es.len() == 0 {
        -1
    } else if es.last().0 == k {
        es.len() - 1
    } else {
        find_key(es.drop_last(), k)
    }
}

/// Inserting into an object: a key already present has its value replaced
/// in place; a new key is appended.
pub open spec fn obj_insert(es: Seq<(Seq<char>, Json)>, k: Seq<char>, v: Json) -> Seq<(Seq<char>, Json)> {
    let i = find_key(es, k);
    if i >= 0 {
        es.update(i, (k, v))
    } else {
        es.push((k, v))
    }
}

pub type DecState = (int, Seq<Seq<char>>);

pub open spec fn dec_value(
    s: Seq<u8>,
    p: int,
    t: Seq<Seq<char>>,
    budget: nat,
    lim: BonDecodeLimits,
) -> Option<(Json, int, Seq<Seq<char>>)>
    decreases budget, 1nat, 0nat,
{
    match rd_u8(s, p) {
        None => None,
        Some((tag, p1)) => {
            if tag == 0 {
                Some((Json::Null, p1, t))
            } else if tag == 1 {
                match rd_i32(s, p1) {
                    Some((v, p2)) => Some((Json::Int(v as i64), p2, t)),
                    None => None,
                }
            } else if tag == 2 || tag == 10 {
                match rd_i64(s, p1) {
                    Some((v, p2)) => Some((Json::Int(v), p2, t)),
                    None => None,
                }
            } else if tag == 3 {
                match rd_bytes(s, p1, 4) {
                    Some((b, p2)) => {
                        let bits = le_u32_at(b, 0) as u32;
                        if f32_is_finite(bits) {
                            Some((Json::Float(f32_widened(bits)), p2, t))
                        } else {
                            Some((Json::Null, p2, t))
                        }
                    },
                    None => None,
                }
            } else if tag == 4 {
                match rd_bytes(s, p1, 8) {
                    Some((b, p2)) => {
                        let bits = (le_u32_at(b, 0) + 0x1_0000_0000 * le_u32_at(b, 4)) as u64;
                        if f64_is_finite(bits) {
                            Some((Json::Float(bits), p2, t))
                        } else {
                            Some((Json::Null, p2, t))
                        }
                    },
                    None => None,
                }
            } else if tag == 5 {
                match rd_varint(s, p1) {
                    Some((n, p2)) => if n > lim.max_string_bytes {
                        None
                    } else if n == 0 {
                        Some((Json::Str(seq![]), p2, t.push(seq![])))
                    } else {
                        match rd_bytes(s, p2, n as int) {
                            Some((b, p3)) => {
                                let txt = crate::text::utf8_text(b);
                                Some((Json::Str(txt), p3, t.push(txt)))
                            },
                            None => None,
                        }
                    },
                    None => None,
                }
            } else if tag == 6 {
                match rd_u8(s, p1) {
                    Some((b, p2)) => Some((Json::Bool(b == 1), p2, t)),
                    None => None,
                }
            } else if tag == 7 {
                match rd_varint(s, p1) {
                    Some((n, p2)) => if n > lim.max_binary_bytes {
                        None
                    } else {
                        match rd_bytes(s, p2, n as int) {
                            Some((b, p3)) => Some(
                                (
                                    Json::Str(crate::b64::ascii_chars(crate::b64::b64_encode(b))),
                                    p3,
                                    t,
                                ),
                            ),
                            None => None,
                        }
                    },
                    None => None,
                }
            } else if tag == 8 {
                match rd_varint(s, p1) {
                    Some((n, p2)) => if n > lim.max_entries || budget == 0 {
                        None
                    } else {
                        match dec_entries(s, p2, t, n as nat, (budget - 1) as nat, lim, seq![]) {
                            Some((es, p3, t3)) => Some((Json::Object(es), p3, t3)),
                            None => None,
                        }
                    },
                    None => None,
                }
            } else if tag == 9 {
                match rd_varint(s, p1) {
                    Some((n, p2)) => if n > lim.max_entries || budget == 0 {
                        None
                    } else {
                        match dec_items(s, p2, t, n as nat, (budget - 1) as nat, lim) {
                            Some((vs, p3, t3)) => Some((Json::Array(vs), p3, t3)),
                            None => None,
                        }
                    },
                    None => None,
                }
            } else if tag == 99 {
                match rd_varint(s, p1) {
                    Some((i, p2)) => if i < t.len() {
                        Some((Json::Str(t[i as int]), p2, t))
                    } else {
                        None
                    },
                    None => None,
                }
            } else {
                None
            }
        },
    }
}

pub open spec fn dec_items(
    s: Seq<u8>,
    p: int,
    t: Seq<Seq<char>>,
    n: nat,
    budget: nat,
    lim: BonDecodeLimits,
) -> Option<(Seq<Json>, int, Seq<Seq<char>>)>
    decreases budget + 1, 0nat, n,
{
    if n == 0 {
        Some((seq![], p, t))
    } else {
        match dec_value(s, p, t, budget, lim) {
            Some((v, p1, t1)) => match dec_items(s, p1, t1, (n - 1) as nat, budget, lim) {
                Some((vs, p2, t2)) => Some((seq![v] + vs, p2, t2)),
                None => None,
            },
            None => None,
        }
    }
}

pub open spec fn dec_entries(
    s: Seq<u8>,
    p: int,
    t: Seq<Seq<char>>,
    n: nat,
    budget: nat,
    lim: BonDecodeLimits,
    acc: Seq<(Seq<char>, Json)>,
) -> Option<(Seq<(Seq<char>, Json)>, int, Seq<Seq<char>>)>
    decreases budget + 1, 0nat, n,
{
    if n == 0 {
        Some((acc, p, t))
    } else {
        match dec_value(s, p, t, budget, lim) {
            Some((k, p1, t1)) => match key_text(k) {
                Some(kt) => match dec_value(s, p1, t1, budget, lim) {
                    Some((v, p2, t2)) => dec_entries(
                        s,
                        p2,
                        t2,
                        (n - 1) as nat,
                        budget,
                        lim,
                        obj_insert(acc, kt, v),
                    ),
                    None => None,
                },
                None => None,
            },
            None => None,
        }
    }
}

/// What a fresh decoder makes of a byte sequence.
pub open spec fn bon_decoded(s: Seq<u8>, lim: BonDecodeLimits) -> Option<Json> {
    match dec_value(s, 0, seq![], lim.max_depth as nat, lim) {
        Some((v, _, _)) => Some(v),
        None => None,
    }
}

pub open spec fn table_view(t: Seq<String>) -> Seq<Seq<char>> {
    t.map_values(|x: String| x@)
}

// ------------------------------------------------------------------
// Encoder
// ------------------------------------------------------------------

/// Writes values in BON, remembering each string it has written in full so
/// that a repeat is written as a back-reference.
pub struct BonEncoder {
    dw: DataWriter,
    table: Vec<String>,
}

impl BonEncoder {
    /// The bytes written so far.
    pub closed spec fn bytes(&self) -> Seq<u8> {
        self.dw@
    }

    /// The strings written in full so far, in order.
    pub closed spec fn strings(&self) -> Seq<Seq<char>> {
        table_view(self.table@)
    }

    pub fn new() -> (r: Self)
        ensures
            r.bytes() == Seq::<u8>::empty(),
            r.strings() == Seq::<Seq<char>>::empty(),
    {
        let r = Self { dw: DataWriter::new(), table: Vec::new() };
        assert(table_view(r.table@) =~= Seq::<Seq<char>>::empty());
        r
    }

    pub fn reset(&mut self)
        ensures
            final(self).bytes() == Seq::<u8>::empty(),
            final(self).strings() == Seq::<Seq<char>>::empty(),
    {
        self.dw.reset();
        self.table.clear();
        assert(table_view(self.table@) =~= Seq::<Seq<char>>::empty());
    }

    fn lookup(&self, s: &String) -> (r: Option<usize>)
        ensures
            match r {
                Some(i) => find_index(self.strings(), s@) == i as int,
                None => find_index(self.strings(), s@) == -1,
            },
    {
        let mut i: usize = 0;
        while i < self.table.len()
            invariant
                i <= self.table.len(),
                forall|j: int| 0 <= j < i ==> #[trigger] self.table@[j]@ != s@,
            decreases self.table.len() - i,
        {
            if self.table[i] == *s {
                proof {
                    lemma_find_index_at(self.strings(), s@, i as int);
                }
                return Some(i);
            }
            i = i + 1;
        }
        proof {
            lemma_find_index_absent(self.strings(), s@);
        }
        None
    }

    fn encode_str(&mut self, s: &String)
        ensures
            final(self).bytes() == old(self).bytes() + enc_str(s@, old(self).strings()).0,
            final(self).strings() == enc_str(s@, old(self).strings()).1,
    {
        match self.lookup(s) {
            Some(i) => {
                self.dw.write_u8(99);
                self.dw.write_7bit_int(i);
                assert(self.dw@ =~= old(self).dw@ + enc_str(s@, old(self).strings()).0);
            },
            None => {
                self.dw.write_u8(5);
                self.dw.write_utf(s.as_str());
                let ghost before = self.table@;
                self.table.push(s.clone());
                assert(table_view(self.table@) =~= table_view(before).push(s@));
                assert(self.dw@ =~= old(self).dw@ + enc_str(s@, old(self).strings()).0);
            },
        }
    }

    fn encode_scalar(&mut self, value: &Value)
        requires
            !(value is Array || value is Object || value is Str),
            encodable(value@),
        ensures
            final(self).bytes() == old(self).bytes() + enc_value(value@, old(self).strings()).0,
            final(self).strings() == enc_value(value@, old(self).strings()).1,
    {
        match value {
            Value::Null => {
                self.dw.write_u8(0);
            },
            Value::Bool(b) => {
                self.dw.write_u8(6);
                self.dw.write_u8(if *b { 1 } else { 0 });
                assert(self.dw@ =~= old(self).dw@ + enc_value(value@, old(self).strings()).0);
            },
            Value::Int(i) => {
                if i32::MIN as i64 <= *i && *i <= i32::MAX as i64 {
                    self.dw.write_u8(1);
                    self.dw.write_i32(*i as i32);
                } else {
                    self.dw.write_u8(2);
                    self.dw.write_i64(*i);
                }
                assert(self.dw@ =~= old(self).dw@ + enc_value(value@, old(self).strings()).0);
            },
            Value::Float(bits) => {
                self.dw.write_u8(4);
                self.write_bits(*bits);
                assert(self.dw@ =~= old(self).dw@ + enc_value(value@, old(self).strings()).0);
            },
            _ => {},
        }
    }

    /// Appends the BON encoding of `value`.
    pub fn encode(&mut self, value: &Value)
        requires
            encodable(value@),
        ensures
            final(self).bytes() == old(self).bytes() + enc_value(value@, old(self).strings()).0,
            final(self).strings() == enc_value(value@, old(self).strings()).1,
        decreases value, 2nat,
    {
        match value {
            Value::Str(s) => {
                self.encode_str(s);
            },
            Value::Array(arr) => {
                proof {
                    lemma_encodable_items(arr@);
                }
                self.encode_array(arr);
            },
            Value::Object(obj) => {
                proof {
                    lemma_encodable_entries(obj@);
                }
                self.encode_object(obj);
            },
            _ => {
                self.encode_scalar(value);
            },
        }
    }

    fn encode_array(&mut self, arr: &Vec<Value>)
        requires
            forall|k: int| 0 <= k < arr@.len() ==> encodable(#[trigger] model(arr@[k])),
        ensures
            final(self).bytes() == old(self).bytes() + enc_value(
                Json::Array(model_items(arr@)),
                old(self).strings(),
            ).0,
            final(self).strings() == enc_value(Json::Array(model_items(arr@)), old(self).strings()).1,
        decreases arr, 1nat,
    {
        self.dw.write_u8(9);
        self.dw.write_7bit_int(arr.len());
        proof {
            lemma_model_items_len(arr@);
        }
        self.encode_items(arr);
        assert(self.dw@ =~= old(self).dw@ + enc_value(
            Json::Array(model_items(arr@)),
            old(self).strings(),
        ).0);
    }

    fn encode_object(&mut self, obj: &Vec<(String, Value)>)
        requires
            forall|k: int| 0 <= k < obj@.len() ==> encodable(#[trigger] model(obj@[k].1)),
        ensures
            final(self).bytes() == old(self).bytes() + enc_value(
                Json::Object(model_entries(obj@)),
                old(self).strings(),
            ).0,
            final(self).strings() == enc_value(
                Json::Object(model_entries(obj@)),
                old(self).strings(),
            ).1,
        decreases obj, 1nat,
    {
        self.dw.write_u8(8);
        self.dw.write_7bit_int(obj.len());
        proof {
            lemma_model_entries_len(obj@);
        }
        self.encode_entries(obj);
        assert(self.dw@ =~= old(self).dw@ + enc_value(
            Json::Object(model_entries(obj@)),
            old(self).strings(),
        ).0);
    }

    fn encode_items(&mut self, arr: &Vec<Value>)
        requires
            forall|k: int| 0 <= k < arr@.len() ==> encodable(#[trigger] model(arr@[k])),
        ensures
            final(self).bytes() == old(self).bytes() + enc_items(model_items(arr@), old(self).strings()).0,
            final(self).strings() == enc_items(model_items(arr@), old(self).strings()).1,
        decreases arr, 0nat,
    {
        let ghost start = self.dw@;
        let ghost t0 = self.strings();
        proof {
            lemma_model_items_len(arr@);
        }
        let mut i: usize = 0;
        while i < arr.len()
            invariant
                i <= arr.len(),
                model_items(arr@).len() == arr@.len(),
                forall|k: int|
                    0 <= k < arr@.len() ==> #[trigger] model_items(arr@)[k] == model(arr@[k]),
                forall|k: int| 0 <= k < arr@.len() ==> encodable(#[trigger] model(arr@[k])),
                start == old(self).dw@,
                t0 == old(self).strings(),
                self.dw@ == start + enc_items(model_items(arr@).take(i as int), t0).0,
                self.strings() == enc_items(model_items(arr@).take(i as int), t0).1,
            decreases arr.len() - i,
        {
            proof {
                assert(encodable(model(arr@[i as int])));
                assert(decreases_to!(arr => arr@));
                assert(decreases_to!(arr@ => arr@[i as int]));
            }
            self.encode(&arr[i]);
            proof {
                let m = model_items(arr@);
                assert(m.take(i + 1).drop_last() =~= m.take(i as int));
                assert(m.take(i + 1).last() == model(arr@[i as int]));
            }
            i = i + 1;
        }
        proof {
            assert(model_items(arr@).take(arr@.len() as int) =~= model_items(arr@));
        }
    }

    fn encode_entries(&mut self, obj: &Vec<(String, Value)>)
        requires
            forall|k: int| 0 <= k < obj@.len() ==> encodable(#[trigger] model(obj@[k].1)),
        ensures
            final(self).bytes() == old(self).bytes() + enc_entries(model_entries(obj@), old(self).strings()).0,
            final(self).strings() == enc_entries(model_entries(obj@), old(self).strings()).1,
        decreases obj, 0nat,
    {
        let ghost start = self.dw@;
        let ghost t0 = self.strings();
        proof {
            lemma_model_entries_len(obj@);
        }
        let mut i: usize = 0;
        while i < obj.len()
            invariant
                i <= obj.len(),
                model_entries(obj@).len() == obj@.len(),
                forall|k: int|
                    0 <= k < obj@.len() ==> #[trigger] model_entries(obj@)[k] == (
                        obj@[k].0@,
                        model(obj@[k].1),
                    ),
                forall|k: int| 0 <= k < obj@.len() ==> encodable(#[trigger] model(obj@[k].1)),
                start == old(self).dw@,
                t0 == old(self).strings(),
                self.dw@ == start + enc_entries(model_entries(obj@).take(i as int), t0).0,
                self.strings() == enc_entries(model_entries(obj@).take(i as int), t0).1,
            decreases obj.len() - i,
        {
            let entry = &obj[i];
            proof {
                assert(encodable(model(obj@[i as int].1)));
                assert(decreases_to!(obj => obj@));
                assert(decreases_to!(obj@ => obj@[i as int]));
                assert(decreases_to!(obj@[i as int] => obj@[i as int].1));
            }
            self.encode_str(&entry.0);
            self.encode(&entry.1);
            proof {
                let m = model_entries(obj@);
                assert(m.take(i + 1).drop_last() =~= m.take(i as int));
                assert(m.take(i + 1).last() == (obj@[i as int].0@, model(obj@[i as int].1)));
            }
            i = i + 1;
        }
        proof {
            assert(model_entries(obj@).take(obj@.len() as int) =~= model_entries(obj@));
        }
    }

    fn write_bits(&mut self, b: u64)
        ensures
            final(self).dw@ == old(self).dw@ + le64_bits(b),
            final(self).table == old(self).table,
    {
        let lo = (b % 0x1_0000_0000) as u32;
        let hi = (b / 0x1_0000_0000) as u32;
        let lo_i = lo as i32;
        let hi_i = hi as i32;
        assert(lo_i as int % 0x1_0000_0000 == lo && hi_i as int % 0x1_0000_0000 == hi) by (bit_vector)
            requires
                lo_i == lo as i32,
                hi_i == hi as i32,
        ;
        assert(lo as int % 0x1_0000_0000 == lo && hi as int % 0x1_0000_0000 == hi);
        self.dw.write_i32(lo_i);
        self.dw.write_i32(hi_i);
        assert(self.dw@ =~= old(self).dw@ + le64_bits(b));
    }

    /// Appends raw bytes as a binary value (tag 7).
    pub fn encode_binary(&mut self, data: &[u8])
        ensures
            final(self).bytes() == old(self).bytes() + seq![7u8] + enc7(data@.len() as u32) + data@,
            final(self).strings() == old(self).strings(),
    {
        self.dw.write_u8(7);
        self.dw.write_7bit_int(data.len());
        self.dw.write_bytes(data);
    }

    pub fn get_bytes(&self) -> (r: Vec<u8>)
        ensures
            r@ == self.bytes(),
    {
        self.dw.get_bytes()
    }
}


// ------------------------------------------------------------------
// Decoder
// ------------------------------------------------------------------

/// Reads BON values, remembering each string read in full so that a
/// back-reference can be resolved.
pub struct BonDecoder {
    dr: DataReader,
    str_arr: Vec<String>,
    limits: BonDecodeLimits,
}

impl BonDecoder {
    /// The bytes being decoded.
    pub closed spec fn bytes(&self) -> Seq<u8> {
        self.dr.bytes()
    }

    /// The index of the next byte to decode.
    pub closed spec fn pos(&self) -> int {
        self.dr.pos()
    }

    /// The strings read in full so far, in order.
    pub closed spec fn strings(&self) -> Seq<Seq<char>> {
        table_view(self.str_arr@)
    }

    /// The bounds this decoder enforces.
    pub closed spec fn limits(&self) -> BonDecodeLimits {
        self.limits
    }

    pub fn new() -> (r: Self)
        ensures
            r.bytes() == Seq::<u8>::empty(),
            r.pos() == 0,
            r.strings() == Seq::<Seq<char>>::empty(),
            r.limits() == open_limits(),
    {
        Self::with_limits(BonDecodeLimits::unbounded())
    }

    pub fn with_limits(limits: BonDecodeLimits) -> (r: Self)
        ensures
            r.bytes() == Seq::<u8>::empty(),
            r.pos() == 0,
            r.strings() == Seq::<Seq<char>>::empty(),
            r.limits() == limits,
    {
        let r = Self { dr: DataReader::new(Vec::new()), str_arr: Vec::new(), limits };
        assert(table_view(r.str_arr@) =~= Seq::<Seq<char>>::empty());
        r
    }

    pub fn reset(&mut self, data: Vec<u8>)
        ensures
            final(self).bytes() == data@,
            final(self).pos() == 0,
            final(self).strings() == Seq::<Seq<char>>::empty(),
            final(self).limits() == old(self).limits(),
    {
        self.dr.reset(data);
        self.str_arr.clear();
        assert(table_view(self.str_arr@) =~= Seq::<Seq<char>>::empty());
    }

    /// Decodes the value at the current position.
    pub fn decode(&mut self) -> (r: Option<Value>)
        ensures
            final(self).bytes() == old(self).bytes(),
            final(self).limits() == old(self).limits(),
            match dec_value(
                old(self).bytes(),
                old(self).pos(),
                old(self).strings(),
                old(self).limits().max_depth as nat,
                old(self).limits(),
            ) {
                Some((j, p, t)) => r matches Some(v) && v@ == j && final(self).pos() == p
                    && final(self).strings() == t,
                None => r is None,
            },
    {
        let d = self.limits.max_depth;
        self.decode_value(d)
    }

    fn push_string(&mut self, s: &String)
        ensures
            final(self).dr == old(self).dr,
            final(self).limits == old(self).limits,
            table_view(final(self).str_arr@) == table_view(old(self).str_arr@).push(s@),
    {
        let ghost before = self.str_arr@;
        self.str_arr.push(s.clone());
        assert(table_view(self.str_arr@) =~= table_view(before).push(s@));
    }

    fn decode_value(&mut self, budget: usize) -> (r: Option<Value>)
        ensures
            final(self).dr.bytes() == old(self).dr.bytes(),
            final(self).limits == old(self).limits,
            match dec_value(
                old(self).dr.bytes(),
                old(self).dr.pos(),
                table_view(old(self).str_arr@),
                budget as nat,
                old(self).limits,
            ) {
                Some((j, p, t)) => r matches Some(v) && v@ == j && final(self).dr.pos() == p
                    && table_view(final(self).str_arr@) == t,
                None => r is None,
            },
        decreases budget, 1nat, 0nat,
    {
        let tag = self.dr.read_u8()?;
        if tag == 0 {
            Some(Value::Null)
        } else if tag == 1 {
            let v = self.dr.read_i32()?;
            Some(Value::Int(v as i64))
        } else if tag == 2 || tag == 10 {
            let v = self.dr.read_i64()?;
            Some(Value::Int(v))
        } else if tag == 3 {
            let b = self.dr.read_bytes(4)?;
            let bits: u32 = b[0] as u32 + 0x100 * (b[1] as u32) + 0x1_0000 * (b[2] as u32)
                + 0x100_0000 * (b[3] as u32);
            assert(le_u32_at(b@, 0) == bits);
            if (bits / 0x80_0000) % 0x100 != 0xff {
                Some(Value::Float(crate::float_bits::widen_f32_bits(bits)))
            } else {
                Some(Value::Null)
            }
        } else if tag == 4 {
            let b = self.dr.read_bytes(8)?;
            let lo: u64 = b[0] as u64 + 0x100 * (b[1] as u64) + 0x1_0000 * (b[2] as u64)
                + 0x100_0000 * (b[3] as u64);
            let hi: u64 = b[4] as u64 + 0x100 * (b[5] as u64) + 0x1_0000 * (b[6] as u64)
                + 0x100_0000 * (b[7] as u64);
            let bits: u64 = lo + 0x1_0000_0000 * hi;
            assert(le_u32_at(b@, 0) == lo && le_u32_at(b@, 4) == hi);
            if (bits / 0x10_0000_0000_0000) % 0x800 != 0x7ff {
                Some(Value::Float(bits))
            } else {
                Some(Value::Null)
            }
        } else if tag == 5 {
            let n = self.dr.read_7bit_int()? as usize;
            if n > self.limits.max_string_bytes {
                return None;
            }
            let s = self.dr.read_utf_bytes(n)?;
            self.push_string(&s);
            Some(Value::Str(s))
        } else if tag == 6 {
            let b = self.dr.read_u8()?;
            Some(Value::Bool(b == 1))
        } else if tag == 7 {
            let n = self.dr.read_7bit_int()? as usize;
            if n > self.limits.max_binary_bytes {
                return None;
            }
            let b = self.dr.read_bytes(n)?;
            Some(Value::Str(crate::b64::encode(b.as_slice())))
        } else if tag == 8 {
            let n = self.dr.read_7bit_int()? as usize;
            if n > self.limits.max_entries || budget == 0 {
                return None;
            }
            let es = self.decode_entries(n, budget - 1)?;
            Some(Value::Object(es))
        } else if tag == 9 {
            let n = self.dr.read_7bit_int()? as usize;
            if n > self.limits.max_entries || budget == 0 {
                return None;
            }
            let vs = self.decode_items(n, budget - 1)?;
            Some(Value::Array(vs))
        } else if tag == 99 {
            let i = self.dr.read_7bit_int()? as usize;
            if i < self.str_arr.len() {
                let s = self.str_arr[i].clone();
                Some(Value::Str(s))
            } else {
                None
            }
        } else {
            None
        }
    }

    fn decode_items(&mut self, n: usize, budget: usize) -> (r: Option<Vec<Value>>)
        ensures
            final(self).dr.bytes() == old(self).dr.bytes(),
            final(self).limits == old(self).limits,
            match dec_items(
                old(self).dr.bytes(),
                old(self).dr.pos(),
                table_view(old(self).str_arr@),
                n as nat,
                budget as nat,
                old(self).limits,
            ) {
                Some((vs, p, t)) => r matches Some(out) && model_items(out@) == vs
                    && final(self).dr.pos() == p && table_view(final(self).str_arr@) == t,
                None => r is None,
            },
        decreases budget + 1, 0nat, n,
    {
        let ghost s = self.dr.bytes();
        let ghost lim = self.limits;
        let ghost goal = dec_items(s, self.dr.pos(), table_view(self.str_arr@), n as nat, budget as nat, lim);
        let mut out: Vec<Value> = Vec::new();
        let mut i: usize = 0;
        while i < n
            invariant
                i <= n,
                self.dr.bytes() == s,
                self.limits == lim,
                s == old(self).dr.bytes(),
                lim == old(self).limits,
                goal == dec_items(s, old(self).dr.pos(), table_view(old(self).str_arr@), n as nat, budget as nat, lim),
                goal == match dec_items(s, self.dr.pos(), table_view(self.str_arr@), (n - i) as nat, budget as nat, lim) {
                    Some((vs, p, t)) => Some((model_items(out@) + vs, p, t)),
                    None => None,
                },
            decreases n - i,
        {
            let ghost p0 = self.dr.pos();
            let ghost t0 = table_view(self.str_arr@);
            let ghost before = out@;
            let v = match self.decode_value(budget) {
                Some(v) => v,
                None => {
                    return None;
                },
            };
            out.push(v);
            proof {
                assert(out@.drop_last() =~= before);
                assert(model_items(out@) == model_items(before).push(model(v)));
                let rest = dec_items(s, self.dr.pos(), table_view(self.str_arr@), (n - i - 1) as nat, budget as nat, lim);
                match rest {
                    Some((vs, p, t)) => {
                        assert(model_items(before) + (seq![model(v)] + vs) =~= model_items(out@) + vs);
                    },
                    None => {},
                }
            }
            i = i + 1;
        }
        proof {
            assert(model_items(out@) + Seq::<Json>::empty() =~= model_items(out@));
        }
        Some(out)
    }

    fn key_of(k: Value) -> (r: Option<String>)
        ensures
            match key_text(k@) {
                Some(txt) => r matches Some(s) && s@ == txt,
                None => r is None,
            },
    {
        match k {
            Value::Str(s) => Some(s),
            Value::Null => {
                let s = String::from_str("null");
                proof {
                    reveal_strlit("null");
                }
                Some(s)
            },
            Value::Bool(b) => {
                if b {
                    let s = String::from_str("true");
                    proof {
                        reveal_strlit("true");
                    }
                    Some(s)
                } else {
                    let s = String::from_str("false");
                    proof {
                        reveal_strlit("false");
                    }
                    Some(s)
                }
            },
            Value::Int(i) => Some(crate::text::int_text(i)),
            _ => None,
        }
    }

    pub(crate) fn insert_entry(out: &mut Vec<(String, Value)>, k: String, v: Value)
        ensures
            model_entries(final(out)@) == obj_insert(model_entries(old(out)@), k@, model(v)),
    {
        let ghost m = model_entries(out@);
        proof {
            lemma_model_entries_len(out@);
        }
        let mut j: usize = out.len();
        assert(m.take(j as int) =~= m);
        while j > 0
            invariant
                j <= out.len(),
                out@ == old(out)@,
                m == model_entries(out@),
                m.len() == out@.len(),
                forall|q: int| 0 <= q < out@.len() ==> #[trigger] m[q] == (out@[q].0@, model(out@[q].1)),
                find_key(m, k@) == find_key(m.take(j as int), k@),
            decreases j,
        {
            if out[j - 1].0 == k {
                proof {
                    assert(m.take(j as int).last() == m[j - 1]);
                    assert(find_key(m, k@) == j - 1);
                }
                out.set(j - 1, (k, v));
                proof {
                    lemma_model_entries_len(out@);
                    assert(model_entries(out@) =~= m.update(j - 1, (k@, model(v))));
                }
                return;
            }
            proof {
                assert(m.take(j as int).drop_last() =~= m.take(j - 1));
            }
            j = j - 1;
        }
        proof {
            assert(find_key(m.take(0), k@) == -1);
        }
        out.push((k, v));
        proof {
            lemma_model_entries_len(out@);
            assert(model_entries(out@) =~= m.push((k@, model(v))));
        }
    }

    fn decode_entries(&mut self, n: usize, budget: usize) -> (r: Option<Vec<(String, Value)>>)
        ensures
            final(self).dr.bytes() == old(self).dr.bytes(),
            final(self).limits == old(self).limits,
            match dec_entries(
                old(self).dr.bytes(),
                old(self).dr.pos(),
                table_view(old(self).str_arr@),
                n as nat,
                budget as nat,
                old(self).limits,
                seq![],
            ) {
                Some((es, p, t)) => r matches Some(out) && model_entries(out@) == es
                    && final(self).dr.pos() == p && table_view(final(self).str_arr@) == t,
                None => r is None,
            },
        decreases budget + 1, 0nat, n,
    {
        let ghost s = self.dr.bytes();
        let ghost lim = self.limits;
        let mut out: Vec<(String, Value)> = Vec::new();
        let mut i: usize = 0;
        assert(model_entries(out@) =~= Seq::<(Seq<char>, Json)>::empty());
        while i < n
            invariant
                i <= n,
                self.dr.bytes() == s,
                self.limits == lim,
                s == old(self).dr.bytes(),
                lim == old(self).limits,
                dec_entries(s, old(self).dr.pos(), table_view(old(self).str_arr@), n as nat, budget as nat, lim, seq![])
                    == dec_entries(s, self.dr.pos(), table_view(self.str_arr@), (n - i) as nat, budget as nat, lim, model_entries(out@)),
            decreases n - i,
        {
            let k = match self.decode_value(budget) {
                Some(k) => k,
                None => {
                    return None;
                },
            };
            let key = match Self::key_of(k) {
                Some(key) => key,
                None => {
                    return None;
                },
            };
            let v = match self.decode_value(budget) {
                Some(v) => v,
                None => {
                    return None;
                },
            };
            Self::insert_entry(&mut out, key, v);
            i = i + 1;
        }
        Some(out)
    }
}


/// The header fields of a game packet, in the order they are written.
pub open spec fn packet_fields(cmd: Seq<char>, ack: u32, seq_no: u32, time: i64) -> Seq<(Seq<char>, Json)> {
    seq![
        (seq!['c', 'm', 'd'], Json::Str(cmd)),
        (seq!['a', 'c', 'k'], Json::Int(ack as i64)),
        (seq!['s', 'e', 'q'], Json::Int(seq_no as i64)),
        (seq!['t', 'i', 'm', 'e'], Json::Int(time)),
    ]
}

/// The bytes of a game packet: an object of the header fields and, when
/// there is a body, a `body` field whose value is the body's own BON
/// encoding as a binary value.
pub open spec fn packet_bytes(cmd: Seq<char>, ack: u32, seq_no: u32, time: i64, body: Option<Json>) -> Seq<u8> {
    let (b, t) = enc_entries(packet_fields(cmd, ack, seq_no, time), seq![]);
    match body {
        None => seq![8u8] + enc7(4) + b,
        Some(j) => seq![8u8] + enc7(5) + b + enc_str(seq!['b', 'o', 'd', 'y'], t).0 + seq![7u8]
            + enc7(bon_bytes(j).len() as u32) + bon_bytes(j),
    }
}

/// Encodes a game packet `{cmd, ack, seq, time[, body]}`; the body is
/// encoded on its own and carried as a binary value.
pub fn encode_game_packet(cmd: &str, ack: u32, seq: u32, time: i64, body_params: Option<&Value>) -> (r: Vec<u8>)
    requires
        time != i64::MIN,
        body_params matches Some(b) ==> encodable(b@),
    ensures
        r@ == packet_bytes(
            cmd@,
            ack,
            seq,
            time,
            match body_params {
                Some(b) => Some(b@),
                None => None,
            },
        ),
{
    let mut enc = BonEncoder::new();
    let field_count: usize = if body_params.is_some() { 5 } else { 4 };
    enc.dw.write_u8(8);
    enc.dw.write_7bit_int(field_count);
    let k_cmd = String::from_str("cmd");
    let k_ack = String::from_str("ack");
    let k_seq = String::from_str("seq");
    let k_time = String::from_str("time");
    proof {
        reveal_strlit("cmd");
        reveal_strlit("ack");
        reveal_strlit("seq");
        reveal_strlit("time");
    }
    let mut fields: Vec<(String, Value)> = Vec::new();
    fields.push((k_cmd, Value::Str(String::from_str(cmd))));
    fields.push((k_ack, Value::Int(ack as i64)));
    fields.push((k_seq, Value::Int(seq as i64)));
    fields.push((k_time, Value::Int(time)));
    let ghost m = packet_fields(cmd@, ack, seq, time);
    proof {
        lemma_model_entries_len(fields@);
        assert(fields@.len() == 4);
        assert(fields@[0].0@ =~= seq!['c', 'm', 'd']);
        assert(fields@[1].0@ =~= seq!['a', 'c', 'k']);
        assert(fields@[2].0@ =~= seq!['s', 'e', 'q']);
        assert(fields@[3].0@ =~= seq!['t', 'i', 'm', 'e']);
        assert(model(fields@[0].1) == Json::Str(cmd@));
        assert(model_entries(fields@)[0] == m[0]);
        assert(model_entries(fields@)[1] == m[1]);
        assert(model_entries(fields@)[2] == m[2]);
        assert(model_entries(fields@)[3] == m[3]);
        assert(model_entries(fields@) =~= m);
        assert forall|k: int| 0 <= k < fields@.len() implies encodable(#[trigger] model(fields@[k].1)) by {
            assert(model_entries(fields@)[k] == (fields@[k].0@, model(fields@[k].1)));
        }
    }
    let ghost t0 = enc.strings();
    assert(t0 =~= Seq::<Seq<char>>::empty());
    let ghost head = enc.bytes();
    assert(head =~= seq![8u8] + enc7(field_count as u32));
    enc.encode_entries(&fields);
    let ghost fb = enc_entries(m, t0);
    assert(enc.bytes() == head + fb.0);
    match body_params {
        Some(params) => {
            let body_bytes = encode(params);
            let k_body = String::from_str("body");
            proof {
                reveal_strlit("body");
                assert(k_body@ =~= seq!['b', 'o', 'd', 'y']);
            }
            enc.encode_str(&k_body);
            enc.encode_binary(body_bytes.as_slice());
            assert(enc.bytes() =~= seq![8u8] + enc7(5) + fb.0 + enc_str(seq!['b', 'o', 'd', 'y'], fb.1).0
                + seq![7u8] + enc7(bon_bytes(params@).len() as u32) + bon_bytes(params@));
        },
        None => {
            assert(enc.bytes() =~= seq![8u8] + enc7(4) + fb.0);
        },
    }
    let r = enc.get_bytes();
    assert(r@ =~= packet_bytes(
        cmd@,
        ack,
        seq,
        time,
        match body_params {
            Some(b) => Some(b@),
            None => None,
        },
    ));
    r
}

/// The BON encoding of `value` by a fresh encoder.
pub fn encode(value: &Value) -> (r: Vec<u8>)
    requires
        encodable(value@),
    ensures
        r@ == bon_bytes(value@),
{
    let mut enc = BonEncoder::new();
    enc.encode(value);
    enc.get_bytes()
}

/// Decodes the value at the start of `data`, with no bounds beyond what the
/// machine holds.
pub fn decode(data: &[u8]) -> (r: Option<Value>)
    ensures
        match bon_decoded(data@, open_limits()) {
            Some(j) => r matches Some(v) && v@ == j,
            None => r is None,
        },
{
    decode_with_limits(data, BonDecodeLimits::unbounded())
}

/// Decodes the value at the start of `data` within the given bounds.
pub fn decode_with_limits(data: &[u8], limits: BonDecodeLimits) -> (r: Option<Value>)
    ensures
        match bon_decoded(data@, limits) {
            Some(j) => r matches Some(v) && v@ == j,
            None => r is None,
        },
{
    let mut dec = BonDecoder::with_limits(limits);
    dec.reset(crate::bytes_io::slice_to_vec(data));
    dec.decode()
}


/// Whether a value can be written: every integer in it has a magnitude in
/// range.
pub fn is_encodable(v: &Value) -> (r: bool)
    ensures
        r == encodable(v@),
    decreases v, 1nat,
{
    match v {
        Value::Int(i) => *i != i64::MIN,
        Value::Array(items) => items_encodable(items),
        Value::Object(es) => entries_encodable(es),
        _ => true,
    }
}

fn items_encodable(items: &Vec<Value>) -> (r: bool)
    ensures
        r == encodable(Json::Array(model_items(items@))),
    decreases items, 0nat,
{
    proof {
        lemma_model_items_len(items@);
    }
    let mut i: usize = 0;
    while i < items.len()
        invariant
            i <= items@.len(),
            model_items(items@).len() == items@.len(),
            forall|q: int| 0 <= q < items@.len() ==> #[trigger] model_items(items@)[q] == model(items@[q]),
            forall|k: int| 0 <= k < i ==> encodable(#[trigger] model_items(items@)[k]),
        decreases items@.len() - i,
    {
        proof {
            assert(decreases_to!(items => items@));
            assert(decreases_to!(items@ => items@[i as int]));
        }
        if !is_encodable(&items[i]) {
            assert(model_items(items@)[i as int] == model(items@[i as int]));
            assert(!encodable(model_items(items@)[i as int]));
            proof {
                let m = model_items(items@);
                let j = Json::Array(m);
                if encodable(j) {
                    assert(j matches Json::Array(its) && its == m);
                    assert(encodable(m[i as int]));
                }
            }
            return false;
        }
        i = i + 1;
    }
    true
}

fn entries_encodable(es: &Vec<(String, Value)>) -> (r: bool)
    ensures
        r == encodable(Json::Object(model_entries(es@))),
    decreases es, 0nat,
{
    proof {
        lemma_model_entries_len(es@);
    }
    let mut i: usize = 0;
    while i < es.len()
        invariant
            i <= es@.len(),
            model_entries(es@).len() == es@.len(),
            forall|q: int| 0 <= q < es@.len() ==> #[trigger] model_entries(es@)[q] == (es@[q].0@, model(es@[q].1)),
            forall|k: int| 0 <= k < i ==> encodable(#[trigger] model_entries(es@)[k].1),
        decreases es@.len() - i,
    {
        proof {
            assert(decreases_to!(es => es@));
            assert(decreases_to!(es@ => es@[i as int]));
            assert(decreases_to!(es@[i as int] => es@[i as int].1));
        }
        if !is_encodable(&es[i].1) {
            assert(model_entries(es@)[i as int] == (es@[i as int].0@, model(es@[i as int].1)));
            assert(!encodable(model_entries(es@)[i as int].1));
            proof {
                let m = model_entries(es@);
                let j = Json::Object(m);
                if encodable(j) {
                    assert(j matches Json::Object(e2) && e2 == m);
                    assert(encodable(m[i as int].1));
                }
            }
            return false;
        }
        i = i + 1;
    }
    true
}

proof fn lemma_encodable_items(items: Seq<Value>)
    requires
        encodable(Json::Array(model_items(items))),
    ensures
        forall|k: int| 0 <= k < items.len() ==> encodable(#[trigger] model(items[k])),
{
    lemma_model_items_len(items);
    assert forall|k: int| 0 <= k < items.len() implies encodable(#[trigger] model(items[k])) by {
        let j = Json::Array(model_items(items));
        assert(encodable(j));
        assert(j matches Json::Array(its) && its == model_items(items));
        assert(encodable(model_items(items)[k]));
        assert(model_items(items)[k] == model(items[k]));
    }
}

proof fn lemma_encodable_entries(es: Seq<(String, Value)>)
    requires
        encodable(Json::Object(model_entries(es))),
    ensures
        forall|k: int| 0 <= k < es.len() ==> encodable(#[trigger] model(es[k].1)),
{
    lemma_model_entries_len(es);
    assert forall|k: int| 0 <= k < es.len() implies encodable(#[trigger] model(es[k].1)) by {
        let j = Json::Object(model_entries(es));
        assert(encodable(j));
        assert(j matches Json::Object(e2) && e2 == model_entries(es));
        assert(encodable(model_entries(es)[k].1));
        assert(model_entries(es)[k] == (es[k].0@, model(es[k].1)));
    }
}




proof fn lemma_find_index_at(t: Seq<Seq<char>>, s: Seq<char>, i: int)
    requires
        0 <= i < t.len(),
        t[i] == s,
        forall|j: int| 0 <= j < i ==> t[j] != s,
    ensures
        find_index(t, s) == i,
    decreases i,
{
    if i > 0 {
        lemma_find_index_at(t.drop_first(), s, i - 1);
        assert(t[0] != s);
    }
}

proof fn lemma_find_index_absent(t: Seq<Seq<char>>, s: Seq<char>)
    requires
        forall|j: int| 0 <= j < t.len() ==> t[j] != s,
    ensures
        find_index(t, s) == -1,
    decreases t.len(),
{
    if t.len() > 0 {
        lemma_find_index_absent(t.drop_first(), s);
    }
}

} // verus!
