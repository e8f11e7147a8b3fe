//! What decoding gives back of an encoding.

use vstd::prelude::*;
use crate::value::Json;
use crate::bytes_io::{
    enc7, le32, le64_words, utf_field, rd_i32, rd_i64, rd_bytes, rd_varint, le_u32_at,
    law_i32_read_after_write, law_i64_read_after_write, law_varint_read_after_write,
};
use crate::bon::{
    enc_value, enc_items, enc_entries, enc_str, enc_int, find_index, le64_bits, dec_value,
    dec_items, dec_entries, key_text, obj_insert, find_key, BonDecodeLimits, bon_bytes,
    bon_decoded,
};
use crate::float_bits::f64_is_finite;

verus! {

/// No string occurs twice in the table.
pub open spec fn distinct(t: Seq<Seq<char>>) -> bool {
    forall|i: int, j: int| 0 <= i < j < t.len() ==> t[i] != t[j]
}

/// No key occurs twice among the entries.
pub open spec fn distinct_keys(es: Seq<(Seq<char>, Json)>) -> bool {
    forall|i: int, j: int| 0 <= i < j < es.len() ==> es[i].0 != es[j].0
}

/// Whether a text fits in a BON string field under the bounds.
pub open spec fn text_fits(s: Seq<char>, lim: BonDecodeLimits) -> bool {
    &&& vstd::utf8::encode_utf8(s).len() <= lim.max_string_bytes
    &&& vstd::utf8::encode_utf8(s).len() <= u32::MAX
}

/// The values that BON carries faithfully within the bounds, with at most
/// `budget` containers nested around each value.
pub open spec fn carried(v: Json, budget: nat, lim: BonDecodeLimits) -> bool
    decreases v,
{
    match v {
        Json::Null => true,
        Json::Bool(_) => true,
        Json::Int(i) => i != i64::MIN,
        Json::Float(b) => f64_is_finite(b),
        Json::Str(s) => text_fits(s, lim),
        Json::Array(items) => {
            &&& budget > 0
            &&& items.len() <= lim.max_entries
            &&& items.len() <= u32::MAX
            &&& forall|k: int|
                0 <= k < items.len() ==> carried(#[trigger] items[k], (budget - 1) as nat, lim)
        },
        Json::Object(es) => {
            &&& budget > 0
            &&& es.len() <= lim.max_entries
            &&& es.len() <= u32::MAX
            &&& distinct_keys(es)
            &&& forall|k: int| 0 <= k < es.len() ==> text_fits(#[trigger] es[k].0, lim)
            &&& forall|k: int|
                0 <= k < es.len() ==> carried(#[trigger] es[k].1, (budget - 1) as nat, lim)
        },
    }
}

proof fn lemma_find_index(t: Seq<Seq<char>>, s: Seq<char>)
    ensures
        -1 <= find_index(t, s) < t.len(),
        find_index(t, s) >= 0 ==> t[find_index(t, s)] == s,
        find_index(t, s) == -1 ==> forall|i: int| 0 <= i < t.len() ==> t[i] != s,
    decreases t.len(),
{
    if t.len() > 0 {
        lemma_find_index(t.drop_first(), s);
        if find_index(t, s) == -1 {
            assert forall|i: int| 0 <= i < t.len() implies t[i] != s by {
                if i > 0 {
                    assert(t[i] == t.drop_first()[i - 1]);
                }
            }
        }
    }
}

/// The table only grows, by appending.
proof fn lemma_table_grows(v: Json, t: Seq<Seq<char>>)
    ensures
        enc_value(v, t).1.len() >= t.len(),
        enc_value(v, t).1.take(t.len() as int) == t,
    decreases v,
{
    match v {
        Json::Str(s) => {
            assert(t.push(s).take(t.len() as int) =~= t);
            assert(t.take(t.len() as int) =~= t);
        },
        Json::Array(items) => {
            lemma_items_table_grows(items, t);
        },
        Json::Object(es) => {
            lemma_entries_table_grows(es, t);
        },
        _ => {
            assert(t.take(t.len() as int) =~= t);
        },
    }
}

proof fn lemma_items_table_grows(items: Seq<Json>, t: Seq<Seq<char>>)
    ensures
        enc_items(items, t).1.len() >= t.len(),
        enc_items(items, t).1.take(t.len() as int) == t,
    decreases items,
{
    if items.len() == 0 {
        assert(t.take(t.len() as int) =~= t);
    } else {
        lemma_items_table_grows(items.drop_last(), t);
        let t1 = enc_items(items.drop_last(), t).1;
        lemma_table_grows(items.last(), t1);
        let t2 = enc_value(items.last(), t1).1;
        assert(t2.take(t.len() as int) =~= t2.take(t1.len() as int).take(t.len() as int));
    }
}

proof fn lemma_str_table_grows(s: Seq<char>, t: Seq<Seq<char>>)
    ensures
        enc_str(s, t).1.len() >= t.len(),
        enc_str(s, t).1.take(t.len() as int) == t,
{
    assert(t.push(s).take(t.len() as int) =~= t);
    assert(t.take(t.len() as int) =~= t);
}

proof fn lemma_entries_table_grows(es: Seq<(Seq<char>, Json)>, t: Seq<Seq<char>>)
    ensures
        enc_entries(es, t).1.len() >= t.len(),
        enc_entries(es, t).1.take(t.len() as int) == t,
    decreases es,
{
    if es.len() == 0 {
        assert(t.take(t.len() as int) =~= t);
    } else {
        lemma_entries_table_grows(es.drop_last(), t);
        let t1 = enc_entries(es.drop_last(), t).1;
        lemma_str_table_grows(es.last().0, t1);
        let t2 = enc_str(es.last().0, t1).1;
        lemma_table_grows(es.last().1, t2);
        let t3 = enc_value(es.last().1, t2).1;
        assert(t3.take(t.len() as int) =~= t3.take(t2.len() as int).take(t1.len() as int).take(
            t.len() as int,
        ));
    }
}

/// Splits `s` around an occurrence of `b` at `p`.
proof fn lemma_split(s: Seq<u8>, p: int, b: Seq<u8>)
    requires
        0 <= p,
        p + b.len() <= s.len(),
        s.subrange(p, p + b.len()) == b,
    ensures
        s == s.take(p) + b + s.skip(p + b.len()),
{
    assert(s =~= s.take(p) + b + s.skip(p + b.len()));
}

/// An occurrence of `a + b` at `p` is an occurrence of `a` at `p` and of `b`
/// after it.
proof fn lemma_sub_concat(s: Seq<u8>, p: int, a: Seq<u8>, b: Seq<u8>)
    requires
        0 <= p,
        p + a.len() + b.len() <= s.len(),
        s.subrange(p, p + a.len() + b.len()) == a + b,
    ensures
        s.subrange(p, p + a.len()) == a,
        s.subrange(p + a.len(), p + a.len() + b.len()) == b,
{
    assert forall|i: int| 0 <= i < a.len() implies s.subrange(p, p + a.len())[i] == a[i] by {
        assert(s.subrange(p, p + a.len() + b.len())[i] == (a + b)[i]);
    }
    assert forall|i: int| 0 <= i < b.len() implies s.subrange(p + a.len(), p + a.len() + b.len())[i]
        == b[i] by {
        assert(s.subrange(p + a.len(), p + a.len() + b.len())[i] == s[p + a.len() + i]);
        assert(s.subrange(p, p + a.len() + b.len())[a.len() + i] == s[p + a.len() + i]);
        assert(s.subrange(p, p + a.len() + b.len())[a.len() + i] == (a + b)[a.len() + i]);
    }
    assert(s.subrange(p, p + a.len()) =~= a);
    assert(s.subrange(p + a.len(), p + a.len() + b.len()) =~= b);
}

proof fn lemma_varint_at(s: Seq<u8>, p: int, n: u32)
    requires
        0 <= p,
        p + enc7(n).len() <= s.len(),
        s.subrange(p, p + enc7(n).len()) == enc7(n),
    ensures
        rd_varint(s, p) == Some((n, p + enc7(n).len())),
{
    lemma_split(s, p, enc7(n));
    law_varint_read_after_write(s.take(p), n, s.skip(p + enc7(n).len()));
}

proof fn lemma_utf_roundtrip(
    s: Seq<char>,
    t: Seq<Seq<char>>,
    b: Seq<u8>,
    p: int,
    budget: nat,
    lim: BonDecodeLimits,
)
    requires
        text_fits(s, lim),
        0 <= p,
        p + 1 + utf_field(s).len() <= b.len(),
        b.subrange(p, p + 1 + utf_field(s).len()) == seq![5u8] + utf_field(s),
    ensures
        dec_value(b, p, t, budget, lim) == Some(
            (Json::Str(s), p + 1 + utf_field(s).len(), t.push(s)),
        ),
{
    let u = vstd::utf8::encode_utf8(s);
    let n = u.len() as u32;
    lemma_sub_concat(b, p, seq![5u8], utf_field(s));
    lemma_sub_concat(b, p + 1, enc7(n), u);
    assert(b[p] == 5u8) by {
        assert(b.subrange(p, p + 1)[0] == b[p]);
    }
    lemma_varint_at(b, p + 1, n);
    let p2 = p + 1 + enc7(n).len();
    vstd::utf8::encode_utf8_valid_utf8(s);
    vstd::utf8::encode_utf8_decode_utf8(s);
    assert(n as int == u.len());
    if n == 0 {
        assert(u.len() == 0);
        assert(s.len() == 0) by {
            if s.len() > 0 {
                vstd::utf8::encode_utf8_first_scalar(s);
            }
        }
        assert(s =~= Seq::<char>::empty());
    } else {
        assert(rd_bytes(b, p2, n as int) == Some((u, p2 + u.len())));
    }
}

proof fn lemma_int_roundtrip(i: i64, b: Seq<u8>, p: int)
    requires
        i != i64::MIN,
        0 <= p,
        p + enc_int(i).len() <= b.len(),
        b.subrange(p, p + enc_int(i).len()) == enc_int(i),
    ensures
        b[p] == 1 ==> rd_i32(b, p + 1) == Some(((i as i32), p + enc_int(i).len())) && i32::MIN <= i
            <= i32::MAX,
        b[p] == 2 ==> rd_i64(b, p + 1) == Some((i, p + enc_int(i).len())),
        b[p] == 1 || b[p] == 2,
{
    assert(b[p] == b.subrange(p, p + enc_int(i).len())[0]);
    if i32::MIN <= i <= i32::MAX {
        let x = le32(i as int);
        lemma_sub_concat(b, p, seq![1u8], x);
        lemma_split(b, p + 1, x);
        law_i32_read_after_write(b.take(p + 1), i as i32, b.skip(p + 1 + x.len()));
        assert(b.take(p + 1).len() == p + 1);
    } else {
        let x = le64_words(i as int);
        lemma_sub_concat(b, p, seq![2u8], x);
        lemma_split(b, p + 1, x);
        law_i64_read_after_write(b.take(p + 1), i, b.skip(p + 1 + x.len()));
    }
}

proof fn lemma_bits_roundtrip(bits: u64, b: Seq<u8>, p: int)
    requires
        0 <= p,
        p + 8 <= b.len(),
        b.subrange(p, p + 8) == le64_bits(bits),
    ensures
        rd_bytes(b, p, 8) matches Some((x, q)) && q == p + 8 && (le_u32_at(x, 0) + 0x1_0000_0000
            * le_u32_at(x, 4)) as u64 == bits,
{
    let x = b.subrange(p, p + 8);
    let v = bits as int;
    let lo = v % 0x1_0000_0000;
    let hi = v / 0x1_0000_0000;
    crate::bytes_io::lemma_le32_value(lo);
    crate::bytes_io::lemma_le32_value(hi);
    assert(le_u32_at(x, 0) == le_u32_at(le32(lo), 0));
    assert(le_u32_at(x, 4) == le_u32_at(le32(hi), 0));
    assert(0 <= hi < 0x1_0000_0000);
    assert(v == lo + 0x1_0000_0000 * hi);
}


proof fn lemma_dec_items_snoc(s: Seq<u8>, p: int, t: Seq<Seq<char>>, n: nat, budget: nat, lim: BonDecodeLimits)
    ensures
        dec_items(s, p, t, n + 1, budget, lim) == match dec_items(s, p, t, n, budget, lim) {
            Some((vs, p1, t1)) => match dec_value(s, p1, t1, budget, lim) {
                Some((v, p2, t2)) => Some((vs.push(v), p2, t2)),
                None => None,
            },
            None => None,
        },
    decreases n,
{
    if n == 0 {
        reveal_with_fuel(dec_items, 2);
        match dec_value(s, p, t, budget, lim) {
            Some((v, p1, t1)) => {
                assert(seq![v] + Seq::<Json>::empty() =~= Seq::<Json>::empty().push(v));
            },
            None => {},
        }
    } else {
        match dec_value(s, p, t, budget, lim) {
            Some((v, p1, t1)) => {
                lemma_dec_items_snoc(s, p1, t1, (n - 1) as nat, budget, lim);
                assert((n + 1 - 1) as nat == ((n - 1) as nat + 1) as nat);
                match dec_items(s, p1, t1, (n - 1) as nat, budget, lim) {
                    Some((vs, q1, u1)) => {
                        match dec_value(s, q1, u1, budget, lim) {
                            Some((w, q2, u2)) => {
                                assert(seq![v] + vs.push(w) =~= (seq![v] + vs).push(w));
                            },
                            None => {},
                        }
                    },
                    None => {},
                }
            },
            None => {},
        }
    }
}

pub open spec fn entry_step(
    s: Seq<u8>,
    p: int,
    t: Seq<Seq<char>>,
    budget: nat,
    lim: BonDecodeLimits,
    acc: Seq<(Seq<char>, Json)>,
) -> Option<(Seq<(Seq<char>, Json)>, int, Seq<Seq<char>>)> {
    match dec_value(s, p, t, budget, lim) {
        Some((k, p1, t1)) => match key_text(k) {
            Some(kt) => match dec_value(s, p1, t1, budget, lim) {
                Some((v, p2, t2)) => Some((obj_insert(acc, kt, v), p2, t2)),
                None => None,
            },
            None => None,
        },
        None => None,
    }
}

proof fn lemma_dec_entries_snoc(
    s: Seq<u8>,
    p: int,
    t: Seq<Seq<char>>,
    n: nat,
    budget: nat,
    lim: BonDecodeLimits,
    acc: Seq<(Seq<char>, Json)>,
)
    ensures
        dec_entries(s, p, t, n + 1, budget, lim, acc) == match dec_entries(s, p, t, n, budget, lim, acc) {
            Some((es, p1, t1)) => entry_step(s, p1, t1, budget, lim, es),
            None => None,
        },
    decreases n,
{
    if n == 0 {
        reveal_with_fuel(dec_entries, 2);
    } else {
        match entry_step(s, p, t, budget, lim, acc) {
            Some((acc2, p1, t1)) => {
                lemma_dec_entries_snoc(s, p1, t1, (n - 1) as nat, budget, lim, acc2);
                assert((n + 1 - 1) as nat == ((n - 1) as nat + 1) as nat);
            },
            None => {},
        }
    }
}

proof fn lemma_find_key_absent(es: Seq<(Seq<char>, Json)>, k: Seq<char>)
    requires
        forall|i: int| 0 <= i < es.len() ==> es[i].0 != k,
    ensures
        find_key(es, k) == -1,
    decreases es.len(),
{
    if es.len() > 0 {
        lemma_find_key_absent(es.drop_last(), k);
    }
}

proof fn lemma_rt_str(
    x: Seq<char>,
    t: Seq<Seq<char>>,
    s: Seq<u8>,
    p: int,
    budget: nat,
    lim: BonDecodeLimits,
)
    requires
        text_fits(x, lim),
        distinct(t),
        enc_str(x, t).1.len() <= 0x1_0000_0000,
        0 <= p,
        p + enc_str(x, t).0.len() <= s.len(),
        s.subrange(p, p + enc_str(x, t).0.len()) == enc_str(x, t).0,
    ensures
        dec_value(s, p, t, budget, lim) == Some(
            (Json::Str(x), p + enc_str(x, t).0.len(), enc_str(x, t).1),
        ),
        distinct(enc_str(x, t).1),
{
    let e = enc_str(x, t).0;
    assert(s[p] == e[0]) by {
        assert(s.subrange(p, p + e.len())[0] == s[p]);
    }
    lemma_find_index(t, x);
    let i = find_index(t, x);
    if i >= 0 {
        lemma_sub_concat(s, p, seq![99u8], enc7(i as u32));
        assert(i as u32 == i);
        lemma_varint_at(s, p + 1, i as u32);
    } else {
        lemma_utf_roundtrip(x, t, s, p, budget, lim);
        assert(distinct(t.push(x)));
    }
}

proof fn lemma_rt_value(
    v: Json,
    t: Seq<Seq<char>>,
    s: Seq<u8>,
    p: int,
    budget: nat,
    lim: BonDecodeLimits,
)
    requires
        carried(v, budget, lim),
        distinct(t),
        enc_value(v, t).1.len() <= 0x1_0000_0000,
        0 <= p,
        p + enc_value(v, t).0.len() <= s.len(),
        s.subrange(p, p + enc_value(v, t).0.len()) == enc_value(v, t).0,
    ensures
        dec_value(s, p, t, budget, lim) == Some(
            (v, p + enc_value(v, t).0.len(), enc_value(v, t).1),
        ),
        distinct(enc_value(v, t).1),
    decreases v, 1nat,
{
    let e = enc_value(v, t).0;
    assert(s[p] == e[0]) by {
        assert(s.subrange(p, p + e.len())[0] == s[p]);
    }
    match v {
        Json::Null => {},
        Json::Bool(b) => {
            assert(s[p + 1] == e[1]) by {
                assert(s.subrange(p, p + e.len())[1] == s[p + 1]);
            }
        },
        Json::Int(i) => {
            lemma_int_roundtrip(i, s, p);
        },
        Json::Float(bits) => {
            lemma_sub_concat(s, p, seq![4u8], le64_bits(bits));
            lemma_bits_roundtrip(bits, s, p + 1);
        },
        Json::Str(x) => {
            lemma_rt_str(x, t, s, p, budget, lim);
        },
        Json::Array(items) => {
            let n = items.len() as u32;
            let body = enc_items(items, t).0;
            assert(e == seq![9u8] + enc7(n) + body);
            lemma_sub_concat(s, p, seq![9u8] + enc7(n), body);
            lemma_sub_concat(s, p, seq![9u8], enc7(n));
            lemma_varint_at(s, p + 1, n);
            assert(n as int == items.len());
            lemma_rt_items(items, t, s, p + 1 + enc7(n).len(), (budget - 1) as nat, lim);
        },
        Json::Object(es) => {
            let n = es.len() as u32;
            let body = enc_entries(es, t).0;
            assert(e == seq![8u8] + enc7(n) + body);
            lemma_sub_concat(s, p, seq![8u8] + enc7(n), body);
            lemma_sub_concat(s, p, seq![8u8], enc7(n));
            lemma_varint_at(s, p + 1, n);
            assert(n as int == es.len());
            lemma_rt_entries(es, t, s, p + 1 + enc7(n).len(), (budget - 1) as nat, lim);
        },
    }
}

proof fn lemma_rt_items(
    items: Seq<Json>,
    t: Seq<Seq<char>>,
    s: Seq<u8>,
    p: int,
    budget: nat,
    lim: BonDecodeLimits,
)
    requires
        forall|k: int| 0 <= k < items.len() ==> carried(#[trigger] items[k], budget, lim),
        distinct(t),
        enc_items(items, t).1.len() <= 0x1_0000_0000,
        0 <= p,
        p + enc_items(items, t).0.len() <= s.len(),
        s.subrange(p, p + enc_items(items, t).0.len()) == enc_items(items, t).0,
    ensures
        dec_items(s, p, t, items.len(), budget, lim) == Some(
            (items, p + enc_items(items, t).0.len(), enc_items(items, t).1),
        ),
        distinct(enc_items(items, t).1),
    decreases items, 0nat,
{
    if items.len() == 0 {
        assert(items =~= Seq::<Json>::empty());
    } else {
        let init = items.drop_last();
        let last = items.last();
        let (b1, t1) = enc_items(init, t);
        let (b2, t2) = enc_value(last, t1);
        lemma_table_grows(last, t1);
        lemma_sub_concat(s, p, b1, b2);
        assert forall|k: int| 0 <= k < init.len() implies carried(#[trigger] init[k], budget, lim) by {
            assert(init[k] == items[k]);
        }
        lemma_rt_items(init, t, s, p, budget, lim);
        assert(carried(items[items.len() - 1], budget, lim));
        lemma_rt_value(last, t1, s, p + b1.len(), budget, lim);
        lemma_dec_items_snoc(s, p, t, init.len(), budget, lim);
        assert(init.push(last) =~= items);
        assert((init.len() + 1) as nat == items.len());
    }
}

proof fn lemma_entries_init(es: Seq<(Seq<char>, Json)>, budget: nat, lim: BonDecodeLimits)
    requires
        es.len() > 0,
        forall|k: int| 0 <= k < es.len() ==> carried(#[trigger] es[k].1, budget, lim),
        forall|k: int| 0 <= k < es.len() ==> text_fits(#[trigger] es[k].0, lim),
        distinct_keys(es),
    ensures
        forall|k: int| 0 <= k < es.drop_last().len() ==> carried(#[trigger] es.drop_last()[k].1, budget, lim),
        forall|k: int| 0 <= k < es.drop_last().len() ==> text_fits(#[trigger] es.drop_last()[k].0, lim),
        distinct_keys(es.drop_last()),
        carried(es.last().1, budget, lim),
        text_fits(es.last().0, lim),
        find_key(es.drop_last(), es.last().0) == -1,
        es.drop_last().push(es.last()) == es,
{
    let init = es.drop_last();
    assert forall|q: int| 0 <= q < init.len() implies carried(#[trigger] init[q].1, budget, lim) by {
        assert(init[q] == es[q]);
    }
    assert forall|q: int| 0 <= q < init.len() implies text_fits(#[trigger] init[q].0, lim) by {
        assert(init[q] == es[q]);
    }
    assert forall|i: int, j: int| 0 <= i < j < init.len() implies init[i].0 != init[j].0 by {
        assert(init[i] == es[i] && init[j] == es[j]);
    }
    assert(carried(es[es.len() - 1].1, budget, lim));
    assert(text_fits(es[es.len() - 1].0, lim));
    assert forall|i: int| 0 <= i < init.len() implies init[i].0 != es.last().0 by {
        assert(init[i] == es[i]);
    }
    lemma_find_key_absent(init, es.last().0);
    assert(init.push(es.last()) =~= es);
}

proof fn lemma_entries_step(
    s: Seq<u8>,
    p: int,
    t: Seq<Seq<char>>,
    budget: nat,
    lim: BonDecodeLimits,
    init: Seq<(Seq<char>, Json)>,
    k: Seq<char>,
    v: Json,
    p1: int,
    t1: Seq<Seq<char>>,
    p2: int,
    t2: Seq<Seq<char>>,
    p3: int,
    t3: Seq<Seq<char>>,
)
    requires
        dec_entries(s, p, t, init.len(), budget, lim, seq![]) == Some((init, p1, t1)),
        dec_value(s, p1, t1, budget, lim) == Some((Json::Str(k), p2, t2)),
        dec_value(s, p2, t2, budget, lim) == Some((v, p3, t3)),
        find_key(init, k) == -1,
    ensures
        dec_entries(s, p, t, (init.len() + 1) as nat, budget, lim, seq![]) == Some(
            (init.push((k, v)), p3, t3),
        ),
{
    lemma_dec_entries_snoc(s, p, t, init.len(), budget, lim, seq![]);
}

proof fn lemma_rt_entries(
    es: Seq<(Seq<char>, Json)>,
    t: Seq<Seq<char>>,
    s: Seq<u8>,
    p: int,
    budget: nat,
    lim: BonDecodeLimits,
)
    requires
        forall|k: int| 0 <= k < es.len() ==> carried(#[trigger] es[k].1, budget, lim),
        forall|k: int| 0 <= k < es.len() ==> text_fits(#[trigger] es[k].0, lim),
        distinct_keys(es),
        distinct(t),
        enc_entries(es, t).1.len() <= 0x1_0000_0000,
        0 <= p,
        p + enc_entries(es, t).0.len() <= s.len(),
        s.subrange(p, p + enc_entries(es, t).0.len()) == enc_entries(es, t).0,
    ensures
        dec_entries(s, p, t, es.len(), budget, lim, seq![]) == Some(
            (es, p + enc_entries(es, t).0.len(), enc_entries(es, t).1),
        ),
        distinct(enc_entries(es, t).1),
    decreases es, 0nat,
{
    if es.len() == 0 {
        assert(es =~= Seq::<(Seq<char>, Json)>::empty());
    } else {
        let init = es.drop_last();
        let k = es.last().0;
        let v = es.last().1;
        let (b1, t1) = enc_entries(init, t);
        let (bk, t2) = enc_str(k, t1);
        let (bv, t3) = enc_value(v, t2);
        assert(enc_entries(es, t) == (b1 + bk + bv, t3));
        lemma_str_table_grows(k, t1);
        lemma_table_grows(v, t2);
        lemma_sub_concat(s, p, b1 + bk, bv);
        lemma_sub_concat(s, p, b1, bk);
        lemma_entries_init(es, budget, lim);
        lemma_rt_entries(init, t, s, p, budget, lim);
        lemma_rt_str(k, t1, s, p + b1.len(), budget, lim);
        lemma_rt_value(v, t2, s, p + b1.len() + bk.len(), budget, lim);
        lemma_entries_step(
            s,
            p,
            t,
            budget,
            lim,
            init,
            k,
            v,
            p + b1.len(),
            t1,
            p + b1.len() + bk.len(),
            t2,
            p + b1.len() + bk.len() + bv.len(),
            t3,
        );
        assert(init.len() + 1 == es.len());
    }
}

/// Decoding gives back what was encoded: a value that BON carries within the
/// bounds, whose encoding names fewer than 2^32 distinct strings, comes back
/// unchanged from a fresh decoder.
pub proof fn law_bon_roundtrip(v: Json, lim: BonDecodeLimits)
    requires
        carried(v, lim.max_depth as nat, lim),
        enc_value(v, seq![]).1.len() <= 0x1_0000_0000,
    ensures
        bon_decoded(bon_bytes(v), lim) == Some(v),
{
    let b = bon_bytes(v);
    assert(b.subrange(0, b.len() as int) =~= b);
    lemma_rt_value(v, seq![], b, 0, lim.max_depth as nat, lim);
}


/// The plain decoder (`decode`, `BonDecoder::new`) reads back what the
/// encoder wrote, for every value whose texts, arrays and objects have
/// lengths that the format's 32-bit counts carry, whose integers are not
/// the most negative one and whose floats are finite, with distinct
/// object keys.
pub proof fn law_plain_bon_roundtrip(v: Json)
    requires
        carried(v, usize::MAX as nat, crate::bon::open_limits()),
        enc_value(v, seq![]).1.len() <= 0x1_0000_0000,
    ensures
        bon_decoded(bon_bytes(v), crate::bon::open_limits()) == Some(v),
{
    law_bon_roundtrip(v, crate::bon::open_limits());
}

} // verus!
