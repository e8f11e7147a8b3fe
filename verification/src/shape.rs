//! The outline of a message body for the command catalog: each value
//! replaced by the name of its type, objects by their fields in key order
//! (at most 256, keys cut at 256 characters), lists by the distinct outlines
//! of their first 256 items (at most 16), and everything below 16 levels
//! cut off.

use vstd::prelude::*;
use crate::value::{Value, Json, model, model_items, model_entries, lemma_model_items_len, lemma_model_entries_len};

verus! {

/// The deepest level an outline goes to.
pub const MAX_SHAPE_DEPTH: usize = 16;

/// The most fields an object's outline keeps.
pub const MAX_SHAPE_FIELDS: usize = 256;

/// The most distinct outlines a list keeps.
pub const MAX_ARRAY_VARIANTS: usize = 16;

/// The most items of a list that are looked at.
pub const MAX_ARRAY_ITEMS_INSPECTED: usize = 256;

/// The longest key, in bytes, kept whole; a longer one keeps its first 256
/// characters and `...`.
pub const MAX_SCHEMA_KEY_CHARS: usize = 256;

// ------------------------------------------------------------------
// Key order
// ------------------------------------------------------------------

/// Whether text `a` comes before text `b` (character by character, a
/// prefix first), as ordered maps keep their keys.
pub open spec fn key_lt(a: Seq<char>, b: Seq<char>) -> bool
    decreases a.len(),
{
    if a.len() == 0 {
        b.len() > 0
    } else if b.len() == 0 {
        false
    } else if (a[0] as u32) < (b[0] as u32) {
        true
    } else if a[0] == b[0] {
        key_lt(a.skip(1), b.skip(1))
    } else {
        false
    }
}

/// Whether `a` comes before `b` in key order.
pub fn key_less(a: &str, b: &str) -> (r: bool)
    ensures
        r == key_lt(a@, b@),
{
    let n = a.unicode_len();
    let m = b.unicode_len();
    let mut i: usize = 0;
    assert(a@.skip(0) =~= a@);
    assert(b@.skip(0) =~= b@);
    while i < n && i < m
        invariant
            n == a@.len(),
            m == b@.len(),
            i <= n,
            i <= m,
            key_lt(a@, b@) == key_lt(a@.skip(i as int), b@.skip(i as int)),
        decreases n - i,
    {
        let x = a.get_char(i);
        let y = b.get_char(i);
        assert(a@.skip(i as int)[0] == x);
        assert(b@.skip(i as int)[0] == y);
        if (x as u32) < (y as u32) {
            return true;
        }
        if x != y {
            return false;
        }
        assert(a@.skip(i as int).skip(1) =~= a@.skip(i + 1));
        assert(b@.skip(i as int).skip(1) =~= b@.skip(i + 1));
        i = i + 1;
    }
    i == n && i < m
}

/// A keyed sequence in key order with one more entry: an entry with the
/// same key is replaced, else the entry goes before the first greater key.
pub open spec fn ins_sorted<V>(s: Seq<(Seq<char>, V)>, e: (Seq<char>, V)) -> Seq<(Seq<char>, V)>
    decreases s.len(),
{
    if s.len() == 0 {
        seq![e]
    } else if s[0].0 == e.0 {
        s.update(0, e)
    } else if key_lt(e.0, s[0].0) {
        seq![e] + s
    } else {
        seq![s[0]] + ins_sorted(s.skip(1), e)
    }
}

/// An object's keys in key order, each with the position of its last entry.
pub open spec fn key_order(es: Seq<(Seq<char>, Json)>) -> Seq<(Seq<char>, int)>
    decreases es.len(),
{
    if es.len() == 0 {
        seq![]
    } else {
        ins_sorted(key_order(es.drop_last()), (es.last().0, es.len() - 1))
    }
}

proof fn lemma_ins_split<V>(s: Seq<(Seq<char>, V)>, e: (Seq<char>, V), k: int)
    requires
        0 <= k < s.len(),
        s[k].0 != e.0,
        !key_lt(e.0, s[k].0),
    ensures
        s.take(k) + ins_sorted(s.skip(k), e) == s.take(k + 1) + ins_sorted(s.skip(k + 1), e),
{
    let t = s.skip(k);
    assert(t[0] == s[k]);
    assert(t.skip(1) =~= s.skip(k + 1));
    assert(ins_sorted(t, e) == seq![s[k]] + ins_sorted(s.skip(k + 1), e));
    assert(s.take(k + 1) =~= s.take(k).push(s[k]));
    assert(s.take(k) + (seq![s[k]] + ins_sorted(s.skip(k + 1), e)) =~= s.take(k + 1) + ins_sorted(s.skip(k + 1), e));
}

pub open spec fn order_view(s: Seq<(String, usize)>) -> Seq<(Seq<char>, int)> {
    s.map_values(|e: (String, usize)| (e.0@, e.1 as int))
}

fn ins_order(s: &mut Vec<(String, usize)>, k: String, i: usize, bound: usize)
    requires
        i < bound,
        forall|q: int| 0 <= q < old(s)@.len() ==> #[trigger] old(s)@[q].1 < bound,
    ensures
        order_view(final(s)@) == ins_sorted(order_view(old(s)@), (k@, i as int)),
        forall|q: int| 0 <= q < final(s)@.len() ==> #[trigger] final(s)@[q].1 < bound,
{
    let ghost v0 = order_view(s@);
    let ghost e = (k@, i as int);
    let mut p: usize = 0;
    assert(v0.take(0) + ins_sorted(v0.skip(0), e) =~= ins_sorted(v0, e)) by {
        assert(v0.skip(0) =~= v0);
    }
    while p < s.len()
        invariant
            p <= s@.len(),
            v0 == order_view(s@),
            v0 == order_view(old(s)@),
            v0.len() == s@.len(),
            e == (k@, i as int),
            i < bound,
            s@ == old(s)@,
            forall|q: int| 0 <= q < s@.len() ==> #[trigger] s@[q].1 < bound,
            ins_sorted(v0, e) == v0.take(p as int) + ins_sorted(v0.skip(p as int), e),
        decreases s@.len() - p,
    {
        assert(v0[p as int] == (s@[p as int].0@, s@[p as int].1 as int));
        let ghost t = v0.skip(p as int);
        assert(t[0] == v0[p as int]);
        if crate::protocol::str_eq(s[p].0.as_str(), k.as_str()) {
            s.set(p, (k, i));
            assert(order_view(s@) =~= v0.update(p as int, e));
            assert(ins_sorted(t, e) == t.update(0, e));
            assert(v0.take(p as int) + t.update(0, e) =~= v0.update(p as int, e));
            return;
        }
        if key_less(k.as_str(), s[p].0.as_str()) {
            s.insert(p, (k, i));
            assert(order_view(s@) =~= v0.insert(p as int, e));
            assert(ins_sorted(t, e) == seq![e] + t);
            assert(v0.take(p as int) + (seq![e] + t) =~= v0.insert(p as int, e));
            return;
        }
        proof {
            lemma_ins_split(v0, e, p as int);
        }
        p = p + 1;
    }
    assert(v0.skip(p as int) =~= Seq::<(Seq<char>, int)>::empty());
    assert(v0.take(p as int) =~= v0);
    s.push((k, i));
    assert(order_view(s@) =~= v0.push(e));
    assert(v0 + seq![e] =~= v0.push(e));
}

fn ins_entry(s: &mut Vec<(String, Value)>, k: String, v: Value)
    ensures
        model_entries(final(s)@) == ins_sorted(model_entries(old(s)@), (k@, v@)),
{
    let ghost v0 = model_entries(s@);
    let ghost e = (k@, v@);
    proof {
        lemma_model_entries_len(s@);
    }
    let mut p: usize = 0;
    assert(v0.take(0) + ins_sorted(v0.skip(0), e) =~= ins_sorted(v0, e)) by {
        assert(v0.skip(0) =~= v0);
    }
    while p < s.len()
        invariant
            p <= s@.len(),
            v0 == model_entries(s@),
            v0 == model_entries(old(s)@),
            v0.len() == s@.len(),
            forall|q: int| 0 <= q < s@.len() ==> #[trigger] v0[q] == (s@[q].0@, model(s@[q].1)),
            e == (k@, v@),
            ins_sorted(v0, e) == v0.take(p as int) + ins_sorted(v0.skip(p as int), e),
        decreases s@.len() - p,
    {
        assert(v0[p as int] == (s@[p as int].0@, model(s@[p as int].1)));
        let ghost t = v0.skip(p as int);
        assert(t[0] == v0[p as int]);
        if crate::protocol::str_eq(s[p].0.as_str(), k.as_str()) {
            s.set(p, (k, v));
            proof {
                lemma_model_entries_len(s@);
            }
            assert(model_entries(s@) =~= v0.update(p as int, e));
            assert(ins_sorted(t, e) == t.update(0, e));
            assert(v0.take(p as int) + t.update(0, e) =~= v0.update(p as int, e));
            return;
        }
        if key_less(k.as_str(), s[p].0.as_str()) {
            s.insert(p, (k, v));
            proof {
                lemma_model_entries_len(s@);
            }
            assert(model_entries(s@) =~= v0.insert(p as int, e));
            assert(ins_sorted(t, e) == seq![e] + t);
            assert(v0.take(p as int) + (seq![e] + t) =~= v0.insert(p as int, e));
            return;
        }
        proof {
            lemma_ins_split(v0, e, p as int);
        }
        p = p + 1;
    }
    assert(v0.skip(p as int) =~= Seq::<(Seq<char>, Json)>::empty());
    assert(v0.take(p as int) =~= v0);
    s.push((k, v));
    proof {
        lemma_model_entries_len(s@);
    }
    assert(model_entries(s@) =~= v0.push(e));
    assert(v0 + seq![e] =~= v0.push(e));
}

/// An object's keys in key order, each with the position of its last entry.
fn key_order_of(es: &Vec<(String, Value)>) -> (r: Vec<(String, usize)>)
    ensures
        order_view(r@) == key_order(model_entries(es@)),
        forall|q: int| 0 <= q < r@.len() ==> #[trigger] r@[q].1 < es@.len(),
{
    let ghost m = model_entries(es@);
    proof {
        lemma_model_entries_len(es@);
    }
    let mut out: Vec<(String, usize)> = Vec::new();
    let mut i: usize = 0;
    assert(order_view(out@) =~= key_order(m.take(0)));
    while i < es.len()
        invariant
            i <= es@.len(),
            i < usize::MAX || i == es@.len(),
            m == model_entries(es@),
            m.len() == es@.len(),
            forall|q: int| 0 <= q < es@.len() ==> #[trigger] m[q] == (es@[q].0@, model(es@[q].1)),
            order_view(out@) == key_order(m.take(i as int)),
            forall|q: int| 0 <= q < out@.len() ==> #[trigger] out@[q].1 < i,
        decreases es@.len() - i,
    {
        assert(m.take(i + 1).drop_last() =~= m.take(i as int));
        assert(m.take(i + 1).last() == m[i as int]);
        ins_order(&mut out, es[i].0.clone(), i, i + 1);
        i = i + 1;
    }
    assert(m.take(m.len() as int) =~= m);
    out
}


// ------------------------------------------------------------------
// Equal values
// ------------------------------------------------------------------

/// Whether two values are the same.
pub fn same_value(a: &Value, b: &Value) -> (r: bool)
    ensures
        r == (a@ == b@),
    decreases a, 1nat,
{
    match (a, b) {
        (Value::Null, Value::Null) => true,
        (Value::Bool(x), Value::Bool(y)) => *x == *y,
        (Value::Int(x), Value::Int(y)) => *x == *y,
        (Value::Float(x), Value::Float(y)) => *x == *y,
        (Value::Str(x), Value::Str(y)) => crate::protocol::str_eq(x.as_str(), y.as_str()),
        (Value::Array(x), Value::Array(y)) => same_items(x, y),
        (Value::Object(x), Value::Object(y)) => same_entries(x, y),
        _ => false,
    }
}

fn same_items(x: &Vec<Value>, y: &Vec<Value>) -> (r: bool)
    ensures
        r == (model_items(x@) == model_items(y@)),
    decreases x, 0nat,
{
    proof {
        lemma_model_items_len(x@);
        lemma_model_items_len(y@);
    }
    if x.len() != y.len() {
        return false;
    }
    let mut i: usize = 0;
    while i < x.len()
        invariant
            i <= x@.len(),
            x@.len() == y@.len(),
            model_items(x@).len() == x@.len(),
            model_items(y@).len() == y@.len(),
            forall|q: int| 0 <= q < x@.len() ==> #[trigger] model_items(x@)[q] == model(x@[q]),
            forall|q: int| 0 <= q < y@.len() ==> #[trigger] model_items(y@)[q] == model(y@[q]),
            forall|q: int| 0 <= q < i ==> model(x@[q]) == model(y@[q]),
        decreases x@.len() - i,
    {
        proof {
            assert(decreases_to!(x => x@));
            assert(decreases_to!(x@ => x@[i as int]));
        }
        if !same_value(&x[i], &y[i]) {
            assert(model_items(x@)[i as int] != model_items(y@)[i as int]);
            return false;
        }
        i = i + 1;
    }
    assert(model_items(x@) =~= model_items(y@));
    true
}

fn same_entries(x: &Vec<(String, Value)>, y: &Vec<(String, Value)>) -> (r: bool)
    ensures
        r == (model_entries(x@) == model_entries(y@)),
    decreases x, 0nat,
{
    proof {
        lemma_model_entries_len(x@);
        lemma_model_entries_len(y@);
    }
    if x.len() != y.len() {
        return false;
    }
    let mut i: usize = 0;
    while i < x.len()
        invariant
            i <= x@.len(),
            x@.len() == y@.len(),
            model_entries(x@).len() == x@.len(),
            model_entries(y@).len() == y@.len(),
            forall|q: int| 0 <= q < x@.len() ==> #[trigger] model_entries(x@)[q] == (x@[q].0@, model(x@[q].1)),
            forall|q: int| 0 <= q < y@.len() ==> #[trigger] model_entries(y@)[q] == (y@[q].0@, model(y@[q].1)),
            forall|q: int| 0 <= q < i ==> model_entries(x@)[q] == model_entries(y@)[q],
        decreases x@.len() - i,
    {
        proof {
            assert(decreases_to!(x => x@));
            assert(decreases_to!(x@ => x@[i as int]));
            assert(decreases_to!(x@[i as int] => x@[i as int].1));
        }
        if !crate::protocol::str_eq(x[i].0.as_str(), y[i].0.as_str()) {
            assert(model_entries(x@)[i as int] != model_entries(y@)[i as int]);
            return false;
        }
        if !same_value(&x[i].1, &y[i].1) {
            assert(model_entries(x@)[i as int] != model_entries(y@)[i as int]);
            return false;
        }
        i = i + 1;
    }
    assert(model_entries(x@) =~= model_entries(y@));
    true
}


// ------------------------------------------------------------------
// Outlines
// ------------------------------------------------------------------

/// A key as an outline keeps it: one of more than 256 bytes keeps its first
/// 256 characters and `...`.
pub open spec fn cut_key(k: Seq<char>) -> Seq<char> {
    if vstd::utf8::encode_utf8(k).len() > 256 {
        k.take(if k.len() > 256 { 256 } else { k.len() as int }) + "..."@
    } else {
        k
    }
}

/// The outline of a value at a level: the name of its type; for a list,
/// the distinct outlines of its first 256 items (see `variants_of`); for an
/// object, its fields in key order, the first 256 of them, each under its
/// cut key, with `$truncated` set when there were more; from level 16 on,
/// `depth_limit`.
pub open spec fn shape_of(j: Json, depth: nat) -> Json
    decreases j, 0nat,
{
    if depth >= 16 {
        Json::Str("depth_limit"@)
    } else {
        match j {
            Json::Null => Json::Str("null"@),
            Json::Bool(_) => Json::Str("boolean"@),
            Json::Int(_) => Json::Str("number"@),
            Json::Float(_) => Json::Str("number"@),
            Json::Str(_) => Json::Str("string"@),
            Json::Array(items) => Json::Array(
                variants_of(items, if items.len() > 256 { 256 } else { items.len() }, depth + 1).0,
            ),
            Json::Object(es) => {
                let ord = key_order(es);
                let f = fields_of(es, ord, if ord.len() > 256 { 256 } else { ord.len() }, depth + 1);
                Json::Object(
                    if ord.len() > 256 {
                        ins_sorted(f, ("$truncated"@, Json::Bool(true)))
                    } else {
                        f
                    },
                )
            },
        }
    }
}

/// The distinct outlines of a list's first `n` items, in the order first
/// seen; on a seventeenth distinct outline, `variant_limit` is added and
/// the rest is not looked at (the flag says so).
pub open spec fn variants_of(items: Seq<Json>, n: nat, depth: nat) -> (Seq<Json>, bool)
    decreases items, n,
{
    if n == 0 || n > items.len() {
        (seq![], false)
    } else {
        let (vs, stop) = variants_of(items, (n - 1) as nat, depth);
        if stop {
            (vs, true)
        } else {
            let sh = shape_of(items[n - 1], depth);
            if vs.contains(sh) {
                (vs, false)
            } else if vs.len() >= 16 {
                (vs.push(Json::Str("variant_limit"@)), true)
            } else {
                (vs.push(sh), false)
            }
        }
    }
}

/// The outlines of the fields named by the first `n` keys in key order,
/// each under its cut key, in key order.
pub open spec fn fields_of(es: Seq<(Seq<char>, Json)>, ord: Seq<(Seq<char>, int)>, n: nat, depth: nat) -> Seq<
    (Seq<char>, Json),
>
    decreases es, n,
{
    if n == 0 || n > ord.len() {
        seq![]
    } else {
        let f = fields_of(es, ord, (n - 1) as nat, depth);
        let i = ord[n - 1].1;
        if 0 <= i < es.len() {
            ins_sorted(f, (cut_key(ord[n - 1].0), shape_of(es[i].1, depth)))
        } else {
            f
        }
    }
}

fn cut_key_of(k: &str) -> (r: String)
    ensures
        r@ == cut_key(k@),
{
    if k.as_bytes().len() > 256 {
        let n = k.unicode_len();
        let m = if n > 256 { 256 } else { n };
        let mut t = String::from_str(k.substring_char(0, m));
        t.append("...");
        assert(k@.subrange(0, m as int) =~= k@.take(m as int));
        t
    } else {
        String::from_str(k)
    }
}

fn contains_value(vs: &Vec<Value>, x: &Value) -> (r: bool)
    ensures
        r == model_items(vs@).contains(x@),
{
    proof {
        lemma_model_items_len(vs@);
    }
    let mut i: usize = 0;
    while i < vs.len()
        invariant
            i <= vs@.len(),
            model_items(vs@).len() == vs@.len(),
            forall|q: int| 0 <= q < vs@.len() ==> #[trigger] model_items(vs@)[q] == model(vs@[q]),
            forall|q: int| 0 <= q < i ==> model_items(vs@)[q] != x@,
        decreases vs@.len() - i,
    {
        if same_value(&vs[i], x) {
            assert(model_items(vs@)[i as int] == x@);
            return true;
        }
        i = i + 1;
    }
    false
}

/// The outline of a value at a level (see `shape_of`).
pub fn value_shape(v: &Value, depth: usize) -> (r: Value)
    ensures
        r@ == shape_of(v@, depth as nat),
    decreases v, 1nat,
{
    if depth >= MAX_SHAPE_DEPTH {
        return Value::Str(String::from_str("depth_limit"));
    }
    match v {
        Value::Null => Value::Str(String::from_str("null")),
        Value::Bool(_) => Value::Str(String::from_str("boolean")),
        Value::Int(_) => Value::Str(String::from_str("number")),
        Value::Float(_) => Value::Str(String::from_str("number")),
        Value::Str(_) => Value::Str(String::from_str("string")),
        Value::Array(items) => {
            proof {
                lemma_model_items_len(items@);
            }
            let n = if items.len() > MAX_ARRAY_ITEMS_INSPECTED { MAX_ARRAY_ITEMS_INSPECTED } else { items.len() };
            Value::Array(shape_items(items, n, depth + 1))
        },
        Value::Object(es) => {
            let ord = key_order_of(es);
            let n = if ord.len() > MAX_SHAPE_FIELDS { MAX_SHAPE_FIELDS } else { ord.len() };
            let mut f = shape_fields(es, &ord, n, depth + 1);
            if ord.len() > MAX_SHAPE_FIELDS {
                ins_entry(&mut f, String::from_str("$truncated"), Value::Bool(true));
            }
            Value::Object(f)
        },
    }
}

fn shape_items(items: &Vec<Value>, n: usize, depth: usize) -> (r: Vec<Value>)
    requires
        n <= items@.len(),
        depth <= MAX_SHAPE_DEPTH,
    ensures
        model_items(r@) == variants_of(model_items(items@), n as nat, depth as nat).0,
    decreases items, 0nat,
{
    let ghost m = model_items(items@);
    proof {
        lemma_model_items_len(items@);
    }
    let mut out: Vec<Value> = Vec::new();
    let mut stopped = false;
    let mut k: usize = 0;
    assert(model_items(out@) =~= Seq::<Json>::empty());
    while k < n
        invariant
            k <= n,
            n <= items@.len(),
            depth <= MAX_SHAPE_DEPTH,
            m == model_items(items@),
            m.len() == items@.len(),
            forall|q: int| 0 <= q < items@.len() ==> #[trigger] m[q] == model(items@[q]),
            (model_items(out@), stopped) == variants_of(m, k as nat, depth as nat),
        decreases n - k,
    {
        if !stopped {
            proof {
                assert(decreases_to!(items => items@));
                assert(decreases_to!(items@ => items@[k as int]));
            }
            let sh = value_shape(&items[k], depth);
            assert(m[k as int] == model(items@[k as int]));
            proof {
                lemma_model_items_len(out@);
            }
            if contains_value(&out, &sh) {
            } else if out.len() >= MAX_ARRAY_VARIANTS {
                let ghost before = model_items(out@);
                out.push(Value::Str(String::from_str("variant_limit")));
                proof {
                    lemma_model_items_len(out@);
                    assert(model_items(out@) =~= before.push(Json::Str("variant_limit"@)));
                }
                stopped = true;
            } else {
                let ghost before = model_items(out@);
                let ghost shm = sh@;
                out.push(sh);
                proof {
                    lemma_model_items_len(out@);
                    assert(model_items(out@) =~= before.push(shm));
                }
            }
        }
        k = k + 1;
    }
    out
}

fn shape_fields(es: &Vec<(String, Value)>, ord: &Vec<(String, usize)>, n: usize, depth: usize) -> (r: Vec<
    (String, Value),
>)
    requires
        n <= ord@.len(),
        depth <= MAX_SHAPE_DEPTH,
        forall|q: int| 0 <= q < ord@.len() ==> #[trigger] ord@[q].1 < es@.len(),
    ensures
        model_entries(r@) == fields_of(model_entries(es@), order_view(ord@), n as nat, depth as nat),
    decreases es, 0nat,
{
    let ghost m = model_entries(es@);
    let ghost ov = order_view(ord@);
    proof {
        lemma_model_entries_len(es@);
    }
    let mut out: Vec<(String, Value)> = Vec::new();
    let mut k: usize = 0;
    assert(model_entries(out@) =~= Seq::<(Seq<char>, Json)>::empty());
    while k < n
        invariant
            k <= n,
            n <= ord@.len(),
            depth <= MAX_SHAPE_DEPTH,
            m == model_entries(es@),
            m.len() == es@.len(),
            ov == order_view(ord@),
            ov.len() == ord@.len(),
            forall|q: int| 0 <= q < es@.len() ==> #[trigger] m[q] == (es@[q].0@, model(es@[q].1)),
            forall|q: int| 0 <= q < ord@.len() ==> #[trigger] ord@[q].1 < es@.len(),
            model_entries(out@) == fields_of(m, ov, k as nat, depth as nat),
        decreases n - k,
    {
        let i = ord[k].1;
        assert(ov[k as int] == (ord@[k as int].0@, ord@[k as int].1 as int));
        proof {
            assert(decreases_to!(es => es@));
            assert(decreases_to!(es@ => es@[i as int]));
            assert(decreases_to!(es@[i as int] => es@[i as int].1));
        }
        let sh = value_shape(&es[i].1, depth);
        assert(m[i as int] == (es@[i as int].0@, model(es@[i as int].1)));
        let key = cut_key_of(ord[k].0.as_str());
        ins_entry(&mut out, key, sh);
        k = k + 1;
    }
    out
}


// ------------------------------------------------------------------
// How large an outline gets
// ------------------------------------------------------------------

/// Whether a value nests lists and objects at most `levels` deep, with at
/// most 17 items in a list and 257 fields in an object.
pub open spec fn shape_bounded(j: Json, levels: nat) -> bool
    decreases j,
{
    match j {
        Json::Array(items) => {
            &&& levels > 0
            &&& items.len() <= 17
            &&& forall|k: int| 0 <= k < items.len() ==> shape_bounded(#[trigger] items[k], (levels - 1) as nat)
        },
        Json::Object(es) => {
            &&& levels > 0
            &&& es.len() <= 257
            &&& forall|k: int| 0 <= k < es.len() ==> shape_bounded(#[trigger] es[k].1, (levels - 1) as nat)
        },
        _ => true,
    }
}

proof fn lemma_ins_sorted<V>(s: Seq<(Seq<char>, V)>, e: (Seq<char>, V))
    ensures
        ins_sorted(s, e).len() <= s.len() + 1,
        forall|k: int| 0 <= k < ins_sorted(s, e).len() ==> #[trigger] ins_sorted(s, e)[k] == e
            || s.contains(ins_sorted(s, e)[k]),
    decreases s.len(),
{
    if s.len() > 0 {
        if s[0].0 != e.0 && !key_lt(e.0, s[0].0) {
            lemma_ins_sorted(s.skip(1), e);
            let r = ins_sorted(s, e);
            let t = ins_sorted(s.skip(1), e);
            assert forall|k: int| 0 <= k < r.len() implies #[trigger] r[k] == e || s.contains(r[k]) by {
                if k == 0 {
                    assert(s.contains(s[0]));
                } else {
                    assert(r[k] == t[k - 1]);
                    if t[k - 1] != e {
                        let q = choose|q: int| 0 <= q < s.skip(1).len() && s.skip(1)[q] == t[k - 1];
                        assert(s[q + 1] == t[k - 1]);
                    }
                }
            }
        } else if s[0].0 == e.0 {
            let r = ins_sorted(s, e);
            assert forall|k: int| 0 <= k < r.len() implies #[trigger] r[k] == e || s.contains(r[k]) by {
                if k > 0 {
                    assert(r[k] == s[k]);
                }
            }
        } else {
            let r = ins_sorted(s, e);
            assert forall|k: int| 0 <= k < r.len() implies #[trigger] r[k] == e || s.contains(r[k]) by {
                if k > 0 {
                    assert(r[k] == s[k - 1]);
                }
            }
        }
    }
}

proof fn lemma_variants_bounded(items: Seq<Json>, n: nat, depth: nat)
    requires
        1 <= depth <= 16,
    ensures
        variants_of(items, n, depth).0.len() <= 16 + (if variants_of(items, n, depth).1 { 1int } else { 0int }),
        forall|k: int|
            0 <= k < variants_of(items, n, depth).0.len() ==> shape_bounded(
                #[trigger] variants_of(items, n, depth).0[k],
                (16 - depth) as nat,
            ),
    decreases items, n,
{
    if n == 0 || n > items.len() {
    } else {
        lemma_variants_bounded(items, (n - 1) as nat, depth);
        lemma_shape_bounded(items[n - 1], depth);
    }
}

proof fn lemma_fields_bounded(es: Seq<(Seq<char>, Json)>, ord: Seq<(Seq<char>, int)>, n: nat, depth: nat)
    requires
        1 <= depth <= 16,
    ensures
        fields_of(es, ord, n, depth).len() <= n,
        forall|k: int|
            0 <= k < fields_of(es, ord, n, depth).len() ==> shape_bounded(
                #[trigger] fields_of(es, ord, n, depth)[k].1,
                (16 - depth) as nat,
            ),
    decreases es, n,
{
    if n == 0 || n > ord.len() {
    } else {
        let f = fields_of(es, ord, (n - 1) as nat, depth);
        lemma_fields_bounded(es, ord, (n - 1) as nat, depth);
        let i = ord[n - 1].1;
        if 0 <= i < es.len() {
            lemma_shape_bounded(es[i].1, depth);
            let e = (cut_key(ord[n - 1].0), shape_of(es[i].1, depth));
            lemma_ins_sorted(f, e);
            let r = ins_sorted(f, e);
            assert forall|k: int| 0 <= k < r.len() implies shape_bounded(#[trigger] r[k].1, (16 - depth) as nat) by {
                if r[k] != e {
                    let q = choose|q: int| 0 <= q < f.len() && f[q] == r[k];
                    assert(shape_bounded(f[q].1, (16 - depth) as nat));
                }
            }
        }
    }
}

/// An outline made from level `depth` nests lists and objects at most
/// `16 - depth` deep, keeps at most 17 outlines in a list (16 and
/// `variant_limit`) and at most 257 fields in an object (256 and
/// `$truncated`).
pub proof fn law_shape_bounded(j: Json, depth: nat)
    requires
        depth <= 16,
    ensures
        shape_bounded(shape_of(j, depth), (16 - depth) as nat),
    decreases j, 1nat,
{
    lemma_shape_bounded(j, depth);
}

proof fn lemma_shape_bounded(j: Json, depth: nat)
    requires
        depth <= 16,
    ensures
        shape_bounded(shape_of(j, depth), (16 - depth) as nat),
    decreases j, 1nat,
{
    if depth < 16 {
        match j {
            Json::Array(items) => {
                let n: nat = if items.len() > 256 { 256 } else { items.len() };
                lemma_variants_bounded(items, n, depth + 1);
            },
            Json::Object(es) => {
                let ord = key_order(es);
                let n: nat = if ord.len() > 256 { 256 } else { ord.len() };
                lemma_fields_bounded(es, ord, n, depth + 1);
                let f = fields_of(es, ord, n, depth + 1);
                if ord.len() > 256 {
                    let e = ("$truncated"@, Json::Bool(true));
                    lemma_ins_sorted(f, e);
                    let r = ins_sorted(f, e);
                    assert forall|k: int| 0 <= k < r.len() implies shape_bounded(#[trigger] r[k].1, (16 - depth - 1) as nat) by {
                        if r[k] != e {
                            let q = choose|q: int| 0 <= q < f.len() && f[q] == r[k];
                            assert(shape_bounded(f[q].1, (16 - depth - 1) as nat));
                        }
                    }
                }
            },
            _ => {},
        }
    }
}

} // verus!
