//! Reading members of document values: object fields by key, and integers
//! as `u64` or `i64`.

use vstd::prelude::*;
use crate::value::{Value, Json, model, model_entries, lemma_model_entries_len};
use crate::bon::find_key;

verus! {

/// The value under key `k` among object entries, if any (the last entry
/// with that key; a decoded object has each key once).
pub open spec fn field(es: Seq<(Seq<char>, Json)>, k: Seq<char>) -> Option<Json> {
    let i = find_key(es, k);
    if i >= 0 {
        Some(es[i].1)
    } else {
        None
    }
}

/// The member `k` of a value: a field when the value is an object.
pub open spec fn member(j: Json, k: Seq<char>) -> Option<Json> {
    match j {
        Json::Object(es) => field(es, k),
        _ => None,
    }
}

/// Following a path of keys from a value.
pub open spec fn at_path(j: Json, path: Seq<Seq<char>>) -> Option<Json>
    decreases path.len(),
{
    if path.len() == 0 {
        Some(j)
    } else {
        match at_path(j, path.drop_last()) {
            Some(p) => member(p, path.last()),
            None => None,
        }
    }
}

/// A value read as a `u64`: a non-negative integer.
pub open spec fn json_u64(j: Option<Json>) -> Option<u64> {
    match j {
        Some(Json::Int(i)) => if i >= 0 {
            Some(i as u64)
        } else {
            None
        },
        _ => None,
    }
}

/// A value read as an `i64`: an integer.
pub open spec fn json_i64(j: Option<Json>) -> Option<i64> {
    match j {
        Some(Json::Int(i)) => Some(i),
        _ => None,
    }
}

/// The first of two alternatives that is present.
pub open spec fn or_else<A>(a: Option<A>, b: Option<A>) -> Option<A> {
    match a {
        Some(x) => Some(x),
        None => b,
    }
}

/// The value under `key` among object entries.
pub fn entries_get<'a>(es: &'a Vec<(String, Value)>, key: &str) -> (r: Option<&'a Value>)
    ensures
        match field(model_entries(es@), key@) {
            Some(j) => r matches Some(v) && v@ == j,
            None => r is None,
        },
{
    let ghost m = model_entries(es@);
    proof {
        lemma_model_entries_len(es@);
    }
    let mut j: usize = es.len();
    assert(m.take(j as int) =~= m);
    while j > 0
        invariant
            j <= es@.len(),
            m == model_entries(es@),
            m.len() == es@.len(),
            forall|q: int| 0 <= q < es@.len() ==> #[trigger] m[q] == (es@[q].0@, model(es@[q].1)),
            find_key(m, key@) == find_key(m.take(j as int), key@),
        decreases j,
    {
        if crate::protocol::str_eq(es[j - 1].0.as_str(), key) {
            proof {
                assert(m.take(j as int).last() == m[j - 1]);
            }
            return Some(&es[j - 1].1);
        }
        proof {
            assert(m.take(j as int).drop_last() =~= m.take(j - 1));
        }
        j = j - 1;
    }
    None
}

/// The member `key` of a value, when it is an object that has one.
pub fn get_member<'a>(v: &'a Value, key: &str) -> (r: Option<&'a Value>)
    ensures
        match member(v@, key@) {
            Some(j) => r matches Some(x) && x@ == j,
            None => r is None,
        },
{
    match v {
        Value::Object(es) => entries_get(es, key),
        _ => None,
    }
}

/// The member `key` of an optional value.
pub fn get_opt<'a>(v: Option<&'a Value>, key: &str) -> (r: Option<&'a Value>)
    ensures
        match (match v {
            Some(x) => member(x@, key@),
            None => None,
        }) {
            Some(j) => r matches Some(x) && x@ == j,
            None => r is None,
        },
{
    match v {
        Some(x) => get_member(x, key),
        None => None,
    }
}

/// A value read as a `u64`.
pub fn as_u64(v: Option<&Value>) -> (r: Option<u64>)
    ensures
        r == json_u64(
            match v {
                Some(x) => Some(x@),
                None => None,
            },
        ),
{
    match v {
        Some(Value::Int(i)) => {
            if *i >= 0 {
                Some(*i as u64)
            } else {
                None
            }
        },
        _ => None,
    }
}

/// A value read as an `i64`.
pub fn as_i64(v: Option<&Value>) -> (r: Option<i64>)
    ensures
        r == json_i64(
            match v {
                Some(x) => Some(x@),
                None => None,
            },
        ),
{
    match v {
        Some(Value::Int(i)) => Some(*i),
        _ => None,
    }
}

/// A value read as a `bool`.
pub open spec fn json_bool(j: Option<Json>) -> Option<bool> {
    match j {
        Some(Json::Bool(b)) => Some(b),
        _ => None,
    }
}

/// A value read as a `bool`.
pub fn as_bool(v: Option<&Value>) -> (r: Option<bool>)
    ensures
        r == json_bool(
            match v {
                Some(x) => Some(x@),
                None => None,
            },
        ),
{
    match v {
        Some(Value::Bool(b)) => Some(*b),
        _ => None,
    }
}

/// The element at index `i` of an array.
pub open spec fn element(j: Json, i: int) -> Option<Json> {
    match j {
        Json::Array(items) => if 0 <= i < items.len() {
            Some(items[i])
        } else {
            None
        },
        _ => None,
    }
}

/// What a path step `0` finds: an array's first element, or an object's
/// member `0`.
pub open spec fn step_zero(j: Json) -> Option<Json> {
    match j {
        Json::Array(_) => element(j, 0),
        Json::Object(es) => field(es, "0"@),
        _ => None,
    }
}

/// The element at index `i` of an optional array.
pub fn get_index(v: Option<&Value>, i: usize) -> (r: Option<&Value>)
    ensures
        match (match v {
            Some(x) => element(x@, i as int),
            None => None,
        }) {
            Some(j) => r matches Some(x) && x@ == j,
            None => r is None,
        },
{
    match v {
        Some(Value::Array(items)) => {
            proof {
                crate::value::lemma_model_items_len(items@);
            }
            if i < items.len() {
                Some(&items[i])
            } else {
                None
            }
        },
        _ => None,
    }
}

/// What the path step `0` finds in an optional value.
pub fn get_zero(v: Option<&Value>) -> (r: Option<&Value>)
    ensures
        match (match v {
            Some(x) => step_zero(x@),
            None => None,
        }) {
            Some(j) => r matches Some(x) && x@ == j,
            None => r is None,
        },
{
    match v {
        Some(Value::Array(_)) => get_index(v, 0),
        Some(Value::Object(es)) => entries_get(es, "0"),
        _ => None,
    }
}

} // verus!
