use vstd::prelude::*;

verus! {

/// A dynamically typed document value, as carried by the BON codec.
///
/// Numbers are either integers (`Int`) or finite double-precision values,
/// which are kept as their IEEE-754 bit pattern (`Float`). Object entries keep
/// the order in which they were written; a key occurs at most once.
#[derive(Debug)]
pub enum Value {
    Null,
    Bool(bool),
    Int(i64),
    Float(u64),
    Str(String),
    Array(Vec<Value>),
    Object(Vec<(String, Value)>),
}

/// The mathematical model of a [`Value`]: strings are character sequences and
/// collections are sequences.
pub ghost enum Json {
    Null,
    Bool(bool),
    Int(i64),
    Float(u64),
    Str(Seq<char>),
    Array(Seq<Json>),
    Object(Seq<(Seq<char>, Json)>),
}

pub open spec fn model(v: Value) -> Json
    decreases v,
{
    match v {
        Value::Null => Json::Null,
        Value::Bool(b) => Json::Bool(b),
        Value::Int(i) => Json::Int(i),
        Value::Float(f) => Json::Float(f),
        Value::Str(s) => Json::Str(s@),
        Value::Array(items) => Json::Array(model_items(items@)),
        Value::Object(entries) => Json::Object(model_entries(entries@)),
    }
}

pub open spec fn model_items(s: Seq<Value>) -> Seq<Json>
    decreases s,
{
    if s.len() == 0 {
        Seq::empty()
    } else {
        model_items(s.drop_last()).push(model(s.last()))
    }
}

pub open spec fn model_entries(s: Seq<(String, Value)>) -> Seq<(Seq<char>, Json)>
    decreases s,
{
    if s.len() == 0 {
        Seq::empty()
    } else {
        model_entries(s.drop_last()).push((s.last().0@, model(s.last().1)))
    }
}

impl View for Value {
    type V = Json;

    open spec fn view(&self) -> Json {
        model(*self)
    }
}

pub proof fn lemma_model_items_len(s: Seq<Value>)
    ensures
        model_items(s).len() == s.len(),
        forall|i: int| 0 <= i < s.len() ==> #[trigger] model_items(s)[i] == model(s[i]),
    decreases s.len(),
{
    if s.len() > 0 {
        lemma_model_items_len(s.drop_last());
    }
}

pub proof fn lemma_model_entries_len(s: Seq<(String, Value)>)
    ensures
        model_entries(s).len() == s.len(),
        forall|i: int|
            0 <= i < s.len() ==> #[trigger] model_entries(s)[i] == (s[i].0@, model(s[i].1)),
    decreases s.len(),
{
    if s.len() > 0 {
        lemma_model_entries_len(s.drop_last());
    }
}


impl Value {
    /// A deep copy.
    pub fn copy(&self) -> (r: Value)
        ensures
            r@ == self@,
        decreases self, 1nat,
    {
        match self {
            Value::Null => Value::Null,
            Value::Bool(b) => Value::Bool(*b),
            Value::Int(i) => Value::Int(*i),
            Value::Float(f) => Value::Float(*f),
            Value::Str(s) => Value::Str(s.clone()),
            Value::Array(items) => Value::Array(copy_items(items)),
            Value::Object(entries) => Value::Object(copy_entries(entries)),
        }
    }
}

/// A deep copy of an array's items.
pub fn copy_items(items: &Vec<Value>) -> (out: Vec<Value>)
    ensures
        model_items(out@) == model_items(items@),
    decreases items, 0nat,
{
    let mut out: Vec<Value> = Vec::new();
    let mut i: usize = 0;
    while i < items.len()
        invariant
            i <= items.len(),
            model_items(out@) == model_items(items@.take(i as int)),
        decreases items.len() - i,
    {
        proof {
            assert(decreases_to!(items => items@));
            assert(decreases_to!(items@ => items@[i as int]));
        }
        let c = items[i].copy();
        let ghost before = out@;
        out.push(c);
        proof {
            assert(out@.drop_last() =~= before);
            assert(items@.take(i + 1).drop_last() =~= items@.take(i as int));
        }
        i = i + 1;
    }
    assert(items@.take(items@.len() as int) =~= items@);
    out
}

/// A deep copy of an object's entries.
pub fn copy_entries(entries: &Vec<(String, Value)>) -> (out: Vec<(String, Value)>)
    ensures
        model_entries(out@) == model_entries(entries@),
    decreases entries, 0nat,
{
    let mut out: Vec<(String, Value)> = Vec::new();
    let mut i: usize = 0;
    while i < entries.len()
        invariant
            i <= entries.len(),
            model_entries(out@) == model_entries(entries@.take(i as int)),
        decreases entries.len() - i,
    {
        proof {
            assert(decreases_to!(entries => entries@));
            assert(decreases_to!(entries@ => entries@[i as int]));
            assert(decreases_to!(entries@[i as int] => entries@[i as int].1));
        }
        let k = entries[i].0.clone();
        let c = entries[i].1.copy();
        let ghost before = out@;
        out.push((k, c));
        proof {
            assert(out@.drop_last() =~= before);
            assert(entries@.take(i + 1).drop_last() =~= entries@.take(i as int));
        }
        i = i + 1;
    }
    assert(entries@.take(entries@.len() as int) =~= entries@);
    out
}

} // verus!
