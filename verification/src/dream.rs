//! The dream shop's purchases: which goods of the merchants to buy, in what
//! order, and how each answer counts.

use vstd::prelude::*;
use crate::value::{Value, Json, model_entries};
use crate::lookup::{field, json_u64};
use crate::kpi::purchase_key;

verus! {

/// The purchases an item wants: each position at which its merchant's list
/// (under the merchant's number) holds the item's index.
pub open spec fn item_positions(goods: Seq<Json>, merchant: u64, index: u64) -> Seq<(u64, u64, u64)>
    decreases goods.len(),
{
    if goods.len() == 0 {
        Seq::empty()
    } else {
        let rest = item_positions(goods.drop_last(), merchant, index);
        if json_u64(Some(goods.last())) == Some(index) {
            rest.push((merchant, index, (goods.len() - 1) as u64))
        } else {
            rest
        }
    }
}

/// The purchases of one wanted key: none for a key that is not
/// `merchant-index` or a merchant without a list of goods.
pub open spec fn key_purchases(key: Seq<char>, merchants: Seq<(Seq<char>, Json)>) -> Seq<(u64, u64, u64)> {
    match purchase_key(vstd::utf8::encode_utf8(key)) {
        Some((m, i)) => match field(merchants, crate::text::decimal(m as nat)) {
            Some(Json::Array(goods)) => item_positions(goods, m, i),
            _ => Seq::empty(),
        },
        None => Seq::empty(),
    }
}

/// The purchases of the wanted keys, key by key.
pub open spec fn wanted_purchases(keys: Seq<Seq<char>>, merchants: Seq<(Seq<char>, Json)>) -> Seq<(u64, u64, u64)>
    decreases keys.len(),
{
    if keys.len() == 0 {
        Seq::empty()
    } else {
        wanted_purchases(keys.drop_last(), merchants) + key_purchases(keys.last(), merchants)
    }
}

/// Whether purchase `a` goes before `b`: by merchant, then from the last
/// position down.
pub open spec fn goes_before(a: (u64, u64, u64), b: (u64, u64, u64)) -> bool {
    a.0 < b.0 || (a.0 == b.0 && a.2 > b.2)
}

/// `p` placed after the last purchase that does not go after it.
pub open spec fn insert_purchase(s: Seq<(u64, u64, u64)>, p: (u64, u64, u64)) -> Seq<(u64, u64, u64)>
    decreases s.len(),
{
    if s.len() == 0 || !goes_before(p, s.last()) {
        s.push(p)
    } else {
        insert_purchase(s.drop_last(), p).push(s.last())
    }
}

/// The purchases in stable order: by merchant, then from the last position
/// down.
pub open spec fn purchase_order(s: Seq<(u64, u64, u64)>) -> Seq<(u64, u64, u64)>
    decreases s.len(),
{
    if s.len() == 0 {
        s
    } else {
        insert_purchase(purchase_order(s.drop_last()), s.last())
    }
}

proof fn lemma_insert_purchase_at(s: Seq<(u64, u64, u64)>, p: (u64, u64, u64), k: int)
    requires
        0 <= k <= s.len(),
        forall|q: int| k <= q < s.len() ==> goes_before(p, #[trigger] s[q]),
        k == 0 || !goes_before(p, s[k - 1]),
    ensures
        insert_purchase(s, p) == s.take(k).push(p) + s.skip(k),
    decreases s.len(),
{
    if s.len() == k {
        assert(s.take(k) =~= s);
        assert(s.take(k).push(p) + s.skip(k) =~= s.push(p));
    } else {
        let d = s.drop_last();
        assert(goes_before(p, s[s.len() - 1]));
        assert forall|q: int| k <= q < d.len() implies goes_before(p, #[trigger] d[q]) by {
            assert(d[q] == s[q]);
        }
        if k > 0 {
            assert(d[k - 1] == s[k - 1]);
        }
        lemma_insert_purchase_at(d, p, k);
        assert(d.take(k) =~= s.take(k));
        assert((d.take(k).push(p) + d.skip(k)).push(s.last()) =~= s.take(k).push(p) + s.skip(k));
    }
}

fn push_positions(out: &mut Vec<(u64, u64, u64)>, goods: &Vec<Value>, merchant: u64, index: u64)
    ensures
        final(out)@ == old(out)@ + item_positions(crate::value::model_items(goods@), merchant, index),
{
    let ghost g = crate::value::model_items(goods@);
    proof {
        crate::value::lemma_model_items_len(goods@);
        assert(g.take(0) =~= Seq::<Json>::empty());
    }
    let ghost start = out@;
    let mut pos: usize = 0;
    while pos < goods.len()
        invariant
            pos <= goods@.len(),
            g == crate::value::model_items(goods@),
            g.len() == goods@.len(),
            forall|q: int| 0 <= q < goods@.len() ==> #[trigger] g[q] == goods@[q]@,
            out@ == start + item_positions(g.take(pos as int), merchant, index),
        decreases goods@.len() - pos,
    {
        proof {
            assert(g.take(pos + 1).drop_last() =~= g.take(pos as int));
            assert(g.take(pos + 1).last() == g[pos as int]);
        }
        if crate::lookup::as_u64(Some(&goods[pos])) == Some(index) {
            out.push((merchant, index, pos as u64));
        }
        pos = pos + 1;
    }
    assert(g.take(goods@.len() as int) =~= g);
}

/// The purchases to make for the wanted keys in the merchants' lists, in
/// order: by merchant, then from the last position down (a stable order).
pub fn dream_purchases(keys: &Vec<String>, merchants: &Vec<(String, Value)>) -> (r: Vec<(u64, u64, u64)>)
    ensures
        r@ == purchase_order(wanted_purchases(keys@.map_values(|k: String| k@), model_entries(merchants@))),
{
    let ghost ks = keys@.map_values(|k: String| k@);
    let ghost ms = model_entries(merchants@);
    let mut found: Vec<(u64, u64, u64)> = Vec::new();
    let mut i: usize = 0;
    assert(ks.take(0) =~= Seq::<Seq<char>>::empty());
    while i < keys.len()
        invariant
            i <= keys@.len(),
            ks == keys@.map_values(|k: String| k@),
            ms == model_entries(merchants@),
            found@ == wanted_purchases(ks.take(i as int), ms),
        decreases keys@.len() - i,
    {
        proof {
            assert(ks.take(i + 1).drop_last() =~= ks.take(i as int));
            assert(ks.take(i + 1).last() == keys@[i as int]@);
        }
        let ghost before = found@;
        match crate::kpi::parse_dream_purchase_key(keys[i].as_str()) {
            Some((m, idx)) => {
                let name = crate::text::nat_text(m);
                match crate::lookup::entries_get(merchants, name.as_str()) {
                    Some(Value::Array(goods)) => {
                        push_positions(&mut found, goods, m, idx);
                    },
                    _ => {
                        assert(found@ =~= before + Seq::<(u64, u64, u64)>::empty());
                    },
                }
            },
            None => {
                assert(found@ =~= before + Seq::<(u64, u64, u64)>::empty());
            },
        }
        i = i + 1;
    }
    assert(ks.take(keys@.len() as int) =~= ks);
    let ghost all = found@;
    let mut out: Vec<(u64, u64, u64)> = Vec::new();
    let mut j: usize = 0;
    while j < found.len()
        invariant
            j <= found@.len(),
            found@ == all,
            out@ == purchase_order(all.take(j as int)),
        decreases found@.len() - j,
    {
        let p = found[j];
        proof {
            assert(all.take(j + 1).drop_last() =~= all.take(j as int));
            assert(all.take(j + 1).last() == p);
        }
        let mut k: usize = out.len();
        while k > 0 && (p.0 < out[k - 1].0 || (p.0 == out[k - 1].0 && p.2 > out[k - 1].2))
            invariant
                k <= out@.len(),
                forall|q: int| k <= q < out@.len() ==> goes_before(p, #[trigger] out@[q]),
            decreases k,
        {
            k = k - 1;
        }
        proof {
            lemma_insert_purchase_at(out@, p, k as int);
        }
        out.insert(k, p);
        assert(out@ =~= purchase_order(all.take(j as int)).take(k as int).push(p) + purchase_order(
            all.take(j as int),
        ).skip(k as int));
        j = j + 1;
    }
    assert(all.take(found@.len() as int) =~= all);
    out
}

/// How a purchase's answer counts.
#[derive(Clone, Copy, PartialEq, Eq, Structural)]
pub enum PurchaseOutcome {
    /// The answer carries a reward.
    Bought,
    /// No reward came, or the error says it was done already.
    Skipped,
    /// Any other error.
    Failed,
}

/// How a purchase's answer counts: bought when it carries a reward;
/// skipped when it does not, or when the error says the purchase was done;
/// failed otherwise.
pub fn purchase_outcome(result: &Result<Value, String>) -> (r: PurchaseOutcome)
    ensures
        match result {
            Ok(v) => r == (if crate::lookup::member(v@, "reward"@) is Some {
                PurchaseOutcome::Bought
            } else {
                PurchaseOutcome::Skipped
            }),
            Err(e) => r == (if (match crate::error_codes::code_in_error(vstd::utf8::encode_utf8(e@)) {
                Some(c) => crate::error_codes::done_codes().contains(c),
                None => false,
            }) {
                PurchaseOutcome::Skipped
            } else {
                PurchaseOutcome::Failed
            }),
        },
{
    match result {
        Ok(v) => if crate::lookup::get_member(v, "reward").is_some() {
            PurchaseOutcome::Bought
        } else {
            PurchaseOutcome::Skipped
        },
        Err(_) => if crate::error_codes::is_done_result(result) {
            PurchaseOutcome::Skipped
        } else {
            PurchaseOutcome::Failed
        },
    }
}

/// The merchants' lists in a role's data, under `role/dungeon/merchant`,
/// when that is an object.
pub open spec fn merchants_of(j: Json) -> Option<Seq<(Seq<char>, Json)>> {
    match crate::lookup::at_path(j, seq!["role"@, "dungeon"@, "merchant"@]) {
        Some(Json::Object(es)) => Some(es),
        _ => None,
    }
}

/// Reads the merchants' lists from a role's data.
pub fn dream_merchants(role_info: &Value) -> (r: Option<&Vec<(String, Value)>>)
    ensures
        match merchants_of(role_info@) {
            Some(es) => r matches Some(v) && model_entries(v@) == es,
            None => r is None,
        },
{
    proof {
        reveal_with_fuel(crate::lookup::at_path, 4);
        assert(seq!["role"@, "dungeon"@, "merchant"@].drop_last() =~= seq!["role"@, "dungeon"@]);
        assert(seq!["role"@, "dungeon"@].drop_last() =~= seq!["role"@]);
        assert(seq!["role"@].drop_last() =~= Seq::<Seq<char>>::empty());
    }
    let m = crate::lookup::get_opt(
        crate::lookup::get_opt(crate::lookup::get_member(role_info, "role"), "dungeon"),
        "merchant",
    );
    match m {
        Some(Value::Object(es)) => Some(es),
        _ => None,
    }
}

/// What a role buys in the dream shop.
pub struct DreamShopConfig {
    pub enabled: bool,
    pub purchase_list: Vec<String>,
}

/// What the dream shop run comes to.
pub enum DreamPlan {
    /// Nothing is wanted.
    EmptyList,
    /// The role's stage is below 1000.
    LowStage,
    /// The role's data has no shop.
    NoShop,
    /// The shop holds nothing wanted.
    NoGoods,
    /// Buy these, in this order: merchant, item index, position.
    Buy(Vec<(u64, u64, u64)>),
}

/// The dream shop run: nothing when nothing is wanted, the stage is below
/// 1000, there is no shop, or no goods match; else the purchases in order.
pub fn dream_plan(config: &DreamShopConfig, level_id: u64, role_info: &Value) -> (r: DreamPlan)
    ensures
        config.purchase_list@.len() == 0 ==> r is EmptyList,
        config.purchase_list@.len() != 0 && level_id < 1000 ==> r is LowStage,
        config.purchase_list@.len() != 0 && level_id >= 1000 ==> match merchants_of(role_info@) {
            None => r is NoShop,
            Some(ms) => {
                let ops = purchase_order(wanted_purchases(config.purchase_list@.map_values(|k: String| k@), ms));
                if ops.len() == 0 {
                    r is NoGoods
                } else {
                    r matches DreamPlan::Buy(v) && v@ == ops
                }
            },
        },
{
    if config.purchase_list.len() == 0 {
        return DreamPlan::EmptyList;
    }
    if level_id < 1000 {
        return DreamPlan::LowStage;
    }
    let merchants = match dream_merchants(role_info) {
        Some(m) => m,
        None => {
            return DreamPlan::NoShop;
        },
    };
    let ops = dream_purchases(&config.purchase_list, merchants);
    if ops.len() == 0 {
        DreamPlan::NoGoods
    } else {
        DreamPlan::Buy(ops)
    }
}


// ------------------------------------------------------------------
// Which dream shop a role uses
// ------------------------------------------------------------------

/// A dream shop configuration as plain values: whether it is on, and the
/// goods wanted.
pub open spec fn shop_view(c: DreamShopConfig) -> (bool, Seq<Seq<char>>) {
    (c.enabled, c.purchase_list@.map_values(|k: String| k@))
}

impl DreamShopConfig {
    /// A copy of the configuration.
    pub fn copy(&self) -> (r: Self)
        ensures
            shop_view(r) == shop_view(*self),
    {
        let mut list: Vec<String> = Vec::new();
        let mut i: usize = 0;
        while i < self.purchase_list.len()
            invariant
                i <= self.purchase_list@.len(),
                list@.len() == i,
                forall|j: int| 0 <= j < i ==> #[trigger] list@[j]@ == self.purchase_list@[j]@,
            decreases self.purchase_list@.len() - i,
        {
            let k = self.purchase_list[i].clone();
            list.push(k);
            i = i + 1;
        }
        assert(list@.map_values(|k: String| k@) =~= self.purchase_list@.map_values(|k: String| k@));
        DreamShopConfig { enabled: self.enabled, purchase_list: list }
    }
}

/// The value under a key among keyed entries: the last entry with that key.
pub open spec fn under_key<K, V>(es: Seq<(K, V)>, k: K) -> Option<V>
    decreases es.len(),
{
    if es.len() == 0 {
        None
    } else if es.last().0 == k {
        Some(es.last().1)
    } else {
        under_key(es.drop_last(), k)
    }
}

/// Named entries with their names as text.
pub open spec fn named<V>(es: Seq<(String, V)>) -> Seq<(Seq<char>, V)> {
    es.map_values(|e: (String, V)| (e.0@, e.1))
}

pub(crate) fn find_named<'a, V>(es: &'a Vec<(String, V)>, name: &str) -> (r: Option<&'a V>)
    ensures
        match under_key(named(es@), name@) {
            Some(v) => r matches Some(x) && *x == v,
            None => r is None,
        },
{
    let mut j: usize = es.len();
    assert(named(es@).take(j as int) =~= named(es@));
    while j > 0
        invariant
            j <= es@.len(),
            under_key(named(es@), name@) == under_key(named(es@).take(j as int), name@),
        decreases j,
    {
        proof {
            assert(named(es@).take(j as int).drop_last() =~= named(es@).take(j - 1));
        }
        if crate::protocol::str_eq(es[j - 1].0.as_str(), name) {
            return Some(&es[j - 1].1);
        }
        j = j - 1;
    }
    None
}

pub(crate) fn find_server<'a, V>(es: &'a Vec<(u64, V)>, server_id: u64) -> (r: Option<&'a V>)
    ensures
        match under_key(es@, server_id) {
            Some(v) => r matches Some(x) && *x == v,
            None => r is None,
        },
{
    let mut j: usize = es.len();
    assert(es@.take(j as int) =~= es@);
    while j > 0
        invariant
            j <= es@.len(),
            under_key(es@, server_id) == under_key(es@.take(j as int), server_id),
        decreases j,
    {
        proof {
            assert(es@.take(j as int).drop_last() =~= es@.take(j - 1));
        }
        if es[j - 1].0 == server_id {
            return Some(&es[j - 1].1);
        }
        j = j - 1;
    }
    None
}

/// Where a role's dream shop comes from: written out in place, or the name
/// of a preset.
pub enum DreamShopRef {
    Inline(DreamShopConfig),
    Preset(String),
}

/// The dream shop a reference stands for: the one written out, or the preset
/// of that name (none when there is no such preset).
pub fn resolve_dream_shop_ref(dream_shop: DreamShopRef, presets: &Vec<(String, DreamShopConfig)>) -> (r: Option<
    DreamShopConfig,
>)
    ensures
        match dream_shop {
            DreamShopRef::Inline(c) => r matches Some(x) && shop_view(x) == shop_view(c),
            DreamShopRef::Preset(name) => match under_key(named(presets@), name@) {
                Some(c) => r matches Some(x) && shop_view(x) == shop_view(c),
                None => r is None,
            },
        },
{
    match dream_shop {
        DreamShopRef::Inline(cfg) => Some(cfg),
        DreamShopRef::Preset(name) => match find_named(presets, name.as_str()) {
            Some(c) => Some(c.copy()),
            None => None,
        },
    }
}

/// The dream shop configured for a bin and server, when it is on and wants
/// something.
pub open spec fn shop_for(
    shops: Seq<(String, Vec<(u64, DreamShopConfig)>)>,
    bin_name: Seq<char>,
    server_id: u64,
) -> Option<(bool, Seq<Seq<char>>)> {
    match under_key(named(shops), bin_name) {
        Some(roles) => match under_key(roles@, server_id) {
            Some(c) => if c.enabled && c.purchase_list@.len() != 0 {
                Some(shop_view(c))
            } else {
                None
            },
            None => None,
        },
        None => None,
    }
}

/// The dream shop of a role, found by the name its bin goes by and its
/// server; none unless that shop is on and wants something.
pub fn resolve_dream_shop_for(
    shops: &Vec<(String, Vec<(u64, DreamShopConfig)>)>,
    bin_name: &str,
    server_id: u64,
) -> (r: Option<DreamShopConfig>)
    ensures
        match shop_for(shops@, bin_name@, server_id) {
            Some(v) => r matches Some(x) && shop_view(x) == v,
            None => r is None,
        },
{
    match find_named(shops, bin_name) {
        Some(roles) => match find_server(roles, server_id) {
            Some(c) => if c.enabled && c.purchase_list.len() != 0 {
                Some(c.copy())
            } else {
                None
            },
            None => None,
        },
        None => None,
    }
}

/// The dream shop of a role, found by the file name of its bin and its
/// server; none unless that shop is on and wants something.
pub fn resolve_dream_shop(shops: &Vec<(String, Vec<(u64, DreamShopConfig)>)>, bin_path: &str, server_id: u64) -> (r:
    Option<DreamShopConfig>)
    ensures
        exists|n: Option<Seq<char>>|
            match #[trigger] shop_for(shops@, crate::config::bin_name_of(n, bin_path@), server_id) {
                Some(v) => r matches Some(x) && shop_view(x) == v,
                None => r is None,
            },
{
    let name = crate::config::bin_name_from_path(bin_path);
    resolve_dream_shop_for(shops, name.as_str(), server_id)
}

} // verus!
