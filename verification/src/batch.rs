//! The batch configuration as the scheduler and the command line read it:
//! the bins and their roles, the groups roles belong to, and each role's own
//! formations and dream shop.

use vstd::prelude::*;
use crate::config::{
    BinConfig, FormationContext, FormationDefaults, FormationOverride, runtime_bin_path, strip_dot_slash,
    forward_slashes,
};
use crate::dream::{DreamShopConfig, DreamShopRef, shop_view, under_key, named};
use crate::daily::{DailyFormationPlan, DailyTaskConfig};

verus! {

/// A role of a bin as the configuration file writes it.
pub struct RoleSpec {
    pub server_id: u64,
    pub group: Option<String>,
    pub formations: Option<FormationOverride>,
    pub dream_shop: Option<DreamShopRef>,
}

/// A bin as the configuration file writes it.
pub struct BinSpec {
    pub bin: String,
    pub roles: Vec<RoleSpec>,
}

/// The batch configuration: the plain settings the run reads, the groups
/// it defines, and what is built from the bins: the runtime bins, each
/// bin's roles' own formations and dream shops (by bin name and server),
/// and the roles of each group (group, bin path, server) in the order they
/// were listed.
pub struct BatchConfig {
    pub default_bin_path: String,
    pub groups: Vec<String>,
    pub formation_defaults: FormationDefaults,
    pub car_enabled: bool,
    pub gacha_enabled: bool,
    pub bins: Vec<BinConfig>,
    pub role_formations: Vec<(String, Vec<(u64, FormationOverride)>)>,
    pub role_dream_shop: Vec<(String, Vec<(u64, DreamShopConfig)>)>,
    pub role_groups: Vec<(String, String, u64)>,
}

// ------------------------------------------------------------------
// Keyed entries
// ------------------------------------------------------------------

/// The position of the last entry with key `k`, or -1.
pub open spec fn last_at<K, V>(es: Seq<(K, V)>, k: K) -> int
    decreases es.len(),
{
    if es.len() == 0 {
        -1
    } else if es.last().0 == k {
        es.len() - 1
    } else {
        last_at(es.drop_last(), k)
    }
}

/// The entries with `k` set to `v`: the entry holding `k` is replaced, or
/// the pair is added at the end.
pub open spec fn put<K, V>(es: Seq<(K, V)>, k: K, v: V) -> Seq<(K, V)> {
    let i = last_at(es, k);
    if i >= 0 {
        es.update(i, (k, v))
    } else {
        es.push((k, v))
    }
}

proof fn lemma_last_at(es: Seq<(Seq<char>, Seq<(u64, FormationOverride)>)>, k: Seq<char>)
    ensures
        -1 <= last_at(es, k) < es.len(),
        last_at(es, k) >= 0 ==> es[last_at(es, k)].0 == k,
    decreases es.len(),
{
    if es.len() > 0 {
        lemma_last_at(es.drop_last(), k);
    }
}

proof fn lemma_last_at_dream(es: Seq<(Seq<char>, Seq<(u64, (bool, Seq<Seq<char>>))>)>, k: Seq<char>)
    ensures
        -1 <= last_at(es, k) < es.len(),
    decreases es.len(),
{
    if es.len() > 0 {
        lemma_last_at_dream(es.drop_last(), k);
    }
}

proof fn lemma_last_at_u64<V>(es: Seq<(u64, V)>, k: u64)
    ensures
        -1 <= last_at(es, k) < es.len(),
    decreases es.len(),
{
    if es.len() > 0 {
        lemma_last_at_u64(es.drop_last(), k);
    }
}

/// The role formations as plain values.
pub open spec fn forms_view(es: Seq<(String, Vec<(u64, FormationOverride)>)>) -> Seq<
    (Seq<char>, Seq<(u64, FormationOverride)>),
> {
    es.map_values(|e: (String, Vec<(u64, FormationOverride)>)| (e.0@, e.1@))
}

/// A server's dream shops as plain values.
pub open spec fn shops_view(es: Seq<(u64, DreamShopConfig)>) -> Seq<(u64, (bool, Seq<Seq<char>>))> {
    es.map_values(|e: (u64, DreamShopConfig)| (e.0, shop_view(e.1)))
}

/// The role dream shops as plain values.
pub open spec fn dreams_view(es: Seq<(String, Vec<(u64, DreamShopConfig)>)>) -> Seq<
    (Seq<char>, Seq<(u64, (bool, Seq<Seq<char>>))>),
> {
    es.map_values(|e: (String, Vec<(u64, DreamShopConfig)>)| (e.0@, shops_view(e.1@)))
}

/// The roles of the groups as plain values.
pub open spec fn groups_view(es: Seq<(String, String, u64)>) -> Seq<(Seq<char>, Seq<char>, u64)> {
    es.map_values(|e: (String, String, u64)| (e.0@, e.1@, e.2))
}

/// The runtime bins as plain values: name, path and servers.
pub open spec fn bins_view(es: Seq<BinConfig>) -> Seq<(Seq<char>, Seq<char>, Seq<u64>)> {
    es.map_values(|b: BinConfig| (b.bin@, b.path@, b.server_ids@))
}

fn put_server_form(es: &mut Vec<(u64, FormationOverride)>, k: u64, v: FormationOverride)
    ensures
        final(es)@ == put(old(es)@, k, v),
{
    let ghost e0 = es@;
    let mut j: usize = es.len();
    assert(e0.take(j as int) =~= e0);
    while j > 0
        invariant
            j <= e0.len(),
            es@ == e0,
            e0 == old(es)@,
            last_at(e0, k) == last_at(e0.take(j as int), k),
        decreases j,
    {
        assert(e0.take(j as int).drop_last() =~= e0.take(j - 1));
        if es[j - 1].0 == k {
            assert(e0.take(j as int).last() == e0[j - 1]);
            assert(last_at(e0, k) == j - 1);
            es.set(j - 1, (k, v));
            return;
        }
        j = j - 1;
    }
    es.push((k, v));
}

fn put_server_shop(es: &mut Vec<(u64, DreamShopConfig)>, k: u64, v: DreamShopConfig)
    ensures
        shops_view(final(es)@) == put(shops_view(old(es)@), k, shop_view(v)),
{
    let ghost e0 = shops_view(es@);
    let ghost o = es@;
    let mut j: usize = es.len();
    assert(e0.take(j as int) =~= e0);
    while j > 0
        invariant
            j <= o.len(),
            es@ == o,
            o == old(es)@,
            e0 == shops_view(o),
            e0.len() == o.len(),
            last_at(e0, k) == last_at(e0.take(j as int), k),
        decreases j,
    {
        assert(e0.take(j as int).drop_last() =~= e0.take(j - 1));
        assert(e0[j - 1].0 == o[j - 1].0);
        if es[j - 1].0 == k {
            assert(e0.take(j as int).last() == e0[j - 1]);
            assert(last_at(e0, k) == j - 1);
            let ghost sv = shop_view(v);
            es.set(j - 1, (k, v));
            assert(shops_view(es@) =~= e0.update(j - 1, (k, sv)));
            return;
        }
        j = j - 1;
    }
    let ghost sv = shop_view(v);
    es.push((k, v));
    assert(shops_view(es@) =~= e0.push((k, sv)));
}

fn put_bin_forms(es: &mut Vec<(String, Vec<(u64, FormationOverride)>)>, k: String, v: Vec<(u64, FormationOverride)>)
    ensures
        forms_view(final(es)@) == put(forms_view(old(es)@), k@, v@),
{
    let ghost e0 = forms_view(es@);
    let ghost o = es@;
    let mut j: usize = es.len();
    assert(e0.take(j as int) =~= e0);
    while j > 0
        invariant
            j <= o.len(),
            es@ == o,
            o == old(es)@,
            e0 == forms_view(o),
            e0.len() == o.len(),
            last_at(e0, k@) == last_at(e0.take(j as int), k@),
        decreases j,
    {
        assert(e0.take(j as int).drop_last() =~= e0.take(j - 1));
        assert(e0[j - 1].0 == o[j - 1].0@);
        if crate::protocol::str_eq(es[j - 1].0.as_str(), k.as_str()) {
            assert(e0.take(j as int).last() == e0[j - 1]);
            assert(last_at(e0, k@) == j - 1);
            let ghost kv = (k@, v@);
            es.set(j - 1, (k, v));
            assert(forms_view(es@) =~= e0.update(j - 1, kv));
            return;
        }
        j = j - 1;
    }
    let ghost kv = (k@, v@);
    es.push((k, v));
    assert(forms_view(es@) =~= e0.push(kv));
}

fn put_bin_shops(es: &mut Vec<(String, Vec<(u64, DreamShopConfig)>)>, k: String, v: Vec<(u64, DreamShopConfig)>)
    ensures
        dreams_view(final(es)@) == put(dreams_view(old(es)@), k@, shops_view(v@)),
{
    let ghost e0 = dreams_view(es@);
    let ghost o = es@;
    let mut j: usize = es.len();
    assert(e0.take(j as int) =~= e0);
    while j > 0
        invariant
            j <= o.len(),
            es@ == o,
            o == old(es)@,
            e0 == dreams_view(o),
            e0.len() == o.len(),
            last_at(e0, k@) == last_at(e0.take(j as int), k@),
        decreases j,
    {
        assert(e0.take(j as int).drop_last() =~= e0.take(j - 1));
        assert(e0[j - 1].0 == o[j - 1].0@);
        if crate::protocol::str_eq(es[j - 1].0.as_str(), k.as_str()) {
            assert(e0.take(j as int).last() == e0[j - 1]);
            assert(last_at(e0, k@) == j - 1);
            let ghost kv = (k@, shops_view(v@));
            es.set(j - 1, (k, v));
            assert(dreams_view(es@) =~= e0.update(j - 1, kv));
            return;
        }
        j = j - 1;
    }
    let ghost kv = (k@, shops_view(v@));
    es.push((k, v));
    assert(dreams_view(es@) =~= e0.push(kv));
}

// ------------------------------------------------------------------
// Building the bins
// ------------------------------------------------------------------

/// What a dream shop reference comes to, as plain values.
pub open spec fn ref_shop(r: DreamShopRef, presets: Seq<(String, DreamShopConfig)>) -> Option<(bool, Seq<Seq<char>>)> {
    match r {
        DreamShopRef::Inline(c) => Some(shop_view(c)),
        DreamShopRef::Preset(n) => match under_key(named(presets), n@) {
            Some(c) => Some(shop_view(c)),
            None => None,
        },
    }
}

fn resolve_ref(r: &DreamShopRef, presets: &Vec<(String, DreamShopConfig)>) -> (x: Option<DreamShopConfig>)
    ensures
        match ref_shop(*r, presets@) {
            Some(v) => x matches Some(c) && shop_view(c) == v,
            None => x is None,
        },
{
    match r {
        DreamShopRef::Inline(c) => Some(c.copy()),
        DreamShopRef::Preset(n) => match crate::dream::find_named(presets, n.as_str()) {
            Some(c) => Some(c.copy()),
            None => None,
        },
    }
}

/// What building a bin gathers from its roles: the roles of known groups
/// (group, bin path, server), and the roles' own formations and dream shops
/// by server.
pub type RolesState = (Seq<(Seq<char>, Seq<char>, u64)>, Seq<(u64, FormationOverride)>, Seq<(u64, (bool, Seq<Seq<char>>))>);

/// The gathering after one more role: a role of a defined group is listed
/// under it; its formations and its dream shop (when the reference
/// resolves) are kept under its server, a later role of the same server
/// replacing an earlier one.
pub open spec fn role_step(
    st: RolesState,
    r: RoleSpec,
    groups: Seq<Seq<char>>,
    path: Seq<char>,
    presets: Seq<(String, DreamShopConfig)>,
) -> RolesState {
    (
        match r.group {
            Some(g) => if groups.contains(g@) {
                st.0.push((g@, path, r.server_id))
            } else {
                st.0
            },
            None => st.0,
        },
        match r.formations {
            Some(f) => put(st.1, r.server_id, f),
            None => st.1,
        },
        match r.dream_shop {
            Some(d) => match ref_shop(d, presets) {
                Some(v) => put(st.2, r.server_id, v),
                None => st.2,
            },
            None => st.2,
        },
    )
}

pub open spec fn roles_gathered(
    st: RolesState,
    roles: Seq<RoleSpec>,
    groups: Seq<Seq<char>>,
    path: Seq<char>,
    presets: Seq<(String, DreamShopConfig)>,
) -> RolesState
    decreases roles.len(),
{
    if roles.len() == 0 {
        st
    } else {
        role_step(roles_gathered(st, roles.drop_last(), groups, path, presets), roles.last(), groups, path, presets)
    }
}

/// What is built from the bins so far: runtime bins, role formations, role
/// dream shops and group roles, all as plain values.
pub type BuiltView = (
    Seq<(Seq<char>, Seq<char>, Seq<u64>)>,
    Seq<(Seq<char>, Seq<(u64, FormationOverride)>)>,
    Seq<(Seq<char>, Seq<(u64, (bool, Seq<Seq<char>>))>)>,
    Seq<(Seq<char>, Seq<char>, u64)>,
);

/// The name a bin is kept under: forward slashes, no leading `./`.
pub open spec fn bin_id(bin: Seq<char>) -> Seq<char> {
    strip_dot_slash(forward_slashes(bin))
}

/// What one more bin adds: its runtime entry (its name, its path under the
/// default directory unless it names a directory, its servers in order);
/// its roles' formations and dream shops under its name when it has any (a
/// later bin of the same name replacing an earlier one); its group roles.
pub open spec fn bin_step(
    st: BuiltView,
    b: BinSpec,
    default_bin_path: Seq<char>,
    groups: Seq<Seq<char>>,
    presets: Seq<(String, DreamShopConfig)>,
) -> BuiltView {
    let name = bin_id(b.bin@);
    let path = runtime_bin_path(default_bin_path, name);
    let g = roles_gathered((st.3, seq![], seq![]), b.roles@, groups, path, presets);
    (
        st.0.push((name, path, b.roles@.map_values(|r: RoleSpec| r.server_id))),
        if g.1.len() > 0 {
            put(st.1, name, g.1)
        } else {
            st.1
        },
        if g.2.len() > 0 {
            put(st.2, name, g.2)
        } else {
            st.2
        },
        g.0,
    )
}

pub open spec fn built(
    st: BuiltView,
    bins: Seq<BinSpec>,
    default_bin_path: Seq<char>,
    groups: Seq<Seq<char>>,
    presets: Seq<(String, DreamShopConfig)>,
) -> BuiltView
    decreases bins.len(),
{
    if bins.len() == 0 {
        st
    } else {
        bin_step(built(st, bins.drop_last(), default_bin_path, groups, presets), bins.last(), default_bin_path, groups, presets)
    }
}

impl BatchConfig {
    /// What the configuration has built, as plain values.
    pub open spec fn built_view(&self) -> BuiltView {
        (
            bins_view(self.bins@),
            forms_view(self.role_formations@),
            dreams_view(self.role_dream_shop@),
            groups_view(self.role_groups@),
        )
    }
}

fn group_known(groups: &Vec<String>, g: &str) -> (r: bool)
    ensures
        r == groups@.map_values(|s: String| s@).contains(g@),
{
    let ghost gs = groups@.map_values(|s: String| s@);
    let mut i: usize = 0;
    while i < groups.len()
        invariant
            i <= groups@.len(),
            gs == groups@.map_values(|s: String| s@),
            forall|k: int| 0 <= k < i ==> gs[k] != g@,
        decreases groups@.len() - i,
    {
        if crate::protocol::str_eq(groups[i].as_str(), g) {
            assert(gs[i as int] == g@);
            return true;
        }
        i = i + 1;
    }
    false
}

/// Gathers a bin's roles.
fn gather_roles(
    cfg: &mut BatchConfig,
    roles: &Vec<RoleSpec>,
    path: &String,
    presets: &Vec<(String, DreamShopConfig)>,
) -> (r: (Vec<(u64, FormationOverride)>, Vec<(u64, DreamShopConfig)>))
    ensures
        final(cfg).default_bin_path == old(cfg).default_bin_path,
        final(cfg).groups == old(cfg).groups,
        final(cfg).formation_defaults == old(cfg).formation_defaults,
        final(cfg).car_enabled == old(cfg).car_enabled,
        final(cfg).gacha_enabled == old(cfg).gacha_enabled,
        final(cfg).bins == old(cfg).bins,
        final(cfg).role_formations == old(cfg).role_formations,
        final(cfg).role_dream_shop == old(cfg).role_dream_shop,
        (groups_view(final(cfg).role_groups@), r.0@, shops_view(r.1@)) == roles_gathered(
            (groups_view(old(cfg).role_groups@), seq![], seq![]),
            roles@,
            old(cfg).groups@.map_values(|s: String| s@),
            path@,
            presets@,
        ),
{
    let ghost gs = cfg.groups@.map_values(|s: String| s@);
    let ghost g0 = groups_view(cfg.role_groups@);
    let mut forms: Vec<(u64, FormationOverride)> = Vec::new();
    let mut shops: Vec<(u64, DreamShopConfig)> = Vec::new();
    let mut i: usize = 0;
    assert(roles@.take(0) =~= Seq::<RoleSpec>::empty());
    assert(shops_view(shops@) =~= Seq::<(u64, (bool, Seq<Seq<char>>))>::empty());
    while i < roles.len()
        invariant
            i <= roles@.len(),
            gs == cfg.groups@.map_values(|s: String| s@),
            cfg.default_bin_path == old(cfg).default_bin_path,
            cfg.groups == old(cfg).groups,
            cfg.formation_defaults == old(cfg).formation_defaults,
            cfg.car_enabled == old(cfg).car_enabled,
            cfg.gacha_enabled == old(cfg).gacha_enabled,
            cfg.bins == old(cfg).bins,
            cfg.role_formations == old(cfg).role_formations,
            cfg.role_dream_shop == old(cfg).role_dream_shop,
            g0 == groups_view(old(cfg).role_groups@),
            (groups_view(cfg.role_groups@), forms@, shops_view(shops@)) == roles_gathered(
                (g0, seq![], seq![]),
                roles@.take(i as int),
                gs,
                path@,
                presets@,
            ),
        decreases roles@.len() - i,
    {
        let r = &roles[i];
        assert(roles@.take(i + 1).drop_last() =~= roles@.take(i as int));
        assert(roles@.take(i + 1).last() == roles@[i as int]);
        match &r.group {
            Some(g) => {
                if group_known(&cfg.groups, g.as_str()) {
                    let ghost before = groups_view(cfg.role_groups@);
                    cfg.role_groups.push((g.clone(), path.clone(), r.server_id));
                    assert(groups_view(cfg.role_groups@) =~= before.push((g@, path@, r.server_id)));
                }
            },
            None => {},
        }
        match &r.formations {
            Some(f) => {
                put_server_form(&mut forms, r.server_id, *f);
            },
            None => {},
        }
        match &r.dream_shop {
            Some(d) => match resolve_ref(d, presets) {
                Some(c) => {
                    put_server_shop(&mut shops, r.server_id, c);
                },
                None => {},
            },
            None => {},
        }
        i = i + 1;
    }
    assert(roles@.take(roles@.len() as int) =~= roles@);
    (forms, shops)
}

/// Builds the runtime bins from the bins of the configuration file: each
/// bin's name and path, its servers, its roles' own formations and dream
/// shops, and the roles of the defined groups (roles naming another group
/// are not listed).
pub fn build_bins(cfg: &mut BatchConfig, bins: &Vec<BinSpec>, presets: &Vec<(String, DreamShopConfig)>)
    ensures
        final(cfg).built_view() == built(
            (seq![], seq![], seq![], groups_view(old(cfg).role_groups@)),
            bins@,
            old(cfg).default_bin_path@,
            old(cfg).groups@.map_values(|s: String| s@),
            presets@,
        ),
        final(cfg).default_bin_path == old(cfg).default_bin_path,
        final(cfg).groups == old(cfg).groups,
        final(cfg).formation_defaults == old(cfg).formation_defaults,
        final(cfg).car_enabled == old(cfg).car_enabled,
        final(cfg).gacha_enabled == old(cfg).gacha_enabled,
{
    let ghost gs = cfg.groups@.map_values(|s: String| s@);
    let ghost start: BuiltView = (seq![], seq![], seq![], groups_view(cfg.role_groups@));
    cfg.bins = Vec::new();
    cfg.role_formations = Vec::new();
    cfg.role_dream_shop = Vec::new();
    assert(bins_view(cfg.bins@) =~= Seq::<(Seq<char>, Seq<char>, Seq<u64>)>::empty());
    assert(forms_view(cfg.role_formations@) =~= Seq::<(Seq<char>, Seq<(u64, FormationOverride)>)>::empty());
    assert(dreams_view(cfg.role_dream_shop@) =~= Seq::<(Seq<char>, Seq<(u64, (bool, Seq<Seq<char>>))>)>::empty());
    let mut i: usize = 0;
    assert(bins@.take(0) =~= Seq::<BinSpec>::empty());
    while i < bins.len()
        invariant
            i <= bins@.len(),
            gs == cfg.groups@.map_values(|s: String| s@),
            cfg.default_bin_path == old(cfg).default_bin_path,
            cfg.groups == old(cfg).groups,
            cfg.formation_defaults == old(cfg).formation_defaults,
            cfg.car_enabled == old(cfg).car_enabled,
            cfg.gacha_enabled == old(cfg).gacha_enabled,
            start == (Seq::<(Seq<char>, Seq<char>, Seq<u64>)>::empty(), Seq::<(Seq<char>, Seq<(u64, FormationOverride)>)>::empty(), Seq::<(Seq<char>, Seq<(u64, (bool, Seq<Seq<char>>))>)>::empty(), groups_view(old(cfg).role_groups@)),
            cfg.built_view() == built(start, bins@.take(i as int), cfg.default_bin_path@, gs, presets@),
        decreases bins@.len() - i,
    {
        let b = &bins[i];
        assert(bins@.take(i + 1).drop_last() =~= bins@.take(i as int));
        assert(bins@.take(i + 1).last() == bins@[i as int]);
        let name = crate::config::normalize_path_for_id(b.bin.as_str());
        let path = crate::config::build_runtime_bin_path(cfg.default_bin_path.as_str(), name.as_str());
        let mut servers: Vec<u64> = Vec::new();
        let mut k: usize = 0;
        while k < b.roles.len()
            invariant
                k <= b.roles@.len(),
                servers@ == b.roles@.take(k as int).map_values(|r: RoleSpec| r.server_id),
            decreases b.roles@.len() - k,
        {
            servers.push(b.roles[k].server_id);
            k = k + 1;
            assert(servers@ =~= b.roles@.take(k as int).map_values(|r: RoleSpec| r.server_id));
        }
        assert(b.roles@.take(b.roles@.len() as int) =~= b.roles@);
        let ghost prev = cfg.built_view();
        let (forms, shops) = gather_roles(cfg, &b.roles, &path, presets);
        if forms.len() > 0 {
            put_bin_forms(&mut cfg.role_formations, name.clone(), forms);
        }
        if shops.len() > 0 {
            put_bin_shops(&mut cfg.role_dream_shop, name.clone(), shops);
        }
        let ghost bv = bins_view(cfg.bins@);
        let ghost entry = (name@, path@, servers@);
        cfg.bins.push(BinConfig { bin: name, path, server_ids: servers });
        assert(bins_view(cfg.bins@) =~= bv.push(entry));
        i = i + 1;
    }
    assert(bins@.take(bins@.len() as int) =~= bins@);
}

// ------------------------------------------------------------------
// Reading the configuration
// ------------------------------------------------------------------

/// The roles of a group, in the order they were listed.
pub open spec fn group_members(es: Seq<(Seq<char>, Seq<char>, u64)>, group: Seq<char>) -> Seq<(Seq<char>, u64)>
    decreases es.len(),
{
    if es.len() == 0 {
        seq![]
    } else {
        let rest = group_members(es.drop_last(), group);
        if es.last().0 == group {
            rest.push((es.last().1, es.last().2))
        } else {
            rest
        }
    }
}

/// The roles of a group (bin path and server), in the order they were
/// listed; an error when the group has none.
pub fn group_roles(cfg: &BatchConfig, group: &str) -> (r: Result<Vec<(String, u64)>, String>)
    ensures
        ({
            let m = group_members(groups_view(cfg.role_groups@), group@);
            if m.len() == 0 {
                r matches Err(e) && e@ == "group '"@ + group@ + "' not found"@
            } else {
                r matches Ok(v) && v@.map_values(|x: (String, u64)| (x.0@, x.1)) == m
            }
        }),
{
    let ghost gv = groups_view(cfg.role_groups@);
    let mut out: Vec<(String, u64)> = Vec::new();
    let mut i: usize = 0;
    assert(gv.take(0) =~= Seq::<(Seq<char>, Seq<char>, u64)>::empty());
    while i < cfg.role_groups.len()
        invariant
            i <= cfg.role_groups@.len(),
            gv == groups_view(cfg.role_groups@),
            gv.len() == cfg.role_groups@.len(),
            out@.map_values(|x: (String, u64)| (x.0@, x.1)) == group_members(gv.take(i as int), group@),
        decreases cfg.role_groups@.len() - i,
    {
        assert(gv.take(i + 1).drop_last() =~= gv.take(i as int));
        assert(gv.take(i + 1).last() == gv[i as int]);
        let e = &cfg.role_groups[i];
        if crate::protocol::str_eq(e.0.as_str(), group) {
            let ghost before = out@.map_values(|x: (String, u64)| (x.0@, x.1));
            out.push((e.1.clone(), e.2));
            assert(out@.map_values(|x: (String, u64)| (x.0@, x.1)) =~= before.push((e.1@, e.2)));
        }
        i = i + 1;
    }
    assert(gv.take(gv.len() as int) =~= gv);
    if out.len() == 0 {
        let mut m = String::from_str("group '");
        m.append(group);
        m.append("' not found");
        proof {
            reveal_strlit("group '");
            reveal_strlit("' not found");
        }
        return Err(m);
    }
    assert(out@.map_values(|x: (String, u64)| (x.0@, x.1)).len() == out@.len());
    Ok(out)
}

/// Every role of every bin (bin path and server), bin by bin.
pub open spec fn every_role(bins: Seq<(Seq<char>, Seq<char>, Seq<u64>)>) -> Seq<(Seq<char>, u64)>
    decreases bins.len(),
{
    if bins.len() == 0 {
        seq![]
    } else {
        every_role(bins.drop_last()) + bins.last().2.map_values(|s: u64| (bins.last().1, s))
    }
}

/// Every role of every bin (bin path and server), bin by bin.
pub fn all_roles(cfg: &BatchConfig) -> (r: Vec<(String, u64)>)
    ensures
        r@.map_values(|x: (String, u64)| (x.0@, x.1)) == every_role(bins_view(cfg.bins@)),
{
    let ghost bv = bins_view(cfg.bins@);
    let mut out: Vec<(String, u64)> = Vec::new();
    let mut i: usize = 0;
    assert(bv.take(0) =~= Seq::<(Seq<char>, Seq<char>, Seq<u64>)>::empty());
    while i < cfg.bins.len()
        invariant
            i <= cfg.bins@.len(),
            bv == bins_view(cfg.bins@),
            bv.len() == cfg.bins@.len(),
            out@.map_values(|x: (String, u64)| (x.0@, x.1)) == every_role(bv.take(i as int)),
        decreases cfg.bins@.len() - i,
    {
        assert(bv.take(i + 1).drop_last() =~= bv.take(i as int));
        assert(bv.take(i + 1).last() == bv[i as int]);
        let b = &cfg.bins[i];
        let ghost base = out@.map_values(|x: (String, u64)| (x.0@, x.1));
        let mut k: usize = 0;
        while k < b.server_ids.len()
            invariant
                k <= b.server_ids@.len(),
                out@.map_values(|x: (String, u64)| (x.0@, x.1)) == base + b.server_ids@.take(k as int).map_values(
                    |s: u64| (b.path@, s),
                ),
            decreases b.server_ids@.len() - k,
        {
            let ghost before = out@.map_values(|x: (String, u64)| (x.0@, x.1));
            out.push((b.path.clone(), b.server_ids[k]));
            assert(out@.map_values(|x: (String, u64)| (x.0@, x.1)) =~= before.push((b.path@, b.server_ids@[k as int])));
            assert(b.server_ids@.take(k + 1).map_values(|s: u64| (b.path@, s)) =~= b.server_ids@.take(
                k as int,
            ).map_values(|s: u64| (b.path@, s)).push((b.path@, b.server_ids@[k as int])));
            k = k + 1;
        }
        assert(b.server_ids@.take(b.server_ids@.len() as int) =~= b.server_ids@);
        i = i + 1;
    }
    assert(bv.take(bv.len() as int) =~= bv);
    out
}

/// The team a role uses in a context, from the name its bin goes by: its
/// own team for that context when it has one (`role`), else the default.
pub open spec fn formation_for(cfg: BatchConfig, bin_name: Seq<char>, server_id: u64, context: FormationContext) -> (
    u64,
    Seq<char>,
) {
    let own = match under_key(named(cfg.role_formations@), bin_name) {
        Some(roles) => match under_key(roles@, server_id) {
            Some(o) => o.resolve_spec(context),
            None => None,
        },
        None => None,
    };
    match own {
        Some(t) => (t, "role"@),
        None => (cfg.formation_defaults.resolve_spec(context), "default"@),
    }
}

/// The team a role uses in a context, from the name its bin goes by.
pub fn resolve_formation_for(cfg: &BatchConfig, bin_name: &str, server_id: u64, context: FormationContext) -> (r: (
    u64,
    &'static str,
))
    ensures
        (r.0, r.1@) == formation_for(*cfg, bin_name@, server_id, context),
{
    let own = match crate::dream::find_named(&cfg.role_formations, bin_name) {
        Some(roles) => crate::dream::find_server(roles, server_id),
        None => None,
    };
    crate::config::resolve_with_source(own, &cfg.formation_defaults, context)
}

/// The team a role uses in a context, from its bin's path (the file name is
/// the key) and its server, and whether it is the role's own (`role`) or
/// the default (`default`).
pub fn resolve_formation_with_source(cfg: &BatchConfig, bin_path: &str, server_id: u64, context: FormationContext) -> (r:
    (u64, &'static str))
    ensures
        exists|n: Option<Seq<char>>|
            (r.0, r.1@) == #[trigger] formation_for(*cfg, crate::config::bin_name_of(n, bin_path@), server_id, context),
{
    let name = crate::config::bin_name_from_path(bin_path);
    let r = resolve_formation_for(cfg, name.as_str(), server_id, context);
    proof {
        let n = choose|n: Option<Seq<char>>| name@ == crate::config::bin_name_of(n, bin_path@);
        assert((r.0, r.1@) == formation_for(*cfg, crate::config::bin_name_of(n, bin_path@), server_id, context));
    }
    r
}

/// The dream shop of a role, from its bin's path and its server: only a
/// shop that is on and wants something.
pub fn resolve_dream_shop(cfg: &BatchConfig, bin_path: &str, server_id: u64) -> (r: Option<DreamShopConfig>)
    ensures
        exists|n: Option<Seq<char>>|
            match #[trigger] crate::dream::shop_for(cfg.role_dream_shop@, crate::config::bin_name_of(n, bin_path@), server_id) {
                Some(v) => r matches Some(x) && shop_view(x) == v,
                None => r is None,
            },
{
    crate::dream::resolve_dream_shop(&cfg.role_dream_shop, bin_path, server_id)
}

/// Whether `r` is the daily run's configuration of a role whose bin goes by
/// `bin_name`: its formations when any of the arena and the two bosses is
/// the role's own, its dream shop (only one that is on and wants
/// something), and whether cars and the free draw run.
pub open spec fn daily_config_of(cfg: BatchConfig, bin_name: Seq<char>, server_id: u64, r: DailyTaskConfig) -> bool {
    let a = formation_for(cfg, bin_name, server_id, FormationContext::Arena);
    let d = formation_for(cfg, bin_name, server_id, FormationContext::BossDaily);
    let l = formation_for(cfg, bin_name, server_id, FormationContext::BossLegion);
    &&& (a.1 == "role"@ || d.1 == "role"@ || l.1 == "role"@) ==> r.formations == Some(
        DailyFormationPlan { arena: a.0, boss_daily: d.0, boss_legion: l.0 },
    )
    &&& !(a.1 == "role"@ || d.1 == "role"@ || l.1 == "role"@) ==> r.formations is None
    &&& match crate::dream::shop_for(cfg.role_dream_shop@, bin_name, server_id) {
        Some(v) => r.dream_shop matches Some(x) && shop_view(x) == v,
        None => r.dream_shop is None,
    }
    &&& r.car_enabled == cfg.car_enabled
    &&& r.gacha_enabled == cfg.gacha_enabled
}

/// The daily run's configuration of a role, from the name its bin goes by.
pub fn daily_task_config_for(cfg: &BatchConfig, bin_name: &str, server_id: u64) -> (r: DailyTaskConfig)
    ensures
        daily_config_of(*cfg, bin_name@, server_id, r),
{
    let (arena, sa) = resolve_formation_for(cfg, bin_name, server_id, FormationContext::Arena);
    let (boss_daily, sd) = resolve_formation_for(cfg, bin_name, server_id, FormationContext::BossDaily);
    let (boss_legion, sl) = resolve_formation_for(cfg, bin_name, server_id, FormationContext::BossLegion);
    let own = crate::protocol::str_eq(sa, "role") || crate::protocol::str_eq(sd, "role")
        || crate::protocol::str_eq(sl, "role");
    DailyTaskConfig {
        formations: if own {
            Some(DailyFormationPlan { arena, boss_daily, boss_legion })
        } else {
            None
        },
        dream_shop: crate::dream::resolve_dream_shop_for(&cfg.role_dream_shop, bin_name, server_id),
        car_enabled: cfg.car_enabled,
        gacha_enabled: cfg.gacha_enabled,
    }
}

/// The daily run's configuration of a role, from its bin's path (the file
/// name is the key) and its server.
pub fn daily_task_config(cfg: &BatchConfig, bin_path: &str, server_id: u64) -> (r: DailyTaskConfig)
    ensures
        exists|n: Option<Seq<char>>| #[trigger] daily_config_of(*cfg, crate::config::bin_name_of(n, bin_path@), server_id, r),
{
    let name = crate::config::bin_name_from_path(bin_path);
    let r = daily_task_config_for(cfg, name.as_str(), server_id);
    proof {
        let n = choose|n: Option<Seq<char>>| name@ == crate::config::bin_name_of(n, bin_path@);
        assert(daily_config_of(*cfg, crate::config::bin_name_of(n, bin_path@), server_id, r));
    }
    r
}

} // verus!
