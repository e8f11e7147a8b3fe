use koc_core::batch::{
    all_roles, build_bins, daily_task_config, group_roles, resolve_dream_shop, resolve_formation_with_source,
    BatchConfig, BinSpec, RoleSpec,
};
use koc_core::config::{default_formation_defaults, FormationContext, FormationOverride};
use koc_core::dream::{DreamShopConfig, DreamShopRef};

fn empty_config() -> BatchConfig {
    BatchConfig {
        default_bin_path: "bins".to_string(),
        groups: vec!["main".to_string()],
        formation_defaults: default_formation_defaults(),
        car_enabled: true,
        gacha_enabled: false,
        bins: vec![],
        role_formations: vec![],
        role_dream_shop: vec![],
        role_groups: vec![],
    }
}

fn role(server_id: u64, group: Option<&str>) -> RoleSpec {
    RoleSpec { server_id, group: group.map(|g| g.to_string()), formations: None, dream_shop: None }
}

#[test]
fn bins_groups_formations_and_shops_are_built() {
    let mut cfg = empty_config();
    let mut r1 = role(7, Some("main"));
    r1.formations = Some(FormationOverride { arena: Some(3), tower: None, evotower: None, boss_daily: None, boss_legion: None });
    r1.dream_shop = Some(DreamShopRef::Preset("daily".to_string()));
    let r2 = role(8, Some("other"));
    let bins = vec![
        BinSpec { bin: "./a.bin".to_string(), roles: vec![r1, r2] },
        BinSpec { bin: "dir/b.bin".to_string(), roles: vec![role(9, Some("main"))] },
    ];
    let presets = vec![("daily".to_string(), DreamShopConfig { enabled: true, purchase_list: vec!["1-2".to_string()] })];
    build_bins(&mut cfg, &bins, &presets);

    assert_eq!(cfg.bins.len(), 2);
    assert_eq!(cfg.bins[0].bin, "a.bin");
    assert_eq!(cfg.bins[0].path, "bins/a.bin");
    assert_eq!(cfg.bins[0].server_ids, vec![7, 8]);
    assert_eq!(cfg.bins[1].path, "dir/b.bin");

    assert_eq!(group_roles(&cfg, "main").unwrap(), vec![("bins/a.bin".to_string(), 7), ("dir/b.bin".to_string(), 9)]);
    assert_eq!(group_roles(&cfg, "other").unwrap_err(), "group 'other' not found");
    assert_eq!(
        all_roles(&cfg),
        vec![("bins/a.bin".to_string(), 7), ("bins/a.bin".to_string(), 8), ("dir/b.bin".to_string(), 9)]
    );

    assert_eq!(resolve_formation_with_source(&cfg, "bins/a.bin", 7, FormationContext::Arena), (3, "role"));
    assert_eq!(resolve_formation_with_source(&cfg, "bins/a.bin", 7, FormationContext::Tower), (1, "default"));
    assert_eq!(resolve_formation_with_source(&cfg, "bins/a.bin", 8, FormationContext::Arena), (1, "default"));

    let shop = resolve_dream_shop(&cfg, "bins/a.bin", 7).expect("shop");
    assert_eq!(shop.purchase_list, vec!["1-2".to_string()]);
    assert!(resolve_dream_shop(&cfg, "bins/a.bin", 8).is_none());

    let d = daily_task_config(&cfg, "bins/a.bin", 7);
    let plan = d.formations.expect("own formation");
    assert_eq!((plan.arena, plan.boss_daily, plan.boss_legion), (3, 1, 1));
    assert!(d.dream_shop.is_some());
    assert!(d.car_enabled);
    assert!(!d.gacha_enabled);
    let d = daily_task_config(&cfg, "dir/b.bin", 9);
    assert!(d.formations.is_none());
    assert!(d.dream_shop.is_none());
}
