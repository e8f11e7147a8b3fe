use koc_core::dream::{resolve_dream_shop, resolve_dream_shop_ref, DreamShopRef};
use koc_core::dream::{dream_merchants, dream_plan, dream_purchases, purchase_outcome, DreamPlan, DreamShopConfig, PurchaseOutcome};
use koc_core::value::Value;

fn obj(list: Vec<(&str, Value)>) -> Value {
    Value::Object(list.into_iter().map(|(k, v)| (k.to_string(), v)).collect())
}

#[test]
fn purchases_are_found_and_ordered() {
    let merchants = vec![
        ("1".to_string(), Value::Array(vec![Value::Int(5), Value::Int(3), Value::Int(5)])),
        ("2".to_string(), Value::Array(vec![Value::Int(7), Value::Int(5)])),
        ("3".to_string(), Value::Int(1)),
    ];
    let keys = vec!["2-5".to_string(), "1-5".to_string(), "x".to_string(), "3-1".to_string(), "1-3".to_string()];
    let ops = dream_purchases(&keys, &merchants);
    assert_eq!(ops, vec![(1, 5, 2), (1, 3, 1), (1, 5, 0), (2, 5, 1)]);
    assert!(dream_purchases(&vec![], &merchants).is_empty());
}

#[test]
fn merchants_and_outcomes() {
    let role = obj(vec![(
        "role",
        obj(vec![("dungeon", obj(vec![("merchant", obj(vec![("1", Value::Array(vec![Value::Int(2)]))]))]))]),
    )]);
    assert_eq!(dream_merchants(&role).map(|m| m.len()), Some(1));
    assert!(dream_merchants(&obj(vec![])).is_none());
    assert!(purchase_outcome(&Ok(obj(vec![("reward", Value::Null)]))) == PurchaseOutcome::Bought);
    assert!(purchase_outcome(&Ok(obj(vec![]))) == PurchaseOutcome::Skipped);
    assert!(purchase_outcome(&Err("[200120] done".to_string())) == PurchaseOutcome::Skipped);
    assert!(purchase_outcome(&Err("network".to_string())) == PurchaseOutcome::Failed);
}

#[test]
fn dream_plan_follows_its_skips() {
    let role = obj(vec![(
        "role",
        obj(vec![("dungeon", obj(vec![("merchant", obj(vec![("1", Value::Array(vec![Value::Int(2), Value::Int(2)]))]))]))]),
    )]);
    let wanted = DreamShopConfig { enabled: true, purchase_list: vec!["1-2".to_string()] };
    let empty = DreamShopConfig { enabled: true, purchase_list: vec![] };
    assert!(matches!(dream_plan(&empty, 5000, &role), DreamPlan::EmptyList));
    assert!(matches!(dream_plan(&wanted, 999, &role), DreamPlan::LowStage));
    assert!(matches!(dream_plan(&wanted, 1000, &obj(vec![])), DreamPlan::NoShop));
    let other = DreamShopConfig { enabled: true, purchase_list: vec!["1-3".to_string()] };
    assert!(matches!(dream_plan(&other, 1000, &role), DreamPlan::NoGoods));
    match dream_plan(&wanted, 1000, &role) {
        DreamPlan::Buy(ops) => assert_eq!(ops, vec![(1, 2, 1), (1, 2, 0)]),
        _ => panic!("expected purchases"),
    }
}

#[test]
fn dream_shop_is_found_by_bin_name_and_server() {
    let on = DreamShopConfig { enabled: true, purchase_list: vec!["1-2".to_string()] };
    let off = DreamShopConfig { enabled: false, purchase_list: vec!["1-2".to_string()] };
    let empty = DreamShopConfig { enabled: true, purchase_list: vec![] };
    let shops = vec![("main.bin".to_string(), vec![(7u64, on), (8u64, off), (9u64, empty)])];
    let found = resolve_dream_shop(&shops, "bins/main.bin", 7).expect("configured");
    assert!(found.enabled);
    assert_eq!(found.purchase_list, vec!["1-2".to_string()]);
    assert!(resolve_dream_shop(&shops, "bins/main.bin", 8).is_none());
    assert!(resolve_dream_shop(&shops, "bins/main.bin", 9).is_none());
    assert!(resolve_dream_shop(&shops, "bins/other.bin", 7).is_none());

    let presets = vec![("daily".to_string(), DreamShopConfig { enabled: true, purchase_list: vec!["2-3".to_string()] })];
    let p = resolve_dream_shop_ref(DreamShopRef::Preset("daily".to_string()), &presets).expect("preset");
    assert_eq!(p.purchase_list, vec!["2-3".to_string()]);
    assert!(resolve_dream_shop_ref(DreamShopRef::Preset("none".to_string()), &presets).is_none());
    let inline = DreamShopConfig { enabled: false, purchase_list: vec![] };
    assert!(!resolve_dream_shop_ref(DreamShopRef::Inline(inline), &presets).expect("inline").enabled);
}
