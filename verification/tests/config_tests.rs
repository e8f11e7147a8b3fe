use koc_core::config::{bin_name_from_path, role_display};
use koc_core::config::{
    build_runtime_bin_path, default_formation_defaults, minutes_to_hhmm, normalize_dir, normalize_path_for_id,
    parse_hhmm_strict, parse_hhmm_with_fallback, parse_server_id, parse_weekday, resolve_with_source, role_key,
    weekday_to_short, FormationContext, FormationOverride, Weekday,
};
use koc_core::maintenance::{default_maintenance_windows, normalize_maintenance_windows, normalize_spans, parse_maintenance_windows, MaintenanceWindowConfig};

fn w(day: &str, start: &str, end: &str) -> MaintenanceWindowConfig {
    MaintenanceWindowConfig { weekday: day.to_string(), start_time: start.to_string(), end_time: end.to_string() }
}

fn texts(ws: &[MaintenanceWindowConfig]) -> Vec<(String, String, String)> {
    ws.iter().map(|x| (x.weekday.clone(), x.start_time.clone(), x.end_time.clone())).collect()
}

#[test]
fn weekdays_are_read_in_any_case() {
    assert!(parse_weekday("Mon") == Some(Weekday::Mon));
    assert!(parse_weekday("THURS") == Some(Weekday::Thu));
    assert!(parse_weekday("tues") == Some(Weekday::Tue));
    assert!(parse_weekday("sunday") == Some(Weekday::Sun));
    assert!(parse_weekday("mo").is_none());
    assert_eq!(weekday_to_short(Weekday::Sat), "Sat");
}

#[test]
fn times_of_day_are_strict() {
    assert_eq!(parse_hhmm_strict("06:00"), Some((6, 0)));
    assert_eq!(parse_hhmm_strict("23:59"), Some((23, 59)));
    assert_eq!(parse_hhmm_strict("+7:05"), Some((7, 5)));
    assert_eq!(parse_hhmm_strict("24:00"), None);
    assert_eq!(parse_hhmm_strict("12:60"), None);
    assert_eq!(parse_hhmm_strict("1:2:3"), None);
    assert_eq!(parse_hhmm_strict("1200"), None);
    assert_eq!(parse_hhmm_strict(" 1:00"), None);
    assert_eq!(parse_hhmm_with_fallback("bad", (12, 10)), (12, 10));
    assert_eq!(minutes_to_hhmm(5), "00:05");
    assert_eq!(minutes_to_hhmm(1275), "21:15");
    assert_eq!(minutes_to_hhmm(6000), "100:00");
}

#[test]
fn paths_are_normalized() {
    assert_eq!(normalize_dir("bins\\\\"), "bins");
    assert_eq!(normalize_dir("/"), "/");
    assert_eq!(normalize_dir("a//"), "a");
    assert_eq!(normalize_path_for_id("./././x\\y.bin"), "x/y.bin");
    assert_eq!(normalize_path_for_id(".x"), ".x");
    assert_eq!(build_runtime_bin_path("bins", "role.bin"), "bins/role.bin");
    assert_eq!(build_runtime_bin_path("bins", "./other/role.bin"), "other/role.bin");
}

#[test]
fn server_ids_and_keys() {
    assert_eq!(parse_server_id(2_000_030), (3, 2));
    assert_eq!(parse_server_id(1_000_010), (0, 1));
    assert_eq!(parse_server_id(100), (73, 0));
    assert_eq!(role_key("bins/a.bin", 42), "bins/a.bin:42");
}

#[test]
fn formations_prefer_the_role() {
    let defaults = default_formation_defaults();
    let o = FormationOverride { arena: Some(3), tower: None, evotower: None, boss_daily: None, boss_legion: None };
    assert_eq!(resolve_with_source(Some(&o), &defaults, FormationContext::Arena), (3, "role"));
    assert_eq!(resolve_with_source(Some(&o), &defaults, FormationContext::Tower), (1, "default"));
    assert_eq!(resolve_with_source(None, &defaults, FormationContext::BossLegion), (1, "default"));
    assert_eq!(FormationContext::BossDaily.as_str(), "boss_daily");
}

#[test]
fn windows_are_merged_per_day() {
    let ws = vec![
        w("sat", "19:15", "21:15"),
        w("Fri", "06:00", "07:00"),
        w("fri", "05:00", "06:00"),
        w("Sat", "20:00", "22:00"),
        w("Sun", "10:00", "09:00"),
        w("Xyz", "01:00", "02:00"),
        w("Mon", "01:00", "02:00"),
        w("mon", "03:00", "04:00"),
    ];
    let out = normalize_maintenance_windows(&ws);
    assert_eq!(
        texts(&out),
        vec![
            ("Mon".to_string(), "01:00".to_string(), "02:00".to_string()),
            ("Mon".to_string(), "03:00".to_string(), "04:00".to_string()),
            ("Fri".to_string(), "05:00".to_string(), "07:00".to_string()),
            ("Sat".to_string(), "19:15".to_string(), "22:00".to_string()),
        ]
    );
    let spans = normalize_spans(&ws);
    assert_eq!(spans.len(), 4);
}

#[test]
fn windows_fall_back_to_defaults() {
    let defaults = texts(&default_maintenance_windows());
    assert_eq!(defaults[0], ("Fri".to_string(), "05:00".to_string(), "07:00".to_string()));
    assert_eq!(texts(&normalize_maintenance_windows(&vec![])), defaults);
    assert_eq!(texts(&normalize_maintenance_windows(&vec![w("x", "1", "2")])), defaults);
}

#[test]
fn readable_windows_keep_empty_spans() {
    let ws = vec![w("Sun", "10:00", "09:00"), w("bad", "1:00", "2:00")];
    let parsed = parse_maintenance_windows(&ws);
    assert_eq!(parsed.len(), 1);
    assert!(parsed[0].0 == Weekday::Sun);
    assert_eq!((parsed[0].1, parsed[0].2, parsed[0].3, parsed[0].4), (10, 0, 9, 0));
}

#[test]
fn roles_are_shown_by_bin_stem_and_server() {
    assert_eq!(role_display("bins/main.bin", 1_000_030, "Hero"), "main/3-1-Hero");
    assert_eq!(role_display("alt.bin", 20, "X"), "alt/0-0-X");
    assert_eq!(bin_name_from_path("bins/main.bin"), "main.bin");
    assert_eq!(bin_name_from_path("main.bin"), "main.bin");
}
