use koc_core::b64::{decode, encode};
use koc_core::cli_context::decode_server;
use koc_core::cli_evotower::{claimtask_id_for_climb, is_evotower_not_open_error, is_evotower_terminal_error, terminal_reason_from_error};
use koc_core::error_codes::{extract_code_from_error, format_error, is_done_error, is_done_result, lookup};
use koc_core::scheduler::RoleTask;
use koc_core::state::{normalize_role_key, RoleWeeklyState, RoundState};
use koc_core::text::{int_text, nat_text, parse_i32, parse_u32, parse_u64};
use koc_core::value::Value;

#[test]
fn error_codes_are_described() {
    assert_eq!(lookup(200020), Some("Something went wrong; try restarting the client"));
    assert_eq!(lookup(-10006), Some("Today's reward already claimed or attempts exhausted"));
    assert_eq!(lookup(1), None);
    assert_eq!(format_error(1500020, Some("ignored")), "[1500020] Insufficient energy");
    assert_eq!(format_error(42, Some("server hint")), "[42] server hint");
    assert_eq!(format_error(-7, None), "[-7] unknown code");
}

#[test]
fn error_code_reads_back_from_message() {
    for code in [0, 42, -7, 200120, i32::MAX, i32::MIN] {
        assert_eq!(extract_code_from_error(&format_error(code, Some("x]y"))), Some(code));
    }
    assert_eq!(extract_code_from_error("[12] a"), Some(12));
    assert_eq!(extract_code_from_error("[+12] a"), Some(12));
    assert_eq!(extract_code_from_error("[ 12] a"), None);
    assert_eq!(extract_code_from_error("[99999999999] a"), None);
    assert_eq!(extract_code_from_error("12] a"), None);
    assert_eq!(extract_code_from_error("[12 a"), None);
}

#[test]
fn done_errors_and_results() {
    assert!(is_done_error(400030));
    assert!(is_done_error(-10006));
    assert!(!is_done_error(200330));
    assert!(is_done_result(&Ok(Value::Null)));
    assert!(is_done_result(&Err("[700020] claimed".to_string())));
    assert!(!is_done_result(&Err("[700010] not yet".to_string())));
    assert!(!is_done_result(&Err("timeout".to_string())));
}

#[test]
fn numbers_are_read_and_written() {
    assert_eq!(parse_u64(b"18446744073709551615"), Some(u64::MAX));
    assert_eq!(parse_u64(b"18446744073709551616"), None);
    assert_eq!(parse_u64(b"+0"), Some(0));
    assert_eq!(parse_u64(b"-0"), None);
    assert_eq!(parse_u64(b""), None);
    assert_eq!(parse_u32(b"4294967296"), None);
    assert_eq!(parse_i32(b"-2147483648"), Some(i32::MIN));
    assert_eq!(parse_i32(b"2147483648"), None);
    assert_eq!(parse_i32(b"-"), None);
    assert_eq!(nat_text(1234567890123), "1234567890123");
    assert_eq!(int_text(i64::MIN), "-9223372036854775808");
}

#[test]
fn base64_roundtrips() {
    assert_eq!(encode(&[1, 2, 3]), "AQID");
    assert_eq!(encode(&[255]), "/w==");
    assert_eq!(decode("AQID"), Some(vec![1, 2, 3]));
    assert_eq!(decode("/w=="), Some(vec![255]));
    assert_eq!(decode("A"), None);
    assert_eq!(decode(&encode(b"hello world")), Some(b"hello world".to_vec()));
}

#[test]
fn evotower_rules() {
    assert_eq!(claimtask_id_for_climb(3), Some(1));
    assert_eq!(claimtask_id_for_climb(6), Some(2));
    assert_eq!(claimtask_id_for_climb(10), Some(3));
    assert_eq!(claimtask_id_for_climb(4), None);
    assert!(is_evotower_not_open_error("[2100010] closed"));
    assert!(!is_evotower_not_open_error("[1] x"));
    assert!(is_evotower_terminal_error("[200160] locked"));
    assert!(is_evotower_terminal_error("[400030] done"));
    assert!(is_evotower_terminal_error("failed: 能量不足"));
    assert!(!is_evotower_terminal_error("[1] try again"));
    assert_eq!(terminal_reason_from_error("[12200050] x"), "terminal error code 12200050");
    assert_eq!(terminal_reason_from_error("x"), "terminal error");
    assert_eq!(decode_server(2_000_100), (73, 2));
}

#[test]
fn rounds_restart_each_day() {
    let mut rs = RoundState::new();
    let a = rs.next_round("2026-05-01");
    assert!(a.reset_happened && a.round == 1 && a.previous_date.is_none());
    let b = rs.next_round("2026-05-01");
    assert!(!b.reset_happened && b.round == 2);
    let c = rs.next_round("2026-05-02");
    assert!(c.reset_happened && c.round == 1);
    assert_eq!(c.previous_date.as_deref(), Some("2026-05-01"));
    assert_eq!(c.current_date, "2026-05-02");
}

#[test]
fn weekly_flags_reset_on_a_new_week() {
    let mut w = RoleWeeklyState { week: Some("2026-W18".to_string()), study: true };
    w.ensure_this_week("2026-W18");
    assert!(w.study);
    w.ensure_this_week("2026-W19");
    assert!(!w.study);
    assert_eq!(w.week.as_deref(), Some("2026-W19"));
}

#[test]
fn role_keys_are_migrated() {
    assert_eq!(normalize_role_key("./bins\\a.bin:42"), "bins/a.bin:42");
    assert_eq!(normalize_role_key("a.bin:x"), "a.bin:x");
    assert_eq!(normalize_role_key("plain"), "plain");
    assert_eq!(normalize_role_key("c:/d/e.bin:7"), "c:/d/e.bin:7");
}

#[test]
fn short_display_drops_the_role_name() {
    let t = RoleTask {
        key: "k".to_string(),
        display: "bin/3-1-Some-Name".to_string(),
        bin_path: "bin".to_string(),
        server_id: 1,
        role_name: "Name".to_string(),
    };
    assert_eq!(t.short_display(), "bin/3-1-Some");
}
