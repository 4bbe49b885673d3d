use zcode_usage::json::JsonVal;
use zcode_usage::opencode::{
    go_payload, go_windows, human_reset, parse_window, refresh_go, Amount, GoPayload, GoWindow, ResetIn,
    WindowText,
};
use zcode_usage::providers::Refresh;

fn amounts(r: &Option<ResetIn>) -> Vec<(String, u32)> {
    match r {
        Some(ResetIn::Amounts(v)) => v.iter().map(|a: &Amount| (a.number.clone(), a.unit_secs)).collect(),
        _ => panic!("expected amounts"),
    }
}

#[test]
fn human_reset_reads_each_unit() {
    let r = human_reset(&"6 days 2 hours 30 minutes".to_string());
    assert_eq!(
        amounts(&r),
        vec![("6".to_string(), 86400), ("2".to_string(), 3600), ("30".to_string(), 60)]
    );
}

#[test]
fn human_reset_normalises_case_dashes_and_spaces() {
    assert!(matches!(human_reset(&"  Resets   NOW ".to_string()), Some(ResetIn::Now)));
    assert!(matches!(human_reset(&"reset-now".to_string()), Some(ResetIn::Now)));
    let r = human_reset(&"2\u{2014}Hours 15 Seconds".to_string());
    assert_eq!(amounts(&r), vec![("2".to_string(), 3600), ("15".to_string(), 1)]);
    let f = human_reset(&"in 1.5 hours".to_string());
    assert_eq!(amounts(&f), vec![("1.5".to_string(), 3600)]);
}

#[test]
fn human_reset_without_a_unit_is_nothing() {
    assert!(human_reset(&"soon".to_string()).is_none());
    assert!(human_reset(&"5 d".to_string()).is_none());
    assert!(human_reset(&"".to_string()).is_none());
}

#[test]
fn parse_window_reads_hydration_data_percent_first() {
    let html = "x;rollingUsage:$R[12]={usagePercent:42.5,foo:1,resetInSec:3600};y";
    match parse_window(html, "rollingUsage") {
        Some(WindowText::Ssr { pct, reset_secs }) => {
            assert_eq!(pct, "42.5");
            assert_eq!(reset_secs, "3600");
        },
        _ => panic!("expected hydration window"),
    }
    assert!(parse_window(&html, "weeklyUsage").is_none());
}

#[test]
fn parse_window_reads_hydration_data_reset_first() {
    let html = "weeklyUsage:$R[3]={resetInSec:100,usagePercent:7}";
    match parse_window(html, "weeklyUsage") {
        Some(WindowText::Ssr { pct, reset_secs }) => {
            assert_eq!(pct, "7");
            assert_eq!(reset_secs, "100");
        },
        _ => panic!("expected hydration window"),
    }
}

fn slot_page() -> String {
    [
        "<header>Go</header>",
        "<div data-slot=\"usage-item\"><span data-slot=\"usage-label\"> Rolling Usage </span>",
        "<span data-slot=\"usage-value\">42%</span>",
        "<span data-slot=\"reset-time\">2 hours 5 minutes</span></div>",
        "<div data-slot=\"usage-item\"><span data-slot=\"usage-label\">Weekly</span>",
        "<span data-slot=\"usage-value\">used 10.5%</span>",
        "<span data-slot=\"reset-now\">now</span></div>"
    ].concat()
    .to_string()
}

#[test]
fn parse_window_reads_the_slot_markup() {
    let html = slot_page();
    match parse_window(&html, "rollingUsage") {
        Some(WindowText::Slot { value, reset }) => {
            assert_eq!(value, "42");
            assert_eq!(amounts(&Some(reset)), vec![("2".to_string(), 3600), ("5".to_string(), 60)]);
        },
        _ => panic!("expected slot window"),
    }
    match parse_window(&html, "weeklyUsage") {
        Some(WindowText::Slot { value, reset }) => {
            assert_eq!(value, "10.5");
            assert!(matches!(reset, ResetIn::Now));
        },
        _ => panic!("expected slot window"),
    }
    assert!(parse_window(&html, "monthlyUsage").is_none());
}

#[test]
fn a_label_naming_no_window_ends_the_search() {
    let html = [
        "<div data-slot=\"usage-item\"><span data-slot=\"usage-label\">Daily</span>",
        "<span data-slot=\"usage-value\">1%</span><span data-slot=\"reset-now\"></span></div>",
        "<div data-slot=\"usage-item\"><span data-slot=\"usage-label\">Weekly</span>",
        "<span data-slot=\"usage-value\">2%</span><span data-slot=\"reset-now\"></span></div>"
    ].concat();
    assert!(parse_window(&html, "weeklyUsage").is_none());
}

#[test]
fn an_unreadable_reset_time_gives_nothing() {
    let html = [
        "<div data-slot=\"usage-item\"><span data-slot=\"usage-label\">Monthly</span>",
        "<span data-slot=\"usage-value\">3%</span><span data-slot=\"reset-time\">later</span></div>"
    ].concat();
    assert!(parse_window(&html, "monthlyUsage").is_none());
}

#[test]
fn go_windows_lists_found_windows_by_key() {
    let html = format!("{}monthlyUsage:$R[1]={{usagePercent:5,resetInSec:9}}", slot_page());
    let w = go_windows(&html);
    let keys: Vec<&str> = w.iter().map(|(k, _)| k.as_str()).collect();
    assert_eq!(keys, vec!["monthly", "rolling", "weekly"]);
}

fn win(key: &str, used: Option<JsonVal>) -> GoWindow {
    GoWindow {
        key: key.to_string(),
        used_pct: used,
        remaining_pct: Some(JsonVal::Other("57.5".to_string())),
        reset_ms: Some(JsonVal::Int(1_700_000_000_000)),
    }
}

#[test]
fn go_payload_labels_windows_and_fills_missing_numbers_with_zero() {
    let ws = vec![win("rolling", None), win("weekly", Some(JsonVal::Int(3))), win("other", Some(JsonVal::Int(1)))];
    let p = go_payload(&"w1".to_string(), &ws, &"T".to_string());
    assert!(p.enabled);
    assert_eq!(p.workspace_id, "w1");
    assert_eq!(p.error, "");
    assert_eq!(p.updated_at, "T");
    let labels: Vec<&str> = p.buckets.iter().map(|b| b.label.as_str()).collect();
    assert_eq!(labels, vec!["5小时", "每周", "other"]);
    assert!(matches!(p.buckets[0].used_pct, JsonVal::Int(0)));
    assert!(matches!(p.buckets[1].used_pct, JsonVal::Int(3)));
    assert!(matches!(&p.buckets[0].remaining_pct, JsonVal::Other(s) if s == "57.5"));
}

fn stored(r: Refresh<GoPayload>) -> GoPayload {
    match r {
        Refresh::Store(p) => p,
        Refresh::Keep => panic!("expected a stored payload"),
    }
}

#[test]
fn refresh_go_without_settings_turns_the_plan_off() {
    let now = "T".to_string();
    let p = stored(refresh_go(&"".to_string(), &"c".to_string(), None, None, &now));
    assert!(!p.enabled);
    assert_eq!(p.workspace_id, "");
    assert!(p.buckets.is_empty());
    let q = stored(refresh_go(&"w".to_string(), &"".to_string(), None, None, &now));
    assert!(!q.enabled);
}

#[test]
fn refresh_go_stores_the_windows_read() {
    let now = "T".to_string();
    let ws = vec![win("monthly", Some(JsonVal::Int(9)))];
    let p = stored(refresh_go(&"w".to_string(), &"c".to_string(), Some(&ws), None, &now));
    assert!(p.enabled);
    assert_eq!(p.buckets.len(), 1);
    assert_eq!(p.buckets[0].label, "每月");
}

#[test]
fn refresh_go_failure_keeps_a_valid_payload_or_stores_the_error() {
    let now = "T".to_string();
    let ws = vec![win("rolling", None)];
    let good = go_payload(&"w".to_string(), &ws, &"T0".to_string());
    assert!(matches!(refresh_go(&"w".to_string(), &"c".to_string(), None, Some(&good), &now), Refresh::Keep));
    let e = stored(refresh_go(&"w".to_string(), &"c".to_string(), None, None, &now));
    assert!(e.enabled);
    assert_eq!(e.workspace_id, "w");
    assert_eq!(e.error, "抓取失败（cookie 可能过期）");
    let empty: Vec<GoWindow> = Vec::new();
    let e2 = stored(refresh_go(&"w".to_string(), &"c".to_string(), Some(&empty), None, &now));
    assert_eq!(e2.error, "抓取失败（cookie 可能过期）");
}
