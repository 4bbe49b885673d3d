use zcode_usage::json::JsonVal;
use zcode_usage::plan::{
    agent_reply_fits, coding_reply_fits, models_start, parse_agent_plan, parse_coding_plan, AfpWindow,
    AgentPlanReply, CodingPlanReply, QuotaItem,
};

fn item(level: &str, reset_s: i64, pct: i64) -> QuotaItem {
    QuotaItem { level: Some(level.to_string()), percent: Some(JsonVal::Int(pct)), reset_timestamp: Some(reset_s) }
}

#[test]
fn coding_plan_windows_and_their_starts() {
    let cp = CodingPlanReply {
        quota_usage: Some(vec![
            item("session", 1_700_000_000, 12),
            item("daily", 1_700_000_000, 1),
            item("weekly", 1_700_000_000, 30),
            item("monthly", 1_700_000_000, 50),
        ]),
        status: Some("Running".to_string()),
    };
    assert!(coding_reply_fits(&cp, Some(0)));
    let (status, b) = parse_coding_plan(&cp, Some(0));
    assert_eq!(status, "Running");
    let keys: Vec<&str> = b.iter().map(|x| x.key.as_str()).collect();
    assert_eq!(keys, vec!["session", "weekly", "monthly"]);
    let labels: Vec<&str> = b.iter().map(|x| x.label.as_str()).collect();
    assert_eq!(labels, vec!["会话", "每周", "每月"]);
    assert_eq!(b[0].reset_ms, 1_700_000_000_000);
    assert_eq!(b[0].window_start_ms, 1_700_000_000_000 - 5 * 3_600_000);
    assert_eq!(b[1].window_start_ms, 1_700_000_000_000 - 7 * 86_400_000);
    assert_eq!(b[2].window_start_ms, 1_697_241_600_000);
    assert!(matches!(b[1].percent, Some(JsonVal::Int(30))));
    assert!(b.iter().all(|x| !x.needs_config));
}

#[test]
fn a_later_plan_start_bounds_the_window() {
    let cp = CodingPlanReply { quota_usage: Some(vec![item("weekly", 1_700_000_000, 1)]), status: None };
    let start = 1_699_900_000_000i64;
    let (status, b) = parse_coding_plan(&cp, Some(start));
    assert_eq!(status, "");
    assert_eq!(b[0].window_start_ms, start);
}

#[test]
fn weekly_and_monthly_windows_need_the_plan_start() {
    let cp = CodingPlanReply {
        quota_usage: Some(vec![item("weekly", 1_700_000_000, 1), item("monthly", 1_700_000_000, 1), item("session", 0, 1)]),
        status: None,
    };
    let (_, b) = parse_coding_plan(&cp, None);
    assert!(b[0].needs_config && b[0].window_start_ms == 0);
    assert!(b[1].needs_config && b[1].window_start_ms == 0);
    assert!(!b[2].needs_config && b[2].window_start_ms == 0 && b[2].reset_ms == 0);
    assert_eq!(models_start(&b[0]), None);
    assert_eq!(models_start(&b[2]), None);
}

#[test]
fn monthly_windows_step_back_one_calendar_month() {
    let cp = CodingPlanReply {
        quota_usage: Some(vec![item("monthly", 1_705_276_800, 1), item("monthly", 1_711_843_200, 1)]),
        status: None,
    };
    let (_, b) = parse_coding_plan(&cp, Some(0));
    assert_eq!(b[0].window_start_ms, 1_702_598_400_000);
    assert_eq!(models_start(&b[0]), Some(1_702_598_400_000));
    // February has no 31st: no window start, and nothing to configure.
    assert_eq!(b[1].window_start_ms, 0);
    assert!(!b[1].needs_config);
}

#[test]
fn coding_reply_fits_rejects_overflowing_reset_times() {
    let cp = CodingPlanReply { quota_usage: Some(vec![item("session", i64::MAX / 10, 1)]), status: None };
    assert!(!coding_reply_fits(&cp, None));
    let hidden = CodingPlanReply { quota_usage: Some(vec![item("daily", i64::MAX / 10, 1)]), status: None };
    assert!(coding_reply_fits(&hidden, None));
    assert!(parse_coding_plan(&hidden, None).1.is_empty());
}

fn win(q: i64, u: i64, r: i64) -> Option<AfpWindow> {
    Some(AfpWindow { quota: Some(q), used: Some(u), reset_time: Some(r) })
}

#[test]
fn agent_plan_windows() {
    let afp = AgentPlanReply { five_hour: win(100, 30, 5), weekly: None, monthly: win(10, 40, 7) };
    assert!(agent_reply_fits(&afp));
    let b = parse_agent_plan(&afp);
    assert_eq!(b.len(), 2);
    assert_eq!((b[0].key.as_str(), b[0].label.as_str()), ("AFPFiveHour", "5小时"));
    assert_eq!((b[0].quota, b[0].used, b[0].remaining, b[0].reset_ms), (100, 30, 70, 5));
    assert_eq!((b[1].key.as_str(), b[1].label.as_str()), ("AFPMonthly", "每月"));
    assert_eq!(b[1].remaining, 0);
    let big = AgentPlanReply { five_hour: win(i64::MIN, 1, 0), weekly: None, monthly: None };
    assert!(!agent_reply_fits(&big));
}
