use zcode_usage::providers::{refresh_quota, QuotaStep};
use zcode_usage::config::make_creds;
use zcode_usage::json::JsonVal;
use zcode_usage::plan::{AgentBucket, CodingBucket};
use zcode_usage::providers::{
    balance_from_reply, empty_plan, plan_action, plan_after_failure, plan_payload, refresh_balance,
    refresh_relay, relay_from_reply, Balance, BalanceInfo, BalanceReply, PlanBuckets, Refresh, RelayReply,
    RelayUsage, UsageCounters, UsageRow,
};

fn info(cur: Option<&str>, total: &str) -> BalanceInfo {
    BalanceInfo { currency: cur.map(|s| s.to_string()), total_balance: Some(JsonVal::Str(total.to_string())) }
}

#[test]
fn balance_prefers_the_cny_entry() {
    let reply = BalanceReply {
        balance_infos: Some(vec![info(Some("USD"), "1.00"), info(Some("CNY"), "7.20"), info(Some("CNY"), "9")]),
        is_available: Some(true),
    };
    let b = balance_from_reply(&reply, &"T".to_string());
    assert!(b.enabled);
    assert!(matches!(&b.balance, JsonVal::Str(s) if s == "7.20"));
    assert_eq!(b.currency, "CNY");
    assert!(b.is_available);
    assert_eq!(b.error, "");
}

#[test]
fn balance_falls_back_to_the_first_entry_and_defaults() {
    let reply = BalanceReply { balance_infos: Some(vec![info(None, "3"), info(Some("USD"), "4")]), is_available: None };
    let b = balance_from_reply(&reply, &"T".to_string());
    assert!(matches!(&b.balance, JsonVal::Str(s) if s == "3"));
    assert_eq!(b.currency, "CNY");
    assert!(!b.is_available);
    let none = BalanceReply { balance_infos: None, is_available: Some(true) };
    let e = balance_from_reply(&none, &"T".to_string());
    assert!(matches!(&e.balance, JsonVal::Str(s) if s.is_empty()));
}

fn stored_balance(r: Refresh<Balance>) -> Balance {
    match r {
        Refresh::Store(b) => b,
        Refresh::Keep => panic!("expected a stored payload"),
    }
}

#[test]
fn balance_refresh_decisions() {
    let now = "T".to_string();
    let off = stored_balance(refresh_balance(&"".to_string(), None, None, &now));
    assert!(!off.enabled);
    assert_eq!(off.error, "");
    let reply = BalanceReply { balance_infos: Some(vec![info(Some("CNY"), "5")]), is_available: Some(true) };
    let good = stored_balance(refresh_balance(&"k".to_string(), Some(&reply), None, &now));
    assert!(good.enabled);
    assert!(matches!(refresh_balance(&"k".to_string(), None, Some(&good), &now), Refresh::Keep));
    let failed = stored_balance(refresh_balance(&"k".to_string(), None, None, &now));
    assert!(failed.enabled);
    assert_eq!(failed.error, "查询失败");
    assert!(matches!(refresh_balance(&"k".to_string(), None, Some(&failed), &now), Refresh::Store(_)));
}

fn counters(r: i64, t: i64) -> UsageCounters {
    UsageCounters { requests: Some(r), total_tokens: Some(t), cost: None, actual_cost: Some(2) }
}

fn row(label: &str, r: i64) -> UsageRow {
    UsageRow { label: Some(JsonVal::Str(label.to_string())), requests: Some(r), total_tokens: None, cost: Some(1) }
}

fn relay_reply() -> RelayReply {
    RelayReply {
        balance: None,
        remaining: Some(JsonVal::Str("12.5".to_string())),
        unit: None,
        is_valid: None,
        plan_name: Some("Pro".to_string()),
        today: counters(3, 30),
        total: counters(9, 90),
        daily_usage: Some((1..=9).map(|d| row(&format!("d{d}"), d)).collect()),
        model_stats: Some(vec![row("glm", 4)]),
    }
}

#[test]
fn relay_usage_keeps_the_last_seven_days() {
    let u = relay_from_reply(&relay_reply(), &"T".to_string());
    assert!(matches!(&u.balance, JsonVal::Str(s) if s == "12.5"));
    assert_eq!(u.unit, "USD");
    assert!(u.is_valid);
    assert_eq!(u.plan_name, "Pro");
    assert_eq!((u.today.requests, u.today.tokens, u.today.cost, u.today.actual_cost), (3, 30, 0, Some(2)));
    let days: Vec<String> = u
        .daily
        .iter()
        .map(|r| match &r.label {
            JsonVal::Str(s) => s.clone(),
            _ => String::new(),
        })
        .collect();
    assert_eq!(days, vec!["d3", "d4", "d5", "d6", "d7", "d8", "d9"]);
    assert_eq!(u.daily[0].requests, 3);
    assert_eq!(u.daily[0].tokens, 0);
    assert_eq!(u.models.len(), 1);
}

fn stored_relay(r: Refresh<RelayUsage>) -> RelayUsage {
    match r {
        Refresh::Store(u) => u,
        Refresh::Keep => panic!("expected a stored payload"),
    }
}

#[test]
fn relay_refresh_decisions() {
    let now = "T".to_string();
    let off = stored_relay(refresh_relay(&"".to_string(), None, None, &now));
    assert!(!off.enabled);
    assert_eq!(off.today.actual_cost, None);
    let good = stored_relay(refresh_relay(&"k".to_string(), Some(&relay_reply()), None, &now));
    assert!(matches!(refresh_relay(&"k".to_string(), None, Some(&good), &now), Refresh::Keep));
    let mut numeric = relay_reply();
    numeric.balance = Some(JsonVal::Int(5));
    let not_text = stored_relay(refresh_relay(&"k".to_string(), Some(&numeric), None, &now));
    let after = stored_relay(refresh_relay(&"k".to_string(), None, Some(&not_text), &now));
    assert_eq!(after.error, "查询失败");
}

fn creds(kind: &str) -> zcode_usage::config::Creds {
    make_creds(Some("ak".to_string()), Some("sk".to_string()), Some(kind.to_string()), Some("Pro".to_string()), None)
}

#[test]
fn plan_action_follows_the_plan_type() {
    assert_eq!(plan_action(&creds("coding")), Some("GetCodingPlanUsage".to_string()));
    assert_eq!(plan_action(&creds(" Agent ")), Some("GetAFPUsage".to_string()));
    let none = make_creds(None, Some("sk".to_string()), None, None, None);
    assert_eq!(plan_action(&none), None);
}

fn coding_bucket() -> CodingBucket {
    CodingBucket {
        key: "session".to_string(),
        label: "会话".to_string(),
        percent: Some(JsonVal::Int(10)),
        reset_ms: 1,
        window_start_ms: 0,
        needs_config: false,
    }
}

#[test]
fn plan_payload_reports_a_coding_plan_that_is_not_running() {
    let c = creds("coding");
    let now = "T".to_string();
    let p = plan_payload(&c, "Expired".to_string(), PlanBuckets::Coding(vec![coding_bucket()]), &now);
    assert_eq!(p.error, "套餐未生效（Expired）");
    assert_eq!(p.tier, "Pro");
    let ok = plan_payload(&c, "Running".to_string(), PlanBuckets::Coding(vec![coding_bucket()]), &now);
    assert_eq!(ok.error, "");
    let agent = creds("agent");
    let a = plan_payload(&agent, "Expired".to_string(), PlanBuckets::Agent(Vec::<AgentBucket>::new()), &now);
    assert_eq!(a.error, "");
}

#[test]
fn plan_failure_keeps_a_payload_with_windows() {
    let c = creds("coding");
    let now = "T".to_string();
    let good = plan_payload(&c, "Running".to_string(), PlanBuckets::Coding(vec![coding_bucket()]), &now);
    assert!(matches!(plan_after_failure(&c, Some(&good), &now), Refresh::Keep));
    let empty = empty_plan(&c, true, "", &now);
    match plan_after_failure(&c, Some(&empty), &now) {
        Refresh::Store(p) => {
            assert!(p.enabled);
            assert_eq!(p.error, "调用失败");
            assert_eq!(p.plan_type, "coding");
        },
        Refresh::Keep => panic!("an empty payload is not kept"),
    }
}

#[test]
fn quota_refresh_decisions() {
    assert!(matches!(refresh_quota(&"".to_string(), Some(1), true), QuotaStep::Off));
    assert!(matches!(refresh_quota(&"c".to_string(), Some(7), false), QuotaStep::Store(7)));
    assert!(matches!(refresh_quota::<i32>(&"c".to_string(), None, true), QuotaStep::Keep));
    assert!(matches!(refresh_quota::<i32>(&"c".to_string(), None, false), QuotaStep::Failed));
}
