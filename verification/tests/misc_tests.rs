
use zcode_usage::cache::{Cache, TtlMemo};
use zcode_usage::drag::{drag_step, DragAction, DragOrigin};
use zcode_usage::json::{wrapping_add, JsonVal};
use zcode_usage::kv::{kv_insert, kv_lookup};
use zcode_usage::sort::stable_desc_order;
use zcode_usage::tasks::{
    build_task, current_task, open_task_url, placeholders, recent_count, tokens_for, TaskInfo, TaskRow, TaskTokens,
};
use zcode_usage::time::{amz_date, fmt_ts, last_activity, parse_iso_ms, utc_text, window_starts};

#[test]
fn a_cached_value_is_fresh_until_its_time_to_live_has_passed() {
    let mut c: Cache<u32> = Cache::new();
    assert!(c.get().is_none());
    assert!(!c.fresh(0, 15_000));
    c.set(7, 1_000);
    assert_eq!(c.get(), Some(&7));
    assert!(c.fresh(1_000, 15_000));
    assert!(c.fresh(15_999, 15_000));
    assert!(!c.fresh(16_000, 15_000));
    assert!(c.fresh(500, 15_000));
}

#[test]
fn a_memo_reloads_only_once_its_value_is_stale() {
    let calls = std::cell::Cell::new(0u32);
    let mut m = TtlMemo::new(15_000, || {
        calls.set(calls.get() + 1);
        calls.get() * 10
    });
    assert_eq!(m.get(1_000, || 1_000), 10);
    assert_eq!(m.get(15_999, || 15_999), 10);
    assert_eq!(calls.get(), 1);
    assert_eq!(m.get(16_000, || 16_000), 20);
    assert_eq!(m.get(20_000, || 20_000), 20);
    assert_eq!(calls.get(), 2);
}

#[test]
fn dragging_follows_the_cursor_and_stops_on_release() {
    let o = DragOrigin { base_x: 100, base_y: 50, start_x: 500, start_y: 400 };
    assert!(matches!(drag_step(&o, true, Some((510, 390))), DragAction::MoveTo { x: 110, y: 40 }));
    assert!(matches!(drag_step(&o, true, Some((500, 400))), DragAction::MoveTo { x: 100, y: 50 }));
    assert!(matches!(drag_step(&o, false, Some((510, 390))), DragAction::Stop));
    assert!(matches!(drag_step(&o, true, None), DragAction::Stop));
    let edge = DragOrigin { base_x: i32::MAX, base_y: 0, start_x: 0, start_y: 0 };
    assert!(matches!(drag_step(&edge, false, Some((1, 0))), DragAction::Stop));
}

fn row(id: &str, status: &str) -> TaskRow {
    TaskRow {
        task_id: id.to_string(),
        title: None,
        status: status.to_string(),
        provider: Some("ds".to_string()),
        model: None,
        mode: Some("code".to_string()),
        created_at: 1,
        updated_at: 2,
        meta_thought_level: Some("low".to_string()),
        meta_workspace_path: Some("D:/w".to_string()),
    }
}

#[test]
fn tasks_take_live_signals_from_the_log() {
    let active = vec!["t1".to_string()];
    let modes = vec![("t1".to_string(), "plan".to_string())];
    let levels = vec![("t2".to_string(), "high".to_string())];
    let a = build_task(&row("t1", "completed"), &active, &modes, &levels);
    assert_eq!(a.status, "running");
    assert_eq!(a.mode, "plan");
    assert_eq!(a.thought_level, "low");
    assert_eq!(a.title, "(未命名任务)");
    assert_eq!(a.model, "");
    assert_eq!(a.workspace_path, "D:/w");
    let b = build_task(&row("t2", "completed"), &active, &modes, &levels);
    assert_eq!(b.status, "completed");
    assert_eq!(b.mode, "code");
    assert_eq!(b.thought_level, "high");
}

fn info(id: &str, status: &str) -> TaskInfo {
    build_task(&row(id, status), &vec![], &vec![], &vec![])
}

#[test]
fn the_current_task_is_the_first_running_one() {
    let t = vec![info("a", "completed"), info("b", "running"), info("c", "running")];
    assert_eq!(current_task(&t), Some(1));
    let u = vec![info("a", "completed"), info("b", "failed")];
    assert_eq!(current_task(&u), Some(0));
    assert_eq!(current_task(&vec![]), None);
}

#[test]
fn task_tokens_default_to_zero() {
    let m = vec![("a".to_string(), TaskTokens { total: 9, input: 5, output: 4, requests: 2 })];
    let t = tokens_for(&m, &"a".to_string());
    assert_eq!((t.total, t.input, t.output, t.requests), (9, 5, 4, 2));
    let z = tokens_for(&m, &"b".to_string());
    assert_eq!((z.total, z.input, z.output, z.requests), (0, 0, 0, 0));
    assert_eq!(recent_count(20), 8);
    assert_eq!(recent_count(3), 3);
}

#[test]
fn sql_placeholders() {
    assert_eq!(placeholders(0), "");
    assert_eq!(placeholders(1), "?");
    assert_eq!(placeholders(3), "?,?,?");
}

#[test]
fn the_task_link_percent_encodes_the_path() {
    assert_eq!(open_task_url(&"D:/code/my app".to_string()), "zcode://open-project?directory=D%3A%2Fcode%2Fmy%20app");
    assert_eq!(open_task_url(&"a-b_c.d~".to_string()), "zcode://open-project?directory=a-b_c.d~");
    assert_eq!(open_task_url(&"项".to_string()), "zcode://open-project?directory=%E9%A1%B9");
}

#[test]
fn timestamps() {
    assert_eq!(fmt_ts(0), "");
    assert_eq!(fmt_ts(i64::MAX), "");
    assert_eq!(fmt_ts(-1).len(), 8);
    let s = fmt_ts(1_704_067_200_000);
    assert_eq!(s.len(), 8);
    assert_eq!(&s[2..3], ":");
    assert_eq!(parse_iso_ms(&"2024-01-01T00:00:00Z".to_string()), Some(1_704_067_200_000));
    assert_eq!(parse_iso_ms(&"2024-01-01T08:00:00.5+08:00".to_string()), Some(1_704_067_200_500));
    assert_eq!(parse_iso_ms(&"2024-01-01".to_string()), None);
    assert_eq!(window_starts(1_000_000_000_000), (1_000_000_000_000 - 7 * 86_400_000, 1_000_000_000_000 - 30 * 86_400_000));
}

#[test]
fn association_lists_replace_in_place() {
    let mut m: Vec<(String, u32)> = Vec::new();
    kv_insert(&mut m, "a".to_string(), 1);
    kv_insert(&mut m, "b".to_string(), 2);
    kv_insert(&mut m, "a".to_string(), 3);
    assert_eq!(m, vec![("a".to_string(), 3), ("b".to_string(), 2)]);
    assert_eq!(kv_lookup(&m, &"b".to_string()), Some(&2));
    assert_eq!(kv_lookup(&m, &"c".to_string()), None);
}

#[test]
fn stable_descending_order() {
    assert_eq!(stable_desc_order(&vec![3, 9, 3, 1, 9]), vec![1, 4, 0, 2, 3]);
    assert!(stable_desc_order(&vec![]).is_empty());
}

#[test]
fn json_values_and_wrapping_sums() {
    assert_eq!(wrapping_add(i64::MAX, 2), i64::MIN + 1);
    let v = JsonVal::Str("x".to_string());
    assert_eq!(v.as_str(), Some(&"x".to_string()));
    assert!(JsonVal::Int(1).as_str().is_none());
    assert!(matches!(v.dup(), JsonVal::Str(s) if s == "x"));
}

#[test]
fn a_memo_is_stamped_when_its_loader_has_finished() {
    let calls = std::cell::Cell::new(0u32);
    let mut m = TtlMemo::new(15_000, || {
        calls.set(calls.get() + 1);
        calls.get()
    });
    // The read starts at 1_000 and the load ends at 4_000.
    assert_eq!(m.get(1_000, || 4_000), 1);
    assert_eq!(m.get(18_999, || 18_999), 1);
    assert_eq!(calls.get(), 1);
    assert_eq!(m.get(19_000, || 19_500), 2);
    assert_eq!(m.get(34_499, || 34_499), 2);
    assert_eq!(m.get(34_500, || 34_500), 3);
}

#[test]
fn instants_are_written_as_utc_text_with_milliseconds() {
    assert_eq!(utc_text(1_704_067_200_000), "2024-01-01T00:00:00.000Z");
    assert_eq!(utc_text(1_704_164_645_123), "2024-01-02T03:04:05.123Z");
    assert_eq!(utc_text(0), "1970-01-01T00:00:00.000Z");
    assert_eq!(utc_text(i64::MAX), "");
}

#[test]
fn the_last_activity_is_the_newest_completion_or_nothing() {
    assert_eq!(last_activity(Some(1_704_067_200_000)), "2024-01-01T00:00:00.000Z");
    assert_eq!(last_activity(None), "");
    assert_eq!(last_activity(Some(i64::MAX)), "");
}

#[test]
fn request_dates_are_compact_utc_stamps() {
    assert_eq!(amz_date(1_704_164_645_000), "20240102T030405Z");
    assert_eq!(amz_date(1_704_164_645_999), "20240102T030405Z");
    assert_eq!(amz_date(i64::MIN), "");
}
