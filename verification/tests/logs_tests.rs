use zcode_usage::logs::{
    active_session_ids, live_activity, newest_log_name, session_modes, session_thought_levels, split_text,
    tail_lines, Activity, LogRecord,
};

fn rec(event: &str, sess: &str, ts: &str) -> LogRecord {
    LogRecord {
        event: Some(event.to_string()),
        timestamp: Some(ts.to_string()),
        session_id: Some(sess.to_string()),
        tool_call_id: None,
        duration_ms: None,
        tool_name: None,
        model_id: None,
        mode: None,
        thought_level: None,
    }
}

fn mode(sess: &str, m: &str) -> LogRecord {
    let mut r = rec("session.mode.updated", sess, "");
    r.mode = Some(m.to_string());
    r
}

#[test]
fn the_last_mode_update_wins() {
    let recs = vec![mode("sess_a", "plan"), mode("sess_b", "code"), mode("sess_a", "ask"), mode("sess_a", "")];
    let m = session_modes(&recs);
    assert_eq!(m, vec![("sess_a".to_string(), "ask".to_string()), ("sess_b".to_string(), "code".to_string())]);
}

#[test]
fn sub_agents_and_foreign_sessions_are_ignored() {
    let recs = vec![mode("sess_subagent_1", "plan"), mode("task_1", "code"), mode("sess_x", "auto")];
    assert_eq!(session_modes(&recs), vec![("sess_x".to_string(), "auto".to_string())]);
}

#[test]
fn reasoning_effort_is_read_from_its_own_event() {
    let mut a = rec("session.reasoning_effort.updated", "sess_a", "");
    a.thought_level = Some("high".to_string());
    let mut b = mode("sess_a", "plan");
    b.thought_level = Some("low".to_string());
    let levels = session_thought_levels(&vec![a, b]);
    assert_eq!(levels, vec![("sess_a".to_string(), "high".to_string())]);
}

#[test]
fn open_turns_count_as_running_for_thirty_minutes() {
    // 2024-01-01T00:00:00Z is 1_704_067_200_000 ms.
    let start = 1_704_067_200_000i64;
    let recs = vec![
        rec("turn.started", "sess_open", "2024-01-01T00:00:00Z"),
        rec("turn.started", "sess_done", "2024-01-01T00:00:00Z"),
        rec("turn.completed", "sess_done", "2024-01-01T00:05:00Z"),
        rec("turn.started", "sess_badts", "yesterday"),
    ];
    let at_29 = active_session_ids(&recs, start + 29 * 60 * 1000);
    assert_eq!(at_29, vec!["sess_open".to_string(), "sess_badts".to_string()]);
    let at_30 = active_session_ids(&recs, start + 30 * 60 * 1000);
    assert_eq!(at_30, vec!["sess_open".to_string(), "sess_badts".to_string()]);
    let at_31 = active_session_ids(&recs, start + 31 * 60 * 1000);
    assert_eq!(at_31, vec!["sess_badts".to_string()]);
}

fn tool(event: &str, id: &str, name: &str, dur: Option<i64>) -> LogRecord {
    let mut r = rec(event, "sess_a", "t");
    r.tool_call_id = Some(id.to_string());
    r.tool_name = Some(name.to_string());
    r.duration_ms = dur;
    r
}

#[test]
fn live_activity_tracks_tools_turns_and_the_last_eight_events() {
    let mut recs = vec![rec("turn.started", "sess_a", "t0")];
    recs.push(tool("tool.call.started", "c1", "read", None));
    recs.push(tool("tool.call.started", "c2", "grep", None));
    recs.push(tool("tool.call.completed", "c1", "read", Some(12)));
    let mut m = rec("model.request.completed", "sess_a", "t5");
    m.model_id = Some("glm".to_string());
    recs.push(m);
    for _ in 0..5 {
        recs.push(rec("other.event", "sess_a", "t"));
    }
    let a = live_activity(&recs);
    assert!(a.turn_active);
    assert_eq!(a.activity.len(), 5);
    assert!(matches!(&a.activity[0], Activity::TurnStart { ts, .. } if ts == "t0"));
    assert!(matches!(&a.activity[3], Activity::ToolEnd { tool, duration_ms: 12, .. } if tool == "read"));
    assert!(matches!(&a.activity[4], Activity::Model { model, duration_ms: 0, .. } if model == "glm"));
    let cur = a.current_tool.expect("a tool is running");
    assert_eq!(cur.tool, "grep");
    assert!(cur.completed_at.is_none());

    let mut more = recs;
    for i in 0..10 {
        more.push(rec(if i % 2 == 0 { "turn.started" } else { "turn.completed" }, "sess_a", "u"));
    }
    let b = live_activity(&more);
    assert_eq!(b.activity.len(), 8);
    assert!(!b.turn_active);
}

#[test]
fn split_text_cuts_at_newlines() {
    assert_eq!(split_text(&"a\nb\n".to_string()), vec!["a", "b", ""]);
    assert_eq!(split_text(&"".to_string()), vec![""]);
}

#[test]
fn tail_lines_drops_the_cut_line_and_keeps_the_last_ones() {
    let text = "tial\nl1\nl2\nl3\n".to_string();
    assert_eq!(tail_lines(&text, true, 2), vec!["l2", "l3"]);
    assert_eq!(tail_lines(&text, false, 10), vec!["tial", "l1", "l2", "l3"]);
    assert_eq!(tail_lines(&"x".to_string(), true, 5), Vec::<String>::new());
    assert_eq!(tail_lines(&"a\n\nb".to_string(), false, 5), vec!["a", "", "b"]);
}

#[test]
fn newest_log_name_takes_the_greatest_log_file() {
    let names = vec![
        "zcode-2024-01-02.jsonl".to_string(),
        "other.txt".to_string(),
        "zcode-2024-01-10.jsonl".to_string(),
        "zcode-2024-01-09.jsonl".to_string(),
        "zcode-2099.log".to_string(),
    ];
    assert_eq!(newest_log_name(&names), Some(2));
    assert_eq!(newest_log_name(&vec!["a.jsonl".to_string()]), None);
}
