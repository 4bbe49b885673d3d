use zcode_usage::dsh::{
    add_tokens, decompress_zstd, stat_session, summarize, title_cut_fits, tokens_from_usage, tokens_from_value,
    zero_tokens, ContentPart, DshChunk, DshRecord, SessionInput, Tokens, UsageRec, WorkspaceInput,
};
use zcode_usage::json::JsonVal;

fn blank(kind: &str) -> DshRecord {
    DshRecord {
        kind: Some(kind.to_string()),
        time: None,
        created_at: None,
        cwd: None,
        name: None,
        model: None,
        provider: None,
        title: None,
        content: None,
        chunk: None,
        usage: None,
        turn: None,
        step: None,
    }
}

fn usage(input: i64, read: i64, write: i64, output: i64, reasoning: i64) -> UsageRec {
    UsageRec {
        input_tokens: Some(input),
        output_tokens: Some(output),
        cache_read_tokens: Some(read),
        cache_write_tokens: Some(write),
        reasoning_tokens: Some(reasoning),
    }
}

fn tk(input: i64, cache: i64, output: i64, reasoning: i64) -> Tokens {
    Tokens { input, cache, output, reasoning }
}

fn same(a: &Tokens, b: &Tokens) -> bool {
    a.input == b.input && a.cache == b.cache && a.output == b.output && a.reasoning == b.reasoning
}

#[test]
fn billed_input_counts_cache_reads_and_writes() {
    let t = tokens_from_usage(&usage(100, 20, 5, 7, 3)).unwrap();
    assert!(same(&t, &tk(125, 25, 7, 3)));
    let none = UsageRec {
        input_tokens: None,
        output_tokens: None,
        cache_read_tokens: Some(4),
        cache_write_tokens: None,
        reasoning_tokens: None,
    };
    assert!(tokens_from_usage(&none).is_none());
    let only_out = UsageRec { output_tokens: Some(9), ..none };
    assert!(same(&tokens_from_usage(&only_out).unwrap(), &tk(4, 4, 9, 0)));
}

#[test]
fn token_sums_wrap_and_do_not_depend_on_order() {
    let mut a = tk(1, 2, 3, 4);
    add_tokens(&mut a, &tk(10, 20, 30, 40));
    assert!(same(&a, &tk(11, 22, 33, 44)));
    let mut x = tk(i64::MAX, 0, 0, 0);
    add_tokens(&mut x, &tk(1, 0, 0, 0));
    assert_eq!(x.input, i64::MIN);
    let mut p = tk(5, 6, 7, 8);
    add_tokens(&mut p, &tk(1, 1, 1, 1));
    let mut q = tk(1, 1, 1, 1);
    add_tokens(&mut q, &tk(5, 6, 7, 8));
    assert!(same(&p, &q));
    let mut z = zero_tokens();
    add_tokens(&mut z, &tk(3, 0, 0, 1));
    assert!(same(&z, &tk(3, 0, 0, 1)));
    assert!(same(&tokens_from_value(Some(1), None, Some(3), None), &tk(1, 0, 3, 0)));
}

#[test]
fn decompress_zstd_joins_independent_frames() {
    let mut buf = zstd::encode_all(&b"hello "[..], 3).unwrap();
    buf.extend(zstd::encode_all(&b"world"[..], 3).unwrap());
    assert_eq!(decompress_zstd(&buf), "hello world");
    assert_eq!(decompress_zstd(b"not zstd"), "");
    let mut junk = b"xx".to_vec();
    junk.extend(zstd::encode_all(&b"after junk"[..], 1).unwrap());
    assert_eq!(decompress_zstd(&junk), "after junk");
}

fn session_log() -> Vec<DshRecord> {
    let mut recs = Vec::new();
    let mut s = blank("session");
    s.created_at = Some(1000);
    s.cwd = Some("/home/u/proj".to_string());
    s.time = Some(1000);
    recs.push(s);
    let mut t = blank("session/title");
    t.title = Some("Fix bug".to_string());
    recs.push(t);
    let mut c = blank("request/context");
    c.provider = Some(JsonVal::Str("deepseek".to_string()));
    c.model = Some(JsonVal::Str("v4".to_string()));
    recs.push(c);
    let mut ts = blank("turn/start");
    ts.time = Some(1100);
    recs.push(ts);
    recs.push(blank("step/start"));
    for name in ["read", "read", "grep"] {
        let mut call = blank("tool/call");
        call.name = Some(name.to_string());
        recs.push(call);
    }
    let mut chunk = blank("assistant/chunk");
    chunk.chunk = Some(DshChunk { kind: Some("usage".to_string()), usage: Some(usage(100, 20, 5, 7, 3)) });
    chunk.turn = Some(1);
    chunk.step = Some(1);
    recs.push(chunk);
    let mut msg = blank("assistant/message");
    msg.usage = Some(usage(110, 20, 0, 9, 0));
    msg.turn = Some(1);
    msg.step = Some(1);
    recs.push(msg);
    let mut msg2 = blank("assistant/message");
    msg2.usage = Some(UsageRec {
        input_tokens: Some(10),
        output_tokens: Some(1),
        cache_read_tokens: None,
        cache_write_tokens: None,
        reasoning_tokens: None,
    });
    msg2.turn = Some(1);
    msg2.step = Some(2);
    recs.push(msg2);
    recs.push(blank("step/end"));
    let mut te = blank("turn/end");
    te.time = Some(1500);
    recs.push(te);
    recs
}

#[test]
fn stat_session_counts_each_step_once_with_its_last_report() {
    let recs = session_log();
    assert!(title_cut_fits(&recs));
    let st = stat_session(&recs, &"s1".to_string());
    assert_eq!(st.id, "s1");
    assert_eq!(st.title, "Fix bug");
    assert_eq!(st.cwd, "/home/u/proj");
    assert!(matches!(&st.model, JsonVal::Str(m) if m == "v4"));
    assert_eq!(st.turns, 2);
    assert_eq!(st.steps, 2);
    assert_eq!(st.tool_calls, 3);
    assert_eq!(st.created_at, 1000);
    assert_eq!(st.last_ts, 1500);
    assert!(same(&st.tokens, &tk(140, 20, 10, 0)));
    assert_eq!(st.model_tokens.len(), 1);
    assert_eq!(st.model_tokens[0].0, "deepseek/v4");
    assert_eq!(st.tools, vec![("read".to_string(), 2), ("grep".to_string(), 1)]);
    assert_eq!(st.tool_list, vec![("read".to_string(), 2), ("grep".to_string(), 1)]);
}

#[test]
fn a_session_without_title_is_named_by_its_first_message() {
    let mut m = blank("user/message");
    m.content = Some(vec![
        ContentPart { kind: Some("image".to_string()), text: None },
        ContentPart { kind: Some("text".to_string()), text: Some("a".repeat(45)) },
    ]);
    let recs = vec![m];
    let st = stat_session(&recs, &"s".to_string());
    assert_eq!(st.first_msg, "a".repeat(45));
    assert_eq!(st.title, format!("{}\u{2026}", "a".repeat(40)));

    let mut short = blank("user/message");
    short.content = Some(vec![ContentPart { kind: Some("text".to_string()), text: Some("hi".to_string()) }]);
    let st2 = stat_session(&vec![short], &"s".to_string());
    assert_eq!(st2.title, "hi");
}

#[test]
fn a_title_cut_inside_a_character_is_detected() {
    let mut m = blank("user/message");
    m.content = Some(vec![ContentPart { kind: Some("text".to_string()), text: Some(format!("{}é", "a".repeat(39))) }]);
    assert!(!title_cut_fits(&vec![m]));
}

fn session(last_ts: i64, cwd_base: Option<&str>, models: &[(&str, i64)]) -> SessionInput {
    let mut recs = Vec::new();
    for (i, (model, input)) in models.iter().enumerate() {
        let mut c = blank("request/context");
        c.model = Some(JsonVal::Str(model.to_string()));
        recs.push(c);
        let mut msg = blank("assistant/message");
        msg.usage = Some(UsageRec {
            input_tokens: Some(*input),
            output_tokens: Some(1),
            cache_read_tokens: None,
            cache_write_tokens: None,
            reasoning_tokens: None,
        });
        msg.step = Some(i as i64);
        recs.push(msg);
    }
    let mut end = blank("turn/end");
    end.time = Some(last_ts);
    recs.push(end);
    SessionInput { stat: stat_session(&recs, &format!("s{last_ts}")), cwd_base: cwd_base.map(|s| s.to_string()) }
}

#[test]
fn summarize_sums_workspaces_and_orders_them_by_recency() {
    let ws = vec![
        WorkspaceInput { dir_name: "-home-u-old-".to_string(), sessions: vec![session(100, None, &[("m1", 10)])] },
        WorkspaceInput { dir_name: "empty".to_string(), sessions: vec![] },
        WorkspaceInput {
            dir_name: "-home-u-new".to_string(),
            sessions: vec![session(300, Some("new"), &[("m2", 50)]), session(200, Some("x"), &[("m1", 5), ("m2", 1)])],
        },
    ];
    let s = summarize(&ws);
    assert_eq!(s.names, vec!["home-u-old", "empty", "new"]);
    let order: Vec<usize> = s.workspaces.iter().map(|w| w.source).collect();
    assert_eq!(order, vec![2, 0]);
    assert_eq!(s.workspaces[0].sessions, 2);
    assert_eq!(s.workspaces[0].latest_ts, 300);
    assert_eq!(s.total.sessions, 3);
    assert_eq!(s.total.turns, 3);
    assert!(same(&s.total.tokens, &tk(66, 0, 4, 0)));
    assert_eq!(s.recent, vec![(2, 0), (2, 1), (0, 0)]);
    let models: Vec<(&str, i64)> = s.models.iter().map(|(m, t)| (m.as_str(), t.input)).collect();
    assert_eq!(models, vec![("m2", 51), ("m1", 15)]);
    assert_eq!(s.latest_ts, 300);
}

fn add(a: &Tokens, b: &Tokens) -> Tokens {
    let mut x = *a;
    add_tokens(&mut x, b);
    x
}

#[test]
fn per_model_buckets_partition_the_session_tokens() {
    let mut recs = session_log();
    let mut c = blank("request/context");
    c.model = Some(JsonVal::Str("v5".to_string()));
    recs.push(c);
    let mut m = blank("assistant/message");
    m.usage = Some(usage(500, 0, 0, 2, 0));
    m.turn = Some(2);
    m.step = Some(1);
    recs.push(m);
    let st = stat_session(&recs, &"s".to_string());
    let names: Vec<&str> = st.model_tokens.iter().map(|(n, _)| n.as_str()).collect();
    assert_eq!(names, vec!["v5", "deepseek/v4"]);
    let total = st.model_tokens.iter().fold(zero_tokens(), |acc, (_, t)| add(&acc, t));
    assert!(same(&total, &st.tokens));
    assert!(same(&st.tokens, &tk(640, 20, 12, 0)));
}

#[test]
fn summary_totals_are_sums_over_its_workspaces_and_models() {
    let ws = vec![
        WorkspaceInput { dir_name: "a".to_string(), sessions: vec![session(100, None, &[("m1", 10)])] },
        WorkspaceInput {
            dir_name: "b".to_string(),
            sessions: vec![session(300, None, &[("m2", 50)]), session(200, None, &[("m1", 5), ("m2", 1)])],
        },
    ];
    let s = summarize(&ws);
    let sessions: i64 = s.workspaces.iter().map(|w| w.sessions).sum();
    assert_eq!(s.total.sessions, sessions);
    let turns: i64 = s.workspaces.iter().map(|w| w.turns).sum();
    assert_eq!(s.total.turns, turns);
    let wt = s.workspaces.iter().fold(zero_tokens(), |acc, w| add(&acc, &w.tokens));
    assert!(same(&s.total.tokens, &wt));
    let mt = s.models.iter().fold(zero_tokens(), |acc, (_, t)| add(&acc, t));
    assert!(same(&s.total.tokens, &mt));
    assert_eq!(s.latest_ts, s.workspaces.iter().map(|w| w.latest_ts).max().unwrap());
}
