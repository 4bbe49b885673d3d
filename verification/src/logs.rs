//! The CLI's JSONL log: session state signals (mode, reasoning effort, open turns),
//! the live activity feed, and reading the tail of the newest log file.
use vstd::prelude::*;
use crate::kv::{kv_find, kv_get, kv_index, kv_insert, kv_put, kv_unique, kv_view, law_kv_put_keeps_keys_unique, law_kv_read_after_put, lemma_kv_index};
use crate::text::{contains_seq, is_prefix, str_contains, str_is, str_starts_with};
use crate::time::{parse_iso_ms, replace_z, rfc3339_millis};

verus! {

/// One log line, as far as the widget reads it. Each field is present when the
/// line holds a string (or an integer, for `duration_ms`) there.
pub struct LogRecord {
    /// `event`
    pub event: Option<String>,
    /// `timestamp`
    pub timestamp: Option<String>,
    /// `sessionId`
    pub session_id: Option<String>,
    /// `toolCallId`
    pub tool_call_id: Option<String>,
    /// `durationMs`
    pub duration_ms: Option<i64>,
    /// `context.toolName`
    pub tool_name: Option<String>,
    /// `context.modelId`
    pub model_id: Option<String>,
    /// `context.mode`
    pub mode: Option<String>,
    /// `context.thoughtLevel`
    pub thought_level: Option<String>,
}

/// The view of an optional string: the empty text when absent.
pub open spec fn str_or_empty(o: Option<String>) -> Seq<char> {
    match o {
        Some(s) => s@,
        None => Seq::empty(),
    }
}

/// `o` holds a string reading `lit`.
pub open spec fn field_is(o: Option<String>, lit: Seq<char>) -> bool {
    match o {
        Some(s) => s@ == lit,
        None => false,
    }
}

fn field_str_is(o: &Option<String>, lit: &str) -> (r: bool)
    ensures
        r == field_is(*o, lit@),
{
    match o {
        Some(s) => str_is(s, lit),
        None => false,
    }
}

/// A top-level user session: `sess_…`, not a sub-agent.
pub open spec fn is_user_session(s: Seq<char>) -> bool {
    is_prefix("sess_"@, s) && !contains_seq(s, "subagent"@)
}

fn user_session(s: &String) -> (r: bool)
    ensures
        r == is_user_session(s@),
{
    str_starts_with(s, "sess_") && !str_contains(s, "subagent")
}

fn text_or_empty(o: &Option<String>) -> (r: String)
    ensures
        r@ == str_or_empty(*o),
{
    match o {
        Some(s) => s.clone(),
        None => String::new(),
    }
}

// ---------------------------------------------------------------- mode / reasoning effort

/// The record updates a user session's setting `ev` to a non-empty value `val`.
pub open spec fn setting_update(r: LogRecord, ev: Seq<char>, val: Option<String>) -> bool {
    &&& field_is(r.event, ev)
    &&& r.session_id is Some && is_user_session(r.session_id->0@)
    &&& str_or_empty(val).len() > 0
}

/// Latest value per session of a setting, as logged (`mode`: "session.mode.updated";
/// reasoning effort: "session.reasoning_effort.updated").
pub open spec fn settings_fold(recs: Seq<LogRecord>, thought: bool) -> Seq<(Seq<char>, Seq<char>)>
    decreases recs.len(),
{
    if recs.len() == 0 {
        Seq::empty()
    } else {
        let prev = settings_fold(recs.drop_last(), thought);
        let r = recs.last();
        let (ev, val) = if thought {
            ("session.reasoning_effort.updated"@, r.thought_level)
        } else {
            ("session.mode.updated"@, r.mode)
        };
        if setting_update(r, ev, val) {
            kv_put(prev, r.session_id->0@, str_or_empty(val))
        } else {
            prev
        }
    }
}

/// The value of the last update of `sess` among `recs`.
pub open spec fn last_setting(recs: Seq<LogRecord>, thought: bool, sess: Seq<char>) -> Option<Seq<char>>
    decreases recs.len(),
{
    if recs.len() == 0 {
        None
    } else {
        let r = recs.last();
        let (ev, val) = if thought {
            ("session.reasoning_effort.updated"@, r.thought_level)
        } else {
            ("session.mode.updated"@, r.mode)
        };
        if setting_update(r, ev, val) && r.session_id->0@ == sess {
            Some(str_or_empty(val))
        } else {
            last_setting(recs.drop_last(), thought, sess)
        }
    }
}

/// Law: the setting reported for a session is the value of its last update in the log.
pub proof fn law_last_update_wins(recs: Seq<LogRecord>, thought: bool, sess: Seq<char>)
    ensures
        kv_get(settings_fold(recs, thought), sess) == last_setting(recs, thought, sess),
    decreases recs.len(),
{
    if recs.len() > 0 {
        law_last_update_wins(recs.drop_last(), thought, sess);
        let r = recs.last();
        let prev = settings_fold(recs.drop_last(), thought);
        let (ev, val) = if thought {
            ("session.reasoning_effort.updated"@, r.thought_level)
        } else {
            ("session.mode.updated"@, r.mode)
        };
        if setting_update(r, ev, val) {
            law_kv_read_after_put(prev, r.session_id->0@, str_or_empty(val), sess);
        }
    }
}

fn settings_scan(recs: &Vec<LogRecord>, thought: bool) -> (r: Vec<(String, String)>)
    ensures
        kv_view(r@) == settings_fold(recs@, thought),
{
    let mut out: Vec<(String, String)> = Vec::new();
    let mut i: usize = 0;
    while i < recs.len()
        invariant
            i <= recs.len(),
            kv_view(out@) == settings_fold(recs@.take(i as int), thought),
        decreases recs.len() - i,
    {
        assert(recs@.take(i + 1).drop_last() =~= recs@.take(i as int));
        assert(recs@.take(i + 1).last() == recs@[i as int]);
        let r = &recs[i];
        let ev = if thought {
            "session.reasoning_effort.updated"
        } else {
            "session.mode.updated"
        };
        let val = if thought {
            &r.thought_level
        } else {
            &r.mode
        };
        if field_str_is(&r.event, ev) {
            match &r.session_id {
                Some(sess) => {
                    if user_session(sess) {
                        let v = text_or_empty(val);
                        if crate::text::non_empty(&v) {
                            kv_insert(&mut out, sess.clone(), v);
                        }
                    }
                },
                None => {},
            }
        }
        i = i + 1;
    }
    assert(recs@.take(recs.len() as int) =~= recs@);
    out
}

/// Latest mode per user session ("session.mode.updated" with a non-empty mode).
pub fn session_modes(recs: &Vec<LogRecord>) -> (r: Vec<(String, String)>)
    ensures
        kv_view(r@) == settings_fold(recs@, false),
{
    settings_scan(recs, false)
}

/// Latest reasoning effort per user session ("session.reasoning_effort.updated").
pub fn session_thought_levels(recs: &Vec<LogRecord>) -> (r: Vec<(String, String)>)
    ensures
        kv_view(r@) == settings_fold(recs@, true),
{
    settings_scan(recs, true)
}


// ---------------------------------------------------------------- open turns

/// A turn counts as running for this long after it started (30 minutes).
pub const ACTIVE_TURN_FRESH_MS: i64 = 1_800_000;

/// The record starts or completes a turn of a user session.
pub open spec fn is_turn_event(r: LogRecord) -> bool {
    &&& (field_is(r.event, "turn.started"@) || field_is(r.event, "turn.completed"@))
    &&& r.session_id is Some && is_user_session(r.session_id->0@)
}

/// Per session: whether its last turn event was a start, and that event's timestamp.
pub open spec fn turns_fold(recs: Seq<LogRecord>) -> Seq<(Seq<char>, (bool, Seq<char>))>
    decreases recs.len(),
{
    if recs.len() == 0 {
        Seq::empty()
    } else {
        let prev = turns_fold(recs.drop_last());
        let r = recs.last();
        if is_turn_event(r) {
            kv_put(prev, r.session_id->0@, (field_is(r.event, "turn.started"@), str_or_empty(r.timestamp)))
        } else {
            prev
        }
    }
}

/// An open turn still counts as running at `now_ms`: its start is at most 30 minutes
/// old, or its timestamp does not parse.
pub open spec fn turn_still_running(ts: Seq<char>, now_ms: i64) -> bool {
    match rfc3339_millis(replace_z(ts)) {
        Some(ms) => now_ms - ms <= ACTIVE_TURN_FRESH_MS,
        None => true,
    }
}

/// Sessions whose last turn is open and still running, in order of first turn event.
pub open spec fn active_sessions(t: Seq<(Seq<char>, (bool, Seq<char>))>, now_ms: i64) -> Seq<Seq<char>>
    decreases t.len(),
{
    if t.len() == 0 {
        Seq::empty()
    } else {
        let prev = active_sessions(t.drop_last(), now_ms);
        let e = t.last();
        if e.1.0 && turn_still_running(e.1.1, now_ms) {
            prev.push(e.0)
        } else {
            prev
        }
    }
}

/// User sessions with a turn in progress at `now_ms` (see `active_sessions`).
pub fn active_session_ids(recs: &Vec<LogRecord>, now_ms: i64) -> (r: Vec<String>)
    ensures
        r@.map_values(|s: String| s@) == active_sessions(turns_fold(recs@), now_ms),
{
    let mut turns: Vec<(String, (bool, String))> = Vec::new();
    let mut i: usize = 0;
    while i < recs.len()
        invariant
            i <= recs.len(),
            kv_view(turns@) == turns_fold(recs@.take(i as int)),
        decreases recs.len() - i,
    {
        assert(recs@.take(i + 1).drop_last() =~= recs@.take(i as int));
        assert(recs@.take(i + 1).last() == recs@[i as int]);
        let r = &recs[i];
        let started = field_str_is(&r.event, "turn.started");
        if started || field_str_is(&r.event, "turn.completed") {
            match &r.session_id {
                Some(sess) => {
                    if user_session(sess) {
                        kv_insert(&mut turns, sess.clone(), (started, text_or_empty(&r.timestamp)));
                    }
                },
                None => {},
            }
        }
        i = i + 1;
    }
    assert(recs@.take(recs.len() as int) =~= recs@);
    let ghost t = kv_view(turns@);
    let mut out: Vec<String> = Vec::new();
    let mut k: usize = 0;
    while k < turns.len()
        invariant
            k <= turns.len(),
            t == kv_view(turns@),
            out@.map_values(|s: String| s@) == active_sessions(t.take(k as int), now_ms),
        decreases turns.len() - k,
    {
        assert(t.take(k + 1).drop_last() =~= t.take(k as int));
        assert(t.take(k + 1).last() == t[k as int]);
        let open = turns[k].1.0;
        if open {
            let keep = match parse_iso_ms(&turns[k].1.1) {
                Some(ms) => (now_ms as i128) - (ms as i128) <= ACTIVE_TURN_FRESH_MS as i128,
                None => true,
            };
            if keep {
                let ghost prev = out@;
                out.push(turns[k].0.clone());
                assert(out@.map_values(|s: String| s@) =~= prev.map_values(|s: String| s@).push(t[k as int].0));
            }
        }
        k = k + 1;
    }
    assert(t.take(turns.len() as int) =~= t);
    out
}


/// Record `i` is the last turn event of the user session `s` in `recs`.
pub open spec fn is_last_turn_event(recs: Seq<LogRecord>, i: int, s: Seq<char>) -> bool {
    &&& 0 <= i < recs.len()
    &&& is_turn_event(recs[i])
    &&& recs[i].session_id->0@ == s
    &&& forall|j: int| i < j < recs.len() ==> !(is_turn_event(#[trigger] recs[j]) && recs[j].session_id->0@ == s)
}

proof fn lemma_turns_fold_last(recs: Seq<LogRecord>, s: Seq<char>)
    ensures
        kv_unique(turns_fold(recs)),
        match kv_get(turns_fold(recs), s) {
            Some(e) => exists|i: int|
                #[trigger] is_last_turn_event(recs, i, s) && e == (field_is(recs[i].event, "turn.started"@), str_or_empty(recs[i].timestamp)),
            None => forall|i: int| 0 <= i < recs.len() ==> !(is_turn_event(#[trigger] recs[i]) && recs[i].session_id->0@ == s),
        },
    decreases recs.len(),
{
    if recs.len() > 0 {
        let dl = recs.drop_last();
        let n = recs.len() - 1;
        let r = recs.last();
        assert(recs[n] == r);
        lemma_turns_fold_last(dl, s);
        let prev = turns_fold(dl);
        assert forall|j: int| 0 <= j < n implies #[trigger] recs[j] == dl[j] by {}
        if is_turn_event(r) {
            law_kv_put_keeps_keys_unique(prev, r.session_id->0@, (field_is(r.event, "turn.started"@), str_or_empty(r.timestamp)));
            law_kv_read_after_put(prev, r.session_id->0@, (field_is(r.event, "turn.started"@), str_or_empty(r.timestamp)), s);
            if r.session_id->0@ == s {
                assert(is_last_turn_event(recs, n, s));
            } else {
                match kv_get(prev, s) {
                    Some(e) => {
                        let i = choose|i: int|
                            #[trigger] is_last_turn_event(dl, i, s) && e == (field_is(dl[i].event, "turn.started"@), str_or_empty(dl[i].timestamp));
                        assert(recs[i] == dl[i]);
                        assert(is_last_turn_event(recs, i, s));
                    },
                    None => {},
                }
            }
        } else {
            match kv_get(prev, s) {
                Some(e) => {
                    let i = choose|i: int|
                        #[trigger] is_last_turn_event(dl, i, s) && e == (field_is(dl[i].event, "turn.started"@), str_or_empty(dl[i].timestamp));
                    assert(recs[i] == dl[i]);
                    assert(is_last_turn_event(recs, i, s));
                },
                None => {},
            }
        }
    }
}

proof fn lemma_active_sessions_contains(t: Seq<(Seq<char>, (bool, Seq<char>))>, now_ms: i64, s: Seq<char>)
    requires
        kv_unique(t),
    ensures
        active_sessions(t, now_ms).contains(s) <==> (kv_get(t, s) matches Some(e) && e.0 && turn_still_running(e.1, now_ms)),
    decreases t.len(),
{
    if t.len() > 0 {
        let dl = t.drop_last();
        assert forall|i: int, j: int| 0 <= i < j < dl.len() implies dl[i].0 != dl[j].0 by {
            assert(dl[i] == t[i] && dl[j] == t[j]);
        }
        lemma_active_sessions_contains(dl, now_ms, s);
        lemma_kv_index(dl, s);
        lemma_kv_index(t, s);
        let prev = active_sessions(dl, now_ms);
        let e = t.last();
        assert(t[t.len() - 1] == e);
        if e.0 == s {
            if kv_index(dl, s) >= 0 {
                assert(dl[kv_index(dl, s)] == t[kv_index(dl, s)]);
            }
            assert(kv_index(dl, s) < 0);
            assert(!prev.contains(s));
            if e.1.0 && turn_still_running(e.1.1, now_ms) {
                assert(prev.push(e.0)[prev.len() as int] == s);
            }
        } else {
            assert(kv_index(t, s) == kv_index(dl, s));
            if kv_index(dl, s) >= 0 {
                assert(dl[kv_index(dl, s)] == t[kv_index(dl, s)]);
            }
            if e.1.0 && turn_still_running(e.1.1, now_ms) {
                if prev.push(e.0).contains(s) {
                    let k = choose|k: int| 0 <= k < prev.push(e.0).len() && prev.push(e.0)[k] == s;
                    assert(k < prev.len());
                    assert(prev[k] == s);
                }
                if prev.contains(s) {
                    let k = choose|k: int| 0 <= k < prev.len() && prev[k] == s;
                    assert(prev.push(e.0)[k] == s);
                }
            }
        }
    }
}

/// A user session is reported running at `now_ms` exactly when its last turn event in
/// the log is a `turn.started` whose own timestamp is at most 30 minutes before
/// `now_ms`, or does not parse.
pub proof fn law_active_means_last_turn_open(recs: Seq<LogRecord>, now_ms: i64, out: Seq<Seq<char>>, s: Seq<char>)
    requires
        out == active_sessions(turns_fold(recs), now_ms),
    ensures
        out.contains(s) <==> exists|i: int|
            #[trigger] is_last_turn_event(recs, i, s) && field_is(recs[i].event, "turn.started"@) && match rfc3339_millis(
                replace_z(str_or_empty(recs[i].timestamp)),
            ) {
                Some(ms) => now_ms - ms <= 1_800_000,
                None => true,
            },
{
    lemma_turns_fold_last(recs, s);
    lemma_active_sessions_contains(turns_fold(recs), now_ms, s);
    if out.contains(s) {
        let e = kv_get(turns_fold(recs), s)->0;
        let i = choose|i: int|
            #[trigger] is_last_turn_event(recs, i, s) && e == (field_is(recs[i].event, "turn.started"@), str_or_empty(recs[i].timestamp));
        assert(is_last_turn_event(recs, i, s));
    }
    if exists|i: int|
        #[trigger] is_last_turn_event(recs, i, s) && field_is(recs[i].event, "turn.started"@) && match rfc3339_millis(
            replace_z(str_or_empty(recs[i].timestamp)),
        ) {
            Some(ms) => now_ms - ms <= 1_800_000,
            None => true,
        } {
        let i = choose|i: int|
            #[trigger] is_last_turn_event(recs, i, s) && field_is(recs[i].event, "turn.started"@) && match rfc3339_millis(
                replace_z(str_or_empty(recs[i].timestamp)),
            ) {
                Some(ms) => now_ms - ms <= 1_800_000,
                None => true,
            };
        match kv_get(turns_fold(recs), s) {
            Some(e) => {
                let i2 = choose|i2: int|
                    #[trigger] is_last_turn_event(recs, i2, s) && e == (field_is(recs[i2].event, "turn.started"@), str_or_empty(recs[i2].timestamp));
                if i < i2 {
                    assert(!(is_turn_event(recs[i2]) && recs[i2].session_id->0@ == s));
                } else if i2 < i {
                    assert(!(is_turn_event(recs[i]) && recs[i].session_id->0@ == s));
                }
            },
            None => {
                assert(!(is_turn_event(recs[i]) && recs[i].session_id->0@ == s));
            },
        }
    }
}

// ---------------------------------------------------------------- live activity

/// One entry of the activity feed.
pub enum Activity {
    ToolStart { tool: String, ts: String, session: String },
    ToolEnd { tool: String, ts: String, duration_ms: i64, session: String },
    Model { ts: String, session: String, model: String, duration_ms: i64 },
    TurnStart { ts: String, session: String },
    TurnEnd { ts: String, session: String },
}

/// The content of an activity entry.
pub enum ActivityView {
    ToolStart { tool: Seq<char>, ts: Seq<char>, session: Seq<char> },
    ToolEnd { tool: Seq<char>, ts: Seq<char>, duration_ms: i64, session: Seq<char> },
    Model { ts: Seq<char>, session: Seq<char>, model: Seq<char>, duration_ms: i64 },
    TurnStart { ts: Seq<char>, session: Seq<char> },
    TurnEnd { ts: Seq<char>, session: Seq<char> },
}

impl View for Activity {
    type V = ActivityView;

    open spec fn view(&self) -> ActivityView {
        match self {
            Activity::ToolStart { tool, ts, session } => ActivityView::ToolStart {
                tool: tool@,
                ts: ts@,
                session: session@,
            },
            Activity::ToolEnd { tool, ts, duration_ms, session } => ActivityView::ToolEnd {
                tool: tool@,
                ts: ts@,
                duration_ms: *duration_ms,
                session: session@,
            },
            Activity::Model { ts, session, model, duration_ms } => ActivityView::Model {
                ts: ts@,
                session: session@,
                model: model@,
                duration_ms: *duration_ms,
            },
            Activity::TurnStart { ts, session } => ActivityView::TurnStart { ts: ts@, session: session@ },
            Activity::TurnEnd { ts, session } => ActivityView::TurnEnd { ts: ts@, session: session@ },
        }
    }
}

impl Activity {
    /// A copy.
    pub fn dup(&self) -> (r: Activity)
        ensures
            r@ == self@,
    {
        match self {
            Activity::ToolStart { tool, ts, session } => Activity::ToolStart {
                tool: tool.clone(),
                ts: ts.clone(),
                session: session.clone(),
            },
            Activity::ToolEnd { tool, ts, duration_ms, session } => Activity::ToolEnd {
                tool: tool.clone(),
                ts: ts.clone(),
                duration_ms: *duration_ms,
                session: session.clone(),
            },
            Activity::Model { ts, session, model, duration_ms } => Activity::Model {
                ts: ts.clone(),
                session: session.clone(),
                model: model.clone(),
                duration_ms: *duration_ms,
            },
            Activity::TurnStart { ts, session } => Activity::TurnStart { ts: ts.clone(), session: session.clone() },
            Activity::TurnEnd { ts, session } => Activity::TurnEnd { ts: ts.clone(), session: session.clone() },
        }
    }
}

/// A tool call seen in the log.
pub struct ToolCall {
    pub tool: String,
    pub started_at: String,
    pub completed_at: Option<String>,
    pub duration_ms: Option<i64>,
    pub session: String,
}

/// The content of a tool call.
pub struct ToolCallView {
    pub tool: Seq<char>,
    pub started_at: Seq<char>,
    pub completed_at: Option<Seq<char>>,
    pub duration_ms: Option<i64>,
    pub session: Seq<char>,
}

impl View for ToolCall {
    type V = ToolCallView;

    open spec fn view(&self) -> ToolCallView {
        ToolCallView {
            tool: self.tool@,
            started_at: self.started_at@,
            completed_at: match self.completed_at {
                Some(c) => Some(c@),
                None => None,
            },
            duration_ms: self.duration_ms,
            session: self.session@,
        }
    }
}

/// The state of the feed while reading the log.
pub struct LiveModel {
    /// tool calls by call id, in order of first start
    pub calls: Seq<(Seq<char>, ToolCallView)>,
    pub events: Seq<ActivityView>,
    pub turn_active: bool,
}

/// Marks the call `id` completed at `ts` (when it was seen starting).
pub open spec fn complete_call(
    calls: Seq<(Seq<char>, ToolCallView)>,
    id: Seq<char>,
    ts: Seq<char>,
    dur: Option<i64>,
) -> Seq<(Seq<char>, ToolCallView)> {
    let i = kv_index(calls, id);
    if i < 0 {
        calls
    } else {
        calls.update(i, (id, ToolCallView { completed_at: Some(ts), duration_ms: dur, ..calls[i].1 }))
    }
}

/// `o` or zero.
pub open spec fn dur_or_zero(o: Option<i64>) -> i64 {
    match o {
        Some(v) => v,
        None => 0,
    }
}

/// The effect of one log line on the feed.
pub open spec fn live_step(m: LiveModel, r: LogRecord) -> LiveModel {
    let ts = str_or_empty(r.timestamp);
    let sess = str_or_empty(r.session_id);
    let tool = str_or_empty(r.tool_name);
    let id = str_or_empty(r.tool_call_id);
    if field_is(r.event, "tool.call.started"@) {
        LiveModel {
            calls: kv_put(
                m.calls,
                id,
                ToolCallView { tool, started_at: ts, completed_at: None, duration_ms: None, session: sess },
            ),
            events: m.events.push(ActivityView::ToolStart { tool, ts, session: sess }),
            ..m
        }
    } else if field_is(r.event, "tool.call.completed"@) {
        LiveModel {
            calls: complete_call(m.calls, id, ts, r.duration_ms),
            events: m.events.push(
                ActivityView::ToolEnd { tool, ts, duration_ms: dur_or_zero(r.duration_ms), session: sess },
            ),
            ..m
        }
    } else if field_is(r.event, "model.request.completed"@) {
        LiveModel {
            events: m.events.push(
                ActivityView::Model {
                    ts,
                    session: sess,
                    model: str_or_empty(r.model_id),
                    duration_ms: dur_or_zero(r.duration_ms),
                },
            ),
            ..m
        }
    } else if field_is(r.event, "turn.started"@) {
        LiveModel { events: m.events.push(ActivityView::TurnStart { ts, session: sess }), turn_active: true, ..m }
    } else if field_is(r.event, "turn.completed"@) {
        LiveModel { events: m.events.push(ActivityView::TurnEnd { ts, session: sess }), turn_active: false, ..m }
    } else {
        m
    }
}

/// The feed after reading a sequence of log lines.
pub open spec fn live_fold(recs: Seq<LogRecord>) -> LiveModel
    decreases recs.len(),
{
    if recs.len() == 0 {
        LiveModel { calls: Seq::empty(), events: Seq::empty(), turn_active: false }
    } else {
        live_step(live_fold(recs.drop_last()), recs.last())
    }
}

/// The first call (in order of first start) that has not completed.
pub open spec fn first_running(calls: Seq<(Seq<char>, ToolCallView)>) -> Option<ToolCallView>
    decreases calls.len(),
{
    if calls.len() == 0 {
        None
    } else {
        match first_running(calls.drop_last()) {
            Some(c) => Some(c),
            None => if calls.last().1.completed_at is None {
                Some(calls.last().1)
            } else {
                None
            },
        }
    }
}

/// The live activity panel: a tool call still running (if any), the last eight
/// events, and whether a turn is in progress.
pub struct LiveActivity {
    pub current_tool: Option<ToolCall>,
    pub activity: Vec<Activity>,
    pub turn_active: bool,
}

/// The last `n` elements (all of them when there are fewer).
pub open spec fn last_n<T>(s: Seq<T>, n: int) -> Seq<T> {
    if s.len() <= n {
        s
    } else {
        s.subrange(s.len() - n, s.len() as int)
    }
}

fn mark_completed(calls: &mut Vec<(String, ToolCall)>, id: &String, ts: &String, dur: Option<i64>)
    ensures
        kv_view(final(calls)@) == complete_call(kv_view(old(calls)@), id@, ts@, dur),
{
    proof {
        lemma_kv_index(kv_view(calls@), id@);
    }
    match kv_find(calls, id) {
        Some(i) => {
            let c = &calls[i].1;
            let done = ToolCall {
                tool: c.tool.clone(),
                started_at: c.started_at.clone(),
                completed_at: Some(ts.clone()),
                duration_ms: dur,
                session: c.session.clone(),
            };
            let ghost ov = kv_view(calls@);
            calls.set(i, (id.clone(), done));
            assert(kv_view(calls@) =~= complete_call(ov, id@, ts@, dur));
        },
        None => {},
    }
}

/// The live activity feed of a run of log lines (oldest first).
pub fn live_activity(recs: &Vec<LogRecord>) -> (r: LiveActivity)
    ensures
        ({
            let m = live_fold(recs@);
            &&& r.turn_active == m.turn_active
            &&& r.activity@.map_values(|a: Activity| a@) == last_n(m.events, 8)
            &&& match r.current_tool {
                Some(c) => first_running(m.calls) == Some(c@),
                None => first_running(m.calls) is None,
            }
        }),
{
    let mut calls: Vec<(String, ToolCall)> = Vec::new();
    let mut events: Vec<Activity> = Vec::new();
    let mut turn_active = false;
    let mut i: usize = 0;
    while i < recs.len()
        invariant
            i <= recs.len(),
            ({
                let m = live_fold(recs@.take(i as int));
                &&& kv_view(calls@) == m.calls
                &&& events@.map_values(|a: Activity| a@) == m.events
                &&& turn_active == m.turn_active
            }),
        decreases recs.len() - i,
    {
        assert(recs@.take(i + 1).drop_last() =~= recs@.take(i as int));
        assert(recs@.take(i + 1).last() == recs@[i as int]);
        let r = &recs[i];
        let ts = text_or_empty(&r.timestamp);
        let sess = text_or_empty(&r.session_id);
        let tool = text_or_empty(&r.tool_name);
        let ghost ev0 = events@;
        if field_str_is(&r.event, "tool.call.started") {
            let id = text_or_empty(&r.tool_call_id);
            let call = ToolCall {
                tool: tool.clone(),
                started_at: ts.clone(),
                completed_at: None,
                duration_ms: None,
                session: sess.clone(),
            };
            kv_insert(&mut calls, id, call);
            events.push(Activity::ToolStart { tool, ts, session: sess });
        } else if field_str_is(&r.event, "tool.call.completed") {
            let id = text_or_empty(&r.tool_call_id);
            mark_completed(&mut calls, &id, &ts, r.duration_ms);
            let d = match r.duration_ms {
                Some(v) => v,
                None => 0,
            };
            events.push(Activity::ToolEnd { tool, ts, duration_ms: d, session: sess });
        } else if field_str_is(&r.event, "model.request.completed") {
            let model = text_or_empty(&r.model_id);
            let d = match r.duration_ms {
                Some(v) => v,
                None => 0,
            };
            events.push(Activity::Model { ts, session: sess, model, duration_ms: d });
        } else if field_str_is(&r.event, "turn.started") {
            turn_active = true;
            events.push(Activity::TurnStart { ts, session: sess });
        } else if field_str_is(&r.event, "turn.completed") {
            turn_active = false;
            events.push(Activity::TurnEnd { ts, session: sess });
        }
        proof {
            if events@.len() > ev0.len() {
                assert(events@.map_values(|a: Activity| a@) =~= ev0.map_values(|a: Activity| a@).push(events@.last()@));
            }
        }
        i = i + 1;
    }
    assert(recs@.take(recs.len() as int) =~= recs@);
    let ghost m = live_fold(recs@);

    // a tool call still running
    let mut current: Option<ToolCall> = None;
    let mut k: usize = 0;
    while k < calls.len()
        invariant
            k <= calls.len(),
            kv_view(calls@) == m.calls,
            match current {
                Some(c) => first_running(m.calls.take(k as int)) == Some(c@),
                None => first_running(m.calls.take(k as int)) is None,
            },
        decreases calls.len() - k,
    {
        assert(m.calls.take(k + 1).drop_last() =~= m.calls.take(k as int));
        assert(m.calls.take(k + 1).last() == m.calls[k as int]);
        if current.is_none() && calls[k].1.completed_at.is_none() {
            let c = &calls[k].1;
            current = Some(
                ToolCall {
                    tool: c.tool.clone(),
                    started_at: c.started_at.clone(),
                    completed_at: None,
                    duration_ms: c.duration_ms,
                    session: c.session.clone(),
                },
            );
        }
        k = k + 1;
    }
    assert(m.calls.take(calls.len() as int) =~= m.calls);

    // the last eight events
    let n = events.len();
    let start: usize = if n > 8 {
        n - 8
    } else {
        0
    };
    let ghost evs = events@.map_values(|a: Activity| a@);
    let mut tail: Vec<Activity> = Vec::new();
    let mut j: usize = start;
    while j < n
        invariant
            start <= j <= n == events@.len(),
            evs == events@.map_values(|a: Activity| a@),
            tail@.map_values(|a: Activity| a@) == evs.subrange(start as int, j as int),
        decreases n - j,
    {
        let ghost t0 = tail@;
        tail.push(events[j].dup());
        j = j + 1;
        assert(tail@.map_values(|a: Activity| a@) =~= t0.map_values(|a: Activity| a@).push(evs[j - 1]));
        assert(tail@.map_values(|a: Activity| a@) =~= evs.subrange(start as int, j as int));
    }
    assert(tail@.map_values(|a: Activity| a@) =~= last_n(evs, 8));
    LiveActivity { current_tool: current, activity: tail, turn_active }
}


/// A `model.request.completed` record puts a model entry at the end of the feed with the
/// record's time, session and model and its `durationMs` (0 only when it has none).
pub proof fn law_model_request_entry(recs: Seq<LogRecord>, rec: LogRecord, out: LiveActivity)
    requires
        field_is(rec.event, "model.request.completed"@),
        out.activity@.map_values(|a: Activity| a@) == last_n(live_fold(recs.push(rec)).events, 8),
    ensures
        out.activity@.len() > 0,
        out.activity@.last()@ == (ActivityView::Model {
            ts: str_or_empty(rec.timestamp),
            session: str_or_empty(rec.session_id),
            model: str_or_empty(rec.model_id),
            duration_ms: match rec.duration_ms {
                Some(d) => d,
                None => 0,
            },
        }),
{
    let all = recs.push(rec);
    assert(all.drop_last() =~= recs);
    assert(all.last() == rec);
    reveal_strlit("tool.call.started");
    reveal_strlit("tool.call.completed");
    reveal_strlit("model.request.completed");
    let k = rec.event->0@;
    assert(k.len() == 23);
    assert(k[0] == 'm');
    let evs = live_fold(all).events;
    assert(evs == live_fold(recs).events.push(live_fold(all).events.last()));
    let v = out.activity@.map_values(|a: Activity| a@);
    assert(v.len() == out.activity@.len());
    assert(v[v.len() - 1] == out.activity@.last()@);
    if evs.len() > 8 {
        assert(v[v.len() - 1] == evs[evs.len() - 1]);
    }
}

// ---------------------------------------------------------------- log tail

/// `s` cut at every `\n` (n newlines give n + 1 pieces).
pub open spec fn split_lines(s: Seq<char>) -> Seq<Seq<char>>
    decreases s.len(),
{
    if s.len() == 0 {
        seq![Seq::<char>::empty()]
    } else {
        let p = split_lines(s.drop_last());
        if s.last() == '\n' {
            p.push(Seq::empty())
        } else {
            p.update(p.len() - 1, p.last().push(s.last()))
        }
    }
}

/// Splitting always gives at least one piece.
pub proof fn lemma_split_lines_nonempty(s: Seq<char>)
    ensures
        split_lines(s).len() >= 1,
    decreases s.len(),
{
    if s.len() > 0 {
        lemma_split_lines_nonempty(s.drop_last());
    }
}

/// The lines kept from a chunk read at the end of the log: when the chunk does not start
/// at the beginning of the file its first (cut) line is dropped, a trailing empty piece
/// is dropped, and at most the last `tail` lines remain.
pub open spec fn tail_of(text: Seq<char>, truncated: bool, tail: int) -> Seq<Seq<char>> {
    let a = split_lines(text);
    let b = if truncated {
        a.drop_first()
    } else {
        a
    };
    let c = if b.len() > 0 && b.last().len() == 0 {
        b.drop_last()
    } else {
        b
    };
    last_n(c, tail)
}

/// Strings by their views.
pub open spec fn strings_view(v: Seq<String>) -> Seq<Seq<char>> {
    v.map_values(|s: String| s@)
}

/// The pieces of `text` between newlines (see `split_lines`).
pub fn split_text(text: &String) -> (r: Vec<String>)
    ensures
        strings_view(r@) == split_lines(text@),
{
    let v = crate::text::chars_of(text.as_str());
    let mut lines: Vec<String> = Vec::new();
    let mut cur: Vec<char> = Vec::new();
    let mut i: usize = 0;
    while i < v.len()
        invariant
            i <= v.len(),
            strings_view(lines@).push(cur@) == split_lines(v@.take(i as int)),
        decreases v.len() - i,
    {
        assert(v@.take(i + 1).drop_last() =~= v@.take(i as int));
        assert(v@.take(i + 1).last() == v@[i as int]);
        let ghost l0 = strings_view(lines@);
        let ghost c0 = cur@;
        if v[i] == '\n' {
            let line = crate::text::string_of(&cur);
            lines.push(line);
            cur = Vec::new();
            assert(strings_view(lines@) =~= l0.push(c0));
            assert(strings_view(lines@).push(cur@) =~= l0.push(c0).push(Seq::empty()));
        } else {
            cur.push(v[i]);
            assert(strings_view(lines@).push(cur@) =~= l0.push(c0).update(l0.len() as int, c0.push(v@[i as int])));
        }
        i = i + 1;
    }
    assert(v@.take(v.len() as int) =~= v@);
    let last = crate::text::string_of(&cur);
    let ghost lv = strings_view(lines@);
    lines.push(last);
    assert(strings_view(lines@) =~= lv.push(cur@));
    lines
}

/// The last complete lines of a chunk read at the end of the log (see `tail_of`).
pub fn tail_lines(text: &String, truncated: bool, tail: usize) -> (r: Vec<String>)
    ensures
        strings_view(r@) == tail_of(text@, truncated, tail as int),
{
    let mut lines = split_text(text);
    proof {
        lemma_split_lines_nonempty(text@);
    }
    let ghost a = strings_view(lines@);
    if truncated {
        lines.remove(0);
        assert(strings_view(lines@) =~= a.drop_first());
    }
    let ghost b = strings_view(lines@);
    if lines.len() > 0 && !crate::text::non_empty(&lines[lines.len() - 1]) {
        lines.pop();
        assert(strings_view(lines@) =~= b.drop_last());
    }
    let ghost c = strings_view(lines@);
    let n = lines.len();
    let start: usize = if n > tail {
        n - tail
    } else {
        0
    };
    let mut out: Vec<String> = Vec::new();
    let mut j: usize = start;
    while j < n
        invariant
            start <= j <= n == lines@.len(),
            c == strings_view(lines@),
            strings_view(out@) == c.subrange(start as int, j as int),
        decreases n - j,
    {
        let ghost o0 = out@;
        assert(c[j as int] == lines@[j as int]@);
        out.push(lines[j].clone());
        j = j + 1;
        assert(strings_view(out@) =~= strings_view(o0).push(c[j - 1]));
        assert(strings_view(out@) =~= c.subrange(start as int, j as int));
    }
    assert(strings_view(out@) =~= last_n(c, tail as int));
    out
}

/// `a` sorts before `b` character by character (a proper prefix sorts first).
pub open spec fn lex_lt(a: Seq<char>, b: Seq<char>) -> bool
    decreases a.len(),
{
    if a.len() == 0 {
        b.len() > 0
    } else if b.len() == 0 {
        false
    } else if a[0] != b[0] {
        (a[0] as u32) < (b[0] as u32)
    } else {
        lex_lt(a.drop_first(), b.drop_first())
    }
}

fn chars_lt(a: &Vec<char>, b: &Vec<char>) -> (r: bool)
    ensures
        r == lex_lt(a@, b@),
{
    let mut i: usize = 0;
    assert(a@.skip(0) =~= a@);
    assert(b@.skip(0) =~= b@);
    while i < a.len() && i < b.len()
        invariant
            i <= a.len(),
            i <= b.len(),
            lex_lt(a@, b@) == lex_lt(a@.skip(i as int), b@.skip(i as int)),
        decreases a.len() - i,
    {
        assert(a@.skip(i as int)[0] == a@[i as int]);
        assert(b@.skip(i as int)[0] == b@[i as int]);
        if a[i] != b[i] {
            return (a[i] as u32) < (b[i] as u32);
        }
        assert(a@.skip(i as int).drop_first() =~= a@.skip(i + 1));
        assert(b@.skip(i as int).drop_first() =~= b@.skip(i + 1));
        i = i + 1;
    }
    i >= a.len() && i < b.len()
}

/// A CLI log file name: `zcode-….jsonl`.
pub open spec fn is_log_name(n: Seq<char>) -> bool {
    is_prefix("zcode-"@, n) && crate::text::is_suffix(".jsonl"@, n)
}

/// Position of the newest log file among directory entries: the greatest log file name.
pub fn newest_log_name(names: &Vec<String>) -> (r: Option<usize>)
    ensures
        match r {
            Some(i) => i < names@.len() && is_log_name(names@[i as int]@) && forall|j: int|
                0 <= j < names@.len() && is_log_name(#[trigger] names@[j]@) ==> !lex_lt(names@[i as int]@, names@[j]@),
            None => forall|j: int| 0 <= j < names@.len() ==> !is_log_name(#[trigger] names@[j]@),
        },
{
    let mut best: Option<usize> = None;
    let mut i: usize = 0;
    while i < names.len()
        invariant
            i <= names.len(),
            match best {
                Some(b) => b < i && is_log_name(names@[b as int]@) && forall|j: int|
                    0 <= j < i && is_log_name(#[trigger] names@[j]@) ==> !lex_lt(names@[b as int]@, names@[j]@),
                None => forall|j: int| 0 <= j < i ==> !is_log_name(#[trigger] names@[j]@),
            },
        decreases names.len() - i,
    {
        let n = &names[i];
        if str_starts_with(n, "zcode-") && crate::text::str_ends_with(n, ".jsonl") {
            match best {
                Some(b) => {
                    let cb = crate::text::chars_of(names[b].as_str());
                    let cn = crate::text::chars_of(n.as_str());
                    if chars_lt(&cb, &cn) {
                        proof {
                            lemma_lex_lt_trans_total(names@[b as int]@, names@[i as int]@);
                            assert forall|j: int| 0 <= j <= i && is_log_name(#[trigger] names@[j]@)
                                implies !lex_lt(names@[i as int]@, names@[j]@) by {
                                if j < i {
                                    lemma_lex_lt_trans(names@[i as int]@, names@[j]@, names@[b as int]@);
                                    lemma_lex_lt_asym(names@[b as int]@, names@[i as int]@);
                                    lemma_lex_not_lt_total(names@[b as int]@, names@[j]@);
                                } else {
                                    lemma_lex_lt_irrefl(names@[i as int]@);
                                }
                            }
                        }
                        best = Some(i);
                    }
                },
                None => {
                    proof {
                        lemma_lex_lt_irrefl(names@[i as int]@);
                    }
                    best = Some(i);
                },
            }
        }
        i = i + 1;
    }
    best
}

proof fn lemma_lex_lt_irrefl(a: Seq<char>)
    ensures
        !lex_lt(a, a),
    decreases a.len(),
{
    if a.len() > 0 {
        lemma_lex_lt_irrefl(a.drop_first());
    }
}

proof fn lemma_lex_lt_asym(a: Seq<char>, b: Seq<char>)
    ensures
        lex_lt(a, b) ==> !lex_lt(b, a),
    decreases a.len(),
{
    if a.len() > 0 && b.len() > 0 && a[0] == b[0] {
        lemma_lex_lt_asym(a.drop_first(), b.drop_first());
    }
}

proof fn lemma_lex_lt_trans(a: Seq<char>, b: Seq<char>, c: Seq<char>)
    ensures
        lex_lt(a, b) && lex_lt(b, c) ==> lex_lt(a, c),
    decreases a.len(),
{
    if a.len() > 0 && b.len() > 0 && c.len() > 0 {
        lemma_lex_lt_trans(a.drop_first(), b.drop_first(), c.drop_first());
    }
}

proof fn lemma_lex_lt_trans_total(a: Seq<char>, b: Seq<char>)
    ensures
        lex_lt(a, b) ==> !lex_lt(b, a),
{
    lemma_lex_lt_asym(a, b);
}

/// Not-less-than is transitive through a strictly smaller element.
proof fn lemma_lex_not_lt_total(a: Seq<char>, b: Seq<char>)
    ensures
        !lex_lt(a, b) ==> (lex_lt(b, a) || a == b),
    decreases a.len(),
{
    if a.len() > 0 && b.len() > 0 && a[0] == b[0] {
        lemma_lex_not_lt_total(a.drop_first(), b.drop_first());
        if a.drop_first() == b.drop_first() {
            assert forall|i: int| 0 <= i < a.len() implies a[i] == b[i] by {
                if i > 0 {
                    assert(a[i] == a.drop_first()[i - 1]);
                    assert(b[i] == b.drop_first()[i - 1]);
                }
            }
            assert(a =~= b);
        }
    } else if a.len() == 0 && b.len() == 0 {
        assert(a =~= b);
    } else if a.len() > 0 && b.len() > 0 {
        vstd::utf8::char_u32_cast(a[0], a[0] as u32);
        vstd::utf8::char_u32_cast(b[0], b[0] as u32);
        assert((a[0] as u32) != (b[0] as u32));
    }
}

} // verus!
