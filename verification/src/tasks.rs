//! The task list: task rows merged with the live session signals from the log.
use vstd::prelude::*;
use crate::kv::{kv_get, kv_lookup, kv_view};
use crate::text::str_is;
use crate::logs::strings_view;

verus! {

/// A row of the task index, with the two fields read from its `meta_json`
/// (each present when the metadata parses and holds a string there).
pub struct TaskRow {
    pub task_id: String,
    pub title: Option<String>,
    pub status: String,
    pub provider: Option<String>,
    pub model: Option<String>,
    pub mode: Option<String>,
    pub created_at: i64,
    pub updated_at: i64,
    pub meta_thought_level: Option<String>,
    pub meta_workspace_path: Option<String>,
}

/// A task as the widget shows it.
pub struct TaskInfo {
    pub task_id: String,
    pub title: String,
    pub status: String,
    pub provider: String,
    pub model: String,
    pub mode: String,
    pub created_at: i64,
    pub updated_at: i64,
    pub workspace_path: String,
    pub thought_level: String,
}

/// The view of an optional string, or `dflt`.
pub open spec fn or_text(o: Option<String>, dflt: Seq<char>) -> Seq<char> {
    match o {
        Some(s) => s@,
        None => dflt,
    }
}

/// The first of two optional values that is present.
pub open spec fn first_of(a: Option<Seq<char>>, b: Option<String>) -> Seq<char> {
    match a {
        Some(v) => v,
        None => or_text(b, Seq::empty()),
    }
}

/// Title shown for a task without one.
pub open spec fn untitled() -> Seq<char> {
    "(未命名任务)"@
}

/// `t` is the row merged with the log signals: a session with an open turn shows as
/// running; the logged mode and reasoning effort override the stored ones.
pub open spec fn is_task_view(
    t: TaskInfo,
    row: TaskRow,
    active: Seq<Seq<char>>,
    modes: Seq<(Seq<char>, Seq<char>)>,
    levels: Seq<(Seq<char>, Seq<char>)>,
) -> bool {
    &&& t.task_id@ == row.task_id@
    &&& t.title@ == or_text(row.title, untitled())
    &&& t.status@ == if active.contains(row.task_id@) {
        "running"@
    } else {
        row.status@
    }
    &&& t.provider@ == or_text(row.provider, Seq::empty())
    &&& t.model@ == or_text(row.model, Seq::empty())
    &&& t.mode@ == first_of(kv_get(modes, row.task_id@), row.mode)
    &&& t.created_at == row.created_at
    &&& t.updated_at == row.updated_at
    &&& t.workspace_path@ == or_text(row.meta_workspace_path, Seq::empty())
    &&& t.thought_level@ == first_of(kv_get(levels, row.task_id@), row.meta_thought_level)
}

fn text_or(o: &Option<String>, dflt: &str) -> (r: String)
    ensures
        r@ == or_text(*o, dflt@),
{
    match o {
        Some(s) => s.clone(),
        None => crate::text::owned(dflt),
    }
}

fn contains_string(v: &Vec<String>, s: &String) -> (r: bool)
    ensures
        r == strings_view(v@).contains(s@),
{
    let mut i: usize = 0;
    while i < v.len()
        invariant
            i <= v.len(),
            forall|j: int| 0 <= j < i ==> v@[j]@ != s@,
        decreases v.len() - i,
    {
        if v[i] == *s {
            assert(strings_view(v@)[i as int] == s@);
            return true;
        }
        i = i + 1;
    }
    assert forall|k: int| 0 <= k < v@.len() implies #[trigger] strings_view(v@)[k] != s@ by {
        assert(v@[k]@ != s@);
    }
    false
}

/// A task row merged with the open turns, modes and reasoning efforts from the log.
pub fn build_task(
    row: &TaskRow,
    active: &Vec<String>,
    modes: &Vec<(String, String)>,
    levels: &Vec<(String, String)>,
) -> (t: TaskInfo)
    ensures
        is_task_view(t, *row, strings_view(active@), kv_view(modes@), kv_view(levels@)),
{
    proof {
        reveal_strlit("");
        assert(""@ =~= Seq::<char>::empty());
    }
    let status = if contains_string(active, &row.task_id) {
        crate::text::owned("running")
    } else {
        row.status.clone()
    };
    let mode = match kv_lookup(modes, &row.task_id) {
        Some(m) => m.clone(),
        None => text_or(&row.mode, ""),
    };
    let thought_level = match kv_lookup(levels, &row.task_id) {
        Some(l) => l.clone(),
        None => text_or(&row.meta_thought_level, ""),
    };
    let title = text_or(&row.title, "(未命名任务)");
    assert(title@ == or_text(row.title, untitled()));
    assert(status@ == if strings_view(active@).contains(row.task_id@) { "running"@ } else { row.status@ });
    assert(mode@ == first_of(kv_get(kv_view(modes@), row.task_id@), row.mode));
    assert(thought_level@ == first_of(kv_get(kv_view(levels@), row.task_id@), row.meta_thought_level));
    TaskInfo {
        task_id: row.task_id.clone(),
        title,
        status,
        provider: text_or(&row.provider, ""),
        model: text_or(&row.model, ""),
        mode,
        created_at: row.created_at,
        updated_at: row.updated_at,
        workspace_path: text_or(&row.meta_workspace_path, ""),
        thought_level,
    }
}

/// Position of the task shown as current: the first running task, else the first task.
pub fn current_task(tasks: &Vec<TaskInfo>) -> (r: Option<usize>)
    ensures
        match r {
            Some(i) => {
                &&& i < tasks@.len()
                &&& (tasks@[i as int].status@ == "running"@ && forall|j: int| 0 <= j < i ==> tasks@[j].status@ != "running"@)
                    || (i == 0 && forall|j: int| 0 <= j < tasks@.len() ==> tasks@[j].status@ != "running"@)
            },
            None => tasks@.len() == 0,
        },
{
    let mut i: usize = 0;
    while i < tasks.len()
        invariant
            i <= tasks.len(),
            forall|j: int| 0 <= j < i ==> tasks@[j].status@ != "running"@,
        decreases tasks.len() - i,
    {
        if str_is(&tasks[i].status, "running") {
            return Some(i);
        }
        i = i + 1;
    }
    if tasks.len() > 0 {
        Some(0)
    } else {
        None
    }
}


// ---------------------------------------------------------------- token totals

/// The token totals of one task (its completed model requests).
#[derive(Clone, Copy)]
pub struct TaskTokens {
    pub total: i64,
    pub input: i64,
    pub output: i64,
    pub requests: i64,
}

impl View for TaskTokens {
    type V = TaskTokens;

    open spec fn view(&self) -> TaskTokens {
        *self
    }
}

/// The totals of a task without any request.
pub open spec fn zero_tokens() -> TaskTokens {
    TaskTokens { total: 0, input: 0, output: 0, requests: 0 }
}

/// The totals recorded for `id`, or zero.
pub open spec fn tokens_of(m: Seq<(Seq<char>, TaskTokens)>, id: Seq<char>) -> TaskTokens {
    match kv_get(m, id) {
        Some(t) => t,
        None => zero_tokens(),
    }
}

/// The totals recorded for the task `id`, zero when none are.
pub fn tokens_for(m: &Vec<(String, TaskTokens)>, id: &String) -> (r: TaskTokens)
    ensures
        r == tokens_of(kv_view(m@), id@),
{
    match kv_lookup(m, id) {
        Some(t) => *t,
        None => TaskTokens { total: 0, input: 0, output: 0, requests: 0 },
    }
}

/// How many tasks the recent list shows.
pub const RECENT_TASKS: usize = 8;

/// The positions of the tasks in the recent list: the first eight.
pub fn recent_count(n: usize) -> (r: usize)
    ensures
        r == if n < RECENT_TASKS { n } else { RECENT_TASKS },
{
    if n < RECENT_TASKS {
        n
    } else {
        RECENT_TASKS
    }
}

/// `?` placeholders for `n` SQL parameters, separated by commas.
pub open spec fn placeholders_of(n: nat) -> Seq<char>
    decreases n,
{
    if n == 0 {
        Seq::empty()
    } else if n == 1 {
        seq!['?']
    } else {
        placeholders_of((n - 1) as nat) + seq![',', '?']
    }
}

/// Builds `?,?,…,?` with `n` marks.
pub fn placeholders(n: usize) -> (r: String)
    ensures
        r@ == placeholders_of(n as nat),
{
    let mut v: Vec<char> = Vec::new();
    let mut i: usize = 0;
    while i < n
        invariant
            i <= n,
            v@ == placeholders_of(i as nat),
        decreases n - i,
    {
        if i > 0 {
            v.push(',');
        }
        v.push('?');
        i = i + 1;
        assert(v@ =~= placeholders_of(i as nat));
    }
    crate::text::string_of(&v)
}

// ---------------------------------------------------------------- opening a task

/// A byte that URL encoding keeps: an ASCII letter or digit, `-`, `.`, `_` or `~`.
pub open spec fn url_safe(b: u8) -> bool {
    (48 <= b <= 57) || (65 <= b <= 90) || (97 <= b <= 122) || b == 45 || b == 46 || b == 95 || b == 126
}

/// An upper-case hexadecimal digit.
pub open spec fn hex_upper(d: int) -> char {
    if d < 10 {
        (48 + d) as char
    } else {
        (55 + d) as char
    }
}

/// Percent-encoding of bytes: safe bytes kept, every other byte as `%` and two
/// upper-case hexadecimal digits.
pub open spec fn url_encoded(bytes: Seq<u8>) -> Seq<char>
    decreases bytes.len(),
{
    if bytes.len() == 0 {
        Seq::empty()
    } else {
        let b = bytes[0];
        let head = if url_safe(b) {
            seq![b as char]
        } else {
            seq!['%', hex_upper(b as int / 16), hex_upper(b as int % 16)]
        };
        head + url_encoded(bytes.drop_first())
    }
}

/// `urlencoding::encode`. Trusted: each byte of the text's UTF-8 form that is an ASCII
/// letter or digit or one of `-`, `.`, `_`, `~` is kept, every other byte becomes `%`
/// followed by two upper-case hexadecimal digits.
#[verifier::external_body]
fn url_encode(s: &str) -> (r: String)
    ensures
        r@ == url_encoded(vstd::utf8::encode_utf8(s@)),
{
    urlencoding::encode(s).into_owned()
}

/// The link that opens a task's workspace in the editor.
pub open spec fn task_url_of(path: Seq<char>) -> Seq<char> {
    "zcode://open-project?directory="@ + url_encoded(vstd::utf8::encode_utf8(path))
}

/// Builds the link that opens the workspace `path` (see `task_url_of`).
pub fn open_task_url(path: &String) -> (r: String)
    ensures
        r@ == task_url_of(path@),
{
    let enc = url_encode(path.as_str());
    crate::text::concat(&crate::text::owned("zcode://open-project?directory="), &enc)
}

} // verus!
