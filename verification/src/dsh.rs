//! DeepSeek Harness session logs: frame-wise zstd decoding, per-session statistics
//! and the aggregation over workspaces.
use vstd::prelude::*;
use crate::json::{wadd, wrapping_add, JsonLeaf, JsonVal};
use crate::text::{chars_of, concat, owned, str_is, string_of, trim_char, trim_matches_char};
use vstd::string::StringSliceAdditionalSpecFns;
use crate::sort::{idx_view, is_stable_desc_order, stable_desc_order};
use crate::sums::{lemma_max0_reorder, lemma_tokens_concat, lemma_wadd_swap, lemma_wsum_concat, lemma_tokens_reorder, lemma_tokens_swap, lemma_tokens_update, lemma_wsum_reorder, reorders};

verus! {

// ---------------------------------------------------------------- tokens

/// Token counts of one step (or a sum of steps). `input` is the billed input:
/// uncached input plus cache reads plus cache writes.
#[derive(Clone, Copy)]
pub struct Tokens {
    pub input: i64,
    pub cache: i64,
    pub output: i64,
    pub reasoning: i64,
}

/// All four counts zero.
pub open spec fn tokens_zero() -> Tokens {
    Tokens { input: 0, cache: 0, output: 0, reasoning: 0 }
}

/// Field-wise (wrapping) sum.
pub open spec fn tokens_add(a: Tokens, b: Tokens) -> Tokens {
    Tokens {
        input: wadd(a.input, b.input),
        cache: wadd(a.cache, b.cache),
        output: wadd(a.output, b.output),
        reasoning: wadd(a.reasoning, b.reasoning),
    }
}

/// Zero tokens.
pub fn zero_tokens() -> (r: Tokens)
    ensures
        r == tokens_zero(),
{
    Tokens { input: 0, cache: 0, output: 0, reasoning: 0 }
}

/// Adds `b` into `a`, field by field.
pub fn add_tokens(a: &mut Tokens, b: &Tokens)
    ensures
        *final(a) == tokens_add(*old(a), *b),
{
    a.input = wrapping_add(a.input, b.input);
    a.cache = wrapping_add(a.cache, b.cache);
    a.output = wrapping_add(a.output, b.output);
    a.reasoning = wrapping_add(a.reasoning, b.reasoning);
}

/// The usage counters a log record may carry; each is present when the field holds an integer.
pub struct UsageRec {
    pub input_tokens: Option<i64>,
    pub output_tokens: Option<i64>,
    pub cache_read_tokens: Option<i64>,
    pub cache_write_tokens: Option<i64>,
    pub reasoning_tokens: Option<i64>,
}

/// `o` or zero.
pub open spec fn or_zero(o: Option<i64>) -> i64 {
    match o {
        Some(v) => v,
        None => 0,
    }
}

/// The tokens of one usage record: absent when it has neither input nor output count;
/// billed input = input + cache reads + cache writes; cache = reads + writes.
pub open spec fn usage_tokens(u: UsageRec) -> Option<Tokens> {
    if u.input_tokens is None && u.output_tokens is None {
        None
    } else {
        let cache = wadd(or_zero(u.cache_read_tokens), or_zero(u.cache_write_tokens));
        Some(
            Tokens {
                input: wadd(or_zero(u.input_tokens), cache),
                cache,
                output: or_zero(u.output_tokens),
                reasoning: or_zero(u.reasoning_tokens),
            },
        )
    }
}

fn opt_or_zero(o: Option<i64>) -> (r: i64)
    ensures
        r == or_zero(o),
{
    match o {
        Some(v) => v,
        None => 0,
    }
}

/// Tokens of one usage record (see `usage_tokens`).
pub fn tokens_from_usage(u: &UsageRec) -> (r: Option<Tokens>)
    ensures
        r == usage_tokens(*u),
{
    if u.input_tokens.is_none() && u.output_tokens.is_none() {
        return None;
    }
    let cache = wrapping_add(opt_or_zero(u.cache_read_tokens), opt_or_zero(u.cache_write_tokens));
    Some(
        Tokens {
            input: wrapping_add(opt_or_zero(u.input_tokens), cache),
            cache,
            output: opt_or_zero(u.output_tokens),
            reasoning: opt_or_zero(u.reasoning_tokens),
        },
    )
}

/// Token counts read back from a stored summary: absent fields count as zero.
pub fn tokens_from_value(input: Option<i64>, cache: Option<i64>, output: Option<i64>, reasoning: Option<i64>) -> (r: Tokens)
    ensures
        r == (Tokens { input: or_zero(input), cache: or_zero(cache), output: or_zero(output), reasoning: or_zero(reasoning) }),
{
    Tokens {
        input: opt_or_zero(input),
        cache: opt_or_zero(cache),
        output: opt_or_zero(output),
        reasoning: opt_or_zero(reasoning),
    }
}

// ---------------------------------------------------------------- zstd frames

/// What `zstd::stream::decode_all` gives for one complete buffer: `None` when it fails.
pub uninterp spec fn zstd_decoded(frame: Seq<u8>) -> Option<Seq<u8>>;

/// What `String::from_utf8_lossy` makes of some bytes.
pub uninterp spec fn utf8_lossy(bytes: Seq<u8>) -> Seq<char>;

/// Decodes one zstd frame with `zstd::stream::decode_all` over the bytes.
/// Trusted: the result is the crate's decoding of exactly these bytes, `None` on any error.
#[verifier::external_body]
fn zstd_decode(frame: &[u8]) -> (r: Option<Vec<u8>>)
    ensures
        match r {
            Some(v) => zstd_decoded(frame@) == Some(v@),
            None => zstd_decoded(frame@) is None,
        },
{
    zstd::stream::decode_all(std::io::Cursor::new(frame)).ok()
}

/// `String::from_utf8_lossy(..).into_owned()`. Trusted: valid UTF-8 is decoded as is
/// (std documents this); what replaces invalid sequences is left to the named result.
#[verifier::external_body]
fn lossy_text(bytes: &[u8]) -> (r: String)
    ensures
        r@ == utf8_lossy(bytes@),
        vstd::utf8::valid_utf8(bytes@) ==> r@ == vstd::utf8::decode_utf8(bytes@),
{
    String::from_utf8_lossy(bytes).into_owned()
}

/// The zstd frame magic `28 b5 2f fd` starts at `i`.
pub open spec fn magic_at(buf: Seq<u8>, i: int) -> bool {
    0 <= i && i + 4 <= buf.len() && buf[i] == 0x28u8 && buf[i + 1] == 0xb5u8 && buf[i + 2] == 0x2fu8
        && buf[i + 3] == 0xfdu8
}

/// The first frame magic at or after `from`.
pub open spec fn find_magic(buf: Seq<u8>, from: int) -> Option<int>
    decreases buf.len() - from,
{
    if from < 0 || from + 4 > buf.len() {
        None
    } else if magic_at(buf, from) {
        Some(from)
    } else {
        find_magic(buf, from + 1)
    }
}

/// A magic found at or after `from` lies at or after `from`.
pub proof fn lemma_find_magic_bounds(buf: Seq<u8>, from: int)
    ensures
        find_magic(buf, from) matches Some(i) ==> from <= i && magic_at(buf, i),
    decreases buf.len() - from,
{
    if from >= 0 && from + 4 <= buf.len() && !magic_at(buf, from) {
        lemma_find_magic_bounds(buf, from + 1);
    }
}

/// The text of the frames from `pos` on: each frame runs from one magic to the next
/// (or to the end); frames are decoded and appended until one fails to decode.
pub open spec fn frames_text(buf: Seq<u8>, pos: int) -> Seq<char>
    decreases buf.len() - pos,
{
    if pos < 0 || pos >= buf.len() {
        Seq::empty()
    } else {
        match find_magic(buf, pos) {
            None => Seq::empty(),
            Some(idx) => {
                let end = match find_magic(buf, idx + 4) {
                    Some(n) => n,
                    None => buf.len() as int,
                };
                proof {
                    lemma_find_magic_bounds(buf, pos);
                    lemma_find_magic_bounds(buf, idx + 4);
                }
                match zstd_decoded(buf.subrange(idx, end)) {
                    Some(d) => utf8_lossy(d) + frames_text(buf, end),
                    None => Seq::empty(),
                }
            },
        }
    }
}

fn exec_find_magic(buf: &[u8], from: usize) -> (r: Option<usize>)
    ensures
        match r {
            Some(i) => find_magic(buf@, from as int) == Some(i as int),
            None => find_magic(buf@, from as int) is None,
        },
    decreases buf.len() - from,
{
    if from > buf.len() || buf.len() - from < 4 {
        return None;
    }
    if buf[from] == 0x28u8 && buf[from + 1] == 0xb5u8 && buf[from + 2] == 0x2fu8 && buf[from + 3]
        == 0xfdu8 {
        Some(from)
    } else {
        exec_find_magic(buf, from + 1)
    }
}

/// Decodes a stream of independent zstd frames into text (see `frames_text`).
pub fn decompress_zstd(buf: &[u8]) -> (r: String)
    ensures
        r@ == frames_text(buf@, 0),
{
    let mut out_chars: Vec<char> = Vec::new();
    let mut pos: usize = 0;
    while pos < buf.len()
        invariant
            pos <= buf.len(),
            out_chars@ + frames_text(buf@, pos as int) == frames_text(buf@, 0),
        ensures
            out_chars@ == frames_text(buf@, 0),
        decreases buf.len() - pos,
    {
        let idx = match exec_find_magic(buf, pos) {
            Some(i) => i,
            None => {
                assert(frames_text(buf@, pos as int) =~= Seq::<char>::empty());
                assert(out_chars@ =~= out_chars@ + frames_text(buf@, pos as int));
                break;
            },
        };
        proof {
            lemma_find_magic_bounds(buf@, pos as int);
        }
        let end = match exec_find_magic(buf, idx + 4) {
            Some(n) => n,
            None => buf.len(),
        };
        proof {
            lemma_find_magic_bounds(buf@, idx + 4);
        }
        let frame = &buf[idx..end];
        match zstd_decode(frame) {
            Some(decoded) => {
                let text = lossy_text(decoded.as_slice());
                let piece = chars_of(text.as_str());
                let ghost before = out_chars@;
                let mut k: usize = 0;
                while k < piece.len()
                    invariant
                        k <= piece.len(),
                        out_chars@ == before + piece@.take(k as int),
                    decreases piece.len() - k,
                {
                    out_chars.push(piece[k]);
                    k = k + 1;
                    assert(out_chars@ =~= before + piece@.take(k as int));
                }
                assert(piece@.take(piece.len() as int) =~= piece@);
                assert(out_chars@ + frames_text(buf@, end as int) =~= before + frames_text(buf@, pos as int));
            },
            None => {
                assert(frames_text(buf@, pos as int) =~= Seq::<char>::empty());
                assert(out_chars@ =~= out_chars@ + frames_text(buf@, pos as int));
                break;
            },
        }
        pos = end;
        proof {
            if pos >= buf.len() {
                assert(out_chars@ =~= out_chars@ + frames_text(buf@, pos as int));
            }
        }
    }
    string_of(&out_chars)
}


// ---------------------------------------------------------------- session records

/// One element of a user message's `content` array.
pub struct ContentPart {
    /// `type`, when a string.
    pub kind: Option<String>,
    /// `text`, when a string.
    pub text: Option<String>,
}

/// The `chunk` object of an `assistant/chunk` record.
pub struct DshChunk {
    /// `type`, when a string.
    pub kind: Option<String>,
    /// `usage`, when present.
    pub usage: Option<UsageRec>,
}

/// One line of a session log, as far as the statistics read it.
pub struct DshRecord {
    /// `type`, when a string.
    pub kind: Option<String>,
    /// `time`, when an integer.
    pub time: Option<i64>,
    /// `createdAt`, when an integer.
    pub created_at: Option<i64>,
    /// `cwd`, when a string.
    pub cwd: Option<String>,
    /// `data.name`, when a string.
    pub name: Option<String>,
    /// `data.model`, when present (any JSON value).
    pub model: Option<JsonVal>,
    /// `data.provider`, when present (any JSON value).
    pub provider: Option<JsonVal>,
    /// `data.title`, when a string.
    pub title: Option<String>,
    /// `data.content`, when an array.
    pub content: Option<Vec<ContentPart>>,
    /// `data.chunk`, when present.
    pub chunk: Option<DshChunk>,
    /// `data.usage`, when present.
    pub usage: Option<UsageRec>,
    /// `data.turn`, when an integer.
    pub turn: Option<i64>,
    /// `data.step`, when an integer.
    pub step: Option<i64>,
}

/// `o` holds a string reading `lit`.
pub open spec fn opt_is(o: Option<String>, lit: Seq<char>) -> bool {
    match o {
        Some(s) => s@ == lit,
        None => false,
    }
}

/// Checks whether `o` holds a string reading `lit`.
pub fn opt_str_is(o: &Option<String>, lit: &str) -> (r: bool)
    ensures
        r == opt_is(*o, lit@),
{
    match o {
        Some(s) => str_is(s, lit),
        None => false,
    }
}

/// The usage recorded for one (turn, step), with the model in use when it was recorded.
pub struct StepEntry {
    pub turn: i64,
    pub step: i64,
    pub tokens: Tokens,
    pub model: Seq<char>,
}

/// The state of a session scan.
pub struct ScanModel {
    pub created_at: i64,
    pub cwd: Seq<char>,
    pub model: JsonLeaf,
    pub title: Seq<char>,
    pub first_msg: Seq<char>,
    pub turns: int,
    pub steps: int,
    pub tool_calls: int,
    pub last_ts: i64,
    /// tool name and number of calls, in order of first use
    pub tools: Seq<(Seq<char>, int)>,
    pub current_model: Seq<char>,
    /// one entry per (turn, step), in order of first report; a later report replaces the earlier
    pub usage: Seq<StepEntry>,
}

/// The state before any record.
pub open spec fn scan_init() -> ScanModel {
    ScanModel {
        created_at: 0,
        cwd: Seq::empty(),
        model: JsonLeaf::Str(Seq::empty()),
        title: Seq::empty(),
        first_msg: Seq::empty(),
        turns: 0,
        steps: 0,
        tool_calls: 0,
        last_ts: 0,
        tools: Seq::empty(),
        current_model: Seq::empty(),
        usage: Seq::empty(),
    }
}

/// Position of the tool `n` in `tools`, or -1.
pub open spec fn tool_index(tools: Seq<(Seq<char>, int)>, n: Seq<char>) -> int
    decreases tools.len(),
{
    if tools.len() == 0 {
        -1
    } else if tools.last().0 == n && tool_index(tools.drop_last(), n) < 0 {
        tools.len() - 1
    } else {
        tool_index(tools.drop_last(), n)
    }
}

/// One more call of tool `n`.
pub open spec fn tools_bump(tools: Seq<(Seq<char>, int)>, n: Seq<char>) -> Seq<(Seq<char>, int)> {
    let i = tool_index(tools, n);
    if i < 0 {
        tools.push((n, 1int))
    } else {
        tools.update(i, (n, tools[i].1 + 1))
    }
}

/// Position of the entry for (turn, step), or -1.
pub open spec fn step_index(usage: Seq<StepEntry>, turn: i64, step: i64) -> int
    decreases usage.len(),
{
    if usage.len() == 0 {
        -1
    } else if usage.last().turn == turn && usage.last().step == step && step_index(
        usage.drop_last(),
        turn,
        step,
    ) < 0 {
        usage.len() - 1
    } else {
        step_index(usage.drop_last(), turn, step)
    }
}

/// Records the usage of (turn, step), replacing an earlier report of the same step.
pub open spec fn usage_put(usage: Seq<StepEntry>, e: StepEntry) -> Seq<StepEntry> {
    let i = step_index(usage, e.turn, e.step);
    if i < 0 {
        usage.push(e)
    } else {
        usage.update(i, e)
    }
}

/// The text of the first `text` part that carries a string.
pub open spec fn first_text(parts: Seq<ContentPart>) -> Option<Seq<char>>
    decreases parts.len(),
{
    if parts.len() == 0 {
        None
    } else if opt_is(parts[0].kind, "text"@) && parts[0].text is Some {
        Some(parts[0].text->0@)
    } else {
        first_text(parts.drop_first())
    }
}

/// The string in a JSON value, or the empty string.
pub open spec fn leaf_str_or_empty(v: Option<JsonVal>) -> Seq<char> {
    match v {
        Some(JsonVal::Str(s)) => s@,
        _ => Seq::empty(),
    }
}

/// The model label a `request/context` record sets: `provider/model`, or `model` alone
/// when there is no provider.
pub open spec fn context_model(r: DshRecord) -> Seq<char> {
    let provider = leaf_str_or_empty(r.provider);
    let model = leaf_str_or_empty(r.model);
    if provider.len() == 0 {
        model
    } else {
        provider + "/"@ + model
    }
}

/// The value a `request/context` record offers for the session's model:
/// `data.model` if present, else `data.provider`, else "".
pub open spec fn context_model_value(r: DshRecord) -> JsonLeaf {
    match r.model {
        Some(v) => v@,
        None => match r.provider {
            Some(v) => v@,
            None => JsonLeaf::Str(Seq::empty()),
        },
    }
}

/// The session already has a non-empty model string.
pub open spec fn has_model(m: JsonLeaf) -> bool {
    match m {
        JsonLeaf::Str(s) => s.len() > 0,
        _ => false,
    }
}

/// The usage a record reports, keyed by its (turn, step).
pub open spec fn record_usage(r: DshRecord) -> Option<Tokens> {
    if opt_is(r.kind, "assistant/chunk"@) {
        match r.chunk {
            Some(c) => if opt_is(c.kind, "usage"@) {
                match c.usage {
                    Some(u) => usage_tokens(u),
                    None => None,
                }
            } else {
                None
            },
            None => None,
        }
    } else if opt_is(r.kind, "assistant/message"@) {
        match r.usage {
            Some(u) => usage_tokens(u),
            None => None,
        }
    } else {
        None
    }
}

/// The effect of one record on the scan.
pub open spec fn scan_step(m: ScanModel, r: DshRecord) -> ScanModel {
    let m1 = if opt_is(r.kind, "session"@) {
        ScanModel {
            created_at: or_zero(r.created_at),
            cwd: match r.cwd {
                Some(c) => if c@.len() > 0 {
                    c@
                } else {
                    m.cwd
                },
                None => m.cwd,
            },
            ..m
        }
    } else if opt_is(r.kind, "turn/start"@) || opt_is(r.kind, "turn/end"@) {
        ScanModel { turns: m.turns + 1, ..m }
    } else if opt_is(r.kind, "step/start"@) || opt_is(r.kind, "step/end"@) {
        ScanModel { steps: m.steps + 1, ..m }
    } else if opt_is(r.kind, "tool/call"@) {
        ScanModel {
            tool_calls: m.tool_calls + 1,
            tools: match r.name {
                Some(n) => tools_bump(m.tools, n@),
                None => m.tools,
            },
            ..m
        }
    } else if opt_is(r.kind, "request/context"@) {
        ScanModel {
            model: if has_model(m.model) {
                m.model
            } else {
                context_model_value(r)
            },
            current_model: context_model(r),
            ..m
        }
    } else if opt_is(r.kind, "session/title"@) {
        ScanModel {
            title: match r.title {
                Some(t) => t@,
                None => m.title,
            },
            ..m
        }
    } else if opt_is(r.kind, "user/message"@) {
        ScanModel {
            first_msg: if m.first_msg.len() == 0 {
                match r.content {
                    Some(parts) => match first_text(parts@) {
                        Some(t) => t,
                        None => m.first_msg,
                    },
                    None => m.first_msg,
                }
            } else {
                m.first_msg
            },
            ..m
        }
    } else {
        match record_usage(r) {
            Some(tk) => ScanModel {
                usage: usage_put(
                    m.usage,
                    StepEntry {
                        turn: or_zero(r.turn),
                        step: or_zero(r.step),
                        tokens: tk,
                        model: m.current_model,
                    },
                ),
                ..m
            },
            None => m,
        }
    };
    let ts = or_zero(r.time);
    ScanModel { last_ts: if ts > m1.last_ts { ts } else { m1.last_ts }, ..m1 }
}

/// The scan of a whole log.
pub open spec fn scan_fold(recs: Seq<DshRecord>) -> ScanModel
    decreases recs.len(),
{
    if recs.len() == 0 {
        scan_init()
    } else {
        scan_step(scan_fold(recs.drop_last()), recs.last())
    }
}


/// The usage of one (turn, step) as held during a scan.
pub struct StepUsage {
    pub turn: i64,
    pub step: i64,
    pub tokens: Tokens,
    pub model: String,
}

impl View for StepUsage {
    type V = StepEntry;

    open spec fn view(&self) -> StepEntry {
        StepEntry { turn: self.turn, step: self.step, tokens: self.tokens, model: self.model@ }
    }
}

/// Tool counters as (name, calls) views.
pub open spec fn tools_view(t: Seq<(String, i64)>) -> Seq<(Seq<char>, int)> {
    t.map_values(|p: (String, i64)| (p.0@, p.1 as int))
}

/// Step usages as views.
pub open spec fn usage_view(u: Seq<StepUsage>) -> Seq<StepEntry> {
    u.map_values(|e: StepUsage| e@)
}

/// `tool_index` is the first position holding `n`.
pub proof fn lemma_tool_index(t: Seq<(Seq<char>, int)>, n: Seq<char>)
    ensures
        -1 <= tool_index(t, n) < t.len(),
        tool_index(t, n) >= 0 ==> t[tool_index(t, n)].0 == n,
        forall|j: int|
            #![trigger t[j]]
            0 <= j < t.len() && (tool_index(t, n) < 0 || j < tool_index(t, n)) ==> t[j].0 != n,
    decreases t.len(),
{
    if t.len() > 0 {
        lemma_tool_index(t.drop_last(), n);
        assert forall|j: int| 0 <= j < t.len() - 1 implies #[trigger] t[j] == t.drop_last()[j] by {}
    }
}

/// `step_index` is the first position holding (turn, step).
pub proof fn lemma_step_index(u: Seq<StepEntry>, turn: i64, step: i64)
    ensures
        -1 <= step_index(u, turn, step) < u.len(),
        step_index(u, turn, step) >= 0 ==> u[step_index(u, turn, step)].turn == turn && u[step_index(u, turn, step)].step == step,
        forall|j: int|
            #![trigger u[j]]
            0 <= j < u.len() && (step_index(u, turn, step) < 0 || j < step_index(u, turn, step))
                ==> !(u[j].turn == turn && u[j].step == step),
    decreases u.len(),
{
    if u.len() > 0 {
        lemma_step_index(u.drop_last(), turn, step);
        assert forall|j: int| 0 <= j < u.len() - 1 implies #[trigger] u[j] == u.drop_last()[j] by {}
    }
}

/// A step whose usage is reported twice (by a usage chunk and again with its message)
/// counts once, with the later report.
pub proof fn law_step_reported_twice_counts_once(u: Seq<StepEntry>, first: StepEntry, second: StepEntry)
    requires
        first.turn == second.turn,
        first.step == second.step,
    ensures
        usage_put(usage_put(u, first), second) == usage_put(u, second),
{
    let t = first.turn;
    let st = first.step;
    lemma_step_index(u, t, st);
    let u1 = usage_put(u, first);
    lemma_step_index(u1, t, st);
    let i = step_index(u, t, st);
    if i < 0 {
        assert(u1 == u.push(first));
        let k = step_index(u1, t, st);
        if k < 0 {
            assert(u1[u.len() as int] == first);
        } else if k < u.len() {
            assert(u1[k] == u[k]);
        }
        assert(k == u.len());
        assert(usage_put(u1, second) =~= u.push(second));
    } else {
        assert(u1 == u.update(i, first));
        let k = step_index(u1, t, st);
        if k < 0 {
            assert(u1[i] == first);
        } else if k < i {
            assert(u1[k] == u[k]);
        } else if k > i {
            assert(u1[i] == first);
        }
        assert(k == i);
        assert(usage_put(u1, second) =~= u.update(i, second));
    }
}

/// Adding token counts does not depend on the order of the additions: the sum is
/// commutative and associative, and zero adds nothing.
pub proof fn law_tokens_sum_order_free(a: Tokens, b: Tokens, c: Tokens)
    ensures
        tokens_add(a, b) == tokens_add(b, a),
        tokens_add(tokens_add(a, b), c) == tokens_add(a, tokens_add(b, c)),
        tokens_add(a, tokens_zero()) == a,
{
    lemma_wadd_assoc(a.input, b.input, c.input);
    lemma_wadd_assoc(a.cache, b.cache, c.cache);
    lemma_wadd_assoc(a.output, b.output, c.output);
    lemma_wadd_assoc(a.reasoning, b.reasoning, c.reasoning);
}

proof fn lemma_wadd_assoc(x: i64, y: i64, z: i64)
    ensures
        wadd(x, y) == wadd(y, x),
        wadd(wadd(x, y), z) == wadd(x, wadd(y, z)),
        wadd(x, 0) == x,
{
    assert(wadd(wadd(x, y), z) == wadd(x, wadd(y, z))) by (bit_vector);
    assert(wadd(x, y) == wadd(y, x)) by (bit_vector);
    assert(wadd(x, 0) == x) by (bit_vector);
}

/// The entry recorded for (turn, step), if any.
pub open spec fn step_get(u: Seq<StepEntry>, turn: i64, step: i64) -> Option<StepEntry> {
    let i = step_index(u, turn, step);
    if i < 0 {
        None
    } else {
        Some(u[i])
    }
}

/// No (turn, step) is recorded twice.
pub open spec fn steps_unique(u: Seq<StepEntry>) -> bool {
    forall|i: int, j: int|
        0 <= i < j < u.len() ==> !(#[trigger] u[i].turn == #[trigger] u[j].turn && u[i].step == u[j].step)
}

/// The last report of (turn, step) among `es`.
pub open spec fn last_report(es: Seq<StepEntry>, turn: i64, step: i64) -> Option<StepEntry>
    decreases es.len(),
{
    if es.len() == 0 {
        None
    } else if es.last().turn == turn && es.last().step == step {
        Some(es.last())
    } else {
        last_report(es.drop_last(), turn, step)
    }
}

/// The step usage left by a run of reports, each replacing an earlier one of its step.
pub open spec fn usage_fold(es: Seq<StepEntry>) -> Seq<StepEntry>
    decreases es.len(),
{
    if es.len() == 0 {
        Seq::empty()
    } else {
        usage_put(usage_fold(es.drop_last()), es.last())
    }
}

/// The record is of a kind the scan reads for something other than usage.
pub open spec fn handled_kind(r: DshRecord) -> bool {
    ||| opt_is(r.kind, "session"@)
    ||| opt_is(r.kind, "turn/start"@) || opt_is(r.kind, "turn/end"@)
    ||| opt_is(r.kind, "step/start"@) || opt_is(r.kind, "step/end"@)
    ||| opt_is(r.kind, "tool/call"@)
    ||| opt_is(r.kind, "request/context"@)
    ||| opt_is(r.kind, "session/title"@)
    ||| opt_is(r.kind, "user/message"@)
}

/// The usage report a record makes after the scan state `m`: an `assistant/chunk` usage
/// chunk or an `assistant/message` usage, keyed by its turn and step (0 when absent),
/// with the model then in use.
pub open spec fn report_of(m: ScanModel, r: DshRecord) -> Option<StepEntry> {
    if handled_kind(r) {
        None
    } else {
        match record_usage(r) {
            Some(tk) => Some(StepEntry { turn: or_zero(r.turn), step: or_zero(r.step), tokens: tk, model: m.current_model }),
            None => None,
        }
    }
}

/// The usage reports of a log, in file order.
pub open spec fn step_reports(recs: Seq<DshRecord>) -> Seq<StepEntry>
    decreases recs.len(),
{
    if recs.len() == 0 {
        Seq::empty()
    } else {
        let p = step_reports(recs.drop_last());
        match report_of(scan_fold(recs.drop_last()), recs.last()) {
            Some(e) => p.push(e),
            None => p,
        }
    }
}

proof fn lemma_step_get_put(u: Seq<StepEntry>, e: StepEntry, turn: i64, step: i64)
    ensures
        step_get(usage_put(u, e), turn, step) == if e.turn == turn && e.step == step {
            Some(e)
        } else {
            step_get(u, turn, step)
        },
        steps_unique(u) ==> steps_unique(usage_put(u, e)),
{
    lemma_step_index(u, e.turn, e.step);
    lemma_step_index(u, turn, step);
    let t = usage_put(u, e);
    lemma_step_index(t, turn, step);
    let x = step_index(u, e.turn, e.step);
    let iq = step_index(u, turn, step);
    let tq = step_index(t, turn, step);
    if e.turn == turn && e.step == step {
        if x >= 0 {
            assert(t[x] == e);
            if tq >= 0 && tq < x {
                assert(t[tq] == u[tq]);
            }
        } else {
            assert(t[u.len() as int] == e);
            if tq >= 0 && tq < u.len() {
                assert(t[tq] == u[tq]);
            }
        }
    } else {
        if iq >= 0 {
            assert(t[iq] == u[iq]);
            if tq >= 0 && tq < iq {
                assert(t[tq] == u[tq] || t[tq] == e);
            }
        } else {
            if tq >= 0 && tq < u.len() {
                assert(t[tq] == u[tq] || t[tq] == e);
            }
        }
    }
    if steps_unique(u) {
        assert forall|i: int, j: int| 0 <= i < j < t.len() implies !(#[trigger] t[i].turn == #[trigger] t[j].turn
            && t[i].step == t[j].step) by {
            if x < 0 {
                if j == u.len() {
                    assert(!(u[i].turn == e.turn && u[i].step == e.step));
                }
            } else {
                if i == x {
                    assert(!(u[j].turn == u[x].turn && u[j].step == u[x].step));
                } else if j == x {
                    assert(!(u[i].turn == u[x].turn && u[i].step == u[x].step));
                }
            }
        }
    }
}

proof fn lemma_usage_fold(es: Seq<StepEntry>)
    ensures
        steps_unique(usage_fold(es)),
        forall|turn: i64, step: i64| #[trigger] step_get(usage_fold(es), turn, step) == last_report(es, turn, step),
    decreases es.len(),
{
    if es.len() > 0 {
        lemma_usage_fold(es.drop_last());
        let u = usage_fold(es.drop_last());
        assert forall|turn: i64, step: i64| #[trigger] step_get(usage_fold(es), turn, step) == last_report(es, turn, step) by {
            lemma_step_get_put(u, es.last(), turn, step);
        }
        lemma_step_get_put(u, es.last(), 0, 0);
    }
}

proof fn lemma_scan_step_usage(m: ScanModel, r: DshRecord)
    ensures
        scan_step(m, r).usage == match report_of(m, r) {
            Some(e) => usage_put(m.usage, e),
            None => m.usage,
        },
{
    if handled_kind(r) {
        assert(scan_step(m, r).usage == m.usage);
    } else {
        assert(!opt_is(r.kind, "session"@));
        assert(!opt_is(r.kind, "turn/start"@) && !opt_is(r.kind, "turn/end"@));
        assert(!opt_is(r.kind, "step/start"@) && !opt_is(r.kind, "step/end"@));
        assert(!opt_is(r.kind, "tool/call"@));
        assert(!opt_is(r.kind, "request/context"@));
        assert(!opt_is(r.kind, "session/title"@));
        assert(!opt_is(r.kind, "user/message"@));
    }
}

proof fn lemma_scan_usage(recs: Seq<DshRecord>)
    ensures
        scan_fold(recs).usage == usage_fold(step_reports(recs)),
    decreases recs.len(),
{
    if recs.len() > 0 {
        lemma_scan_usage(recs.drop_last());
        lemma_scan_step_usage(scan_fold(recs.drop_last()), recs.last());
        let p = step_reports(recs.drop_last());
        match report_of(scan_fold(recs.drop_last()), recs.last()) {
            Some(e) => {
                assert(p.push(e).drop_last() =~= p);
            },
            None => {},
        }
    }
}

fn find_tool(tools: &Vec<(String, i64)>, n: &String) -> (r: Option<usize>)
    ensures
        match r {
            Some(i) => tool_index(tools_view(tools@), n@) == i as int,
            None => tool_index(tools_view(tools@), n@) == -1,
        },
{
    proof {
        lemma_tool_index(tools_view(tools@), n@);
    }
    let mut i: usize = 0;
    while i < tools.len()
        invariant
            i <= tools.len(),
            forall|j: int| #![trigger tools_view(tools@)[j]] 0 <= j < i ==> tools_view(tools@)[j].0 != n@,
        decreases tools.len() - i,
    {
        if tools[i].0 == *n {
            assert(tools_view(tools@)[i as int].0 == n@);
            proof {
                lemma_tool_index(tools_view(tools@), n@);
            }
            return Some(i);
        }
        i = i + 1;
    }
    None
}

fn find_step(usage: &Vec<StepUsage>, turn: i64, step: i64) -> (r: Option<usize>)
    ensures
        match r {
            Some(i) => step_index(usage_view(usage@), turn, step) == i as int,
            None => step_index(usage_view(usage@), turn, step) == -1,
        },
{
    proof {
        lemma_step_index(usage_view(usage@), turn, step);
    }
    let mut i: usize = 0;
    while i < usage.len()
        invariant
            i <= usage.len(),
            forall|j: int|
                #![trigger usage_view(usage@)[j]]
                0 <= j < i ==> !(usage_view(usage@)[j].turn == turn && usage_view(usage@)[j].step == step),
        decreases usage.len() - i,
    {
        if usage[i].turn == turn && usage[i].step == step {
            assert(usage_view(usage@)[i as int].turn == turn);
            proof {
                lemma_step_index(usage_view(usage@), turn, step);
            }
            return Some(i);
        }
        i = i + 1;
    }
    None
}

fn bump_tool(tools: &mut Vec<(String, i64)>, n: &String, Ghost(bound): Ghost<int>)
    requires
        0 <= bound < i64::MAX,
        forall|j: int| 0 <= j < old(tools)@.len() ==> (#[trigger] old(tools)@[j]).1 <= bound,
    ensures
        tools_view(final(tools)@) == tools_bump(tools_view(old(tools)@), n@),
        forall|j: int| 0 <= j < final(tools)@.len() ==> (#[trigger] final(tools)@[j]).1 <= bound + 1,
{
    proof {
        lemma_tool_index(tools_view(tools@), n@);
    }
    match find_tool(tools, n) {
        Some(i) => {
            let c = tools[i].1;
            assert(tools@[i as int].1 <= bound);
            tools.set(i, (n.clone(), c + 1));
            assert(tools_view(tools@) =~= tools_bump(tools_view(old(tools)@), n@));
            assert forall|j: int| 0 <= j < tools@.len() implies (#[trigger] tools@[j]).1 <= bound + 1 by {
                if j != i {
                    assert(tools@[j] == old(tools)@[j]);
                } else {
                    assert(tools@[j].1 == c + 1);
                }
            }
        },
        None => {
            tools.push((n.clone(), 1));
            assert(tools_view(tools@) =~= tools_bump(tools_view(old(tools)@), n@));
            assert forall|j: int| 0 <= j < tools@.len() implies (#[trigger] tools@[j]).1 <= bound + 1 by {
                if j < old(tools)@.len() {
                    assert(tools@[j] == old(tools)@[j]);
                }
            }
        },
    }
}

fn put_usage(usage: &mut Vec<StepUsage>, e: StepUsage)
    ensures
        usage_view(final(usage)@) == usage_put(usage_view(old(usage)@), e@),
{
    let ghost ev = e@;
    proof {
        lemma_step_index(usage_view(usage@), e.turn, e.step);
    }
    match find_step(usage, e.turn, e.step) {
        Some(i) => {
            usage.set(i, e);
            assert(usage_view(usage@) =~= usage_put(usage_view(old(usage)@), ev));
        },
        None => {
            usage.push(e);
            assert(usage_view(usage@) =~= usage_put(usage_view(old(usage)@), ev));
        },
    }
}

fn find_first_text(parts: &Vec<ContentPart>) -> (r: Option<String>)
    ensures
        match r {
            Some(t) => first_text(parts@) == Some(t@),
            None => first_text(parts@) is None,
        },
{
    let mut i: usize = 0;
    assert(parts@.skip(0) =~= parts@);
    while i < parts.len()
        invariant
            i <= parts.len(),
            first_text(parts@) == first_text(parts@.skip(i as int)),
        decreases parts.len() - i,
    {
        assert(parts@.skip(i as int).drop_first() =~= parts@.skip(i + 1));
        if opt_str_is(&parts[i].kind, "text") {
            match &parts[i].text {
                Some(t) => {
                    return Some(t.clone());
                },
                None => {},
            }
        }
        i = i + 1;
    }
    None
}

fn leaf_str(v: &Option<JsonVal>) -> (r: String)
    ensures
        r@ == leaf_str_or_empty(*v),
{
    match v {
        Some(JsonVal::Str(s)) => s.clone(),
        _ => String::new(),
    }
}

fn exec_context_model(r: &DshRecord) -> (m: String)
    ensures
        m@ == context_model(*r),
{
    let provider = leaf_str(&r.provider);
    let model = leaf_str(&r.model);
    if !crate::text::non_empty(&provider) {
        model
    } else {
        let slash = owned("/");
        let a = concat(&provider, &slash);
        concat(&a, &model)
    }
}

fn exec_context_model_value(r: &DshRecord) -> (v: JsonVal)
    ensures
        v@ == context_model_value(*r),
{
    match &r.model {
        Some(v) => v.dup(),
        None => match &r.provider {
            Some(v) => v.dup(),
            None => JsonVal::Str(String::new()),
        },
    }
}

fn exec_has_model(m: &JsonVal) -> (b: bool)
    ensures
        b == has_model(m@),
{
    match m {
        JsonVal::Str(s) => crate::text::non_empty(s),
        _ => false,
    }
}

fn exec_record_usage(r: &DshRecord) -> (t: Option<Tokens>)
    ensures
        t == record_usage(*r),
{
    if opt_str_is(&r.kind, "assistant/chunk") {
        match &r.chunk {
            Some(c) => if opt_str_is(&c.kind, "usage") {
                match &c.usage {
                    Some(u) => tokens_from_usage(u),
                    None => None,
                }
            } else {
                None
            },
            None => None,
        }
    } else if opt_str_is(&r.kind, "assistant/message") {
        match &r.usage {
            Some(u) => tokens_from_usage(u),
            None => None,
        }
    } else {
        None
    }
}


/// The running state of a session scan.
struct ScanAcc {
    created_at: i64,
    cwd: String,
    model: JsonVal,
    title: String,
    first_msg: String,
    turns: i64,
    steps: i64,
    tool_calls: i64,
    last_ts: i64,
    tools: Vec<(String, i64)>,
    current_model: String,
    usage: Vec<StepUsage>,
}

impl ScanAcc {
    spec fn model(&self) -> ScanModel {
        ScanModel {
            created_at: self.created_at,
            cwd: self.cwd@,
            model: self.model@,
            title: self.title@,
            first_msg: self.first_msg@,
            turns: self.turns as int,
            steps: self.steps as int,
            tool_calls: self.tool_calls as int,
            last_ts: self.last_ts,
            tools: tools_view(self.tools@),
            current_model: self.current_model@,
            usage: usage_view(self.usage@),
        }
    }

    /// Counters stay below `n` after `n` records.
    spec fn bounded(&self, n: int) -> bool {
        &&& 0 <= self.turns <= n
        &&& 0 <= self.steps <= n
        &&& 0 <= self.tool_calls <= n
        &&& forall|j: int| 0 <= j < self.tools@.len() ==> (#[trigger] self.tools@[j]).1 <= n
    }

    fn new() -> (r: ScanAcc)
        ensures
            r.model() == scan_init(),
            r.bounded(0),
    {
        let r = ScanAcc {
            created_at: 0,
            cwd: String::new(),
            model: JsonVal::Str(String::new()),
            title: String::new(),
            first_msg: String::new(),
            turns: 0,
            steps: 0,
            tool_calls: 0,
            last_ts: 0,
            tools: Vec::new(),
            current_model: String::new(),
            usage: Vec::new(),
        };
        assert(r.model().tools =~= Seq::<(Seq<char>, int)>::empty());
        assert(r.model().usage =~= Seq::<StepEntry>::empty());
        r
    }

    fn step(&mut self, r: &DshRecord, Ghost(n): Ghost<int>)
        requires
            0 <= n < i64::MAX,
            old(self).bounded(n),
        ensures
            final(self).model() == scan_step(old(self).model(), *r),
            final(self).bounded(n + 1),
    {
        let ghost m0 = self.model();
        if opt_str_is(&r.kind, "session") {
            self.created_at = opt_or_zero(r.created_at);
            match &r.cwd {
                Some(c) => {
                    if crate::text::non_empty(c) {
                        self.cwd = c.clone();
                    }
                },
                None => {},
            }
        } else if opt_str_is(&r.kind, "turn/start") || opt_str_is(&r.kind, "turn/end") {
            self.turns = self.turns + 1;
        } else if opt_str_is(&r.kind, "step/start") || opt_str_is(&r.kind, "step/end") {
            self.steps = self.steps + 1;
        } else if opt_str_is(&r.kind, "tool/call") {
            self.tool_calls = self.tool_calls + 1;
            match &r.name {
                Some(nm) => {
                    bump_tool(&mut self.tools, nm, Ghost(n));
                },
                None => {},
            }
        } else if opt_str_is(&r.kind, "request/context") {
            if !exec_has_model(&self.model) {
                self.model = exec_context_model_value(r);
            }
            self.current_model = exec_context_model(r);
        } else if opt_str_is(&r.kind, "session/title") {
            match &r.title {
                Some(t) => {
                    self.title = t.clone();
                },
                None => {},
            }
        } else if opt_str_is(&r.kind, "user/message") {
            if !crate::text::non_empty(&self.first_msg) {
                match &r.content {
                    Some(parts) => {
                        match find_first_text(parts) {
                            Some(t) => {
                                self.first_msg = t;
                            },
                            None => {},
                        }
                    },
                    None => {},
                }
            }
        } else {
            match exec_record_usage(r) {
                Some(tk) => {
                    let e = StepUsage {
                        turn: opt_or_zero(r.turn),
                        step: opt_or_zero(r.step),
                        tokens: tk,
                        model: self.current_model.clone(),
                    };
                    put_usage(&mut self.usage, e);
                },
                None => {},
            }
        }
        let ts = opt_or_zero(r.time);
        if ts > self.last_ts {
            self.last_ts = ts;
        }
        proof {
            let m1 = self.model();
            assert(m1 == scan_step(m0, *r));
            assert forall|j: int| 0 <= j < self.tools@.len() implies (#[trigger] self.tools@[j]).1 <= n + 1 by {
                if !opt_is(r.kind, "tool/call"@) || r.name is None {
                    assert(self.tools@ == old(self).tools@);
                    assert(old(self).tools@[j].1 <= n);
                }
            }
        }
    }
}


// ---------------------------------------------------------------- session summary

/// Sum of the tokens of all recorded steps.
pub open spec fn sum_usage(u: Seq<StepEntry>) -> Tokens
    decreases u.len(),
{
    if u.len() == 0 {
        tokens_zero()
    } else {
        tokens_add(sum_usage(u.drop_last()), u.last().tokens)
    }
}

/// The bucket a step's model falls in: its label, or "unknown" when it has none.
pub open spec fn model_key(m: Seq<char>) -> Seq<char> {
    if m.len() == 0 {
        "unknown"@
    } else {
        m
    }
}

/// Position of the bucket `k`, or -1.
pub open spec fn group_index(g: Seq<(Seq<char>, Tokens)>, k: Seq<char>) -> int
    decreases g.len(),
{
    if g.len() == 0 {
        -1
    } else if g.last().0 == k && group_index(g.drop_last(), k) < 0 {
        g.len() - 1
    } else {
        group_index(g.drop_last(), k)
    }
}

/// Adds `t` to bucket `k` (a new bucket starts from zero).
pub open spec fn group_add(g: Seq<(Seq<char>, Tokens)>, k: Seq<char>, t: Tokens) -> Seq<(Seq<char>, Tokens)> {
    let i = group_index(g, k);
    if i < 0 {
        g.push((k, tokens_add(tokens_zero(), t)))
    } else {
        g.update(i, (k, tokens_add(g[i].1, t)))
    }
}

/// Per-model sums of the recorded steps, buckets in order of first appearance.
pub open spec fn group_models(u: Seq<StepEntry>) -> Seq<(Seq<char>, Tokens)>
    decreases u.len(),
{
    if u.len() == 0 {
        Seq::empty()
    } else {
        group_add(group_models(u.drop_last()), model_key(u.last().model), u.last().tokens)
    }
}

/// The UTF-8 bytes of some text.
pub open spec fn utf8_of(s: Seq<char>) -> Seq<u8> {
    vstd::utf8::encode_utf8(s)
}

/// The fallback title: the first message, cut to its first 40 bytes plus an ellipsis when longer.
pub open spec fn shortened(first: Seq<char>) -> Seq<char> {
    if utf8_of(first).len() > 40 {
        vstd::utf8::decode_utf8(utf8_of(first).subrange(0, 40)).push('\u{2026}')
    } else {
        first
    }
}

/// The session title: the recorded title, or the shortened first message when there is none.
pub open spec fn session_title(sc: ScanModel) -> Seq<char> {
    if sc.title.len() == 0 && sc.first_msg.len() > 0 {
        shortened(sc.first_msg)
    } else {
        sc.title
    }
}

/// Shortening the first message to 40 bytes cuts at a character boundary (slicing
/// inside a character would panic).
pub open spec fn title_cut_ok(sc: ScanModel) -> bool {
    (sc.title.len() == 0 && sc.first_msg.len() > 0 && utf8_of(sc.first_msg).len() > 40)
        ==> vstd::utf8::is_char_boundary(utf8_of(sc.first_msg), 40)
}

/// Statistics of one session log.
pub struct SessionStat {
    pub id: String,
    pub title: String,
    pub first_msg: String,
    pub model: JsonVal,
    pub cwd: String,
    pub turns: i64,
    pub steps: i64,
    pub tool_calls: i64,
    pub created_at: i64,
    pub last_ts: i64,
    pub tokens: Tokens,
    /// per-model sums, largest billed input first
    pub model_tokens: Vec<(String, Tokens)>,
    /// tool name and number of calls
    pub tools: Vec<(String, i64)>,
    /// the (at most) three most called tools, most called first
    pub tool_list: Vec<(String, i64)>,
}

/// Per-model buckets as views.
pub open spec fn groups_view(g: Seq<(String, Tokens)>) -> Seq<(Seq<char>, Tokens)> {
    g.map_values(|p: (String, Tokens)| (p.0@, p.1))
}

/// The billed input of each bucket.
pub open spec fn group_inputs(g: Seq<(Seq<char>, Tokens)>) -> Seq<i64> {
    g.map_values(|p: (Seq<char>, Tokens)| p.1.input)
}

/// The call count of each tool.
pub open spec fn tool_counts(t: Seq<(String, i64)>) -> Seq<i64> {
    t.map_values(|p: (String, i64)| p.1)
}

/// `out` lists `src` in the stable descending order of `keys`.
pub open spec fn ordered_as<T>(out: Seq<T>, src: Seq<T>, keys: Seq<i64>) -> bool {
    exists|order: Seq<int>|
        is_stable_desc_order(keys, order) && out.len() == src.len() && forall|i: int|
            0 <= i < out.len() ==> #[trigger] out[i] == src[order[i]]
}

/// `out` is the first `n` entries of `src` in the stable descending order of `keys`.
pub open spec fn top_ordered_as<T>(out: Seq<T>, src: Seq<T>, keys: Seq<i64>, n: int) -> bool {
    exists|order: Seq<int>|
        is_stable_desc_order(keys, order) && out.len() == (if src.len() < n {
            src.len() as int
        } else {
            n
        }) && forall|i: int| 0 <= i < out.len() ==> #[trigger] out[i] == src[order[i]]
}

/// `st` is the statistics of the session `sid` whose log is `recs`.
pub open spec fn is_session_stat(st: SessionStat, recs: Seq<DshRecord>, sid: Seq<char>) -> bool {
    let sc = scan_fold(recs);
    &&& st.id@ == sid
    &&& st.title@ == session_title(sc)
    &&& st.first_msg@ == sc.first_msg
    &&& st.model@ == sc.model
    &&& st.cwd@ == sc.cwd
    &&& st.turns == sc.turns
    &&& st.steps == sc.steps
    &&& st.tool_calls == sc.tool_calls
    &&& st.created_at == sc.created_at
    &&& st.last_ts == sc.last_ts
    &&& st.tokens == sum_usage(sc.usage)
    &&& ordered_as(groups_view(st.model_tokens@), group_models(sc.usage), group_inputs(group_models(sc.usage)))
    &&& tools_view(st.tools@) == sc.tools
    &&& top_ordered_as(st.tool_list@, st.tools@, tool_counts(st.tools@), 3)
}

proof fn lemma_group_index(g: Seq<(Seq<char>, Tokens)>, k: Seq<char>)
    ensures
        -1 <= group_index(g, k) < g.len(),
        group_index(g, k) >= 0 ==> g[group_index(g, k)].0 == k,
        forall|j: int|
            #![trigger g[j]]
            0 <= j < g.len() && (group_index(g, k) < 0 || j < group_index(g, k)) ==> g[j].0 != k,
    decreases g.len(),
{
    if g.len() > 0 {
        lemma_group_index(g.drop_last(), k);
        assert forall|j: int| 0 <= j < g.len() - 1 implies #[trigger] g[j] == g.drop_last()[j] by {}
    }
}

/// The sum of per-model buckets.
pub open spec fn group_total(g: Seq<(Seq<char>, Tokens)>) -> Tokens {
    tokens_sum(g.map_values(|p: (Seq<char>, Tokens)| p.1))
}

/// No bucket name occurs twice.
pub open spec fn groups_unique(g: Seq<(Seq<char>, Tokens)>) -> bool {
    forall|i: int, j: int| 0 <= i < j < g.len() ==> #[trigger] g[i].0 != #[trigger] g[j].0
}

proof fn lemma_group_add(g: Seq<(Seq<char>, Tokens)>, k: Seq<char>, t: Tokens)
    ensures
        group_total(group_add(g, k, t)) == tokens_add(group_total(g), t),
        groups_unique(g) ==> groups_unique(group_add(g, k, t)),
{
    lemma_group_index(g, k);
    let i = group_index(g, k);
    let v = g.map_values(|p: (Seq<char>, Tokens)| p.1);
    let h = group_add(g, k, t);
    if i < 0 {
        assert(h.map_values(|p: (Seq<char>, Tokens)| p.1).drop_last() =~= v);
        lemma_tokens_swap(tokens_zero(), t, t);
    } else {
        assert(h.map_values(|p: (Seq<char>, Tokens)| p.1) =~= v.update(i, tokens_add(v[i], t)));
        lemma_tokens_update(v, i, t);
    }
    if groups_unique(g) {
        assert forall|a: int, b: int| 0 <= a < b < h.len() implies #[trigger] h[a].0 != #[trigger] h[b].0 by {
            if i < 0 {
                if b == g.len() {
                    assert(g[a].0 != k);
                }
            } else if a == i {
                assert(g[b].0 != g[i].0);
            } else if b == i {
                assert(g[a].0 != g[i].0);
            }
        }
    }
}

proof fn lemma_group_models(u: Seq<StepEntry>)
    ensures
        group_total(group_models(u)) == sum_usage(u),
        groups_unique(group_models(u)),
    decreases u.len(),
{
    if u.len() > 0 {
        lemma_group_models(u.drop_last());
        lemma_group_add(group_models(u.drop_last()), model_key(u.last().model), u.last().tokens);
    }
}

/// Buckets listed in the stable descending order of their billed input keep their sum
/// and their distinct names, and come largest billed input first.
proof fn lemma_ordered_groups(out: Seq<(Seq<char>, Tokens)>, src: Seq<(Seq<char>, Tokens)>)
    requires
        ordered_as(out, src, group_inputs(src)),
    ensures
        group_total(out) == group_total(src),
        groups_unique(src) ==> groups_unique(out),
        forall|i: int, j: int| 0 <= i < j < out.len() ==> #[trigger] out[i].1.input >= #[trigger] out[j].1.input,
{
    let keys = group_inputs(src);
    let order = choose|order: Seq<int>|
        is_stable_desc_order(keys, order) && out.len() == src.len() && forall|i: int|
            0 <= i < out.len() ==> #[trigger] out[i] == src[order[i]];
    let ov = out.map_values(|p: (Seq<char>, Tokens)| p.1);
    let sv = src.map_values(|p: (Seq<char>, Tokens)| p.1);
    assert forall|i: int| 0 <= i < ov.len() implies #[trigger] ov[i] == sv[order[i]] by {
        assert(out[i] == src[order[i]]);
    }
    lemma_tokens_reorder(ov, sv, order);
    if groups_unique(src) {
        assert forall|a: int, b: int| 0 <= a < b < out.len() implies #[trigger] out[a].0 != #[trigger] out[b].0 by {
            assert(out[a] == src[order[a]]);
            assert(out[b] == src[order[b]]);
            assert(order[a] != order[b]);
        }
    }
    assert forall|i: int, j: int| 0 <= i < j < out.len() implies #[trigger] out[i].1.input >= #[trigger] out[j].1.input by {
        assert(out[i] == src[order[i]]);
        assert(out[j] == src[order[j]]);
        assert(keys[order[i]] >= keys[order[j]]);
    }
}

/// A session's tokens are the sum, over the distinct (turn, step) keys its log reports
/// usage for, of the last report of each key: the recorded steps hold each reported key
/// exactly once, with its last report, so earlier reports of a key count nothing; a
/// log without usage reports gives zero.
pub proof fn law_session_tokens_from_last_reports(recs: Seq<DshRecord>, st: SessionStat, sid: Seq<char>)
    requires
        is_session_stat(st, recs, sid),
    ensures
        st.tokens == sum_usage(scan_fold(recs).usage),
        steps_unique(scan_fold(recs).usage),
        forall|turn: i64, step: i64|
            #[trigger] step_get(scan_fold(recs).usage, turn, step) == last_report(step_reports(recs), turn, step),
        step_reports(recs).len() == 0 ==> st.tokens == tokens_zero(),
{
    lemma_scan_usage(recs);
    lemma_usage_fold(step_reports(recs));
}

/// A session's per-model buckets partition its tokens: each step's usage goes to the
/// bucket of the model in use when it was reported ("unknown" without one), the bucket
/// names are distinct, the buckets come largest billed input first, and they add up to
/// the session's tokens.
pub proof fn law_session_models_partition_tokens(recs: Seq<DshRecord>, st: SessionStat, sid: Seq<char>)
    requires
        is_session_stat(st, recs, sid),
    ensures
        group_total(groups_view(st.model_tokens@)) == st.tokens,
        groups_unique(groups_view(st.model_tokens@)),
        forall|i: int, j: int|
            0 <= i < j < st.model_tokens@.len() ==> #[trigger] st.model_tokens@[i].1.input >= #[trigger] st.model_tokens@[j].1.input,
{
    let u = scan_fold(recs).usage;
    lemma_group_models(u);
    let g = groups_view(st.model_tokens@);
    lemma_ordered_groups(g, group_models(u));
    assert forall|i: int, j: int|
        0 <= i < j < st.model_tokens@.len() implies #[trigger] st.model_tokens@[i].1.input >= #[trigger] st.model_tokens@[j].1.input by {
        assert(g[i].1 == st.model_tokens@[i].1);
        assert(g[j].1 == st.model_tokens@[j].1);
        assert(g[i].1.input >= g[j].1.input);
    }
}

/// The text a record offers as a session's first message: for a `user/message`
/// record, its first `text` part; empty otherwise.
pub open spec fn user_text(r: DshRecord) -> Seq<char> {
    if opt_is(r.kind, "user/message"@) {
        match r.content {
            Some(parts) => match first_text(parts@) {
                Some(t) => t,
                None => Seq::empty(),
            },
            None => Seq::empty(),
        }
    } else {
        Seq::empty()
    }
}

/// The record names a title for the session.
pub open spec fn sets_title(r: DshRecord) -> bool {
    opt_is(r.kind, "session/title"@) && r.title is Some
}

proof fn lemma_first_msg_step(recs: Seq<DshRecord>)
    requires
        recs.len() > 0,
    ensures
        scan_fold(recs).first_msg == if scan_fold(recs.drop_last()).first_msg.len() > 0 {
            scan_fold(recs.drop_last()).first_msg
        } else {
            user_text(recs.last())
        },
        !sets_title(recs.last()) ==> scan_fold(recs).title == scan_fold(recs.drop_last()).title,
{
    let m = scan_fold(recs.drop_last());
    let r = recs.last();
    assert(scan_fold(recs) == scan_step(m, r));
    reveal_strlit("session");
    reveal_strlit("turn/start");
    reveal_strlit("turn/end");
    reveal_strlit("step/start");
    reveal_strlit("step/end");
    reveal_strlit("tool/call");
    reveal_strlit("request/context");
    reveal_strlit("session/title");
    reveal_strlit("user/message");
    if opt_is(r.kind, "user/message"@) {
        let k = r.kind->0@;
        assert(k[0] == 'u');
        assert(k.len() == 12);
    }
    if opt_is(r.kind, "session/title"@) {
        let k = r.kind->0@;
        assert(k[0] == 's' && k.len() == 13);
    }
}

proof fn lemma_first_msg_earliest(recs: Seq<DshRecord>)
    ensures
        scan_fold(recs).first_msg.len() > 0 ==> exists|i: int|
            0 <= i < recs.len() && user_text(#[trigger] recs[i]) == scan_fold(recs).first_msg && forall|j: int|
                0 <= j < i ==> user_text(#[trigger] recs[j]).len() == 0,
        scan_fold(recs).first_msg.len() == 0 ==> forall|i: int| 0 <= i < recs.len() ==> user_text(#[trigger] recs[i]).len() == 0,
        (forall|i: int| 0 <= i < recs.len() ==> !sets_title(#[trigger] recs[i])) ==> scan_fold(recs).title.len() == 0,
    decreases recs.len(),
{
    if recs.len() > 0 {
        let dl = recs.drop_last();
        lemma_first_msg_earliest(dl);
        lemma_first_msg_step(recs);
        let n = recs.len() - 1;
        assert(recs[n] == recs.last());
        assert forall|j: int| 0 <= j < n implies #[trigger] recs[j] == dl[j] by {}
        if scan_fold(dl).first_msg.len() > 0 {
            let i = choose|i: int|
                0 <= i < dl.len() && user_text(#[trigger] dl[i]) == scan_fold(dl).first_msg && forall|j: int|
                    0 <= j < i ==> user_text(#[trigger] dl[j]).len() == 0;
            assert(recs[i] == dl[i]);
            assert forall|j: int| 0 <= j < i implies user_text(#[trigger] recs[j]).len() == 0 by {
                assert(recs[j] == dl[j]);
            }
        } else {
            assert forall|j: int| 0 <= j < n implies user_text(#[trigger] recs[j]).len() == 0 by {
                assert(recs[j] == dl[j]);
            }
        }
        if forall|i: int| 0 <= i < recs.len() ==> !sets_title(#[trigger] recs[i]) {
            assert forall|i: int| 0 <= i < dl.len() implies !sets_title(#[trigger] dl[i]) by {
                assert(recs[i] == dl[i]);
            }
            assert(!sets_title(recs[n]));
        }
    }
}

/// A session's first message is the first-part text of its earliest `user/message`
/// record that has a non-empty one: no earlier record offers one, and later messages do
/// not replace it; it is empty when no record offers one. Without a `session/title`
/// record naming a title, the session's title is that first message, shortened.
pub proof fn law_first_message_is_earliest(recs: Seq<DshRecord>, st: SessionStat, sid: Seq<char>)
    requires
        is_session_stat(st, recs, sid),
    ensures
        st.first_msg@.len() > 0 ==> exists|i: int|
            0 <= i < recs.len() && user_text(#[trigger] recs[i]) == st.first_msg@ && forall|j: int|
                0 <= j < i ==> user_text(#[trigger] recs[j]).len() == 0,
        st.first_msg@.len() == 0 ==> forall|i: int| 0 <= i < recs.len() ==> user_text(#[trigger] recs[i]).len() == 0,
        (forall|i: int| 0 <= i < recs.len() ==> !sets_title(#[trigger] recs[i])) ==> st.title@ == shortened(st.first_msg@),
{
    lemma_first_msg_earliest(recs);
    if st.first_msg@.len() == 0 {
        assert(utf8_of(st.first_msg@).len() == 0) by {
            assert(st.first_msg@ =~= Seq::<char>::empty());
        }
    }
}

fn group_into(g: &mut Vec<(String, Tokens)>, k: String, t: &Tokens)
    ensures
        groups_view(final(g)@) == group_add(groups_view(old(g)@), k@, *t),
{
    proof {
        lemma_group_index(groups_view(g@), k@);
    }
    let mut i: usize = 0;
    while i < g.len()
        invariant
            i <= g.len(),
            g@ == old(g)@,
            forall|j: int| #![trigger groups_view(g@)[j]] 0 <= j < i ==> groups_view(g@)[j].0 != k@,
        decreases g.len() - i,
    {
        if g[i].0 == k {
            assert(groups_view(g@)[i as int].0 == k@);
            proof {
                lemma_group_index(groups_view(g@), k@);
            }
            let mut acc = g[i].1;
            add_tokens(&mut acc, t);
            g.set(i, (k, acc));
            assert(groups_view(g@) =~= group_add(groups_view(old(g)@), old(g)@[i as int].0@, *t));
            return;
        }
        i = i + 1;
    }
    proof {
        lemma_group_index(groups_view(g@), k@);
    }
    let mut acc = zero_tokens();
    add_tokens(&mut acc, t);
    let ghost kv = k@;
    g.push((k, acc));
    assert(groups_view(g@) =~= group_add(groups_view(old(g)@), kv, *t));
}

fn model_key_of(m: &String) -> (r: String)
    ensures
        r@ == model_key(m@),
{
    if crate::text::non_empty(m) {
        m.clone()
    } else {
        owned("unknown")
    }
}

fn shorten(first: &String) -> (r: String)
    requires
        utf8_of(first@).len() > 40 ==> vstd::utf8::is_char_boundary(utf8_of(first@), 40),
    ensures
        r@ == shortened(first@),
{
    let s = first.as_str();
    assert(s.spec_bytes() == utf8_of(first@));
    if s.as_bytes().len() > 40 {
        let (head, _tail) = s.split_at(40);
        proof {
            vstd::utf8::encode_utf8_decode_utf8(head@);
            assert(head.spec_bytes() == utf8_of(head@));
        }
        let mut v = chars_of(head);
        v.push('\u{2026}');
        proof {
            assert(head@ == vstd::utf8::decode_utf8(utf8_of(first@).subrange(0, 40)));
            assert(v@ == shortened(first@));
        }
        string_of(&v)
    } else {
        first.clone()
    }
}

fn scan_records(recs: &Vec<DshRecord>) -> (acc: ScanAcc)
    requires
        recs@.len() < i64::MAX,
    ensures
        acc.model() == scan_fold(recs@),
        acc.bounded(recs@.len() as int),
{
    let mut acc = ScanAcc::new();
    let mut i: usize = 0;
    while i < recs.len()
        invariant
            i <= recs.len(),
            recs@.len() < i64::MAX,
            acc.model() == scan_fold(recs@.take(i as int)),
            acc.bounded(i as int),
        decreases recs.len() - i,
    {
        assert(recs@.take(i + 1).drop_last() =~= recs@.take(i as int));
        acc.step(&recs[i], Ghost(i as int));
        i = i + 1;
    }
    assert(recs@.take(recs.len() as int) =~= recs@);
    acc
}

/// Whether a session log can be summarised: shortening its first message into a title
/// (when it has no title) cuts at a character boundary (see `title_cut_ok`).
pub fn title_cut_fits(recs: &Vec<DshRecord>) -> (r: bool)
    requires
        recs@.len() < i64::MAX,
    ensures
        r == title_cut_ok(scan_fold(recs@)),
{
    let acc = scan_records(recs);
    let first = acc.first_msg.as_str();
    assert(first.spec_bytes() == utf8_of(acc.first_msg@));
    if !crate::text::non_empty(&acc.title) && crate::text::non_empty(&acc.first_msg) && first.as_bytes().len() > 40 {
        first.is_char_boundary(40)
    } else {
        true
    }
}

/// Statistics of one session log (records in log order).
pub fn stat_session(recs: &Vec<DshRecord>, sid: &String) -> (st: SessionStat)
    requires
        recs@.len() < i64::MAX,
        title_cut_ok(scan_fold(recs@)),
    ensures
        is_session_stat(st, recs@, sid@),
{
    let acc = scan_records(recs);
    let ghost sc = acc.model();

    // token totals and per-model buckets
    let mut total = zero_tokens();
    let mut groups: Vec<(String, Tokens)> = Vec::new();
    let mut k: usize = 0;
    while k < acc.usage.len()
        invariant
            k <= acc.usage.len(),
            sc == acc.model(),
            total == sum_usage(usage_view(acc.usage@).take(k as int)),
            groups_view(groups@) == group_models(usage_view(acc.usage@).take(k as int)),
        decreases acc.usage.len() - k,
    {
        assert(usage_view(acc.usage@).take(k + 1).drop_last() =~= usage_view(acc.usage@).take(k as int));
        assert(usage_view(acc.usage@).take(k + 1).last() == acc.usage@[k as int]@);
        add_tokens(&mut total, &acc.usage[k].tokens);
        let key = model_key_of(&acc.usage[k].model);
        group_into(&mut groups, key, &acc.usage[k].tokens);
        k = k + 1;
    }
    assert(usage_view(acc.usage@).take(acc.usage.len() as int) =~= usage_view(acc.usage@));

    // buckets ordered by billed input, largest first
    let mut keys: Vec<i64> = Vec::new();
    let mut j: usize = 0;
    while j < groups.len()
        invariant
            j <= groups.len(),
            keys@ == group_inputs(groups_view(groups@)).take(j as int),
        decreases groups.len() - j,
    {
        keys.push(groups[j].1.input);
        j = j + 1;
        assert(keys@ =~= group_inputs(groups_view(groups@)).take(j as int));
    }
    assert(keys@ =~= group_inputs(groups_view(groups@)));
    let order = stable_desc_order(&keys);
    let mut model_tokens: Vec<(String, Tokens)> = Vec::new();
    let mut q: usize = 0;
    while q < order.len()
        invariant
            q <= order.len(),
            is_stable_desc_order(keys@, idx_view(order@)),
            keys@.len() == groups@.len(),
            model_tokens@.len() == q,
            forall|a: int| 0 <= a < q ==> #[trigger] groups_view(model_tokens@)[a] == groups_view(groups@)[idx_view(order@)[a]],
        decreases order.len() - q,
    {
        assert(idx_view(order@)[q as int] == order@[q as int] as int);
        let gi = order[q];
        let entry = (groups[gi].0.clone(), groups[gi].1);
        let ghost prev = model_tokens@;
        model_tokens.push(entry);
        q = q + 1;
        assert forall|a: int| 0 <= a < q implies #[trigger] groups_view(model_tokens@)[a] == groups_view(groups@)[idx_view(order@)[a]] by {
            if a < q - 1 {
                assert(model_tokens@[a] == prev[a]);
                assert(groups_view(prev)[a] == groups_view(groups@)[idx_view(order@)[a]]);
            }
        }
    }
    assert(ordered_as(groups_view(model_tokens@), groups_view(groups@), group_inputs(groups_view(groups@)))) by {
        assert(groups_view(model_tokens@).len() == groups_view(groups@).len());
    }

    // the three most called tools
    let mut counts: Vec<i64> = Vec::new();
    let mut t: usize = 0;
    while t < acc.tools.len()
        invariant
            t <= acc.tools.len(),
            counts@ == tool_counts(acc.tools@).take(t as int),
        decreases acc.tools.len() - t,
    {
        counts.push(acc.tools[t].1);
        t = t + 1;
        assert(counts@ =~= tool_counts(acc.tools@).take(t as int));
    }
    assert(counts@ =~= tool_counts(acc.tools@));
    let torder = stable_desc_order(&counts);
    let mut tool_list: Vec<(String, i64)> = Vec::new();
    let mut u: usize = 0;
    while u < torder.len() && u < 3
        invariant
            u <= torder.len(),
            u <= 3,
            is_stable_desc_order(counts@, idx_view(torder@)),
            counts@.len() == acc.tools@.len(),
            tool_list@.len() == u,
            forall|a: int| 0 <= a < u ==> #[trigger] tool_list@[a] == acc.tools@[idx_view(torder@)[a]],
        decreases torder.len() - u,
    {
        assert(idx_view(torder@)[u as int] == torder@[u as int] as int);
        let ti = torder[u];
        let entry = (acc.tools[ti].0.clone(), acc.tools[ti].1);
        tool_list.push(entry);
        u = u + 1;
        assert forall|a: int| 0 <= a < u implies #[trigger] tool_list@[a] == acc.tools@[idx_view(torder@)[a]] by {
            if a < u - 1 {
                assert(tool_list@[a] == tool_list@.drop_last()[a]);
            }
        }
    }

    let title = if !crate::text::non_empty(&acc.title) && crate::text::non_empty(&acc.first_msg) {
        shorten(&acc.first_msg)
    } else {
        acc.title.clone()
    };
    SessionStat {
        id: sid.clone(),
        title,
        first_msg: acc.first_msg,
        model: acc.model,
        cwd: acc.cwd,
        turns: acc.turns,
        steps: acc.steps,
        tool_calls: acc.tool_calls,
        created_at: acc.created_at,
        last_ts: acc.last_ts,
        tokens: total,
        model_tokens,
        tools: acc.tools,
        tool_list,
    }
}


// ---------------------------------------------------------------- all workspaces

/// A session whose log could be read, with the last path component of its `cwd`
/// (absent when the path has none).
pub struct SessionInput {
    pub stat: SessionStat,
    pub cwd_base: Option<String>,
}

/// A workspace directory: its (lossily encoded) directory name and its readable sessions.
pub struct WorkspaceInput {
    pub dir_name: String,
    pub sessions: Vec<SessionInput>,
}

/// Sums over the sessions of one workspace.
pub struct WorkspaceSummary {
    /// position of the workspace in the input
    pub source: usize,
    pub name: String,
    pub sessions: i64,
    pub turns: i64,
    pub steps: i64,
    pub tool_calls: i64,
    pub tokens: Tokens,
    pub latest_ts: i64,
}

/// Sums over all workspaces.
pub struct DshTotals {
    pub sessions: i64,
    pub turns: i64,
    pub steps: i64,
    pub tool_calls: i64,
    pub tokens: Tokens,
}

/// The summary over all session logs.
pub struct DshSummary {
    /// the display name of each input workspace
    pub names: Vec<String>,
    /// workspaces with at least one session, most recent first
    pub workspaces: Vec<WorkspaceSummary>,
    /// (workspace, session) positions of the ten most recent sessions, most recent first
    pub recent: Vec<(usize, usize)>,
    pub total: DshTotals,
    /// per-model sums over all sessions, largest billed input first
    pub models: Vec<(String, Tokens)>,
    pub latest_ts: i64,
}

/// Wrapping sum.
pub open spec fn wsum(s: Seq<i64>) -> i64
    decreases s.len(),
{
    if s.len() == 0 {
        0
    } else {
        wadd(wsum(s.drop_last()), s.last())
    }
}

/// Wrapping field-wise sum.
pub open spec fn tokens_sum(s: Seq<Tokens>) -> Tokens
    decreases s.len(),
{
    if s.len() == 0 {
        tokens_zero()
    } else {
        tokens_add(tokens_sum(s.drop_last()), s.last())
    }
}

/// The largest value, and at least 0.
pub open spec fn max0(s: Seq<i64>) -> i64
    decreases s.len(),
{
    if s.len() == 0 {
        0
    } else {
        let m = max0(s.drop_last());
        if s.last() > m {
            s.last()
        } else {
            m
        }
    }
}

/// Display name of a workspace: the `cwd` base name of its first session, else the
/// directory name without surrounding dashes.
pub open spec fn ws_name(w: WorkspaceInput) -> Seq<char> {
    if w.sessions@.len() > 0 && w.sessions@[0].cwd_base is Some {
        w.sessions@[0].cwd_base->0@
    } else {
        trim_char(w.dir_name@, '-')
    }
}

/// The summary of workspace `wi`.
pub open spec fn is_ws_summary(s: WorkspaceSummary, ws: Seq<WorkspaceInput>, wi: int) -> bool {
    let ss = ws[wi].sessions@;
    &&& s.source == wi
    &&& s.name@ == ws_name(ws[wi])
    &&& s.sessions == ss.len()
    &&& s.turns == wsum(ss.map_values(|x: SessionInput| x.stat.turns))
    &&& s.steps == wsum(ss.map_values(|x: SessionInput| x.stat.steps))
    &&& s.tool_calls == wsum(ss.map_values(|x: SessionInput| x.stat.tool_calls))
    &&& s.tokens == tokens_sum(ss.map_values(|x: SessionInput| x.stat.tokens))
    &&& s.latest_ts == max0(ss.map_values(|x: SessionInput| x.stat.last_ts))
}

/// The workspaces that have sessions.
pub open spec fn nonempty_ws(ws: Seq<WorkspaceInput>) -> Seq<int>
    decreases ws.len(),
{
    if ws.len() == 0 {
        Seq::empty()
    } else if ws.last().sessions@.len() > 0 {
        nonempty_ws(ws.drop_last()).push(ws.len() - 1)
    } else {
        nonempty_ws(ws.drop_last())
    }
}

/// Every session as (workspace, session) positions, workspace by workspace.
pub open spec fn all_sessions(ws: Seq<WorkspaceInput>) -> Seq<(int, int)>
    decreases ws.len(),
{
    if ws.len() == 0 {
        Seq::empty()
    } else {
        all_sessions(ws.drop_last()) + Seq::new(ws.last().sessions@.len(), |j: int| (ws.len() - 1, j))
    }
}

/// The session at a (workspace, session) position.
pub open spec fn session_at(ws: Seq<WorkspaceInput>, p: (int, int)) -> SessionStat {
    ws[p.0].sessions@[p.1].stat
}

/// Adds a session's per-model sums into the buckets.
pub open spec fn group_list(g: Seq<(Seq<char>, Tokens)>, l: Seq<(String, Tokens)>) -> Seq<(Seq<char>, Tokens)>
    decreases l.len(),
{
    if l.len() == 0 {
        g
    } else {
        group_add(group_list(g, l.drop_last()), l.last().0@, l.last().1)
    }
}

/// Per-model sums over sessions in the given order.
pub open spec fn group_sessions(ws: Seq<WorkspaceInput>, order: Seq<(int, int)>) -> Seq<(Seq<char>, Tokens)>
    decreases order.len(),
{
    if order.len() == 0 {
        Seq::empty()
    } else {
        group_list(group_sessions(ws, order.drop_last()), session_at(ws, order.last()).model_tokens@)
    }
}

/// The most recent activity in a workspace.
pub open spec fn ws_latest(w: WorkspaceInput) -> i64 {
    max0(w.sessions@.map_values(|x: SessionInput| x.stat.last_ts))
}

/// Sort keys of the workspaces that have sessions.
pub open spec fn ws_keys(ws: Seq<WorkspaceInput>) -> Seq<i64> {
    nonempty_ws(ws).map_values(|wi: int| ws_latest(ws[wi]))
}

/// Sort keys of all sessions.
pub open spec fn session_keys(ws: Seq<WorkspaceInput>) -> Seq<i64> {
    all_sessions(ws).map_values(|p: (int, int)| session_at(ws, p).last_ts)
}

/// All sessions listed in the given order.
pub open spec fn sessions_in(ws: Seq<WorkspaceInput>, order: Seq<int>) -> Seq<(int, int)> {
    order.map_values(|k: int| all_sessions(ws)[k])
}

/// `sum` is the summary of the workspaces `ws`.
pub open spec fn is_dsh_summary(sum: DshSummary, ws: Seq<WorkspaceInput>) -> bool {
    let ne = nonempty_ws(ws);
    let all = all_sessions(ws);
    &&& sum.names@.len() == ws.len()
    &&& forall|i: int| 0 <= i < ws.len() ==> (#[trigger] sum.names@[i])@ == ws_name(ws[i])
    &&& sum.workspaces@.len() == ne.len()
    &&& exists|order: Seq<int>|
        #[trigger] is_stable_desc_order(ws_keys(ws), order)
        && forall|i: int| 0 <= i < ne.len() ==> is_ws_summary(#[trigger] sum.workspaces@[i], ws, ne[order[i]])
    &&& exists|order: Seq<int>|
        #[trigger] is_stable_desc_order(session_keys(ws), order)
        && sum.recent@.len() == (if all.len() < 10 { all.len() as int } else { 10int })
        && (forall|i: int| 0 <= i < sum.recent@.len() ==>
            (#[trigger] sum.recent@[i]).0 as int == all[order[i]].0 && sum.recent@[i].1 as int == all[order[i]].1)
        && ordered_as(groups_view(sum.models@), group_sessions(ws, sessions_in(ws, order)),
            group_inputs(group_sessions(ws, sessions_in(ws, order))))
    &&& sum.total.sessions == wsum(ne.map_values(|wi: int| ws[wi].sessions@.len() as i64))
    &&& sum.total.turns == wsum(ne.map_values(|wi: int| wsum(ws[wi].sessions@.map_values(|x: SessionInput| x.stat.turns))))
    &&& sum.total.steps == wsum(ne.map_values(|wi: int| wsum(ws[wi].sessions@.map_values(|x: SessionInput| x.stat.steps))))
    &&& sum.total.tool_calls == wsum(ne.map_values(|wi: int| wsum(ws[wi].sessions@.map_values(|x: SessionInput| x.stat.tool_calls))))
    &&& sum.total.tokens == tokens_sum(ne.map_values(|wi: int| tokens_sum(ws[wi].sessions@.map_values(|x: SessionInput| x.stat.tokens))))
    &&& sum.latest_ts == max0(ws_keys(ws))
}


impl WorkspaceSummary {
    /// A copy.
    pub fn dup(&self) -> (r: WorkspaceSummary)
        ensures
            r.source == self.source,
            r.name@ == self.name@,
            r.sessions == self.sessions,
            r.turns == self.turns,
            r.steps == self.steps,
            r.tool_calls == self.tool_calls,
            r.tokens == self.tokens,
            r.latest_ts == self.latest_ts,
    {
        WorkspaceSummary {
            source: self.source,
            name: self.name.clone(),
            sessions: self.sessions,
            turns: self.turns,
            steps: self.steps,
            tool_calls: self.tool_calls,
            tokens: self.tokens,
            latest_ts: self.latest_ts,
        }
    }
}

fn workspace_name(w: &WorkspaceInput) -> (r: String)
    ensures
        r@ == ws_name(*w),
{
    if w.sessions.len() > 0 {
        match &w.sessions[0].cwd_base {
            Some(b) => {
                return b.clone();
            },
            None => {},
        }
    }
    trim_matches_char(&w.dir_name, '-')
}

fn summarize_ws(ws: &Vec<WorkspaceInput>, wi: usize) -> (r: WorkspaceSummary)
    requires
        wi < ws@.len(),
        ws@[wi as int].sessions@.len() <= i64::MAX,
    ensures
        is_ws_summary(r, ws@, wi as int),
{
    let w = &ws[wi];
    let ghost ss = w.sessions@;
    let mut turns: i64 = 0;
    let mut steps: i64 = 0;
    let mut tool_calls: i64 = 0;
    let mut tokens = zero_tokens();
    let mut latest: i64 = 0;
    let mut k: usize = 0;
    while k < w.sessions.len()
        invariant
            k <= w.sessions.len(),
            ss == w.sessions@,
            turns == wsum(ss.take(k as int).map_values(|x: SessionInput| x.stat.turns)),
            steps == wsum(ss.take(k as int).map_values(|x: SessionInput| x.stat.steps)),
            tool_calls == wsum(ss.take(k as int).map_values(|x: SessionInput| x.stat.tool_calls)),
            tokens == tokens_sum(ss.take(k as int).map_values(|x: SessionInput| x.stat.tokens)),
            latest == max0(ss.take(k as int).map_values(|x: SessionInput| x.stat.last_ts)),
        decreases w.sessions.len() - k,
    {
        let st = &w.sessions[k].stat;
        proof {
            let t1 = ss.take(k + 1);
            assert(t1.drop_last() =~= ss.take(k as int));
            assert(t1.map_values(|x: SessionInput| x.stat.turns).drop_last() =~= ss.take(k as int).map_values(|x: SessionInput| x.stat.turns));
            assert(t1.map_values(|x: SessionInput| x.stat.steps).drop_last() =~= ss.take(k as int).map_values(|x: SessionInput| x.stat.steps));
            assert(t1.map_values(|x: SessionInput| x.stat.tool_calls).drop_last() =~= ss.take(k as int).map_values(|x: SessionInput| x.stat.tool_calls));
            assert(t1.map_values(|x: SessionInput| x.stat.tokens).drop_last() =~= ss.take(k as int).map_values(|x: SessionInput| x.stat.tokens));
            assert(t1.map_values(|x: SessionInput| x.stat.last_ts).drop_last() =~= ss.take(k as int).map_values(|x: SessionInput| x.stat.last_ts));
        }
        turns = wrapping_add(turns, st.turns);
        steps = wrapping_add(steps, st.steps);
        tool_calls = wrapping_add(tool_calls, st.tool_calls);
        add_tokens(&mut tokens, &st.tokens);
        if st.last_ts > latest {
            latest = st.last_ts;
        }
        k = k + 1;
    }
    assert(ss.take(ss.len() as int) =~= ss);
    WorkspaceSummary {
        source: wi,
        name: workspace_name(w),
        sessions: w.sessions.len() as i64,
        turns,
        steps,
        tool_calls,
        tokens,
        latest_ts: latest,
    }
}


/// Positions as integers.
pub open spec fn pairs_view(v: Seq<(usize, usize)>) -> Seq<(int, int)> {
    v.map_values(|p: (usize, usize)| (p.0 as int, p.1 as int))
}

/// Every listed session position is valid.
pub proof fn lemma_all_sessions_valid(ws: Seq<WorkspaceInput>)
    ensures
        forall|k: int|
            0 <= k < all_sessions(ws).len() ==> 0 <= (#[trigger] all_sessions(ws)[k]).0 < ws.len()
                && 0 <= all_sessions(ws)[k].1 < ws[all_sessions(ws)[k].0].sessions@.len(),
    decreases ws.len(),
{
    if ws.len() > 0 {
        lemma_all_sessions_valid(ws.drop_last());
        let a = all_sessions(ws.drop_last());
        assert forall|k: int| 0 <= k < all_sessions(ws).len() implies 0 <= (#[trigger] all_sessions(ws)[k]).0 < ws.len()
            && 0 <= all_sessions(ws)[k].1 < ws[all_sessions(ws)[k].0].sessions@.len() by {
            if k < a.len() {
                assert(all_sessions(ws)[k] == a[k]);
                assert(ws.drop_last()[a[k].0] == ws[a[k].0]);
            }
        }
    }
}

/// The summary's totals are the sums over the workspaces it lists (sessions, turns,
/// steps, tool calls and tokens), and its latest activity is the latest of theirs
/// (0 without workspaces).
pub proof fn law_summary_totals_over_workspaces(ws: Seq<WorkspaceInput>, sum: DshSummary)
    requires
        is_dsh_summary(sum, ws),
    ensures
        sum.total.sessions == wsum(sum.workspaces@.map_values(|w: WorkspaceSummary| w.sessions)),
        sum.total.turns == wsum(sum.workspaces@.map_values(|w: WorkspaceSummary| w.turns)),
        sum.total.steps == wsum(sum.workspaces@.map_values(|w: WorkspaceSummary| w.steps)),
        sum.total.tool_calls == wsum(sum.workspaces@.map_values(|w: WorkspaceSummary| w.tool_calls)),
        sum.total.tokens == tokens_sum(sum.workspaces@.map_values(|w: WorkspaceSummary| w.tokens)),
        sum.latest_ts == max0(sum.workspaces@.map_values(|w: WorkspaceSummary| w.latest_ts)),
{
    let ne = nonempty_ws(ws);
    let order = choose|order: Seq<int>|
        #[trigger] is_stable_desc_order(ws_keys(ws), order)
        && forall|i: int| 0 <= i < ne.len() ==> is_ws_summary(#[trigger] sum.workspaces@[i], ws, ne[order[i]]);
    let out = sum.workspaces@;
    assert(ws_keys(ws).len() == ne.len());

    let a = out.map_values(|w: WorkspaceSummary| w.sessions);
    let sa = ne.map_values(|wi: int| ws[wi].sessions@.len() as i64);
    assert forall|i: int| 0 <= i < a.len() implies #[trigger] a[i] == sa[order[i]] by {
        assert(is_ws_summary(out[i], ws, ne[order[i]]));
    }
    lemma_wsum_reorder(a, sa, order);

    let b = out.map_values(|w: WorkspaceSummary| w.turns);
    let sb = ne.map_values(|wi: int| wsum(ws[wi].sessions@.map_values(|x: SessionInput| x.stat.turns)));
    assert forall|i: int| 0 <= i < b.len() implies #[trigger] b[i] == sb[order[i]] by {
        assert(is_ws_summary(out[i], ws, ne[order[i]]));
    }
    lemma_wsum_reorder(b, sb, order);

    let c = out.map_values(|w: WorkspaceSummary| w.steps);
    let sc = ne.map_values(|wi: int| wsum(ws[wi].sessions@.map_values(|x: SessionInput| x.stat.steps)));
    assert forall|i: int| 0 <= i < c.len() implies #[trigger] c[i] == sc[order[i]] by {
        assert(is_ws_summary(out[i], ws, ne[order[i]]));
    }
    lemma_wsum_reorder(c, sc, order);

    let d = out.map_values(|w: WorkspaceSummary| w.tool_calls);
    let sd = ne.map_values(|wi: int| wsum(ws[wi].sessions@.map_values(|x: SessionInput| x.stat.tool_calls)));
    assert forall|i: int| 0 <= i < d.len() implies #[trigger] d[i] == sd[order[i]] by {
        assert(is_ws_summary(out[i], ws, ne[order[i]]));
    }
    lemma_wsum_reorder(d, sd, order);

    let e = out.map_values(|w: WorkspaceSummary| w.tokens);
    let se = ne.map_values(|wi: int| tokens_sum(ws[wi].sessions@.map_values(|x: SessionInput| x.stat.tokens)));
    assert forall|i: int| 0 <= i < e.len() implies #[trigger] e[i] == se[order[i]] by {
        assert(is_ws_summary(out[i], ws, ne[order[i]]));
    }
    lemma_tokens_reorder(e, se, order);

    let f = out.map_values(|w: WorkspaceSummary| w.latest_ts);
    let sf = ws_keys(ws);
    assert forall|i: int| 0 <= i < f.len() implies #[trigger] f[i] == sf[order[i]] by {
        assert(is_ws_summary(out[i], ws, ne[order[i]]));
    }
    lemma_max0_reorder(f, sf, order);
}

proof fn lemma_group_list(g: Seq<(Seq<char>, Tokens)>, l: Seq<(String, Tokens)>)
    ensures
        group_total(group_list(g, l)) == tokens_add(group_total(g), group_total(groups_view(l))),
        groups_unique(g) ==> groups_unique(group_list(g, l)),
    decreases l.len(),
{
    if l.len() == 0 {
        assert(groups_view(l).map_values(|p: (Seq<char>, Tokens)| p.1) =~= Seq::<Tokens>::empty());
        lemma_tokens_swap(tokens_zero(), group_total(g), tokens_zero());
    } else {
        lemma_group_list(g, l.drop_last());
        lemma_group_add(group_list(g, l.drop_last()), l.last().0@, l.last().1);
        let v = groups_view(l).map_values(|p: (Seq<char>, Tokens)| p.1);
        assert(v.drop_last() =~= groups_view(l.drop_last()).map_values(|p: (Seq<char>, Tokens)| p.1));
        assert(v.last() == l.last().1);
        lemma_tokens_swap(group_total(g), group_total(groups_view(l.drop_last())), l.last().1);
    }
}

/// Each session's own buckets add up to its tokens (what `stat_session` gives).
pub open spec fn sessions_partitioned(ws: Seq<WorkspaceInput>) -> bool {
    forall|wi: int, si: int|
        0 <= wi < ws.len() && 0 <= si < ws[wi].sessions@.len() ==> group_total(
            groups_view(#[trigger] ws[wi].sessions@[si].stat.model_tokens@),
        ) == ws[wi].sessions@[si].stat.tokens
}

/// Tokens of the sessions at the given positions.
pub open spec fn sessions_tokens(ws: Seq<WorkspaceInput>, q: Seq<(int, int)>) -> Seq<Tokens> {
    q.map_values(|p: (int, int)| session_at(ws, p).tokens)
}

proof fn lemma_group_sessions(ws: Seq<WorkspaceInput>, q: Seq<(int, int)>)
    requires
        forall|k: int| 0 <= k < q.len() ==> 0 <= (#[trigger] q[k]).0 < ws.len() && 0 <= q[k].1 < ws[q[k].0].sessions@.len(),
    ensures
        groups_unique(group_sessions(ws, q)),
        sessions_partitioned(ws) ==> group_total(group_sessions(ws, q)) == tokens_sum(sessions_tokens(ws, q)),
    decreases q.len(),
{
    if q.len() > 0 {
        assert forall|k: int| 0 <= k < q.drop_last().len() implies 0 <= (#[trigger] q.drop_last()[k]).0 < ws.len()
            && 0 <= q.drop_last()[k].1 < ws[q.drop_last()[k].0].sessions@.len() by {
            assert(q.drop_last()[k] == q[k]);
        }
        lemma_group_sessions(ws, q.drop_last());
        let p = q.last();
        assert(q[q.len() - 1] == p);
        lemma_group_list(group_sessions(ws, q.drop_last()), session_at(ws, p).model_tokens@);
        assert(sessions_tokens(ws, q).drop_last() =~= sessions_tokens(ws, q.drop_last()));
        if sessions_partitioned(ws) {
            assert(group_total(groups_view(ws[p.0].sessions@[p.1].stat.model_tokens@)) == ws[p.0].sessions@[p.1].stat.tokens);
        }
    }
}

proof fn lemma_nonempty_ws_range(ws: Seq<WorkspaceInput>)
    ensures
        forall|k: int| 0 <= k < nonempty_ws(ws).len() ==> 0 <= #[trigger] nonempty_ws(ws)[k] < ws.len(),
    decreases ws.len(),
{
    if ws.len() > 0 {
        lemma_nonempty_ws_range(ws.drop_last());
        let a = nonempty_ws(ws.drop_last());
        assert forall|k: int| 0 <= k < nonempty_ws(ws).len() implies 0 <= #[trigger] nonempty_ws(ws)[k] < ws.len() by {
            if k < a.len() {
                assert(nonempty_ws(ws)[k] == a[k]);
            }
        }
    }
}

/// The summed tokens of workspace `wi`.
pub open spec fn ws_tokens(ws: Seq<WorkspaceInput>, wi: int) -> Tokens {
    tokens_sum(ws[wi].sessions@.map_values(|x: SessionInput| x.stat.tokens))
}

/// The summed tokens of each workspace with sessions, in input order.
pub open spec fn ws_token_sums(ws: Seq<WorkspaceInput>) -> Seq<Tokens> {
    nonempty_ws(ws).map_values(|wi: int| ws_tokens(ws, wi))
}

/// Summing each workspace's sessions and then the workspaces gives the sum over all
/// sessions.
proof fn lemma_tokens_flatten(ws: Seq<WorkspaceInput>)
    ensures
        tokens_sum(sessions_tokens(ws, all_sessions(ws))) == tokens_sum(ws_token_sums(ws)),
    decreases ws.len(),
{
    if ws.len() == 0 {
        assert(sessions_tokens(ws, all_sessions(ws)) =~= Seq::<Tokens>::empty());
        assert(ws_token_sums(ws) =~= Seq::<Tokens>::empty());
    } else {
        let n = ws.len() as int;
        let dl = ws.drop_last();
        lemma_tokens_flatten(dl);
        lemma_all_sessions_valid(dl);
        lemma_nonempty_ws_range(dl);
        let a = all_sessions(dl);
        let lt = ws.last().sessions@.map_values(|x: SessionInput| x.stat.tokens);
        assert(ws_tokens(ws, n - 1) == tokens_sum(lt));
        let t = sessions_tokens(ws, all_sessions(ws));
        assert(t =~= sessions_tokens(dl, a) + lt) by {
            assert forall|k: int| 0 <= k < t.len() implies #[trigger] t[k] == (sessions_tokens(dl, a) + lt)[k] by {
                if k < a.len() {
                    assert(all_sessions(ws)[k] == a[k]);
                    assert(dl[a[k].0] == ws[a[k].0]);
                } else {
                    assert(all_sessions(ws)[k] == (n - 1, k - a.len()));
                }
            }
        }
        lemma_tokens_concat(sessions_tokens(dl, a), lt);
        let ne = nonempty_ws(dl);
        let prev = ne.map_values(|wi: int| ws_tokens(ws, wi));
        assert(prev =~= ws_token_sums(dl)) by {
            assert forall|k: int| 0 <= k < ne.len() implies #[trigger] prev[k] == ws_token_sums(dl)[k] by {
                assert(dl[ne[k]] == ws[ne[k]]);
            }
        }
        if ws.last().sessions@.len() > 0 {
            assert(ws_token_sums(ws) =~= prev.push(tokens_sum(lt)));
            assert(ws_token_sums(ws).drop_last() =~= prev);
        } else {
            assert(lt =~= Seq::<Tokens>::empty());
            assert(ws_token_sums(ws) =~= prev);
            lemma_tokens_swap(tokens_zero(), tokens_sum(sessions_tokens(dl, a)), tokens_zero());
        }
    }
}

/// A per-session count, read off each session's statistics by `f`, at the given positions.
pub open spec fn session_vals(ws: Seq<WorkspaceInput>, q: Seq<(int, int)>, f: spec_fn(SessionStat) -> i64) -> Seq<i64> {
    q.map_values(|p: (int, int)| f(session_at(ws, p)))
}

/// Each workspace with sessions: the wrapping sum of `f` over its sessions.
pub open spec fn ws_val_sums(ws: Seq<WorkspaceInput>, f: spec_fn(SessionStat) -> i64) -> Seq<i64> {
    nonempty_ws(ws).map_values(|wi: int| wsum(ws[wi].sessions@.map_values(|x: SessionInput| f(x.stat))))
}

/// Summing a count over each workspace's sessions and then over the workspaces gives the
/// sum over all sessions.
proof fn lemma_wsum_flatten(ws: Seq<WorkspaceInput>, f: spec_fn(SessionStat) -> i64)
    ensures
        wsum(session_vals(ws, all_sessions(ws), f)) == wsum(ws_val_sums(ws, f)),
    decreases ws.len(),
{
    if ws.len() == 0 {
        assert(session_vals(ws, all_sessions(ws), f) =~= Seq::<i64>::empty());
        assert(ws_val_sums(ws, f) =~= Seq::<i64>::empty());
    } else {
        let n = ws.len() as int;
        let dl = ws.drop_last();
        lemma_wsum_flatten(dl, f);
        lemma_all_sessions_valid(dl);
        lemma_nonempty_ws_range(dl);
        let a = all_sessions(dl);
        let lt = ws.last().sessions@.map_values(|x: SessionInput| f(x.stat));
        let t = session_vals(ws, all_sessions(ws), f);
        assert(t =~= session_vals(dl, a, f) + lt) by {
            assert forall|k: int| 0 <= k < t.len() implies #[trigger] t[k] == (session_vals(dl, a, f) + lt)[k] by {
                if k < a.len() {
                    assert(all_sessions(ws)[k] == a[k]);
                    assert(dl[a[k].0] == ws[a[k].0]);
                } else {
                    assert(all_sessions(ws)[k] == (n - 1, k - a.len()));
                }
            }
        }
        lemma_wsum_concat(session_vals(dl, a, f), lt);
        let ne = nonempty_ws(dl);
        let prev = ne.map_values(|wi: int| wsum(ws[wi].sessions@.map_values(|x: SessionInput| f(x.stat))));
        assert(prev =~= ws_val_sums(dl, f)) by {
            assert forall|k: int| 0 <= k < ne.len() implies #[trigger] prev[k] == ws_val_sums(dl, f)[k] by {
                assert(dl[ne[k]] == ws[ne[k]]);
            }
        }
        if ws.last().sessions@.len() > 0 {
            assert(ws_val_sums(ws, f) =~= prev.push(wsum(lt)));
            assert(ws_val_sums(ws, f).drop_last() =~= prev);
        } else {
            assert(lt =~= Seq::<i64>::empty());
            assert(ws_val_sums(ws, f) =~= prev);
            lemma_wadd_swap(wsum(session_vals(dl, a, f)), 0, 0);
        }
    }
}

proof fn lemma_nonempty_ws_nonempty(ws: Seq<WorkspaceInput>)
    ensures
        forall|k: int| 0 <= k < nonempty_ws(ws).len() ==> ws[#[trigger] nonempty_ws(ws)[k]].sessions@.len() > 0,
    decreases ws.len(),
{
    if ws.len() > 0 {
        lemma_nonempty_ws_nonempty(ws.drop_last());
        lemma_nonempty_ws_range(ws.drop_last());
        let a = nonempty_ws(ws.drop_last());
        assert forall|k: int| 0 <= k < nonempty_ws(ws).len() implies ws[#[trigger] nonempty_ws(ws)[k]].sessions@.len() > 0 by {
            if k < a.len() {
                assert(nonempty_ws(ws)[k] == a[k]);
                assert(ws.drop_last()[a[k]] == ws[a[k]]);
            }
        }
    }
}

/// Every workspace the summary lists stands for an input workspace with sessions, and
/// its session count, turns, steps, tool calls and tokens are the (wrapping) sums of its
/// own sessions' statistics; the summary's total turns, steps, tool calls and tokens are
/// the sums of those of every session of every workspace.
pub proof fn law_summary_sums_sessions(ws: Seq<WorkspaceInput>, sum: DshSummary)
    requires
        is_dsh_summary(sum, ws),
    ensures
        forall|i: int|
            0 <= i < sum.workspaces@.len() ==> {
                let w = #[trigger] sum.workspaces@[i];
                let ss = ws[w.source as int].sessions@;
                &&& w.source < ws.len()
                &&& ss.len() > 0
                &&& w.sessions == ss.len()
                &&& w.turns == wsum(ss.map_values(|x: SessionInput| x.stat.turns))
                &&& w.steps == wsum(ss.map_values(|x: SessionInput| x.stat.steps))
                &&& w.tool_calls == wsum(ss.map_values(|x: SessionInput| x.stat.tool_calls))
                &&& w.tokens == tokens_sum(ss.map_values(|x: SessionInput| x.stat.tokens))
            },
        sum.total.turns == wsum(all_sessions(ws).map_values(|p: (int, int)| session_at(ws, p).turns)),
        sum.total.steps == wsum(all_sessions(ws).map_values(|p: (int, int)| session_at(ws, p).steps)),
        sum.total.tool_calls == wsum(all_sessions(ws).map_values(|p: (int, int)| session_at(ws, p).tool_calls)),
        sum.total.tokens == tokens_sum(all_sessions(ws).map_values(|p: (int, int)| session_at(ws, p).tokens)),
{
    let ne = nonempty_ws(ws);
    let order = choose|order: Seq<int>|
        #[trigger] is_stable_desc_order(ws_keys(ws), order)
        && forall|i: int| 0 <= i < ne.len() ==> is_ws_summary(#[trigger] sum.workspaces@[i], ws, ne[order[i]]);
    assert(ws_keys(ws).len() == ne.len());
    lemma_nonempty_ws_range(ws);
    lemma_nonempty_ws_nonempty(ws);
    assert forall|i: int| 0 <= i < sum.workspaces@.len() implies {
        let w = #[trigger] sum.workspaces@[i];
        let ss = ws[w.source as int].sessions@;
        &&& w.source < ws.len()
        &&& ss.len() > 0
        &&& w.sessions == ss.len()
        &&& w.turns == wsum(ss.map_values(|x: SessionInput| x.stat.turns))
        &&& w.steps == wsum(ss.map_values(|x: SessionInput| x.stat.steps))
        &&& w.tool_calls == wsum(ss.map_values(|x: SessionInput| x.stat.tool_calls))
        &&& w.tokens == tokens_sum(ss.map_values(|x: SessionInput| x.stat.tokens))
    } by {
        assert(is_ws_summary(sum.workspaces@[i], ws, ne[order[i]]));
        assert(0 <= order[i] < ne.len());
    }
    let fa = |s: SessionStat| s.turns;
    let fb = |s: SessionStat| s.steps;
    let fc = |s: SessionStat| s.tool_calls;
    lemma_wsum_flatten(ws, fa);
    lemma_wsum_flatten(ws, fb);
    lemma_wsum_flatten(ws, fc);
    assert(session_vals(ws, all_sessions(ws), fa) =~= all_sessions(ws).map_values(|p: (int, int)| session_at(ws, p).turns));
    assert(session_vals(ws, all_sessions(ws), fb) =~= all_sessions(ws).map_values(|p: (int, int)| session_at(ws, p).steps));
    assert(session_vals(ws, all_sessions(ws), fc) =~= all_sessions(ws).map_values(|p: (int, int)| session_at(ws, p).tool_calls));
    assert(ws_val_sums(ws, fa) =~= ne.map_values(|wi: int| wsum(ws[wi].sessions@.map_values(|x: SessionInput| x.stat.turns)))) by {
        assert forall|k: int| #![trigger ne[k]] 0 <= k < ne.len() implies ws[ne[k]].sessions@.map_values(|x: SessionInput| fa(x.stat))
            =~= ws[ne[k]].sessions@.map_values(|x: SessionInput| x.stat.turns) by {}
    }
    assert(ws_val_sums(ws, fb) =~= ne.map_values(|wi: int| wsum(ws[wi].sessions@.map_values(|x: SessionInput| x.stat.steps)))) by {
        assert forall|k: int| #![trigger ne[k]] 0 <= k < ne.len() implies ws[ne[k]].sessions@.map_values(|x: SessionInput| fb(x.stat))
            =~= ws[ne[k]].sessions@.map_values(|x: SessionInput| x.stat.steps) by {}
    }
    assert(ws_val_sums(ws, fc) =~= ne.map_values(|wi: int| wsum(ws[wi].sessions@.map_values(|x: SessionInput| x.stat.tool_calls)))) by {
        assert forall|k: int| #![trigger ne[k]] 0 <= k < ne.len() implies ws[ne[k]].sessions@.map_values(|x: SessionInput| fc(x.stat))
            =~= ws[ne[k]].sessions@.map_values(|x: SessionInput| x.stat.tool_calls) by {}
    }
    lemma_tokens_flatten(ws);
    assert(sessions_tokens(ws, all_sessions(ws)) =~= all_sessions(ws).map_values(|p: (int, int)| session_at(ws, p).tokens));
    assert(ws_token_sums(ws) =~= ne.map_values(
        |wi: int| tokens_sum(ws[wi].sessions@.map_values(|x: SessionInput| x.stat.tokens)),
    ));
}

/// The summary's per-model buckets have distinct names and come largest billed input
/// first; when each session's own buckets add up to its tokens (as `stat_session` gives
/// them), the summary's buckets add up to its total tokens.
pub proof fn law_summary_models_partition_tokens(ws: Seq<WorkspaceInput>, sum: DshSummary)
    requires
        is_dsh_summary(sum, ws),
    ensures
        groups_unique(groups_view(sum.models@)),
        forall|i: int, j: int|
            0 <= i < j < sum.models@.len() ==> #[trigger] sum.models@[i].1.input >= #[trigger] sum.models@[j].1.input,
        sessions_partitioned(ws) ==> group_total(groups_view(sum.models@)) == sum.total.tokens,
{
    let all = all_sessions(ws);
    let order = choose|order: Seq<int>|
        #[trigger] is_stable_desc_order(session_keys(ws), order)
        && sum.recent@.len() == (if all.len() < 10 { all.len() as int } else { 10int })
        && (forall|i: int| 0 <= i < sum.recent@.len() ==>
            (#[trigger] sum.recent@[i]).0 as int == all[order[i]].0 && sum.recent@[i].1 as int == all[order[i]].1)
        && ordered_as(groups_view(sum.models@), group_sessions(ws, sessions_in(ws, order)),
            group_inputs(group_sessions(ws, sessions_in(ws, order))));
    let q = sessions_in(ws, order);
    lemma_all_sessions_valid(ws);
    assert(session_keys(ws).len() == all.len());
    assert forall|k: int| 0 <= k < q.len() implies 0 <= (#[trigger] q[k]).0 < ws.len() && 0 <= q[k].1 < ws[q[k].0].sessions@.len() by {
        assert(q[k] == all[order[k]]);
    }
    lemma_group_sessions(ws, q);
    let gs = group_sessions(ws, q);
    let g = groups_view(sum.models@);
    lemma_ordered_groups(g, gs);
    assert forall|i: int, j: int|
        0 <= i < j < sum.models@.len() implies #[trigger] sum.models@[i].1.input >= #[trigger] sum.models@[j].1.input by {
        assert(g[i].1 == sum.models@[i].1);
        assert(g[j].1 == sum.models@[j].1);
        assert(g[i].1.input >= g[j].1.input);
    }
    if sessions_partitioned(ws) {
        let out = sessions_tokens(ws, q);
        let src = sessions_tokens(ws, all);
        assert forall|i: int| 0 <= i < out.len() implies #[trigger] out[i] == src[order[i]] by {
            assert(q[i] == all[order[i]]);
        }
        lemma_tokens_reorder(out, src, order);
        lemma_tokens_flatten(ws);
        assert(ws_token_sums(ws) =~= nonempty_ws(ws).map_values(
            |wi: int| tokens_sum(ws[wi].sessions@.map_values(|x: SessionInput| x.stat.tokens)),
        ));
    }
}

/// Workspace sums over the workspaces with sessions (input order).
pub open spec fn ws_sums_ok(summ: Seq<WorkspaceSummary>, ne: Seq<int>, ws: Seq<WorkspaceInput>) -> bool {
    summ.len() == ne.len() && forall|j: int| 0 <= j < summ.len() ==> is_ws_summary(#[trigger] summ[j], ws, ne[j])
}

/// Orders per-model buckets by billed input, largest first.
fn sort_groups(groups: &Vec<(String, Tokens)>) -> (r: Vec<(String, Tokens)>)
    ensures
        ordered_as(groups_view(r@), groups_view(groups@), group_inputs(groups_view(groups@))),
{
    let mut keys: Vec<i64> = Vec::new();
    let mut j: usize = 0;
    while j < groups.len()
        invariant
            j <= groups.len(),
            keys@ == group_inputs(groups_view(groups@)).take(j as int),
        decreases groups.len() - j,
    {
        keys.push(groups[j].1.input);
        j = j + 1;
        assert(keys@ =~= group_inputs(groups_view(groups@)).take(j as int));
    }
    assert(keys@ =~= group_inputs(groups_view(groups@)));
    let order = stable_desc_order(&keys);
    let mut out: Vec<(String, Tokens)> = Vec::new();
    let mut q: usize = 0;
    while q < order.len()
        invariant
            q <= order.len(),
            is_stable_desc_order(keys@, idx_view(order@)),
            keys@.len() == groups@.len(),
            out@.len() == q,
            forall|a: int| 0 <= a < q ==> #[trigger] groups_view(out@)[a] == groups_view(groups@)[idx_view(order@)[a]],
        decreases order.len() - q,
    {
        assert(idx_view(order@)[q as int] == order@[q as int] as int);
        let gi = order[q];
        let entry = (groups[gi].0.clone(), groups[gi].1);
        let ghost prev = out@;
        out.push(entry);
        q = q + 1;
        assert forall|a: int| 0 <= a < q implies #[trigger] groups_view(out@)[a] == groups_view(groups@)[idx_view(order@)[a]] by {
            if a < q - 1 {
                assert(out@[a] == prev[a]);
                assert(groups_view(prev)[a] == groups_view(groups@)[idx_view(order@)[a]]);
            }
        }
    }
    assert(groups_view(out@).len() == groups_view(groups@).len());
    out
}

/// Summary over all workspaces (inputs in directory order).
pub fn summarize(ws: &Vec<WorkspaceInput>) -> (sum: DshSummary)
    requires
        forall|i: int| 0 <= i < ws@.len() ==> (#[trigger] ws@[i]).sessions@.len() <= i64::MAX,
    ensures
        is_dsh_summary(sum, ws@),
{
    // display names
    let mut names: Vec<String> = Vec::new();
    let mut i: usize = 0;
    while i < ws.len()
        invariant
            i <= ws.len(),
            names@.len() == i,
            forall|j: int| 0 <= j < i ==> (#[trigger] names@[j])@ == ws_name(ws@[j]),
        decreases ws.len() - i,
    {
        names.push(workspace_name(&ws[i]));
        i = i + 1;
    }

    // per-workspace sums, totals
    let mut ne: Vec<usize> = Vec::new();
    let mut summ: Vec<WorkspaceSummary> = Vec::new();
    let mut t_sessions: i64 = 0;
    let mut t_turns: i64 = 0;
    let mut t_steps: i64 = 0;
    let mut t_tool_calls: i64 = 0;
    let mut t_tokens = zero_tokens();
    let mut latest: i64 = 0;
    i = 0;
    while i < ws.len()
        invariant
            i <= ws.len(),
            forall|k: int| 0 <= k < ws@.len() ==> (#[trigger] ws@[k]).sessions@.len() <= i64::MAX,
            idx_view(ne@) == nonempty_ws(ws@.take(i as int)),
            ws_sums_ok(summ@, idx_view(ne@), ws@),
            t_sessions == wsum(idx_view(ne@).map_values(|wi: int| ws@[wi].sessions@.len() as i64)),
            t_turns == wsum(idx_view(ne@).map_values(|wi: int| wsum(ws@[wi].sessions@.map_values(|x: SessionInput| x.stat.turns)))),
            t_steps == wsum(idx_view(ne@).map_values(|wi: int| wsum(ws@[wi].sessions@.map_values(|x: SessionInput| x.stat.steps)))),
            t_tool_calls == wsum(idx_view(ne@).map_values(|wi: int| wsum(ws@[wi].sessions@.map_values(|x: SessionInput| x.stat.tool_calls)))),
            t_tokens == tokens_sum(idx_view(ne@).map_values(|wi: int| tokens_sum(ws@[wi].sessions@.map_values(|x: SessionInput| x.stat.tokens)))),
            latest == max0(idx_view(ne@).map_values(|wi: int| ws_latest(ws@[wi]))),
        decreases ws.len() - i,
    {
        assert(ws@.take(i + 1).drop_last() =~= ws@.take(i as int));
        if ws[i].sessions.len() > 0 {
            let w = summarize_ws(ws, i);
            let ghost ne0 = idx_view(ne@);
            let ghost summ0 = summ@;
            t_sessions = wrapping_add(t_sessions, w.sessions);
            t_turns = wrapping_add(t_turns, w.turns);
            t_steps = wrapping_add(t_steps, w.steps);
            t_tool_calls = wrapping_add(t_tool_calls, w.tool_calls);
            add_tokens(&mut t_tokens, &w.tokens);
            if w.latest_ts > latest {
                latest = w.latest_ts;
            }
            ne.push(i);
            summ.push(w);
            proof {
                let ne1 = idx_view(ne@);
                assert(ne1 =~= ne0.push(i as int));
                assert(ne1.map_values(|wi: int| ws@[wi].sessions@.len() as i64).drop_last() =~= ne0.map_values(|wi: int| ws@[wi].sessions@.len() as i64));
                assert(ne1.map_values(|wi: int| wsum(ws@[wi].sessions@.map_values(|x: SessionInput| x.stat.turns))).drop_last() =~= ne0.map_values(|wi: int| wsum(ws@[wi].sessions@.map_values(|x: SessionInput| x.stat.turns))));
                assert(ne1.map_values(|wi: int| wsum(ws@[wi].sessions@.map_values(|x: SessionInput| x.stat.steps))).drop_last() =~= ne0.map_values(|wi: int| wsum(ws@[wi].sessions@.map_values(|x: SessionInput| x.stat.steps))));
                assert(ne1.map_values(|wi: int| wsum(ws@[wi].sessions@.map_values(|x: SessionInput| x.stat.tool_calls))).drop_last() =~= ne0.map_values(|wi: int| wsum(ws@[wi].sessions@.map_values(|x: SessionInput| x.stat.tool_calls))));
                assert(ne1.map_values(|wi: int| tokens_sum(ws@[wi].sessions@.map_values(|x: SessionInput| x.stat.tokens))).drop_last() =~= ne0.map_values(|wi: int| tokens_sum(ws@[wi].sessions@.map_values(|x: SessionInput| x.stat.tokens))));
                assert(ne1.map_values(|wi: int| ws_latest(ws@[wi])).drop_last() =~= ne0.map_values(|wi: int| ws_latest(ws@[wi])));
                assert forall|j: int| 0 <= j < summ@.len() implies is_ws_summary(#[trigger] summ@[j], ws@, ne1[j]) by {
                    if j < summ0.len() {
                        assert(summ@[j] == summ0[j]);
                    }
                }
            }
        } else {
            assert(nonempty_ws(ws@.take(i + 1)) == nonempty_ws(ws@.take(i as int)));
        }
        i = i + 1;
    }
    assert(ws@.take(ws.len() as int) =~= ws@);
    let ghost ne_s = idx_view(ne@);

    // workspaces, most recent first
    let mut wkeys: Vec<i64> = Vec::new();
    let mut j: usize = 0;
    while j < summ.len()
        invariant
            j <= summ.len(),
            ws_sums_ok(summ@, ne_s, ws@),
            wkeys@ == ws_keys(ws@).take(j as int),
            ne_s == nonempty_ws(ws@),
        decreases summ.len() - j,
    {
        assert(is_ws_summary(summ@[j as int], ws@, ne_s[j as int]));
        wkeys.push(summ[j].latest_ts);
        j = j + 1;
        assert(wkeys@ =~= ws_keys(ws@).take(j as int));
    }
    assert(wkeys@ =~= ws_keys(ws@));
    let worder = stable_desc_order(&wkeys);
    let mut workspaces: Vec<WorkspaceSummary> = Vec::new();
    let mut q: usize = 0;
    while q < worder.len()
        invariant
            q <= worder.len(),
            ws_sums_ok(summ@, ne_s, ws@),
            is_stable_desc_order(wkeys@, idx_view(worder@)),
            wkeys@.len() == summ@.len(),
            workspaces@.len() == q,
            forall|a: int| 0 <= a < q ==> is_ws_summary(#[trigger] workspaces@[a], ws@, ne_s[idx_view(worder@)[a]]),
        decreases worder.len() - q,
    {
        assert(idx_view(worder@)[q as int] == worder@[q as int] as int);
        let wi = worder[q];
        let w = summ[wi].dup();
        assert(is_ws_summary(summ@[wi as int], ws@, ne_s[wi as int]));
        let ghost prev = workspaces@;
        workspaces.push(w);
        q = q + 1;
        assert forall|a: int| 0 <= a < q implies is_ws_summary(#[trigger] workspaces@[a], ws@, ne_s[idx_view(worder@)[a]]) by {
            if a < q - 1 {
                assert(workspaces@[a] == prev[a]);
            }
        }
    }
    assert(latest == max0(ws_keys(ws@)));
    assert(exists|order: Seq<int>|
        #[trigger] is_stable_desc_order(ws_keys(ws@), order)
        && forall|i: int| 0 <= i < ne_s.len() ==> is_ws_summary(#[trigger] workspaces@[i], ws@, ne_s[order[i]])) by {
        assert(is_stable_desc_order(ws_keys(ws@), idx_view(worder@)));
    }

    // every session, and the most recent ones
    let mut flat: Vec<(usize, usize)> = Vec::new();
    let mut skeys: Vec<i64> = Vec::new();
    i = 0;
    while i < ws.len()
        invariant
            i <= ws.len(),
            pairs_view(flat@) == all_sessions(ws@.take(i as int)),
            skeys@ == pairs_view(flat@).map_values(|p: (int, int)| session_at(ws@, p).last_ts),
        decreases ws.len() - i,
    {
        assert(ws@.take(i + 1).drop_last() =~= ws@.take(i as int));
        let ghost base = pairs_view(flat@);
        let mut k: usize = 0;
        while k < ws[i].sessions.len()
            invariant
                i < ws.len(),
                k <= ws@[i as int].sessions@.len(),
                pairs_view(flat@) == base + Seq::new(k as nat, |jj: int| (i as int, jj)),
                skeys@ == pairs_view(flat@).map_values(|p: (int, int)| session_at(ws@, p).last_ts),
            decreases ws[i as int].sessions@.len() - k,
        {
            let ghost prevf = flat@;
            flat.push((i, k));
            skeys.push(ws[i].sessions[k].stat.last_ts);
            assert(pairs_view(flat@) =~= pairs_view(prevf).push((i as int, k as int)));
            k = k + 1;
            assert(pairs_view(flat@) =~= base + Seq::new(k as nat, |jj: int| (i as int, jj)));
            assert(skeys@ =~= pairs_view(flat@).map_values(|p: (int, int)| session_at(ws@, p).last_ts));
        }
        i = i + 1;
        assert(ws@.take(i as int).last() == ws@[i - 1]);
        assert(pairs_view(flat@) =~= all_sessions(ws@.take(i as int)));
    }
    assert(ws@.take(ws.len() as int) =~= ws@);
    assert(skeys@ =~= session_keys(ws@));
    let sorder = stable_desc_order(&skeys);
    let ghost all = all_sessions(ws@);
    let mut recent: Vec<(usize, usize)> = Vec::new();
    q = 0;
    while q < sorder.len() && q < 10
        invariant
            q <= sorder.len(),
            q <= 10,
            is_stable_desc_order(skeys@, idx_view(sorder@)),
            skeys@.len() == flat@.len(),
            pairs_view(flat@) == all,
            recent@.len() == q,
            forall|a: int| 0 <= a < q ==> (#[trigger] recent@[a]).0 as int == all[idx_view(sorder@)[a]].0
                && recent@[a].1 as int == all[idx_view(sorder@)[a]].1,
        decreases sorder.len() - q,
    {
        assert(idx_view(sorder@)[q as int] == sorder@[q as int] as int);
        let fi = sorder[q];
        assert(pairs_view(flat@)[fi as int] == all[fi as int]);
        let ghost prev = recent@;
        recent.push(flat[fi]);
        q = q + 1;
        assert forall|a: int| 0 <= a < q implies (#[trigger] recent@[a]).0 as int == all[idx_view(sorder@)[a]].0
            && recent@[a].1 as int == all[idx_view(sorder@)[a]].1 by {
            if a < q - 1 {
                assert(recent@[a] == prev[a]);
            }
        }
    }

    // per-model sums over all sessions, most recent session first
    let ghost sorted = sessions_in(ws@, idx_view(sorder@));
    let mut groups: Vec<(String, Tokens)> = Vec::new();
    q = 0;
    while q < sorder.len()
        invariant
            q <= sorder.len(),
            is_stable_desc_order(skeys@, idx_view(sorder@)),
            skeys@.len() == flat@.len(),
            pairs_view(flat@) == all,
            all == all_sessions(ws@),
            sorted == sessions_in(ws@, idx_view(sorder@)),
            groups_view(groups@) == group_sessions(ws@, sorted.take(q as int)),
        decreases sorder.len() - q,
    {
        assert(idx_view(sorder@)[q as int] == sorder@[q as int] as int);
        let fi = sorder[q];
        assert(pairs_view(flat@)[fi as int] == all[fi as int]);
        let (wi, si) = flat[fi];
        assert(sorted[q as int] == all[idx_view(sorder@)[q as int]]);
        assert(sorted[q as int] == (wi as int, si as int));
        proof {
            lemma_all_sessions_valid(ws@);
            assert(all[fi as int] == all_sessions(ws@)[fi as int]);
        }
        let mt = &ws[wi].sessions[si].stat.model_tokens;
        let ghost g0 = groups_view(groups@);
        let mut k: usize = 0;
        while k < mt.len()
            invariant
                k <= mt.len(),
                groups_view(groups@) == group_list(g0, mt@.take(k as int)),
            decreases mt.len() - k,
        {
            assert(mt@.take(k + 1).drop_last() =~= mt@.take(k as int));
            group_into(&mut groups, mt[k].0.clone(), &mt[k].1);
            k = k + 1;
        }
        assert(mt@.take(mt.len() as int) =~= mt@);
        assert(sorted.take(q + 1).drop_last() =~= sorted.take(q as int));
        q = q + 1;
    }
    assert(sorted.take(sorder.len() as int) =~= sorted);
    let models = sort_groups(&groups);
    assert(is_stable_desc_order(session_keys(ws@), idx_view(sorder@)));

    DshSummary {
        names,
        workspaces,
        recent,
        total: DshTotals {
            sessions: t_sessions,
            turns: t_turns,
            steps: t_steps,
            tool_calls: t_tool_calls,
            tokens: t_tokens,
        },
        models,
        latest_ts: latest,
    }
}

} // verus!
