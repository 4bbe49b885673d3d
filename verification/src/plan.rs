//! Volcengine Ark plan quotas: coding-plan windows (with the local aggregation window
//! each one covers) and agent-plan windows.
use vstd::prelude::*;
use crate::json::JsonVal;
use crate::text::{owned, str_is};
use crate::time::{utc_civil, utc_midnight, utc_midnight_ms, utc_ymd};

verus! {

/// Milliseconds in a day.
pub const MS_PER_DAY: i64 = 86_400_000;

/// One element of `QuotaUsage` in a coding-plan reply.
pub struct QuotaItem {
    /// `Level`, when a string
    pub level: Option<String>,
    /// `Percent`, as sent
    pub percent: Option<JsonVal>,
    /// `ResetTimestamp` (seconds), when an integer
    pub reset_timestamp: Option<i64>,
}

/// A coding-plan reply (`GetCodingPlanUsage`).
pub struct CodingPlanReply {
    /// `QuotaUsage`, when an array
    pub quota_usage: Option<Vec<QuotaItem>>,
    /// `Status`, when a string
    pub status: Option<String>,
}

/// A coding-plan window as shown, with the start of the local token window it covers.
pub struct CodingBucket {
    pub key: String,
    pub label: String,
    /// the used percentage as sent (rounding is done where it is displayed)
    pub percent: Option<JsonVal>,
    pub reset_ms: i64,
    pub window_start_ms: i64,
    pub needs_config: bool,
}

/// The display label of a coding-plan level, if the level is shown.
pub open spec fn coding_label(level: Seq<char>) -> Option<Seq<char>> {
    if level == "session"@ {
        Some("会话"@)
    } else if level == "weekly"@ {
        Some("每周"@)
    } else if level == "monthly"@ {
        Some("每月"@)
    } else {
        None
    }
}

/// `o` or zero.
pub open spec fn int_or_zero(o: Option<i64>) -> int {
    match o {
        Some(v) => v as int,
        None => 0,
    }
}

/// The reset time in milliseconds (0 when unknown).
pub open spec fn reset_ms_of(ts: Option<i64>) -> int {
    int_or_zero(ts) * 1000
}

/// The larger of two values.
pub open spec fn max_int(a: int, b: int) -> int {
    if a < b {
        b
    } else {
        a
    }
}

/// Start of the local aggregation window of a plan window that resets at `reset_ms`,
/// and whether the plan start is needed but not configured:
/// a session window is the five hours before the reset; a weekly window is the seven
/// days before it, not before the plan start; a monthly window starts at midnight UTC
/// on the same day of the previous month, not before the plan start.
pub open spec fn window_start(level: Seq<char>, reset_ms: int, plan_start: Option<i64>) -> (int, bool) {
    if reset_ms == 0 {
        (0, false)
    } else if level == "session"@ {
        (reset_ms - 18_000_000, false)
    } else if level == "weekly"@ {
        match plan_start {
            Some(ps) => (max_int(reset_ms - 604_800_000, ps as int), false),
            None => (0, true),
        }
    } else if level == "monthly"@ {
        match (utc_civil(reset_ms), plan_start) {
            (Some((y, m, d)), Some(ps)) => {
                let (py, pm) = if m - 1 < 1 {
                    (y - 1, 12int)
                } else {
                    (y, m - 1)
                };
                match utc_midnight(py, pm, d) {
                    Some(start) => (max_int(start, ps as int), false),
                    None => (0, false),
                }
            },
            _ => (0, true),
        }
    } else {
        (0, false)
    }
}

/// The arithmetic on this item, when its level is shown, stays within `i64`.
pub open spec fn item_in_range(it: QuotaItem, plan_start: Option<i64>) -> bool {
    let r = reset_ms_of(it.reset_timestamp);
    let level = match it.level {
        Some(l) => l@,
        None => Seq::empty(),
    };
    coding_label(level) is Some ==> {
        &&& i64::MIN <= r <= i64::MAX
        &&& (r != 0 && level == "session"@) ==> i64::MIN <= r - 18_000_000
        &&& (r != 0 && level == "weekly"@ && plan_start is Some) ==> i64::MIN <= r - 604_800_000
    }
}

/// The bucket a quota item gives, if its level is shown.
pub open spec fn coding_bucket_ok(b: CodingBucket, it: QuotaItem, plan_start: Option<i64>) -> bool {
    let level = match it.level {
        Some(l) => l@,
        None => Seq::empty(),
    };
    let r = reset_ms_of(it.reset_timestamp);
    &&& coding_label(level) == Some(b.label@)
    &&& b.key@ == level
    &&& b.percent == it.percent
    &&& b.reset_ms == r
    &&& (b.window_start_ms as int, b.needs_config) == window_start(level, r, plan_start)
}

/// The shown items of a reply, in order.
pub open spec fn shown_items(items: Seq<QuotaItem>) -> Seq<QuotaItem>
    decreases items.len(),
{
    if items.len() == 0 {
        Seq::empty()
    } else {
        let prev = shown_items(items.drop_last());
        let level = match items.last().level {
            Some(l) => l@,
            None => Seq::empty(),
        };
        if coding_label(level) is Some {
            prev.push(items.last())
        } else {
            prev
        }
    }
}

/// The quota items of a reply.
pub open spec fn reply_items(cp: CodingPlanReply) -> Seq<QuotaItem> {
    match cp.quota_usage {
        Some(v) => v@,
        None => Seq::empty(),
    }
}

fn window_start_exec(level: &String, reset_ms: i64, plan_start: Option<i64>) -> (r: (i64, bool))
    requires
        reset_ms != 0 && level@ == "session"@ ==> i64::MIN <= reset_ms - 18_000_000,
        reset_ms != 0 && level@ == "weekly"@ && plan_start is Some ==> i64::MIN <= reset_ms - 604_800_000,
    ensures
        (r.0 as int, r.1) == window_start(level@, reset_ms as int, plan_start),
{
    if reset_ms == 0 {
        return (0, false);
    }
    if str_is(level, "session") {
        (reset_ms - 18_000_000, false)
    } else if str_is(level, "weekly") {
        match plan_start {
            Some(ps) => {
                let start = reset_ms - 7 * MS_PER_DAY;
                (if start < ps {
                    ps
                } else {
                    start
                }, false)
            },
            None => (0, true),
        }
    } else if str_is(level, "monthly") {
        match (utc_ymd(reset_ms), plan_start) {
            (Some((y, m, d)), Some(ps)) => {
                let (py, pm): (i32, u32) = if m < 2 {
                    (y - 1, 12)
                } else {
                    (y, m - 1)
                };
                match utc_midnight_ms(py, pm, d) {
                    Some(start) => (if start < ps {
                        ps
                    } else {
                        start
                    }, false),
                    None => (0, false),
                }
            },
            _ => (0, true),
        }
    } else {
        (0, false)
    }
}

/// The status of a coding-plan reply and its shown windows.
pub fn parse_coding_plan(cp: &CodingPlanReply, plan_start: Option<i64>) -> (r: (String, Vec<CodingBucket>))
    requires
        forall|i: int| 0 <= i < reply_items(*cp).len() ==> item_in_range(#[trigger] reply_items(*cp)[i], plan_start),
    ensures
        r.0@ == match cp.status {
            Some(s) => s@,
            None => Seq::empty(),
        },
        r.1@.len() == shown_items(reply_items(*cp)).len(),
        forall|i: int| 0 <= i < r.1@.len() ==> coding_bucket_ok(#[trigger] r.1@[i], shown_items(reply_items(*cp))[i], plan_start),
{
    let mut buckets: Vec<CodingBucket> = Vec::new();
    let ghost items = reply_items(*cp);
    match &cp.quota_usage {
        Some(v) => {
            let mut i: usize = 0;
            while i < v.len()
                invariant
                    i <= v.len(),
                    items == v@,
                    forall|k: int| 0 <= k < items.len() ==> item_in_range(#[trigger] items[k], plan_start),
                    buckets@.len() == shown_items(items.take(i as int)).len(),
                    forall|k: int| 0 <= k < buckets@.len() ==> coding_bucket_ok(#[trigger] buckets@[k], shown_items(items.take(i as int))[k], plan_start),
                decreases v.len() - i,
            {
                assert(items.take(i + 1).drop_last() =~= items.take(i as int));
                assert(items.take(i + 1).last() == items[i as int]);
                let it = &v[i];
                assert(item_in_range(items[i as int], plan_start));
                let level = match &it.level {
                    Some(l) => l.clone(),
                    None => String::new(),
                };
                proof {
                    reveal_strlit("");
                    assert(""@ =~= Seq::<char>::empty());
                }
                let label = if str_is(&level, "session") {
                    Some(owned("会话"))
                } else if str_is(&level, "weekly") {
                    Some(owned("每周"))
                } else if str_is(&level, "monthly") {
                    Some(owned("每月"))
                } else {
                    None
                };
                match label {
                    Some(label) => {
                        let ts = match it.reset_timestamp {
                            Some(t) => t,
                            None => 0,
                        };
                        let reset_ms: i64 = if ts != 0 {
                            ts * 1000
                        } else {
                            0
                        };
                        let (ws, needs) = window_start_exec(&level, reset_ms, plan_start);
                        let percent = match &it.percent {
                            Some(p) => Some(p.dup()),
                            None => None,
                        };
                        let b = CodingBucket { key: level, label, percent, reset_ms, window_start_ms: ws, needs_config: needs };
                        let ghost prev = buckets@;
                        buckets.push(b);
                        assert forall|k: int| 0 <= k < buckets@.len() implies coding_bucket_ok(#[trigger] buckets@[k], shown_items(items.take(i + 1))[k], plan_start) by {
                            if k < prev.len() {
                                assert(buckets@[k] == prev[k]);
                            }
                        }
                    },
                    None => {},
                }
                i = i + 1;
            }
            assert(items.take(v.len() as int) =~= items);
        },
        None => {},
    }
    let status = match &cp.status {
        Some(s) => s.clone(),
        None => String::new(),
    };
    (status, buckets)
}


/// One window of an agent-plan reply.
pub struct AfpWindow {
    /// `Quota`, when an integer
    pub quota: Option<i64>,
    /// `Used`, when an integer
    pub used: Option<i64>,
    /// `ResetTime`, when an integer
    pub reset_time: Option<i64>,
}

/// An agent-plan reply (`GetAFPUsage`): its three windows, when present.
pub struct AgentPlanReply {
    /// `AFPFiveHour`
    pub five_hour: Option<AfpWindow>,
    /// `AFPWeekly`
    pub weekly: Option<AfpWindow>,
    /// `AFPMonthly`
    pub monthly: Option<AfpWindow>,
}

/// An agent-plan window as shown (percentages are derived where they are displayed).
pub struct AgentBucket {
    pub key: String,
    pub label: String,
    pub quota: i64,
    pub used: i64,
    pub remaining: i64,
    pub reset_ms: i64,
}

/// The window's `Quota - Used` stays within `i64`.
pub open spec fn afp_in_range(w: Option<AfpWindow>) -> bool {
    match w {
        Some(b) => i64::MIN <= int_or_zero(b.quota) - int_or_zero(b.used) <= i64::MAX,
        None => true,
    }
}

/// The bucket shown for a present window.
pub open spec fn agent_bucket_ok(b: AgentBucket, key: Seq<char>, label: Seq<char>, w: AfpWindow) -> bool {
    &&& b.key@ == key
    &&& b.label@ == label
    &&& b.quota == int_or_zero(w.quota)
    &&& b.used == int_or_zero(w.used)
    &&& b.remaining == max_int(0, int_or_zero(w.quota) - int_or_zero(w.used))
    &&& b.reset_ms == int_or_zero(w.reset_time)
}

/// The present windows, in the order five-hour, weekly, monthly, with their keys and labels.
pub open spec fn agent_windows(afp: AgentPlanReply) -> Seq<(Seq<char>, Seq<char>, AfpWindow)> {
    let a = match afp.five_hour {
        Some(w) => seq![("AFPFiveHour"@, "5小时"@, w)],
        None => Seq::empty(),
    };
    let b = match afp.weekly {
        Some(w) => seq![("AFPWeekly"@, "每周"@, w)],
        None => Seq::empty(),
    };
    let c = match afp.monthly {
        Some(w) => seq![("AFPMonthly"@, "每月"@, w)],
        None => Seq::empty(),
    };
    a + b + c
}

fn agent_bucket(key: &str, label: &str, w: &AfpWindow) -> (b: AgentBucket)
    requires
        afp_in_range(Some(*w)),
    ensures
        agent_bucket_ok(b, key@, label@, *w),
{
    let quota = match w.quota {
        Some(q) => q,
        None => 0,
    };
    let used = match w.used {
        Some(u) => u,
        None => 0,
    };
    let d = quota - used;
    AgentBucket {
        key: owned(key),
        label: owned(label),
        quota,
        used,
        remaining: if d > 0 {
            d
        } else {
            0
        },
        reset_ms: match w.reset_time {
            Some(r) => r,
            None => 0,
        },
    }
}

/// The shown windows of an agent-plan reply.
pub fn parse_agent_plan(afp: &AgentPlanReply) -> (r: Vec<AgentBucket>)
    requires
        afp_in_range(afp.five_hour),
        afp_in_range(afp.weekly),
        afp_in_range(afp.monthly),
    ensures
        r@.len() == agent_windows(*afp).len(),
        forall|i: int|
            0 <= i < r@.len() ==> agent_bucket_ok(
                #[trigger] r@[i],
                agent_windows(*afp)[i].0,
                agent_windows(*afp)[i].1,
                agent_windows(*afp)[i].2,
            ),
{
    let mut out: Vec<AgentBucket> = Vec::new();
    match &afp.five_hour {
        Some(w) => out.push(agent_bucket("AFPFiveHour", "5小时", w)),
        None => {},
    }
    match &afp.weekly {
        Some(w) => out.push(agent_bucket("AFPWeekly", "每周", w)),
        None => {},
    }
    match &afp.monthly {
        Some(w) => out.push(agent_bucket("AFPMonthly", "每月", w)),
        None => {},
    }
    proof {
        let ws = agent_windows(*afp);
        assert forall|i: int| 0 <= i < out@.len() implies agent_bucket_ok(#[trigger] out@[i], ws[i].0, ws[i].1, ws[i].2) by {
        }
    }
    out
}


/// The start of the window whose per-model breakdown a coding bucket shows: its window
/// start, unless the window needs configuring or its start is unknown (zero).
pub fn models_start(b: &CodingBucket) -> (r: Option<i64>)
    ensures
        r == if !b.needs_config && b.window_start_ms != 0 {
            Some(b.window_start_ms)
        } else {
            None
        },
{
    if !b.needs_config && b.window_start_ms != 0 {
        Some(b.window_start_ms)
    } else {
        None
    }
}


/// The level of a quota item, or the empty text.
pub open spec fn item_level(it: QuotaItem) -> Seq<char> {
    match it.level {
        Some(l) => l@,
        None => Seq::empty(),
    }
}

fn item_fits(it: &QuotaItem, plan_start: Option<i64>) -> (r: bool)
    ensures
        r == item_in_range(*it, plan_start),
{
    let (session, weekly, monthly) = match &it.level {
        Some(l) => (str_is(l, "session"), str_is(l, "weekly"), str_is(l, "monthly")),
        None => (false, false, false),
    };
    proof {
        reveal_strlit("session");
        reveal_strlit("weekly");
        reveal_strlit("monthly");
        assert("session"@.len() == 7);
        assert("weekly"@.len() == 6);
        assert("monthly"@.len() == 7);
    }
    let ghost level = item_level(*it);
    assert(session == (level == "session"@));
    assert(weekly == (level == "weekly"@));
    assert(monthly == (level == "monthly"@));
    if !session && !weekly && !monthly {
        return true;
    }
    let t: i128 = match it.reset_timestamp {
        Some(v) => v as i128,
        None => 0,
    };
    let r: i128 = t * 1000;
    assert(r == reset_ms_of(it.reset_timestamp));
    if r < i64::MIN as i128 || r > i64::MAX as i128 {
        return false;
    }
    if r != 0 && session && r - 18_000_000 < i64::MIN as i128 {
        return false;
    }
    if r != 0 && weekly && plan_start.is_some() && r - 604_800_000 < i64::MIN as i128 {
        return false;
    }
    true
}

/// Whether every quota item of a coding-plan reply keeps its arithmetic within `i64`
/// (what `parse_coding_plan` needs).
pub fn coding_reply_fits(cp: &CodingPlanReply, plan_start: Option<i64>) -> (r: bool)
    ensures
        r == forall|i: int| 0 <= i < reply_items(*cp).len() ==> item_in_range(#[trigger] reply_items(*cp)[i], plan_start),
{
    match &cp.quota_usage {
        Some(v) => {
            let mut i: usize = 0;
            while i < v.len()
                invariant
                    i <= v.len(),
                    reply_items(*cp) == v@,
                    forall|k: int| 0 <= k < i ==> item_in_range(#[trigger] v@[k], plan_start),
                decreases v.len() - i,
            {
                if !item_fits(&v[i], plan_start) {
                    return false;
                }
                i = i + 1;
            }
            true
        },
        None => true,
    }
}

fn window_fits(w: &Option<AfpWindow>) -> (r: bool)
    ensures
        r == afp_in_range(*w),
{
    match w {
        Some(b) => {
            let q: i128 = match b.quota {
                Some(v) => v as i128,
                None => 0,
            };
            let u: i128 = match b.used {
                Some(v) => v as i128,
                None => 0,
            };
            let d = q - u;
            i64::MIN as i128 <= d && d <= i64::MAX as i128
        },
        None => true,
    }
}

/// Whether every window of an agent-plan reply keeps `Quota - Used` within `i64`
/// (what `parse_agent_plan` needs).
pub fn agent_reply_fits(afp: &AgentPlanReply) -> (r: bool)
    ensures
        r == (afp_in_range(afp.five_hour) && afp_in_range(afp.weekly) && afp_in_range(afp.monthly)),
{
    window_fits(&afp.five_hour) && window_fits(&afp.weekly) && window_fits(&afp.monthly)
}

} // verus!
