//! The opencode Go plan: the usage windows read out of the dashboard page (the data a
//! server-rendered page hydrates from, or its `data-slot` markup), and what the
//! background refresher stores.
use vstd::prelude::*;
use crate::config::{lowercase, to_lower};
use crate::json::{JsonLeaf, JsonVal};
use crate::providers::Refresh;
use crate::text::{
    chars_of, chars_view, contains_seq, join_by, join_with, owned, replace_char, replace_chars,
    split_by, split_str, squash, squash_ws, str_contains, str_is, string_of, trim_string, trim_ws,
};

verus! {

// ---------------------------------------------------------------- regular expressions

/// Whether `regex::Regex::new` accepts a pattern (it refuses bad syntax and patterns
/// over its size limit).
pub uninterp spec fn regex_compiles(pattern: Seq<char>) -> bool;

/// The capture groups of the first (leftmost) match of a pattern in a text, as
/// `regex::Regex::captures` finds it: `None` without a match, else one entry per group
/// (group 0 is the whole match), `None` for a group that took no part in the match.
pub uninterp spec fn regex_first_captures(pattern: Seq<char>, text: Seq<char>) -> Option<Seq<Option<Seq<char>>>>;

/// An optional string by its view.
pub open spec fn opt_text(g: Option<String>) -> Option<Seq<char>> {
    match g {
        Some(s) => Some(s@),
        None => None,
    }
}

/// Captured groups by their views.
pub open spec fn groups_view(m: Option<Vec<Option<String>>>) -> Option<Seq<Option<Seq<char>>>> {
    match m {
        Some(v) => Some(v@.map_values(|g: Option<String>| opt_text(g))),
        None => None,
    }
}

/// Compiles `pattern` with `regex::Regex::new` and searches `text` with `Regex::captures`.
/// Trusted: `None` exactly when the pattern does not compile; otherwise the groups of the
/// first match, which are what `regex_first_captures` names.
#[verifier::external_body]
fn first_captures(pattern: &str, text: &str) -> (r: Option<Option<Vec<Option<String>>>>)
    ensures
        (r is Some) == regex_compiles(pattern@),
        r matches Some(m) ==> groups_view(m) == regex_first_captures(pattern@, text@),
{
    match regex::Regex::new(pattern) {
        Err(_) => None,
        Ok(re) => Some(re.captures(text).map(|c| c.iter().map(|g| g.map(|m| m.as_str().to_string())).collect())),
    }
}

/// Group `i` of a match, when there is a match and the group took part in it.
pub open spec fn group_of(c: Option<Seq<Option<Seq<char>>>>, i: int) -> Option<Seq<char>> {
    match c {
        Some(g) => if 0 <= i < g.len() {
            g[i]
        } else {
            None
        },
        None => None,
    }
}

fn group(m: &Option<Vec<Option<String>>>, i: usize) -> (r: Option<String>)
    ensures
        opt_text(r) == group_of(groups_view(*m), i as int),
{
    match m {
        Some(v) => if i < v.len() {
            match &v[i] {
                Some(s) => Some(s.clone()),
                None => None,
            }
        } else {
            None
        },
        None => None,
    }
}


// ---------------------------------------------------------------- reset times

/// One unit found in a reset time: the number written before it and the unit's length
/// in seconds.
pub struct Amount {
    pub number: String,
    pub unit_secs: u32,
}

impl View for Amount {
    type V = (Seq<char>, u32);

    open spec fn view(&self) -> (Seq<char>, u32) {
        (self.number@, self.unit_secs)
    }
}

/// When a window resets: now, or after the amounts found (to be added up).
pub enum ResetIn {
    Now,
    Amounts(Vec<Amount>),
}

/// The mathematical content of a `ResetIn`.
pub enum ResetSpec {
    Now,
    Amounts(Seq<(Seq<char>, u32)>),
}

/// Amounts by their views.
pub open spec fn amounts_view(v: Seq<Amount>) -> Seq<(Seq<char>, u32)> {
    v.map_values(|a: Amount| a@)
}

impl View for ResetIn {
    type V = ResetSpec;

    open spec fn view(&self) -> ResetSpec {
        match self {
            ResetIn::Now => ResetSpec::Now,
            ResetIn::Amounts(v) => ResetSpec::Amounts(amounts_view(v@)),
        }
    }
}

/// An optional reset time by its view.
pub open spec fn opt_reset(r: Option<ResetIn>) -> Option<ResetSpec> {
    match r {
        Some(x) => Some(x@),
        None => None,
    }
}

/// A reset text made comparable: lower-cased, em dashes read as spaces, white space
/// collapsed to single spaces and trimmed.
pub open spec fn human_text(text: Seq<char>) -> Seq<char> {
    squash_ws(replace_char(lowercase(text), '\u{2014}', ' '))
}

/// The phrases that mean the window resets now.
pub open spec fn is_now_phrase(n: Seq<char>) -> bool {
    n == "reset-now"@ || n == "reset now"@ || n == "now"@ || n == "resets now"@
}

/// The number before a unit, found by a pattern whose first group is that number
/// (nothing when the pattern does not compile or does not match).
pub open spec fn unit_amount(n: Seq<char>, pattern: Seq<char>) -> Option<Seq<char>> {
    if regex_compiles(pattern) {
        group_of(regex_first_captures(pattern, n), 1)
    } else {
        None
    }
}

/// `acc` with the amount appended, when there is one.
pub open spec fn with_amount(acc: Seq<(Seq<char>, u32)>, a: Option<Seq<char>>, secs: u32) -> Seq<(Seq<char>, u32)> {
    match a {
        Some(x) => acc.push((x, secs)),
        None => acc,
    }
}

/// The days, hours, minutes and seconds found in a normalised reset text, in that order.
pub open spec fn amounts_in(n: Seq<char>) -> Seq<(Seq<char>, u32)> {
    let d = with_amount(Seq::empty(), unit_amount(n, "([\\d.]+)\\s*days?"@), 86400);
    let h = with_amount(d, unit_amount(n, "([\\d.]+)\\s*hours?"@), 3600);
    let m = with_amount(h, unit_amount(n, "([\\d.]+)\\s*minutes?"@), 60);
    with_amount(m, unit_amount(n, "([\\d.]+)\\s*seconds?"@), 1)
}

/// A reset text such as "6 days 2 hours 30 minutes" read: a "now" phrase resets now;
/// otherwise the units found, and nothing when no unit is found.
pub open spec fn human_reset_of(text: Seq<char>) -> Option<ResetSpec> {
    let n = human_text(text);
    if is_now_phrase(n) {
        Some(ResetSpec::Now)
    } else if amounts_in(n).len() == 0 {
        None
    } else {
        Some(ResetSpec::Amounts(amounts_in(n)))
    }
}

fn push_amount(acc: &mut Vec<Amount>, n: &String, pattern: &str, secs: u32)
    ensures
        amounts_view(final(acc)@) == with_amount(amounts_view(old(acc)@), unit_amount(n@, pattern@), secs),
{
    let m = first_captures(pattern, n.as_str());
    match m {
        Some(caps) => {
            let g = group(&caps, 1);
            match g {
                Some(x) => {
                    let ghost a0 = amounts_view(acc@);
                    acc.push(Amount { number: x, unit_secs: secs });
                    assert(amounts_view(acc@) =~= a0.push((x@, secs)));
                },
                None => {},
            }
        },
        None => {},
    }
}

/// Reads a reset text (see `human_reset_of`).
pub fn human_reset(text: &String) -> (r: Option<ResetIn>)
    ensures
        opt_reset(r) == human_reset_of(text@),
{
    let lower = to_lower(text);
    let v = chars_of(lower.as_str());
    let v2 = replace_chars(&v, '\u{2014}', ' ');
    let v3 = squash(&v2);
    let n = string_of(&v3);
    if str_is(&n, "reset-now") || str_is(&n, "reset now") || str_is(&n, "now") || str_is(&n, "resets now") {
        return Some(ResetIn::Now);
    }
    let mut acc: Vec<Amount> = Vec::new();
    proof {
        assert(amounts_view(acc@) =~= Seq::<(Seq<char>, u32)>::empty());
    }
    push_amount(&mut acc, &n, "([\\d.]+)\\s*days?", 86400);
    push_amount(&mut acc, &n, "([\\d.]+)\\s*hours?", 3600);
    push_amount(&mut acc, &n, "([\\d.]+)\\s*minutes?", 60);
    push_amount(&mut acc, &n, "([\\d.]+)\\s*seconds?", 1);
    if acc.len() == 0 {
        None
    } else {
        Some(ResetIn::Amounts(acc))
    }
}


// ---------------------------------------------------------------- usage windows

/// A usage window as written in the page, before its numbers are read.
pub enum WindowText {
    /// from the hydration data: the used percentage and the seconds until the reset
    Ssr { pct: String, reset_secs: String },
    /// from the `data-slot` markup: the used value and the reset time
    Slot { value: String, reset: ResetIn },
}

/// The mathematical content of a `WindowText`.
pub enum WindowSpec {
    Ssr { pct: Seq<char>, reset_secs: Seq<char> },
    Slot { value: Seq<char>, reset: ResetSpec },
}

impl View for WindowText {
    type V = WindowSpec;

    open spec fn view(&self) -> WindowSpec {
        match self {
            WindowText::Ssr { pct, reset_secs } => WindowSpec::Ssr { pct: pct@, reset_secs: reset_secs@ },
            WindowText::Slot { value, reset } => WindowSpec::Slot { value: value@, reset: reset@ },
        }
    }
}

/// An optional window by its view.
pub open spec fn opt_window(w: Option<WindowText>) -> Option<WindowSpec> {
    match w {
        Some(x) => Some(x@),
        None => None,
    }
}

/// The hydration-data pattern for a field, with the percentage first or the reset first.
pub open spec fn ssr_pattern(field: Seq<char>, pct_first: bool) -> Seq<char> {
    field + ":\\$R\\[\\d+\\]=\\{[^}]*"@ + if pct_first {
        "usagePercent:([\\d.]+)[^}]*resetInSec:([\\d.]+)"@
    } else {
        "resetInSec:([\\d.]+)[^}]*usagePercent:([\\d.]+)"@
    }
}

/// `s` with every occurrence of `pat` removed (`str::replace(pat, "")`; the empty pattern
/// leaves `s` as it is).
pub open spec fn remove_all(s: Seq<char>, pat: Seq<char>) -> Seq<char> {
    if pat.len() == 0 {
        s
    } else {
        join_with(split_str(s, pat), Seq::empty())
    }
}

/// The window a label names: the first of "rolling", "weekly", "monthly" it contains.
pub open spec fn window_key(label: Seq<char>) -> Option<Seq<char>> {
    if contains_seq(label, "rolling"@) {
        Some("rolling"@)
    } else if contains_seq(label, "weekly"@) {
        Some("weekly"@)
    } else if contains_seq(label, "monthly"@) {
        Some("monthly"@)
    } else {
        None
    }
}

/// What one `usage-item` piece of the markup decides when looking for the window `want`:
/// `None` to go on with the next piece, `Some(w)` to stop with `w`. A piece without a
/// label, a value or a reset slot is passed over, as is one whose label names another
/// window; a label that names no window, or a reset time that cannot be read, stops
/// with nothing.
pub open spec fn slot_step(item: Seq<char>, want: Seq<char>) -> Option<Option<WindowSpec>> {
    let label_p = "data-slot=\"usage-label\">([^<]+)<"@;
    let value_p = "data-slot=\"usage-value\">[^0-9]*([\\d.]+)"@;
    let reset_p = "data-slot=\"(reset-time|reset-now)\">([\\s\\S]*?)</span>"@;
    if !regex_compiles(label_p) {
        Some(None)
    } else {
        match group_of(regex_first_captures(label_p, item), 1) {
            None => None,
            Some(l) => match window_key(lowercase(trim_ws(l))) {
                None => Some(None),
                Some(k) => if k != want {
                    None
                } else if !regex_compiles(value_p) {
                    Some(None)
                } else {
                    match group_of(regex_first_captures(value_p, item), 1) {
                        None => None,
                        Some(v) => if !regex_compiles(reset_p) {
                            Some(None)
                        } else {
                            let rc = regex_first_captures(reset_p, item);
                            match (group_of(rc, 1), group_of(rc, 2)) {
                                (Some(kind), Some(t)) => if kind == "reset-now"@ {
                                    Some(Some(WindowSpec::Slot { value: v, reset: ResetSpec::Now }))
                                } else {
                                    match human_reset_of(t) {
                                        Some(h) => Some(Some(WindowSpec::Slot { value: v, reset: h })),
                                        None => Some(None),
                                    }
                                },
                                _ => None,
                            }
                        },
                    }
                },
            },
        }
    }
}

/// The window found in the markup pieces, the first piece that decides (see `slot_step`).
pub open spec fn slot_window(items: Seq<Seq<char>>, want: Seq<char>) -> Option<WindowSpec>
    decreases items.len(),
{
    if items.len() == 0 {
        None
    } else {
        match slot_step(items[0], want) {
            Some(w) => w,
            None => slot_window(items.drop_first(), want),
        }
    }
}

/// The window `field` (such as "rollingUsage") of the dashboard page: from the hydration
/// data, with the percentage written first and then with the reset written first;
/// otherwise from the `data-slot` markup, cut at each `usage-item` (the text before the
/// first one is not an item). A pattern that does not compile ends the search with nothing.
pub open spec fn window_of(html: Seq<char>, field: Seq<char>) -> Option<WindowSpec> {
    let p1 = ssr_pattern(field, true);
    let p2 = ssr_pattern(field, false);
    let c1 = regex_first_captures(p1, html);
    let c2 = regex_first_captures(p2, html);
    if !regex_compiles(p1) {
        None
    } else if group_of(c1, 1) is Some && group_of(c1, 2) is Some {
        Some(WindowSpec::Ssr { pct: group_of(c1, 1)->0, reset_secs: group_of(c1, 2)->0 })
    } else if !regex_compiles(p2) {
        None
    } else if group_of(c2, 1) is Some && group_of(c2, 2) is Some {
        Some(WindowSpec::Ssr { pct: group_of(c2, 2)->0, reset_secs: group_of(c2, 1)->0 })
    } else {
        slot_window(split_str(html, "data-slot=\"usage-item\""@).drop_first(), remove_all(field, "Usage"@))
    }
}

/// Removes every occurrence of `pat` (see `remove_all`).
pub fn remove_str(s: &str, pat: &str) -> (r: String)
    ensures
        r@ == remove_all(s@, pat@),
{
    let v = chars_of(s);
    let p = chars_of(pat);
    if p.len() == 0 {
        return string_of(&v);
    }
    let pieces = split_by(&v, &p);
    let sep: Vec<char> = Vec::new();
    let joined = join_by(&pieces, &sep);
    proof {
        assert(sep@ =~= Seq::<char>::empty());
    }
    string_of(&joined)
}

fn slot_item(item: &String, want: &String) -> (r: Option<Option<WindowText>>)
    ensures
        match r {
            Some(w) => slot_step(item@, want@) == Some(opt_window(w)),
            None => slot_step(item@, want@) is None,
        },
{
    let lm = first_captures("data-slot=\"usage-label\">([^<]+)<", item.as_str());
    let lcaps = match lm {
        Some(c) => c,
        None => return Some(None),
    };
    let l = match group(&lcaps, 1) {
        Some(x) => x,
        None => return None,
    };
    let label = to_lower(&trim_string(&l));
    let key = if str_contains(&label, "rolling") {
        "rolling"
    } else if str_contains(&label, "weekly") {
        "weekly"
    } else if str_contains(&label, "monthly") {
        "monthly"
    } else {
        return Some(None);
    };
    if !str_is(want, key) {
        return None;
    }
    let um = first_captures("data-slot=\"usage-value\">[^0-9]*([\\d.]+)", item.as_str());
    let ucaps = match um {
        Some(c) => c,
        None => return Some(None),
    };
    let value = match group(&ucaps, 1) {
        Some(x) => x,
        None => return None,
    };
    let rm = first_captures("data-slot=\"(reset-time|reset-now)\">([\\s\\S]*?)</span>", item.as_str());
    let rcaps = match rm {
        Some(c) => c,
        None => return Some(None),
    };
    let kind = group(&rcaps, 1);
    let text = group(&rcaps, 2);
    match (kind, text) {
        (Some(k), Some(t)) => {
            if str_is(&k, "reset-now") {
                Some(Some(WindowText::Slot { value, reset: ResetIn::Now }))
            } else {
                match human_reset(&t) {
                    Some(h) => Some(Some(WindowText::Slot { value, reset: h })),
                    None => Some(None),
                }
            }
        },
        _ => None,
    }
}

/// Reads the window `field` out of the dashboard page (see `window_of`).
pub fn parse_window(html: &str, field: &str) -> (r: Option<WindowText>)
    ensures
        opt_window(r) == window_of(html@, field@),
{
    let head = owned(field);
    let p1 = crate::text::concat(&crate::text::concat(&head, &owned(":\\$R\\[\\d+\\]=\\{[^}]*")), &owned("usagePercent:([\\d.]+)[^}]*resetInSec:([\\d.]+)"));
    let c1 = match first_captures(p1.as_str(), html) {
        Some(c) => c,
        None => return None,
    };
    match (group(&c1, 1), group(&c1, 2)) {
        (Some(pct), Some(reset_secs)) => return Some(WindowText::Ssr { pct, reset_secs }),
        _ => {},
    }
    let p2 = crate::text::concat(&crate::text::concat(&head, &owned(":\\$R\\[\\d+\\]=\\{[^}]*")), &owned("resetInSec:([\\d.]+)[^}]*usagePercent:([\\d.]+)"));
    let c2 = match first_captures(p2.as_str(), html) {
        Some(c) => c,
        None => return None,
    };
    match (group(&c2, 2), group(&c2, 1)) {
        (Some(pct), Some(reset_secs)) => return Some(WindowText::Ssr { pct, reset_secs }),
        _ => {},
    }
    proof {
        reveal_strlit("Usage");
        reveal_strlit("data-slot=\"usage-item\"");
    }
    let want = remove_str(field, "Usage");
    let hv = chars_of(html);
    let sep = chars_of("data-slot=\"usage-item\"");
    let pieces = split_by(&hv, &sep);
    proof {
        crate::text::lemma_split_from_nonempty(html@, sep@, 0, 0);
    }
    let ghost items = chars_view(pieces@).drop_first();
    let mut i: usize = 1;
    while i < pieces.len()
        invariant
            1 <= i <= pieces.len(),
            chars_view(pieces@) == split_str(html@, sep@),
            sep@ == "data-slot=\"usage-item\""@,
            items == chars_view(pieces@).drop_first(),
            want@ == remove_all(field@, "Usage"@),
            window_of(html@, field@) == slot_window(items, want@),
            slot_window(items, want@) == slot_window(chars_view(pieces@).subrange(i as int, pieces@.len() as int), want@),
        decreases pieces.len() - i,
    {
        let ghost rest = chars_view(pieces@).subrange(i as int, pieces@.len() as int);
        assert(rest[0] == pieces@[i as int]@);
        assert(rest.drop_first() =~= chars_view(pieces@).subrange(i + 1, pieces@.len() as int));
        let item = string_of(&pieces[i]);
        match slot_item(&item, &want) {
            Some(w) => return w,
            None => {},
        }
        i = i + 1;
    }
    assert(chars_view(pieces@).subrange(i as int, pieces@.len() as int).len() == 0);
    None
}

/// The windows of the dashboard page, keyed "monthly", "rolling", "weekly" (the order of
/// a JSON object with sorted keys), each when found.
pub open spec fn go_windows_of(html: Seq<char>) -> Seq<(Seq<char>, WindowSpec)> {
    let a = with_window(Seq::empty(), "monthly"@, window_of(html, "monthlyUsage"@));
    let b = with_window(a, "rolling"@, window_of(html, "rollingUsage"@));
    with_window(b, "weekly"@, window_of(html, "weeklyUsage"@))
}

/// `acc` with the keyed window appended, when there is one.
pub open spec fn with_window(acc: Seq<(Seq<char>, WindowSpec)>, key: Seq<char>, w: Option<WindowSpec>) -> Seq<(Seq<char>, WindowSpec)> {
    match w {
        Some(x) => acc.push((key, x)),
        None => acc,
    }
}

/// Keyed windows by their views.
pub open spec fn keyed_view(v: Seq<(String, WindowText)>) -> Seq<(Seq<char>, WindowSpec)> {
    v.map_values(|p: (String, WindowText)| (p.0@, p.1@))
}

fn push_window(acc: &mut Vec<(String, WindowText)>, html: &str, key: &str, field: &str)
    ensures
        keyed_view(final(acc)@) == with_window(keyed_view(old(acc)@), key@, window_of(html@, field@)),
{
    match parse_window(html, field) {
        Some(w) => {
            let ghost a0 = keyed_view(acc@);
            let ghost wv = w@;
            acc.push((owned(key), w));
            assert(keyed_view(acc@) =~= a0.push((key@, wv)));
        },
        None => {},
    }
}

/// Reads the three windows of the dashboard page (see `go_windows_of`).
pub fn go_windows(html: &str) -> (r: Vec<(String, WindowText)>)
    ensures
        keyed_view(r@) == go_windows_of(html@),
{
    let mut acc: Vec<(String, WindowText)> = Vec::new();
    proof {
        assert(keyed_view(acc@) =~= Seq::<(Seq<char>, WindowSpec)>::empty());
    }
    push_window(&mut acc, html, "monthly", "monthlyUsage");
    push_window(&mut acc, html, "rolling", "rollingUsage");
    push_window(&mut acc, html, "weekly", "weeklyUsage");
    acc
}


// ---------------------------------------------------------------- the stored payload

/// A window with its numbers read: the JSON numbers under `usedPct`, `remainingPct` and
/// `resetMs`, each when present.
pub struct GoWindow {
    pub key: String,
    pub used_pct: Option<JsonVal>,
    pub remaining_pct: Option<JsonVal>,
    pub reset_ms: Option<JsonVal>,
}

/// One window as shown.
pub struct GoBucket {
    pub key: String,
    pub label: String,
    pub used_pct: JsonVal,
    pub remaining_pct: JsonVal,
    pub reset_ms: JsonVal,
}

/// The Go plan as shown.
pub struct GoPayload {
    pub enabled: bool,
    pub workspace_id: String,
    pub buckets: Vec<GoBucket>,
    pub error: String,
    pub updated_at: String,
}

/// The label shown for a window key.
pub open spec fn go_label(key: Seq<char>) -> Seq<char> {
    if key == "rolling"@ {
        "5小时"@
    } else if key == "weekly"@ {
        "每周"@
    } else if key == "monthly"@ {
        "每月"@
    } else {
        key
    }
}

/// A number, or 0 when it is missing.
pub open spec fn num_or_zero(o: Option<JsonVal>) -> JsonLeaf {
    match o {
        Some(v) => v@,
        None => JsonLeaf::Int(0),
    }
}

/// The bucket shown for a window.
pub open spec fn is_bucket_of(b: GoBucket, w: GoWindow) -> bool {
    &&& b.key@ == w.key@
    &&& b.label@ == go_label(w.key@)
    &&& b.used_pct@ == num_or_zero(w.used_pct)
    &&& b.remaining_pct@ == num_or_zero(w.remaining_pct)
    &&& b.reset_ms@ == num_or_zero(w.reset_ms)
}

/// No windows.
pub open spec fn is_empty_go(p: GoPayload, enabled: bool, workspace_id: Seq<char>, error: Seq<char>, now: Seq<char>) -> bool {
    &&& p.enabled == enabled
    &&& p.workspace_id@ == workspace_id
    &&& p.buckets@.len() == 0
    &&& p.error@ == error
    &&& p.updated_at@ == now
}

/// The payload built from the windows read, one bucket per window, in order.
pub open spec fn is_go_of(p: GoPayload, workspace_id: Seq<char>, windows: Seq<GoWindow>, now: Seq<char>) -> bool {
    &&& p.enabled
    &&& p.workspace_id@ == workspace_id
    &&& p.buckets@.len() == windows.len()
    &&& forall|i: int| 0 <= i < windows.len() ==> is_bucket_of(#[trigger] p.buckets@[i], windows[i])
    &&& p.error@.len() == 0
    &&& p.updated_at@ == now
}

/// A payload worth keeping when a refresh fails: enabled with at least one window.
pub open spec fn go_valid(p: GoPayload) -> bool {
    p.enabled && p.buckets@.len() > 0
}

/// The payload without windows.
pub fn empty_go(enabled: bool, workspace_id: &str, error: &str, now: &String) -> (p: GoPayload)
    ensures
        is_empty_go(p, enabled, workspace_id@, error@, now@),
{
    GoPayload {
        enabled,
        workspace_id: owned(workspace_id),
        buckets: Vec::new(),
        error: owned(error),
        updated_at: now.clone(),
    }
}

fn num_or_zero_of(o: &Option<JsonVal>) -> (r: JsonVal)
    ensures
        r@ == num_or_zero(*o),
{
    match o {
        Some(v) => v.dup(),
        None => JsonVal::Int(0),
    }
}

fn bucket_of(w: &GoWindow) -> (b: GoBucket)
    ensures
        is_bucket_of(b, *w),
{
    let label = if str_is(&w.key, "rolling") {
        owned("5小时")
    } else if str_is(&w.key, "weekly") {
        owned("每周")
    } else if str_is(&w.key, "monthly") {
        owned("每月")
    } else {
        w.key.clone()
    };
    GoBucket {
        key: w.key.clone(),
        label,
        used_pct: num_or_zero_of(&w.used_pct),
        remaining_pct: num_or_zero_of(&w.remaining_pct),
        reset_ms: num_or_zero_of(&w.reset_ms),
    }
}

/// The payload built from the windows read (see `is_go_of`).
pub fn go_payload(workspace_id: &String, windows: &Vec<GoWindow>, now: &String) -> (p: GoPayload)
    ensures
        is_go_of(p, workspace_id@, windows@, now@),
{
    let mut buckets: Vec<GoBucket> = Vec::new();
    let mut i: usize = 0;
    while i < windows.len()
        invariant
            i <= windows.len(),
            buckets@.len() == i,
            forall|j: int| 0 <= j < i ==> is_bucket_of(#[trigger] buckets@[j], windows@[j]),
        decreases windows.len() - i,
    {
        buckets.push(bucket_of(&windows[i]));
        i = i + 1;
    }
    GoPayload {
        enabled: true,
        workspace_id: workspace_id.clone(),
        buckets,
        error: String::new(),
        updated_at: now.clone(),
    }
}

/// The Go refresh, given the trimmed workspace id and auth cookie: without either the
/// plan is off; windows read from the page give a new payload; a failed fetch, or a
/// page without any window, keeps a valid payload and otherwise stores an error.
pub fn refresh_go(
    workspace_id: &String,
    auth_cookie: &String,
    windows: Option<&Vec<GoWindow>>,
    old: Option<&GoPayload>,
    now: &String,
) -> (r: Refresh<GoPayload>)
    ensures
        (workspace_id@.len() == 0 || auth_cookie@.len() == 0) ==> (r matches Refresh::Store(p)
            && is_empty_go(p, false, Seq::empty(), Seq::empty(), now@)),
        (workspace_id@.len() > 0 && auth_cookie@.len() > 0) ==> if (windows matches Some(ws) && ws@.len() > 0) {
            (r matches Refresh::Store(p) && is_go_of(p, workspace_id@, windows->0@, now@))
        } else if (old matches Some(o) && go_valid(*o)) {
            r is Keep
        } else {
            (r matches Refresh::Store(p) && is_empty_go(p, true, workspace_id@, "抓取失败（cookie 可能过期）"@, now@))
        },
{
    proof {
        reveal_strlit("");
        assert(""@ =~= Seq::<char>::empty());
    }
    if !crate::text::non_empty(workspace_id) || !crate::text::non_empty(auth_cookie) {
        return Refresh::Store(empty_go(false, "", "", now));
    }
    match windows {
        Some(ws) => if ws.len() > 0 {
            return Refresh::Store(go_payload(workspace_id, ws, now));
        },
        None => {},
    }
    let valid = match old {
        Some(o) => o.enabled && o.buckets.len() > 0,
        None => false,
    };
    if valid {
        Refresh::Keep
    } else {
        let e = empty_go(true, "", "抓取失败（cookie 可能过期）", now);
        Refresh::Store(GoPayload { workspace_id: workspace_id.clone(), ..e })
    }
}

} // verus!
