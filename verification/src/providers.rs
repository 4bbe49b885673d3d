//! What the background refreshers store for each provider: the payload built from a
//! reply, the payload when the provider is not configured, and whether a failed call
//! keeps the previous payload.
use vstd::prelude::*;
use crate::config::{text_of, Creds};
use crate::json::{JsonLeaf, JsonVal};
use crate::plan::{AgentBucket, CodingBucket};
use crate::text::{owned, str_is};

verus! {

/// What a refresh does with the cached payload.
pub enum Refresh<T> {
    /// replace it
    Store(T),
    /// leave it as it is
    Keep,
}

/// The text of an optional string, or `dflt`.
pub open spec fn text_or(o: Option<String>, dflt: Seq<char>) -> Seq<char> {
    match o {
        Some(s) => s@,
        None => dflt,
    }
}

fn string_or(o: &Option<String>, dflt: &str) -> (r: String)
    ensures
        r@ == text_or(*o, dflt@),
{
    match o {
        Some(s) => s.clone(),
        None => owned(dflt),
    }
}

/// A JSON value, or the empty string.
pub open spec fn leaf_or_empty(o: Option<JsonVal>) -> JsonLeaf {
    match o {
        Some(v) => v@,
        None => JsonLeaf::Str(Seq::empty()),
    }
}

fn val_or_empty(o: &Option<JsonVal>) -> (r: JsonVal)
    ensures
        r@ == leaf_or_empty(*o),
{
    match o {
        Some(v) => v.dup(),
        None => JsonVal::Str(String::new()),
    }
}

/// The value is a non-empty JSON string.
pub open spec fn nonempty_str(v: JsonLeaf) -> bool {
    match v {
        JsonLeaf::Str(s) => s.len() > 0,
        _ => false,
    }
}

fn is_nonempty_str(v: &JsonVal) -> (r: bool)
    ensures
        r == nonempty_str(v@),
{
    match v {
        JsonVal::Str(s) => crate::text::non_empty(s),
        _ => false,
    }
}

// ---------------------------------------------------------------- DeepSeek balance

/// One element of `balance_infos`.
pub struct BalanceInfo {
    /// `currency`, when a string
    pub currency: Option<String>,
    /// `total_balance`, as sent
    pub total_balance: Option<JsonVal>,
}

/// A `/user/balance` reply.
pub struct BalanceReply {
    /// `balance_infos`, when an array
    pub balance_infos: Option<Vec<BalanceInfo>>,
    /// `is_available`, when a boolean
    pub is_available: Option<bool>,
}

/// The DeepSeek balance as shown.
pub struct Balance {
    pub enabled: bool,
    pub balance: JsonVal,
    pub currency: String,
    pub is_available: bool,
    pub error: String,
    pub updated_at: String,
}

/// No balance: empty balance and currency, not available.
pub open spec fn is_empty_balance(b: Balance, enabled: bool, error: Seq<char>, now: Seq<char>) -> bool {
    &&& b.enabled == enabled
    &&& b.balance@ == JsonLeaf::Str(Seq::empty())
    &&& b.currency@.len() == 0
    &&& !b.is_available
    &&& b.error@ == error
    &&& b.updated_at@ == now
}

/// The payload without a balance.
pub fn empty_balance(enabled: bool, error: &str, now: &String) -> (b: Balance)
    ensures
        is_empty_balance(b, enabled, error@, now@),
{
    Balance {
        enabled,
        balance: JsonVal::Str(String::new()),
        currency: String::new(),
        is_available: false,
        error: owned(error),
        updated_at: now.clone(),
    }
}

/// The balance entry shown: the first in CNY, else the first one.
pub open spec fn chosen_info(infos: Seq<BalanceInfo>) -> Option<BalanceInfo> {
    if exists|i: int| 0 <= i < infos.len() && text_or(#[trigger] infos[i].currency, Seq::empty()) == "CNY"@ {
        Some(infos[first_cny(infos)])
    } else if infos.len() > 0 {
        Some(infos[0])
    } else {
        None
    }
}

/// Position of the first CNY entry.
pub open spec fn first_cny(infos: Seq<BalanceInfo>) -> int
    decreases infos.len(),
{
    if infos.len() == 0 {
        0
    } else if text_or(infos[0].currency, Seq::empty()) == "CNY"@ {
        0
    } else {
        first_cny(infos.drop_first()) + 1
    }
}

/// The balance entries of a reply.
pub open spec fn reply_infos(reply: BalanceReply) -> Seq<BalanceInfo> {
    match reply.balance_infos {
        Some(v) => v@,
        None => Seq::empty(),
    }
}

/// The payload built from a balance reply.
pub open spec fn is_balance_of(b: Balance, reply: BalanceReply, now: Seq<char>) -> bool {
    let infos = reply_infos(reply);
    let (total, currency) = match chosen_info(infos) {
        Some(info) => (info.total_balance, info.currency),
        None => (None, None),
    };
    &&& b.enabled
    &&& b.balance@ == leaf_or_empty(total)
    &&& b.currency@ == text_or(currency, "CNY"@)
    &&& b.is_available == match reply.is_available {
        Some(a) => a,
        None => false,
    }
    &&& b.error@.len() == 0
    &&& b.updated_at@ == now
}

proof fn lemma_first_cny(infos: Seq<BalanceInfo>)
    ensures
        (exists|i: int| 0 <= i < infos.len() && text_or(#[trigger] infos[i].currency, Seq::empty()) == "CNY"@)
            ==> 0 <= first_cny(infos) < infos.len() && text_or(infos[first_cny(infos)].currency, Seq::empty())
            == "CNY"@ && forall|j: int| 0 <= j < first_cny(infos) ==> text_or(#[trigger] infos[j].currency, Seq::empty()) != "CNY"@,
    decreases infos.len(),
{
    if infos.len() > 0 && text_or(infos[0].currency, Seq::empty()) != "CNY"@ {
        lemma_first_cny(infos.drop_first());
        if exists|i: int| 0 <= i < infos.len() && text_or(#[trigger] infos[i].currency, Seq::empty()) == "CNY"@ {
            let i = choose|i: int| 0 <= i < infos.len() && text_or(#[trigger] infos[i].currency, Seq::empty()) == "CNY"@;
            assert(infos.drop_first()[i - 1] == infos[i]);
            assert forall|j: int| 0 <= j < first_cny(infos) implies text_or(#[trigger] infos[j].currency, Seq::empty()) != "CNY"@ by {
                if j > 0 {
                    assert(infos.drop_first()[j - 1] == infos[j]);
                }
            }
        }
    }
}

fn find_cny(v: &Vec<BalanceInfo>) -> (r: Option<usize>)
    ensures
        match r {
            Some(i) => i < v@.len() && (exists|k: int| 0 <= k < v@.len() && text_or(#[trigger] v@[k].currency, Seq::empty()) == "CNY"@)
                && i == first_cny(v@),
            None => !exists|k: int| 0 <= k < v@.len() && text_or(#[trigger] v@[k].currency, Seq::empty()) == "CNY"@,
        },
{
    proof {
        lemma_first_cny(v@);
    }
    let mut i: usize = 0;
    while i < v.len()
        invariant
            i <= v.len(),
            forall|j: int| 0 <= j < i ==> text_or(#[trigger] v@[j].currency, Seq::empty()) != "CNY"@,
        decreases v.len() - i,
    {
        let is_cny = match &v[i].currency {
            Some(c) => str_is(c, "CNY"),
            None => false,
        };
        proof {
            reveal_strlit("CNY");
        }
        if is_cny {
            proof {
                lemma_first_cny(v@);
                assert(text_or(v@[i as int].currency, Seq::empty()) == "CNY"@);
                let f = first_cny(v@);
                if f < i {
                } else if f > i {
                }
            }
            return Some(i);
        }
        assert(text_or(v@[i as int].currency, Seq::empty()) != "CNY"@) by {
            if v@[i as int].currency is None {
                assert(Seq::<char>::empty().len() != "CNY"@.len());
            }
        }
        i = i + 1;
    }
    None
}

/// The payload built from a balance reply.
pub fn balance_from_reply(reply: &BalanceReply, now: &String) -> (b: Balance)
    ensures
        is_balance_of(b, *reply, now@),
{
    let ghost infos = reply_infos(*reply);
    let mut total: Option<JsonVal> = None;
    let mut currency: Option<String> = None;
    match &reply.balance_infos {
        Some(v) => {
            proof {
                lemma_first_cny(infos);
            }
            let pick: Option<usize> = match find_cny(v) {
                Some(i) => Some(i),
                None => if v.len() > 0 {
                    Some(0)
                } else {
                    None
                },
            };
            match pick {
                Some(i) => {
                    total = match &v[i].total_balance {
                        Some(t) => Some(t.dup()),
                        None => None,
                    };
                    currency = match &v[i].currency {
                        Some(c) => Some(c.clone()),
                        None => None,
                    };
                },
                None => {},
            }
        },
        None => {},
    }
    Balance {
        enabled: true,
        balance: val_or_empty(&total),
        currency: string_or(&currency, "CNY"),
        is_available: match reply.is_available {
            Some(a) => a,
            None => false,
        },
        error: String::new(),
        updated_at: now.clone(),
    }
}

/// A balance worth keeping when a refresh fails: enabled with a non-empty balance text.
pub open spec fn balance_valid(b: Balance) -> bool {
    b.enabled && nonempty_str(b.balance@)
}

/// The balance refresh: without an API key the provider is off; a reply gives a new
/// payload; a failed call keeps a valid payload and otherwise stores an error.
pub fn refresh_balance(api_key: &String, reply: Option<&BalanceReply>, old: Option<&Balance>, now: &String) -> (r: Refresh<Balance>)
    ensures
        api_key@.len() == 0 ==> (r matches Refresh::Store(b) && is_empty_balance(b, false, Seq::empty(), now@)),
        api_key@.len() > 0 ==> match reply {
            Some(rep) => (r matches Refresh::Store(b) && is_balance_of(b, *rep, now@)),
            None => if (old matches Some(o) && balance_valid(*o)) {
                r is Keep
            } else {
                (r matches Refresh::Store(b) && is_empty_balance(b, true, "查询失败"@, now@))
            },
        },
{
    proof {
        reveal_strlit("");
        assert(""@ =~= Seq::<char>::empty());
    }
    if !crate::text::non_empty(api_key) {
        return Refresh::Store(empty_balance(false, "", now));
    }
    match reply {
        Some(rep) => Refresh::Store(balance_from_reply(rep, now)),
        None => {
            let valid = match old {
                Some(o) => o.enabled && is_nonempty_str(&o.balance),
                None => false,
            };
            if valid {
                Refresh::Keep
            } else {
                Refresh::Store(empty_balance(true, "查询失败", now))
            }
        },
    }
}


// ---------------------------------------------------------------- relay usage

/// Request, token and cost counters in a usage reply (each present when an integer).
pub struct UsageCounters {
    pub requests: Option<i64>,
    pub total_tokens: Option<i64>,
    pub cost: Option<i64>,
    pub actual_cost: Option<i64>,
}

/// One element of `daily_usage` (labelled by `date`) or `model_stats` (by `model`).
pub struct UsageRow {
    /// `date` or `model`, as sent
    pub label: Option<JsonVal>,
    pub requests: Option<i64>,
    pub total_tokens: Option<i64>,
    pub cost: Option<i64>,
}

/// A `/v1/usage` reply.
pub struct RelayReply {
    pub balance: Option<JsonVal>,
    pub remaining: Option<JsonVal>,
    pub unit: Option<String>,
    pub is_valid: Option<bool>,
    pub plan_name: Option<String>,
    /// `usage.today`
    pub today: UsageCounters,
    /// `usage.total`
    pub total: UsageCounters,
    pub daily_usage: Option<Vec<UsageRow>>,
    pub model_stats: Option<Vec<UsageRow>>,
}

/// Counters as shown; `actual_cost` is absent in the payload without usage.
pub struct Counts {
    pub requests: i64,
    pub tokens: i64,
    pub cost: i64,
    pub actual_cost: Option<i64>,
}

/// A labelled usage row as shown.
pub struct RowUsage {
    pub label: JsonVal,
    pub requests: i64,
    pub tokens: i64,
    pub cost: i64,
}

/// The relay balance and usage as shown.
pub struct RelayUsage {
    pub enabled: bool,
    pub balance: JsonVal,
    pub unit: String,
    pub is_valid: bool,
    pub plan_name: String,
    pub today: Counts,
    pub total: Counts,
    /// the last seven days, oldest first
    pub daily: Vec<RowUsage>,
    pub models: Vec<RowUsage>,
    pub error: String,
    pub updated_at: String,
}

/// `o` or zero.
pub open spec fn zero_or(o: Option<i64>) -> i64 {
    match o {
        Some(v) => v,
        None => 0,
    }
}

/// Shown counters of a reply.
pub open spec fn counts_of(c: UsageCounters) -> Counts {
    Counts {
        requests: zero_or(c.requests),
        tokens: zero_or(c.total_tokens),
        cost: zero_or(c.cost),
        actual_cost: Some(zero_or(c.actual_cost)),
    }
}

/// A shown row equals the reply row with absent counters as zero and an absent label as "".
pub open spec fn row_ok(r: RowUsage, src: UsageRow) -> bool {
    &&& r.label@ == leaf_or_empty(src.label)
    &&& r.requests == zero_or(src.requests)
    &&& r.tokens == zero_or(src.total_tokens)
    &&& r.cost == zero_or(src.cost)
}

/// Rows shown for a list of reply rows.
pub open spec fn rows_ok(out: Seq<RowUsage>, src: Seq<UsageRow>) -> bool {
    out.len() == src.len() && forall|i: int| 0 <= i < out.len() ==> row_ok(#[trigger] out[i], src[i])
}

/// The rows of an optional array.
pub open spec fn rows_of(o: Option<Vec<UsageRow>>) -> Seq<UsageRow> {
    match o {
        Some(v) => v@,
        None => Seq::empty(),
    }
}

/// The payload built from a usage reply.
pub open spec fn is_relay_of(u: RelayUsage, reply: RelayReply, now: Seq<char>) -> bool {
    &&& u.enabled
    &&& u.balance@ == match reply.balance {
        Some(b) => b@,
        None => leaf_or_empty(reply.remaining),
    }
    &&& u.unit@ == text_or(reply.unit, "USD"@)
    &&& u.is_valid == match reply.is_valid {
        Some(v) => v,
        None => true,
    }
    &&& u.plan_name@ == text_or(reply.plan_name, Seq::empty())
    &&& u.today == counts_of(reply.today)
    &&& u.total == counts_of(reply.total)
    &&& rows_ok(u.daily@, crate::logs::last_n(rows_of(reply.daily_usage), 7))
    &&& rows_ok(u.models@, rows_of(reply.model_stats))
    &&& u.error@.len() == 0
    &&& u.updated_at@ == now
}

/// No usage: zero counters without actual cost, no rows.
pub open spec fn is_empty_relay(u: RelayUsage, enabled: bool, error: Seq<char>, now: Seq<char>) -> bool {
    &&& u.enabled == enabled
    &&& u.balance@ == JsonLeaf::Str(Seq::empty())
    &&& u.unit@.len() == 0
    &&& !u.is_valid
    &&& u.plan_name@.len() == 0
    &&& u.today == (Counts { requests: 0, tokens: 0, cost: 0, actual_cost: None })
    &&& u.total == (Counts { requests: 0, tokens: 0, cost: 0, actual_cost: None })
    &&& u.daily@.len() == 0
    &&& u.models@.len() == 0
    &&& u.error@ == error
    &&& u.updated_at@ == now
}

/// The payload without usage.
pub fn empty_relay(enabled: bool, error: &str, now: &String) -> (u: RelayUsage)
    ensures
        is_empty_relay(u, enabled, error@, now@),
{
    RelayUsage {
        enabled,
        balance: JsonVal::Str(String::new()),
        unit: String::new(),
        is_valid: false,
        plan_name: String::new(),
        today: Counts { requests: 0, tokens: 0, cost: 0, actual_cost: None },
        total: Counts { requests: 0, tokens: 0, cost: 0, actual_cost: None },
        daily: Vec::new(),
        models: Vec::new(),
        error: owned(error),
        updated_at: now.clone(),
    }
}

fn zero_if_none(o: Option<i64>) -> (r: i64)
    ensures
        r == zero_or(o),
{
    match o {
        Some(v) => v,
        None => 0,
    }
}

fn counts(c: &UsageCounters) -> (r: Counts)
    ensures
        r == counts_of(*c),
{
    Counts {
        requests: zero_if_none(c.requests),
        tokens: zero_if_none(c.total_tokens),
        cost: zero_if_none(c.cost),
        actual_cost: Some(zero_if_none(c.actual_cost)),
    }
}

fn rows_from(src: &Vec<UsageRow>, from: usize) -> (r: Vec<RowUsage>)
    requires
        from <= src@.len(),
    ensures
        rows_ok(r@, src@.subrange(from as int, src@.len() as int)),
{
    let mut out: Vec<RowUsage> = Vec::new();
    let mut i: usize = from;
    while i < src.len()
        invariant
            from <= i <= src.len(),
            rows_ok(out@, src@.subrange(from as int, i as int)),
        decreases src.len() - i,
    {
        let row = &src[i];
        let ghost o0 = out@;
        out.push(
            RowUsage {
                label: val_or_empty(&row.label),
                requests: zero_if_none(row.requests),
                tokens: zero_if_none(row.total_tokens),
                cost: zero_if_none(row.cost),
            },
        );
        i = i + 1;
        assert forall|k: int| 0 <= k < out@.len() implies row_ok(#[trigger] out@[k], src@.subrange(from as int, i as int)[k]) by {
            if k < o0.len() {
                assert(out@[k] == o0[k]);
                assert(src@.subrange(from as int, i as int)[k] == src@.subrange(from as int, i - 1)[k]);
            }
        }
    }
    out
}

/// The payload built from a usage reply.
pub fn relay_from_reply(reply: &RelayReply, now: &String) -> (u: RelayUsage)
    ensures
        is_relay_of(u, *reply, now@),
{
    let daily = match &reply.daily_usage {
        Some(v) => {
            let from: usize = if v.len() > 7 {
                v.len() - 7
            } else {
                0
            };
            let d = rows_from(v, from);
            assert(v@.subrange(0, v@.len() as int) =~= v@);
            d
        },
        None => Vec::new(),
    };
    let models = match &reply.model_stats {
        Some(v) => {
            let m = rows_from(v, 0);
            assert(v@.subrange(0, v@.len() as int) =~= v@);
            m
        },
        None => Vec::new(),
    };
    proof {
        reveal_strlit("");
        assert(""@ =~= Seq::<char>::empty());
    }
    RelayUsage {
        enabled: true,
        balance: match &reply.balance {
            Some(b) => b.dup(),
            None => val_or_empty(&reply.remaining),
        },
        unit: string_or(&reply.unit, "USD"),
        is_valid: match reply.is_valid {
            Some(v) => v,
            None => true,
        },
        plan_name: string_or(&reply.plan_name, ""),
        today: counts(&reply.today),
        total: counts(&reply.total),
        daily,
        models,
        error: String::new(),
        updated_at: now.clone(),
    }
}

/// The payload's counters come from their own part of the reply: today's from
/// `usage.today` and the cumulative ones from `usage.total`, each counter as sent (0 when
/// absent); so two replies that agree on `usage.total` give the same cumulative counters,
/// whatever their `usage.today`.
pub proof fn law_relay_counters_by_period(r1: RelayReply, u1: RelayUsage, now1: Seq<char>, r2: RelayReply, u2: RelayUsage, now2: Seq<char>)
    requires
        is_relay_of(u1, r1, now1),
        is_relay_of(u2, r2, now2),
    ensures
        u1.total.requests == (match r1.total.requests { Some(v) => v, None => 0 }),
        u1.total.tokens == (match r1.total.total_tokens { Some(v) => v, None => 0 }),
        u1.total.cost == (match r1.total.cost { Some(v) => v, None => 0 }),
        u1.total.actual_cost == Some(match r1.total.actual_cost { Some(v) => v, None => 0i64 }),
        u1.today.requests == (match r1.today.requests { Some(v) => v, None => 0 }),
        u1.today.tokens == (match r1.today.total_tokens { Some(v) => v, None => 0 }),
        u1.today.cost == (match r1.today.cost { Some(v) => v, None => 0 }),
        u1.today.actual_cost == Some(match r1.today.actual_cost { Some(v) => v, None => 0i64 }),
        r1.total == r2.total ==> u1.total == u2.total,
        r1.today == r2.today ==> u1.today == u2.today,
{
}

/// A usage payload worth keeping when a refresh fails: enabled with a non-empty balance text.
pub open spec fn relay_valid(u: RelayUsage) -> bool {
    u.enabled && nonempty_str(u.balance@)
}

/// The relay refresh: without an API key the provider is off; a reply gives a new
/// payload; a failed call keeps a valid payload and otherwise stores an error.
pub fn refresh_relay(api_key: &String, reply: Option<&RelayReply>, old: Option<&RelayUsage>, now: &String) -> (r: Refresh<RelayUsage>)
    ensures
        api_key@.len() == 0 ==> (r matches Refresh::Store(u) && is_empty_relay(u, false, Seq::empty(), now@)),
        api_key@.len() > 0 ==> match reply {
            Some(rep) => (r matches Refresh::Store(u) && is_relay_of(u, *rep, now@)),
            None => if (old matches Some(o) && relay_valid(*o)) {
                r is Keep
            } else {
                (r matches Refresh::Store(u) && is_empty_relay(u, true, "查询失败"@, now@))
            },
        },
{
    proof {
        reveal_strlit("");
        assert(""@ =~= Seq::<char>::empty());
    }
    if !crate::text::non_empty(api_key) {
        return Refresh::Store(empty_relay(false, "", now));
    }
    match reply {
        Some(rep) => Refresh::Store(relay_from_reply(rep, now)),
        None => {
            let valid = match old {
                Some(o) => o.enabled && is_nonempty_str(&o.balance),
                None => false,
            };
            if valid {
                Refresh::Keep
            } else {
                Refresh::Store(empty_relay(true, "查询失败", now))
            }
        },
    }
}

// ---------------------------------------------------------------- Volcengine plan

/// The windows of a plan payload.
pub enum PlanBuckets {
    Coding(Vec<CodingBucket>),
    Agent(Vec<AgentBucket>),
}

impl PlanBuckets {
    /// Number of windows.
    pub open spec fn count(&self) -> nat {
        match self {
            PlanBuckets::Coding(v) => v@.len(),
            PlanBuckets::Agent(v) => v@.len(),
        }
    }
}

/// The plan quota as shown.
pub struct PlanPayload {
    pub enabled: bool,
    pub plan_type: String,
    pub tier: String,
    pub raw_status: String,
    pub buckets: PlanBuckets,
    pub error: String,
    pub updated_at: String,
}

/// No windows.
pub open spec fn is_empty_plan(p: PlanPayload, c: Creds, enabled: bool, error: Seq<char>, now: Seq<char>) -> bool {
    &&& p.enabled == enabled
    &&& p.plan_type@ == c.plan_type@
    &&& p.tier@ == c.plan_tier@
    &&& p.raw_status@.len() == 0
    &&& p.buckets.count() == 0
    &&& p.error@ == error
    &&& p.updated_at@ == now
}

/// The payload without windows.
pub fn empty_plan(c: &Creds, enabled: bool, error: &str, now: &String) -> (p: PlanPayload)
    ensures
        is_empty_plan(p, *c, enabled, error@, now@),
{
    PlanPayload {
        enabled,
        plan_type: c.plan_type.clone(),
        tier: c.plan_tier.clone(),
        raw_status: String::new(),
        buckets: PlanBuckets::Coding(Vec::new()),
        error: owned(error),
        updated_at: now.clone(),
    }
}

/// The API action that reads the quota: none without an access key.
pub open spec fn plan_action_of(c: Creds) -> Option<Seq<char>> {
    if c.ak_id@.len() == 0 || c.ak_secret@.len() == 0 {
        None
    } else if c.plan_type@ == "coding"@ {
        Some("GetCodingPlanUsage"@)
    } else {
        Some("GetAFPUsage"@)
    }
}

/// The API action that reads the quota (see `plan_action_of`).
pub fn plan_action(c: &Creds) -> (r: Option<String>)
    ensures
        match r {
            Some(a) => plan_action_of(*c) == Some(a@),
            None => plan_action_of(*c) is None,
        },
{
    if !crate::text::non_empty(&c.ak_id) || !crate::text::non_empty(&c.ak_secret) {
        None
    } else if str_is(&c.plan_type, "coding") {
        Some(owned("GetCodingPlanUsage"))
    } else {
        Some(owned("GetAFPUsage"))
    }
}

/// The message shown when a coding plan is not running: `套餐未生效（<status>）`.
pub open spec fn plan_error_of(plan_type: Seq<char>, raw_status: Seq<char>) -> Seq<char> {
    if plan_type == "coding"@ && raw_status.len() > 0 && raw_status != "Running"@ {
        "套餐未生效（"@ + raw_status + "）"@
    } else {
        Seq::empty()
    }
}

/// The payload built from a parsed reply.
pub open spec fn is_plan_of(p: PlanPayload, c: Creds, raw_status: Seq<char>, bucket_count: nat, now: Seq<char>) -> bool {
    &&& p.enabled
    &&& p.plan_type@ == c.plan_type@
    &&& p.tier@ == c.plan_tier@
    &&& p.raw_status@ == raw_status
    &&& p.buckets.count() == bucket_count
    &&& p.error@ == plan_error_of(c.plan_type@, raw_status)
    &&& p.updated_at@ == now
}

/// The payload built from a parsed reply: its status, its windows, and the message
/// for a coding plan that is not running.
pub fn plan_payload(c: &Creds, raw_status: String, buckets: PlanBuckets, now: &String) -> (p: PlanPayload)
    ensures
        is_plan_of(p, *c, raw_status@, buckets.count(), now@),
        p.buckets == buckets,
{
    let error = if str_is(&c.plan_type, "coding") && crate::text::non_empty(&raw_status) && !str_is(&raw_status, "Running") {
        let mut v = crate::text::chars_of("套餐未生效（");
        let mid = crate::text::chars_of(raw_status.as_str());
        let tail = crate::text::chars_of("）");
        let mut i: usize = 0;
        let ghost v0 = v@;
        while i < mid.len()
            invariant
                i <= mid.len(),
                v@ == v0 + mid@.take(i as int),
            decreases mid.len() - i,
        {
            v.push(mid[i]);
            i = i + 1;
            assert(v@ =~= v0 + mid@.take(i as int));
        }
        assert(mid@.take(mid.len() as int) =~= mid@);
        let ghost v1 = v@;
        let mut j: usize = 0;
        while j < tail.len()
            invariant
                j <= tail.len(),
                v@ == v1 + tail@.take(j as int),
            decreases tail.len() - j,
        {
            v.push(tail[j]);
            j = j + 1;
            assert(v@ =~= v1 + tail@.take(j as int));
        }
        assert(tail@.take(tail.len() as int) =~= tail@);
        crate::text::string_of(&v)
    } else {
        String::new()
    };
    PlanPayload {
        enabled: true,
        plan_type: c.plan_type.clone(),
        tier: c.plan_tier.clone(),
        raw_status,
        buckets,
        error,
        updated_at: now.clone(),
    }
}

/// A plan payload worth keeping when a call fails: enabled with at least one window.
pub open spec fn plan_valid(p: PlanPayload) -> bool {
    p.enabled && p.buckets.count() > 0
}

/// After a failed call: keep a valid payload, otherwise store the error payload.
pub fn plan_after_failure(c: &Creds, old: Option<&PlanPayload>, now: &String) -> (r: Refresh<PlanPayload>)
    ensures
        if (old matches Some(o) && plan_valid(*o)) {
            r is Keep
        } else {
            (r matches Refresh::Store(p) && is_empty_plan(p, *c, true, "调用失败"@, now@))
        },
{
    let valid = match old {
        Some(o) => o.enabled && match &o.buckets {
            PlanBuckets::Coding(v) => v.len() > 0,
            PlanBuckets::Agent(v) => v.len() > 0,
        },
        None => false,
    };
    if valid {
        Refresh::Keep
    } else {
        Refresh::Store(empty_plan(c, true, "调用失败", now))
    }
}


// ---------------------------------------------------------------- SCNet token plan

/// What the SCNet quota refresh does with the stored quota.
pub enum QuotaStep<T> {
    /// no session cookie: store the payload of a plan that is off
    Off,
    /// store the quota read
    Store(T),
    /// leave the stored quota as it is
    Keep,
    /// store the payload that reports a failed read
    Failed,
}

/// The SCNet quota refresh, given the trimmed session cookie, the quota read (present
/// when the read succeeded) and whether the stored quota is worth keeping (enabled with
/// a positive total): without a cookie the plan is off; a quota read is stored; a failed
/// read keeps a valid quota and otherwise reports the failure.
pub fn refresh_quota<T>(cookie: &String, fetched: Option<T>, old_valid: bool) -> (r: QuotaStep<T>)
    ensures
        cookie@.len() == 0 ==> r is Off,
        cookie@.len() > 0 ==> match fetched {
            Some(q) => (r matches QuotaStep::Store(x) && x == q),
            None => if old_valid {
                r is Keep
            } else {
                r is Failed
            },
        },
{
    if !crate::text::non_empty(cookie) {
        return QuotaStep::Off;
    }
    match fetched {
        Some(q) => QuotaStep::Store(q),
        None => if old_valid {
            QuotaStep::Keep
        } else {
            QuotaStep::Failed
        },
    }
}

} // verus!
