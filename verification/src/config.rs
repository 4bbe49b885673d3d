//! Provider configuration (the CLI's `config.json`), the `.volc.env` credential file
//! and the Volcengine credentials.
use vstd::prelude::*;
use crate::text::{
    chars_of, contains, contains_seq, eq_ascii_ci, eq_ignore_ascii_case, owned, replace_char,
    replace_chars, string_of, trim, trim_ws,
};
use crate::logs::{split_lines, strings_view};
use crate::time::{parse_rfc3339_ms, rfc3339_millis};

verus! {

/// One entry of `provider` in the configuration, in key order.
pub struct ProviderEntry {
    /// the provider id (the key)
    pub id: String,
    /// `options.baseURL`, when a string
    pub base_url: Option<String>,
    /// `options.apiKey`, when a string
    pub api_key: Option<String>,
    /// `name`, when a string
    pub name: Option<String>,
}

/// The view of an optional string, or the empty text.
pub open spec fn text_of(o: Option<String>) -> Seq<char> {
    match o {
        Some(s) => s@,
        None => Seq::empty(),
    }
}

/// The provider's base URL contains `keyword`.
pub open spec fn url_has(p: ProviderEntry, keyword: Seq<char>) -> bool {
    contains_seq(text_of(p.base_url), keyword)
}

/// Ids of the providers whose base URL contains `keyword`, in configuration order.
pub open spec fn ids_by_url(ps: Seq<ProviderEntry>, keyword: Seq<char>) -> Seq<Seq<char>>
    decreases ps.len(),
{
    if ps.len() == 0 {
        Seq::empty()
    } else {
        let prev = ids_by_url(ps.drop_last(), keyword);
        if url_has(ps.last(), keyword) {
            prev.push(ps.last().id@)
        } else {
            prev
        }
    }
}

fn url_contains(p: &ProviderEntry, kw: &Vec<char>) -> (r: bool)
    ensures
        r == url_has(*p, kw@),
{
    let url = match &p.base_url {
        Some(u) => chars_of(u.as_str()),
        None => Vec::new(),
    };
    contains(&url, kw)
}

/// Ids of the providers whose base URL contains `keyword`.
pub fn provider_ids_by_baseurl(cfg: &Vec<ProviderEntry>, keyword: &str) -> (r: Vec<String>)
    ensures
        strings_view(r@) == ids_by_url(cfg@, keyword@),
{
    let kw = chars_of(keyword);
    let mut out: Vec<String> = Vec::new();
    let mut i: usize = 0;
    while i < cfg.len()
        invariant
            i <= cfg.len(),
            kw@ == keyword@,
            strings_view(out@) == ids_by_url(cfg@.take(i as int), keyword@),
        decreases cfg.len() - i,
    {
        assert(cfg@.take(i + 1).drop_last() =~= cfg@.take(i as int));
        assert(cfg@.take(i + 1).last() == cfg@[i as int]);
        if url_contains(&cfg[i], &kw) {
            let ghost o0 = out@;
            out.push(cfg[i].id.clone());
            assert(strings_view(out@) =~= strings_view(o0).push(cfg@[i as int].id@));
        }
        i = i + 1;
    }
    assert(cfg@.take(cfg.len() as int) =~= cfg@);
    out
}

/// The provider offers a non-empty API key under a base URL containing `keyword`.
pub open spec fn key_match(p: ProviderEntry, keyword: Seq<char>) -> bool {
    url_has(p, keyword) && text_of(p.api_key).len() > 0
}

/// The API key of the first provider whose base URL contains `keyword` and that has a
/// non-empty key; empty when there is none.
pub open spec fn api_key_for(ps: Seq<ProviderEntry>, keyword: Seq<char>) -> Seq<char>
    decreases ps.len(),
{
    if ps.len() == 0 {
        Seq::empty()
    } else if key_match(ps[0], keyword) {
        text_of(ps[0].api_key)
    } else {
        api_key_for(ps.drop_first(), keyword)
    }
}

/// The API key configured for the provider whose base URL contains `keyword`.
pub fn provider_api_key(cfg: &Vec<ProviderEntry>, keyword: &str) -> (r: String)
    ensures
        r@ == api_key_for(cfg@, keyword@),
{
    let kw = chars_of(keyword);
    let mut i: usize = 0;
    assert(cfg@.skip(0) =~= cfg@);
    while i < cfg.len()
        invariant
            i <= cfg.len(),
            kw@ == keyword@,
            api_key_for(cfg@, keyword@) == api_key_for(cfg@.skip(i as int), keyword@),
        decreases cfg.len() - i,
    {
        assert(cfg@.skip(i as int)[0] == cfg@[i as int]);
        assert(cfg@.skip(i as int).drop_first() =~= cfg@.skip(i + 1));
        if url_contains(&cfg[i], &kw) {
            match &cfg[i].api_key {
                Some(k) => {
                    if crate::text::non_empty(k) {
                        return k.clone();
                    }
                },
                None => {},
            }
        }
        i = i + 1;
    }
    String::new()
}

/// What `str::to_lowercase` makes of some text.
pub uninterp spec fn lowercase(s: Seq<char>) -> Seq<char>;

/// `str::to_lowercase`. Trusted: the result is the named value (Unicode lower-case
/// mapping); on ASCII text that mapping lowers `A`-`Z` letter by letter and keeps every
/// other character.
#[verifier::external_body]
pub(crate) fn to_lower(s: &String) -> (r: String)
    ensures
        r@ == lowercase(s@),
        (forall|i: int| 0 <= i < s@.len() ==> (#[trigger] s@[i] as u32) < 128) ==> r@ == s@.map_values(
            |c: char| crate::text::ascii_lower(c),
        ),
{
    s.to_lowercase()
}

/// A plan provider: its base URL contains "/plan" or its lower-cased name contains "plan".
pub open spec fn is_plan_provider(p: ProviderEntry) -> bool {
    url_has(p, "/plan"@) || contains_seq(lowercase(text_of(p.name)), "plan"@)
}

/// Ids of the plan providers, in configuration order.
pub open spec fn plan_ids(ps: Seq<ProviderEntry>) -> Seq<Seq<char>>
    decreases ps.len(),
{
    if ps.len() == 0 {
        Seq::empty()
    } else {
        let prev = plan_ids(ps.drop_last());
        if is_plan_provider(ps.last()) {
            prev.push(ps.last().id@)
        } else {
            prev
        }
    }
}

/// Ids of the providers that serve a plan (see `is_plan_provider`).
pub fn provider_plan_ids(cfg: &Vec<ProviderEntry>) -> (r: Vec<String>)
    ensures
        strings_view(r@) == plan_ids(cfg@),
{
    let slash_plan = chars_of("/plan");
    let plan = chars_of("plan");
    let mut out: Vec<String> = Vec::new();
    let mut i: usize = 0;
    while i < cfg.len()
        invariant
            i <= cfg.len(),
            slash_plan@ == "/plan"@,
            plan@ == "plan"@,
            strings_view(out@) == plan_ids(cfg@.take(i as int)),
        decreases cfg.len() - i,
    {
        assert(cfg@.take(i + 1).drop_last() =~= cfg@.take(i as int));
        assert(cfg@.take(i + 1).last() == cfg@[i as int]);
        let p = &cfg[i];
        let name = match &p.name {
            Some(n) => n.clone(),
            None => String::new(),
        };
        let lname = to_lower(&name);
        let lchars = chars_of(lname.as_str());
        if url_contains(p, &slash_plan) || contains(&lchars, &plan) {
            let ghost o0 = out@;
            out.push(p.id.clone());
            assert(strings_view(out@) =~= strings_view(o0).push(cfg@[i as int].id@));
        }
        i = i + 1;
    }
    assert(cfg@.take(cfg.len() as int) =~= cfg@);
    out
}

// ---------------------------------------------------------------- .volc.env

/// The value is a single quote character (stripping its quotes would slice backwards,
/// which panics).
pub open spec fn lone_quote(v: Seq<char>) -> bool {
    v.len() == 1 && (v[0] == '"' || v[0] == '\'')
}

/// Position of the first `=`, or -1.
pub open spec fn eq_index(s: Seq<char>) -> int
    decreases s.len(),
{
    if s.len() == 0 {
        -1
    } else if eq_index(s.drop_last()) >= 0 {
        eq_index(s.drop_last())
    } else if s.last() == '=' {
        s.len() - 1
    } else {
        -1
    }
}

/// The value with one pair of matching surrounding quotes removed.
pub open spec fn unquote(v: Seq<char>) -> Seq<char> {
    if v.len() >= 1 && ((v[0] == '"' && v.last() == '"') || (v[0] == '\'' && v.last() == '\'')) {
        v.subrange(1, v.len() - 1)
    } else {
        v
    }
}

/// The (key, value) a line sets, if it sets one: blank lines, `#` comments and lines
/// without `=` set nothing; key and value are trimmed and the value unquoted; an empty
/// key sets nothing.
pub open spec fn env_line(line: Seq<char>) -> Option<(Seq<char>, Seq<char>)> {
    let s = trim_ws(line);
    let eq = eq_index(s);
    if s.len() == 0 || s[0] == '#' || eq < 0 {
        None
    } else {
        let k = trim_ws(s.subrange(0, eq));
        let v = unquote(trim_ws(s.subrange(eq + 1, s.len() as int)));
        if k.len() == 0 {
            None
        } else {
            Some((k, v))
        }
    }
}

/// The trimmed value of a line that sets something.
pub open spec fn raw_value(line: Seq<char>) -> Seq<char> {
    let s = trim_ws(line);
    let eq = eq_index(s);
    trim_ws(s.subrange(eq + 1, s.len() as int))
}

/// No line of `content` that sets a value has a lone quote as its value.
pub open spec fn env_text_ok(content: Seq<char>) -> bool {
    forall|i: int| #![trigger split_lines(content)[i]]
        0 <= i < split_lines(content).len() ==> {
            let s = trim_ws(split_lines(content)[i]);
            (s.len() > 0 && s[0] != '#' && eq_index(s) >= 0) ==> !lone_quote(raw_value(split_lines(content)[i]))
        }
}

/// The settings of a file, in order.
pub open spec fn env_pairs(lines: Seq<Seq<char>>) -> Seq<(Seq<char>, Seq<char>)>
    decreases lines.len(),
{
    if lines.len() == 0 {
        Seq::empty()
    } else {
        let prev = env_pairs(lines.drop_last());
        match env_line(lines.last()) {
            Some(p) => prev.push(p),
            None => prev,
        }
    }
}

fn find_eq(s: &Vec<char>) -> (r: Option<usize>)
    ensures
        r matches Some(i) ==> i < s@.len(),
        match r {
            Some(i) => eq_index(s@) == i as int,
            None => eq_index(s@) == -1,
        },
{
    let mut i: usize = 0;
    while i < s.len()
        invariant
            i <= s.len(),
            eq_index(s@.take(i as int)) == -1,
        decreases s.len() - i,
    {
        assert(s@.take(i + 1).drop_last() =~= s@.take(i as int));
        if s[i] == '=' {
            proof {
                lemma_eq_index_prefix(s@, i as int + 1);
            }
            return Some(i);
        }
        i = i + 1;
    }
    assert(s@.take(s.len() as int) =~= s@);
    None
}

proof fn lemma_eq_index_prefix(s: Seq<char>, n: int)
    requires
        0 < n <= s.len(),
        eq_index(s.take(n)) >= 0,
    ensures
        eq_index(s) == eq_index(s.take(n)),
    decreases s.len() - n,
{
    if n < s.len() {
        assert(s.take(n + 1).drop_last() =~= s.take(n));
        lemma_eq_index_prefix(s, n + 1);
    } else {
        assert(s.take(n) =~= s);
    }
}

fn slice_chars(v: &Vec<char>, lo: usize, hi: usize) -> (r: Vec<char>)
    requires
        lo <= hi <= v@.len(),
    ensures
        r@ == v@.subrange(lo as int, hi as int),
{
    let mut out: Vec<char> = Vec::new();
    let mut i: usize = lo;
    while i < hi
        invariant
            lo <= i <= hi <= v@.len(),
            out@ == v@.subrange(lo as int, i as int),
        decreases hi - i,
    {
        out.push(v[i]);
        i = i + 1;
        assert(out@ =~= v@.subrange(lo as int, i as int));
    }
    out
}

fn env_setting(line: &Vec<char>) -> (r: Option<(String, String)>)
    requires
        ({
            let s = trim_ws(line@);
            (s.len() > 0 && s[0] != '#' && eq_index(s) >= 0) ==> !lone_quote(raw_value(line@))
        }),
    ensures
        match r {
            Some((k, v)) => env_line(line@) == Some((k@, v@)),
            None => env_line(line@) is None,
        },
{
    let s = trim(line);
    if s.len() == 0 || s[0] == '#' {
        return None;
    }
    let eq = match find_eq(&s) {
        Some(e) => e,
        None => {
            return None;
        },
    };
    let k = trim(&slice_chars(&s, 0, eq));
    let mut v = trim(&slice_chars(&s, eq + 1, s.len()));
    if v.len() >= 1 && ((v[0] == '"' && v[v.len() - 1] == '"') || (v[0] == '\'' && v[v.len() - 1] == '\'')) {
        v = slice_chars(&v, 1, v.len() - 1);
    }
    if k.len() == 0 {
        return None;
    }
    Some((string_of(&k), string_of(&v)))
}

fn line_fits(line: &Vec<char>) -> (r: bool)
    ensures
        r == ({
            let s = trim_ws(line@);
            (s.len() > 0 && s[0] != '#' && eq_index(s) >= 0) ==> !lone_quote(raw_value(line@))
        }),
{
    let s = trim(line);
    if s.len() == 0 || s[0] == '#' {
        return true;
    }
    let eq = match find_eq(&s) {
        Some(e) => e,
        None => {
            return true;
        },
    };
    let v = trim(&slice_chars(&s, eq + 1, s.len()));
    !(v.len() == 1 && (v[0] == '"' || v[0] == '\''))
}

/// Whether a `.volc.env` text can be read: no setting's value is a lone quote character
/// (see `env_text_ok`; `parse_env_file` needs it).
pub fn env_text_fits(content: &String) -> (r: bool)
    ensures
        r == env_text_ok(content@),
{
    let lines = crate::logs::split_text(content);
    let ghost all = split_lines(content@);
    let mut i: usize = 0;
    while i < lines.len()
        invariant
            i <= lines.len(),
            strings_view(lines@) == all,
            all == split_lines(content@),
            forall|j: int| #![trigger all[j]] 0 <= j < i ==> {
                let s = trim_ws(all[j]);
                (s.len() > 0 && s[0] != '#' && eq_index(s) >= 0) ==> !lone_quote(raw_value(all[j]))
            },
        decreases lines.len() - i,
    {
        assert(all[i as int] == lines@[i as int]@);
        let line = chars_of(lines[i].as_str());
        if !line_fits(&line) {
            return false;
        }
        i = i + 1;
    }
    true
}

/// The settings of a `.volc.env` file: `KEY=VALUE` lines, in order.
pub fn parse_env_file(content: &String) -> (r: Vec<(String, String)>)
    requires
        env_text_ok(content@),
    ensures
        r@.map_values(|p: (String, String)| (p.0@, p.1@)) == env_pairs(split_lines(content@)),
{
    let lines = crate::logs::split_text(content);
    let ghost all = split_lines(content@);
    let mut out: Vec<(String, String)> = Vec::new();
    let mut i: usize = 0;
    while i < lines.len()
        invariant
            i <= lines.len(),
            env_text_ok(content@),
            strings_view(lines@) == all,
            all == split_lines(content@),
            out@.map_values(|p: (String, String)| (p.0@, p.1@)) == env_pairs(all.take(i as int)),
        decreases lines.len() - i,
    {
        assert(all.take(i + 1).drop_last() =~= all.take(i as int));
        assert(all[i as int] == lines@[i as int]@);
        let line = chars_of(lines[i].as_str());
        match env_setting(&line) {
            Some(p) => {
                let ghost o0 = out@;
                out.push(p);
                assert(out@.map_values(|p: (String, String)| (p.0@, p.1@)) =~= o0.map_values(|p: (String, String)| (p.0@, p.1@)).push((p.0@, p.1@)));
            },
            None => {},
        }
        i = i + 1;
    }
    assert(all.take(lines.len() as int) =~= all);
    out
}

// ---------------------------------------------------------------- credentials

/// Volcengine credentials and plan settings.
pub struct Creds {
    pub ak_id: String,
    pub ak_secret: String,
    /// "agent" or "coding"
    pub plan_type: String,
    pub plan_tier: String,
    /// when the plan started, epoch milliseconds
    pub plan_start_ms: Option<i64>,
}

/// The plan type a setting selects: "agent" when it reads `agent` in any ASCII case
/// (surrounding white space ignored), else "coding".
pub open spec fn plan_type_of(raw: Option<String>) -> Seq<char> {
    if eq_ignore_ascii_case(trim_ws(text_of(raw)), "agent"@) {
        "agent"@
    } else {
        "coding"@
    }
}

/// The plan start a setting gives: RFC 3339 after trimming, with a space accepted
/// between date and time.
pub open spec fn plan_start_of(raw: Option<String>) -> Option<int> {
    match raw {
        Some(s) => rfc3339_millis(replace_char(trim_ws(s@), ' ', 'T')),
        None => None,
    }
}

/// Credentials from the environment values `VOLC_AK_ID`, `VOLC_AK_SECRET`,
/// `VOLC_PLAN_TYPE`, `VOLC_PLAN_TIER` and `VOLC_PLAN_START` (absent ones read as empty).
pub fn make_creds(
    ak_id: Option<String>,
    ak_secret: Option<String>,
    plan_type: Option<String>,
    plan_tier: Option<String>,
    plan_start: Option<String>,
) -> (c: Creds)
    ensures
        c.ak_id@ == text_of(ak_id),
        c.ak_secret@ == text_of(ak_secret),
        c.plan_type@ == plan_type_of(plan_type),
        c.plan_tier@ == text_of(plan_tier),
        match c.plan_start_ms {
            Some(ms) => plan_start_of(plan_start) == Some(ms as int),
            None => plan_start_of(plan_start) is None,
        },
{
    let ghost pt = plan_type;
    let ghost ps = plan_start;
    let pt_chars = match &plan_type {
        Some(s) => chars_of(s.as_str()),
        None => Vec::new(),
    };
    let agent = chars_of("agent");
    let kind = if eq_ascii_ci(&trim(&pt_chars), &agent) {
        owned("agent")
    } else {
        owned("coding")
    };
    let start = match &plan_start {
        Some(s) => {
            let t = trim(&chars_of(s.as_str()));
            let norm = string_of(&replace_chars(&t, ' ', 'T'));
            parse_rfc3339_ms(&norm)
        },
        None => None,
    };
    Creds {
        ak_id: match ak_id {
            Some(s) => s,
            None => String::new(),
        },
        ak_secret: match ak_secret {
            Some(s) => s,
            None => String::new(),
        },
        plan_type: kind,
        plan_tier: match plan_tier {
            Some(s) => s,
            None => String::new(),
        },
        plan_start_ms: start,
    }
}

} // verus!
