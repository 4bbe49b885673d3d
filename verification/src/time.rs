//! Calendar and timestamp conversions (through `chrono`).
use vstd::prelude::*;
use crate::text::{chars_of, string_of};
use chrono::Datelike;

verus! {

/// What `chrono::DateTime::parse_from_rfc3339` gives for some text, as epoch milliseconds.
pub uninterp spec fn rfc3339_millis(s: Seq<char>) -> Option<int>;

/// Days from 1970-01-01 to the day (y, m, d) of the proleptic Gregorian calendar.
pub open spec fn days_from_civil(y: int, m: int, d: int) -> int {
    let yy = if m <= 2 { y - 1 } else { y };
    let era = yy / 400;
    let yoe = yy - era * 400;
    let mp = if m > 2 { m - 3 } else { m + 9 };
    let doy = (153 * mp + 2) / 5 + d - 1;
    let doe = yoe * 365 + yoe / 4 - yoe / 100 + doy;
    era * 146097 + doe - 719468
}

/// The day (y, m, d) of the proleptic Gregorian calendar that lies `z` days after
/// 1970-01-01 (the inverse of `days_from_civil`).
pub open spec fn civil_from_days(z: int) -> (int, int, int) {
    let zz = z + 719468;
    let era = zz / 146097;
    let doe = zz - era * 146097;
    let yoe = (doe - doe / 1460 + doe / 36524 - doe / 146096) / 365;
    let y = yoe + era * 400;
    let doy = doe - (365 * yoe + yoe / 4 - yoe / 100);
    let mp = (5 * doy + 2) / 153;
    let d = doy - (153 * mp + 2) / 5 + 1;
    let m = if mp < 10 { mp + 3 } else { mp - 9 };
    (if m <= 2 { y + 1 } else { y }, m, d)
}

/// Milliseconds in a day.
pub open spec fn day_ms() -> int {
    86_400_000
}

/// The UTC calendar date of an epoch-millisecond timestamp, when it lies within chrono's
/// date range (years -262143 to 262142), as `chrono::DateTime::from_timestamp_millis`
/// gives it.
pub open spec fn utc_civil(ms: int) -> Option<(int, int, int)> {
    let z = ms / day_ms();
    if days_from_civil(-262143, 1, 1) <= z <= days_from_civil(262142, 12, 31) {
        Some(civil_from_days(z))
    } else {
        None
    }
}

/// Midnight UTC of a calendar day as epoch milliseconds, when the day exists within
/// chrono's date range (what `NaiveDate::from_ymd_opt(y, m, d)` at 00:00:00 UTC gives).
pub open spec fn utc_midnight(y: int, m: int, d: int) -> Option<int> {
    if valid_civil_date(y, m, d) {
        Some(days_from_civil(y, m, d) * day_ms())
    } else {
        None
    }
}

/// Leap year of the proleptic Gregorian calendar.
pub open spec fn is_leap(y: int) -> bool {
    (y % 4 == 0 && y % 100 != 0) || y % 400 == 0
}

/// Days in month `m` of year `y`.
pub open spec fn days_in_month(y: int, m: int) -> int {
    if m == 2 {
        if is_leap(y) {
            29
        } else {
            28
        }
    } else if m == 4 || m == 6 || m == 9 || m == 11 {
        30
    } else {
        31
    }
}

/// A calendar day within chrono's date range (years -262143 to 262142).
pub open spec fn valid_civil_date(y: int, m: int, d: int) -> bool {
    -262143 <= y <= 262142 && 1 <= m <= 12 && 1 <= d <= days_in_month(y, m)
}

/// Parses RFC 3339 text with `chrono::DateTime::parse_from_rfc3339` and takes
/// `timestamp_millis`. Trusted: the result is the named value; chrono reads a
/// four-digit year and an offset under 24 hours, which bounds the milliseconds.
#[verifier::external_body]
pub(crate) fn parse_rfc3339_ms(s: &String) -> (r: Option<i64>)
    ensures
        match r {
            Some(ms) => rfc3339_millis(s@) == Some(ms as int) && -63_000_000_000_000 < ms
                < 254_000_000_000_000,
            None => rfc3339_millis(s@) is None,
        },
{
    chrono::DateTime::parse_from_rfc3339(s.as_str()).ok().map(|t| t.timestamp_millis())
}

/// The UTC calendar date of an epoch-millisecond timestamp via
/// `chrono::DateTime::from_timestamp_millis`, `None` when chrono cannot represent it.
/// Trusted: the date is `utc_civil` (chrono's proleptic Gregorian calendar and its date
/// range), a valid calendar day.
#[verifier::external_body]
pub(crate) fn utc_ymd(ms: i64) -> (r: Option<(i32, u32, u32)>)
    ensures
        match r {
            Some((y, m, d)) => utc_civil(ms as int) == Some((y as int, m as int, d as int))
                && valid_civil_date(y as int, m as int, d as int),
            None => utc_civil(ms as int) is None,
        },
{
    chrono::DateTime::from_timestamp_millis(ms).map(|t| (t.year(), t.month(), t.day()))
}

/// Midnight UTC of a calendar day as epoch milliseconds, via `NaiveDate::from_ymd_opt`,
/// `and_hms_opt(0, 0, 0)`, `and_utc` and `timestamp_millis`. Trusted: `None` exactly when
/// the day does not exist or lies outside chrono's range (chrono documents this);
/// otherwise the value `utc_midnight` states.
#[verifier::external_body]
pub(crate) fn utc_midnight_ms(y: i32, m: u32, d: u32) -> (r: Option<i64>)
    ensures
        match r {
            Some(ms) => utc_midnight(y as int, m as int, d as int) == Some(ms as int)
                && valid_civil_date(y as int, m as int, d as int),
            None => utc_midnight(y as int, m as int, d as int) is None && !valid_civil_date(
                y as int,
                m as int,
                d as int,
            ),
        },
{
    chrono::NaiveDate::from_ymd_opt(y, m, d)
        .and_then(|t| t.and_hms_opt(0, 0, 0))
        .map(|t| t.and_utc().timestamp_millis())
}

/// `HH:MM:SS` with two digits each.
pub open spec fn is_hms(s: Seq<char>) -> bool {
    &&& s.len() == 8
    &&& s[2] == ':' && s[5] == ':'
    &&& forall|i: int| 0 <= i < 8 && i != 2 && i != 5 ==> '0' <= #[trigger] s[i] <= '9'
}

/// The local wall-clock time of a timestamp, formatted `%H:%M:%S` by chrono.
/// Trusted: there is a text exactly when `chrono::DateTime::from_timestamp_millis`
/// represents the timestamp (the call `utc_ymd` also makes, so exactly when `utc_civil`
/// gives a date), and it is two-digit hours, minutes and seconds; which time it shows
/// depends on the machine's time zone and is not stated.
#[verifier::external_body]
fn local_hms(ms: i64) -> (r: Option<String>)
    ensures
        (r is Some) == (utc_civil(ms as int) is Some),
        match r {
            Some(s) => is_hms(s@),
            None => true,
        },
{
    chrono::DateTime::from_timestamp_millis(ms).map(
        |t| t.with_timezone(&chrono::Local).format("%H:%M:%S").to_string(),
    )
}

/// A timestamp as local `HH:MM:SS`; the empty string for 0 and for timestamps chrono
/// cannot represent.
pub fn fmt_ts(ms: i64) -> (r: String)
    ensures
        ms == 0 ==> r@.len() == 0,
        ms != 0 && utc_civil(ms as int) is Some ==> is_hms(r@),
        ms != 0 && utc_civil(ms as int) is None ==> r@.len() == 0,
{
    if ms == 0 {
        return String::new();
    }
    match local_hms(ms) {
        Some(s) => s,
        None => String::new(),
    }
}

/// `s` with every `Z` replaced by `+00:00`.
pub open spec fn replace_z(s: Seq<char>) -> Seq<char>
    decreases s.len(),
{
    if s.len() == 0 {
        Seq::empty()
    } else {
        replace_z(s.drop_last()) + if s.last() == 'Z' {
            seq!['+', '0', '0', ':', '0', '0']
        } else {
            seq![s.last()]
        }
    }
}

/// An ISO timestamp as epoch milliseconds, after rewriting `Z` as `+00:00`.
pub fn parse_iso_ms(ts: &String) -> (r: Option<i64>)
    ensures
        match r {
            Some(ms) => rfc3339_millis(replace_z(ts@)) == Some(ms as int),
            None => rfc3339_millis(replace_z(ts@)) is None,
        },
        r matches Some(ms) ==> -63_000_000_000_000 < ms < 254_000_000_000_000,
{
    let v = chars_of(ts.as_str());
    let mut out: Vec<char> = Vec::new();
    let mut i: usize = 0;
    while i < v.len()
        invariant
            i <= v.len(),
            out@ == replace_z(v@.take(i as int)),
        decreases v.len() - i,
    {
        assert(v@.take(i + 1).drop_last() =~= v@.take(i as int));
        if v[i] == 'Z' {
            out.push('+');
            out.push('0');
            out.push('0');
            out.push(':');
            out.push('0');
            out.push('0');
        } else {
            out.push(v[i]);
        }
        i = i + 1;
        assert(out@ =~= replace_z(v@.take(i as int)));
    }
    assert(v@.take(v.len() as int) =~= v@);
    let norm = string_of(&out);
    parse_rfc3339_ms(&norm)
}


/// Milliseconds in a day.
pub const MS_PER_DAY: i64 = 86_400_000;

/// The starts of the seven-day and thirty-day usage windows, counted back from the start
/// of today.
pub fn window_starts(today_ms: i64) -> (r: (i64, i64))
    requires
        today_ms >= i64::MIN + 30 * MS_PER_DAY,
    ensures
        r.0 == today_ms - 7 * MS_PER_DAY,
        r.1 == today_ms - 30 * MS_PER_DAY,
{
    (today_ms - 7 * MS_PER_DAY, today_ms - 30 * MS_PER_DAY)
}


/// What `to_rfc3339_opts(SecondsFormat::Millis, true)` writes for the UTC instant `ms`
/// milliseconds after the epoch (such as `2024-01-01T00:00:00.000Z`).
pub uninterp spec fn rfc3339_utc_text(ms: int) -> Seq<char>;

/// Formats an epoch-millisecond timestamp with `chrono::DateTime::from_timestamp_millis`
/// and `to_rfc3339_opts(SecondsFormat::Millis, true)`. Trusted: there is a text exactly
/// when `from_timestamp_millis` represents the timestamp (when `utc_civil` gives a date),
/// and it is the named text.
#[verifier::external_body]
fn rfc3339_utc(ms: i64) -> (r: Option<String>)
    ensures
        (r is Some) == (utc_civil(ms as int) is Some),
        r matches Some(s) ==> s@ == rfc3339_utc_text(ms as int),
{
    chrono::DateTime::from_timestamp_millis(ms).map(|t| t.to_rfc3339_opts(chrono::SecondsFormat::Millis, true))
}

/// An instant as RFC 3339 UTC text with milliseconds; empty when chrono cannot represent it.
pub open spec fn utc_text_of(ms: int) -> Seq<char> {
    if utc_civil(ms) is Some {
        rfc3339_utc_text(ms)
    } else {
        Seq::empty()
    }
}

/// Writes an instant as RFC 3339 UTC text with milliseconds (see `utc_text_of`).
pub fn utc_text(ms: i64) -> (r: String)
    ensures
        r@ == utc_text_of(ms as int),
{
    proof {
        reveal_strlit("");
    }
    match rfc3339_utc(ms) {
        Some(s) => s,
        None => String::new(),
    }
}

/// The time of the latest completed request as shown: its RFC 3339 UTC text, empty when
/// there is none or chrono cannot represent it.
pub fn last_activity(newest_ms: Option<i64>) -> (r: String)
    ensures
        r@ == match newest_ms {
            Some(ms) => utc_text_of(ms as int),
            None => Seq::empty(),
        },
{
    match newest_ms {
        Some(ms) => utc_text(ms),
        None => String::new(),
    }
}

/// What chrono's `format("%Y%m%dT%H%M%SZ")` writes for the UTC instant `ms` milliseconds
/// after the epoch (such as `20240102T030405Z`).
pub uninterp spec fn amz_date_text(ms: int) -> Seq<char>;

/// Formats an epoch-millisecond timestamp with `chrono::DateTime::from_timestamp_millis`
/// and `format("%Y%m%dT%H%M%SZ")`. Trusted: there is a text exactly when
/// `from_timestamp_millis` represents the timestamp (when `utc_civil` gives a date), and
/// it is the named text.
#[verifier::external_body]
fn amz_date_of(ms: i64) -> (r: Option<String>)
    ensures
        (r is Some) == (utc_civil(ms as int) is Some),
        r matches Some(s) ==> s@ == amz_date_text(ms as int),
{
    chrono::DateTime::from_timestamp_millis(ms).map(|t| t.format("%Y%m%dT%H%M%SZ").to_string())
}

/// The request date of a signed call (`YYYYMMDDTHHMMSSZ`, UTC); empty when chrono cannot
/// represent the instant.
pub fn amz_date(ms: i64) -> (r: String)
    ensures
        r@ == if utc_civil(ms as int) is Some {
            amz_date_text(ms as int)
        } else {
            Seq::<char>::empty()
        },
{
    match amz_date_of(ms) {
        Some(s) => s,
        None => String::new(),
    }
}

} // verus!
