//! Calendar text for Unix times, as chrono writes it.
use vstd::prelude::*;

verus! {

/// What chrono writes for the Unix time `secs` (in seconds) with the
/// format `%Y-%m-%dT%H:%M:%SZ`, or the empty text when chrono has no
/// date for it.
pub uninterp spec fn utc_timestamp_text(secs: i64) -> Seq<char>;

/// Calls `chrono::DateTime::from_timestamp(secs, 0)` and formats the date
/// with `%Y-%m-%dT%H:%M:%SZ`, giving the empty text when chrono returns
/// no date.  Claimed: the result is `utc_timestamp_text(secs)`, a function
/// of `secs` alone (UTC does not depend on the machine's time zone).
#[verifier::external_body]
pub(crate) fn utc_text(secs: i64) -> (r: String)
    ensures
        r@ == utc_timestamp_text(secs),
{
    match chrono::DateTime::from_timestamp(secs, 0) {
        Some(dt) => dt.format("%Y-%m-%dT%H:%M:%SZ").to_string(),
        None => String::new(),
    }
}

/// The calendar text of a time in milliseconds, to the second.
pub open spec fn ms_text(ms: u64) -> Seq<char> {
    utc_timestamp_text((ms / 1000) as i64)
}

/// Writes a time in milliseconds as `%Y-%m-%dT%H:%M:%SZ` (UTC).
pub fn format_ms(ms: u64) -> (r: String)
    ensures
        r@ == ms_text(ms),
{
    let secs: u64 = ms / 1000;
    assert(secs <= 0x7fff_ffff_ffff_ffff) by (nonlinear_arith)
        requires
            secs == ms / 1000,
            ms <= 0xffff_ffff_ffff_ffff,
    ;
    utc_text(secs as i64)
}


/// What chrono writes for the day of the Unix time `secs` with the format
/// `%Y-%m-%d` (UTC), or the empty text when chrono has no date for it.
pub uninterp spec fn utc_date_text(secs: i64) -> Seq<char>;

/// Calls `chrono::DateTime::from_timestamp(secs, 0)` and formats the date
/// with `%Y-%m-%d`, giving the empty text when chrono returns no date.
/// Claimed: the result is `utc_date_text(secs)`, a function of `secs`
/// alone.
#[verifier::external_body]
pub(crate) fn utc_day(secs: i64) -> (r: String)
    ensures
        r@ == utc_date_text(secs),
{
    match chrono::DateTime::from_timestamp(secs, 0) {
        Some(dt) => dt.format("%Y-%m-%d").to_string(),
        None => String::new(),
    }
}

/// Seconds in a day.
pub open spec fn day_secs() -> int {
    86400
}

/// The day (UTC) `back` days before the time `now_ms` (milliseconds).
pub open spec fn day_before(now_ms: u64, back: int) -> Seq<char> {
    utc_date_text(((now_ms / 1000) as int - back * day_secs()) as i64)
}

/// The day (UTC) `back` days before the time `now_ms`.
pub fn day_before_exec(now_ms: u64, back: u32) -> (r: String)
    ensures
        r@ == day_before(now_ms, back as int),
{
    let secs: u64 = now_ms / 1000;
    assert(secs <= 0x7fff_ffff_ffff_ffff) by (nonlinear_arith)
        requires
            secs == now_ms / 1000,
            now_ms <= 0xffff_ffff_ffff_ffff,
    ;
    let d: i64 = (back as i64) * 86400;
    utc_day(secs as i64 - d)
}

/// The last fourteen days (UTC), oldest first, ending with the day of
/// `now_ms`.
pub fn last_fourteen_days(now_ms: u64) -> (r: Vec<String>)
    ensures
        r@.len() == 14,
        forall|i: int| 0 <= i < 14 ==> #[trigger] r@[i]@ == day_before(now_ms, 13 - i),
{
    let mut out: Vec<String> = Vec::new();
    let mut i: u32 = 0;
    while i < 14
        invariant
            i <= 14,
            out@.len() == i,
            forall|k: int| 0 <= k < i ==> #[trigger] out@[k]@ == day_before(now_ms, 13 - k),
        decreases 14 - i,
    {
        out.push(day_before_exec(now_ms, 13 - i));
        i = i + 1;
    }
    out
}

/// The day (UTC) of a time in milliseconds.
pub fn day_of_ms(ms: u64) -> (r: String)
    ensures
        r@ == day_before(ms, 0),
{
    day_before_exec(ms, 0)
}

/// The Unix time (seconds) of the start, in UTC, of the calendar day that
/// chrono reads in `s` with the format `%Y-%m-%d`; none when it reads none.
pub uninterp spec fn day_start_of(s: Seq<char>) -> Option<i64>;

/// Calls `chrono::NaiveDate::parse_from_str(s, "%Y-%m-%d")` and gives the
/// Unix time of the start (UTC) of the day it reads.  Claimed: the result
/// is `day_start_of(s)`, a function of `s` alone.
#[verifier::external_body]
pub(crate) fn parse_day_start(s: &str) -> (r: Option<i64>)
    ensures
        r == day_start_of(s@),
{
    match chrono::NaiveDate::parse_from_str(s, "%Y-%m-%d") {
        Ok(d) => Some(d.and_time(chrono::NaiveTime::MIN).and_utc().timestamp()),
        Err(_) => None,
    }
}

/// The day (UTC) `back` days before the day that starts at `start`.
pub open spec fn day_back_from(start: i64, back: int) -> Seq<char> {
    utc_date_text((start - back * day_secs()) as i64)
}

/// The fourteen days (UTC) that end with the day starting at `start`,
/// oldest first.
pub fn fourteen_days_ending(start: i64) -> (r: Vec<String>)
    requires
        start >= i64::MIN + 13 * 86400,
    ensures
        r@.len() == 14,
        forall|i: int| 0 <= i < 14 ==> #[trigger] r@[i]@ == day_back_from(start, 13 - i),
{
    let mut out: Vec<String> = Vec::new();
    let mut i: i64 = 0;
    while i < 14
        invariant
            0 <= i <= 14,
            start >= i64::MIN + 13 * 86400,
            out@.len() == i,
            forall|k: int| 0 <= k < i ==> #[trigger] out@[k]@ == day_back_from(start, 13 - k),
        decreases 14 - i,
    {
        let back: i64 = 13 - i;
        out.push(utc_day(start - back * 86400));
        i = i + 1;
    }
    out
}

/// The fourteen days that end with the date `today` as chrono reads it
/// (`%Y-%m-%d`), oldest first; none when chrono reads no date there, or
/// one so early that the days before it cannot be counted.
pub fn fourteen_days_to(today: &str) -> (r: Option<Vec<String>>)
    ensures
        r is Some <==> (day_start_of(today@) matches Some(s) && s >= i64::MIN + 13 * 86400),
        r matches Some(v) ==> v@.len() == 14 && forall|i: int|
            0 <= i < 14 ==> #[trigger] v@[i]@ == day_back_from(day_start_of(today@)->0, 13 - i),
{
    match parse_day_start(today) {
        Some(s) => {
            if s >= i64::MIN + 13 * 86400 {
                Some(fourteen_days_ending(s))
            } else {
                None
            }
        },
        None => None,
    }
}

/// The fourteen days, oldest first, that end with the date `today`
/// (`%Y-%m-%d`), when chrono reads one there with room for the thirteen
/// days before it.
pub open spec fn fourteen_days_of(today: Seq<char>) -> Option<Seq<Seq<char>>> {
    match day_start_of(today) {
        Some(s) => if s >= i64::MIN + 13 * 86400 {
            Some(Seq::new(14, |i: int| day_back_from(s, 13 - i)))
        } else {
            None
        },
        None => None,
    }
}

/// The days a fourteen-day report covers: those ending with the server's
/// date when it gave a readable one, else those ending with the local
/// date.
pub open spec fn report_days(server_today: Option<Seq<char>>, local_today: Seq<char>) -> Option<
    Seq<Seq<char>>,
> {
    match server_today {
        Some(t) => if fourteen_days_of(t) is Some {
            fourteen_days_of(t)
        } else {
            fourteen_days_of(local_today)
        },
        None => fourteen_days_of(local_today),
    }
}

/// The texts of a list of strings.
pub open spec fn texts_of(v: Seq<String>) -> Seq<Seq<char>> {
    v.map_values(|x: String| x@)
}

/// The fourteen days (see `report_days`) of a report whose server gave
/// `server_today` (if any) on a machine whose local date is `local_today`.
pub fn fourteen_report_days(server_today: Option<&str>, local_today: &str) -> (r: Option<
    Vec<String>,
>)
    ensures
        (match r {
            Some(v) => Some(texts_of(v@)),
            None => None,
        }) == report_days(
            match server_today {
                Some(t) => Some(t@),
                None => None,
            },
            local_today@,
        ),
{
    if let Some(t) = server_today {
        let got = fourteen_days_to(t);
        if let Some(v) = got {
            assert(texts_of(v@) =~= fourteen_days_of(t@)->0);
            return Some(v);
        }
    }
    let got = fourteen_days_to(local_today);
    match got {
        Some(v) => {
            assert(texts_of(v@) =~= fourteen_days_of(local_today@)->0);
            Some(v)
        },
        None => None,
    }
}

} // verus!
