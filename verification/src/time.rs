//! Timestamps for sidebar rows and menus: the compact relative label
//! ("now", "5m", "2h", "3d") and the compact turn label (time of day, or
//! month, day and time), both read from RFC 3339 text with chrono.

use vstd::prelude::*;

use chrono::Datelike;

use crate::text;

verus! {

/// Whether chrono reads `iso` as an RFC 3339 date and time
/// (`chrono::DateTime::parse_from_rfc3339` succeeds).
pub uninterp spec fn rfc3339_parses(iso: Seq<char>) -> bool;

/// `chrono::DateTime::parse_from_rfc3339`, then the whole seconds from
/// that instant to `chrono::Utc::now()` (`signed_duration_since`,
/// `TimeDelta::num_seconds`). The parsed date and time stays inside this
/// item; only the seconds leave it. Claimed: a result exactly when the text parses; nothing of the seconds,
/// which depend on the clock.
#[verifier::external_body]
fn age_seconds(iso: &str) -> (r: Option<i64>)
    ensures
        r is Some == rfc3339_parses(iso@),
{
    let then = chrono::DateTime::parse_from_rfc3339(iso).ok()?;
    Some(chrono::Utc::now().signed_duration_since(then).num_seconds())
}

/// `chrono::Utc::now().timestamp_millis()`: the current Unix time in
/// milliseconds; nothing is claimed of it.
#[verifier::external_body]
pub(crate) fn now_millis() -> i64 {
    chrono::Utc::now().timestamp_millis()
}

/// `chrono::Utc::now().timestamp_nanos_opt()`: the current Unix time in
/// nanoseconds, `None` past what an `i64` holds; nothing is claimed of it.
#[verifier::external_body]
fn now_nanos() -> Option<i64> {
    chrono::Utc::now().timestamp_nanos_opt()
}

/// `<prefix>-<stamp>`: an id named after a clock reading (0 when the clock
/// gave none).
pub open spec fn stamped_id_spec(prefix: Seq<char>, stamp: Option<i64>) -> Seq<char> {
    prefix + "-"@ + text::signed_decimal(
        match stamp {
            Some(n) => n as int,
            None => 0,
        },
    )
}

pub fn stamped_id(prefix: &str, stamp: Option<i64>) -> (r: String)
    ensures
        r@ == stamped_id_spec(prefix@, stamp),
{
    let mut v = text::chars_of(prefix);
    v.push('-');
    let ghost v1 = v@;
    text::push_signed_decimal(
        &mut v,
        match stamp {
            Some(n) => n,
            None => 0,
        },
    );
    proof {
        reveal_strlit("-");
        assert(v1 =~= prefix@ + "-"@);
        assert(v@ =~= stamped_id_spec(prefix@, stamp));
    }
    text::string_from(&v)
}

/// A fresh id for a command or record: the prefix and the current time in
/// nanoseconds.
pub fn fresh_id(prefix: &str) -> (r: String)
    ensures
        exists|stamp: Option<i64>| r@ == stamped_id_spec(prefix@, stamp),
{
    stamped_id(prefix, now_nanos())
}

/// The patterns of the compact turn timestamp: time of day for today,
/// else month, day and time.
pub open spec fn short_pattern(today: bool) -> Seq<char> {
    if today {
        "%H:%M"@
    } else {
        "%b %-d, %H:%M"@
    }
}

/// The pattern of the compact turn timestamp for a turn on local date
/// `when`, today being `today`.
pub fn short_pattern_of(when: LocalDate, today: LocalDate) -> (p: &'static str)
    ensures
        p@ == short_pattern(when == today),
{
    short_pattern_for(same_date(when, today))
}

/// The pattern of the compact turn timestamp.
pub fn short_pattern_for(today: bool) -> (p: &'static str)
    ensures
        p@ == short_pattern(today),
{
    if today {
        "%H:%M"
    } else {
        "%b %-d, %H:%M"
    }
}

pub open spec fn is_digit(c: char) -> bool {
    '0' <= c && c <= '9'
}

/// Two decimal digits (`%H`, `%M`: zero-padded).
pub open spec fn two_digits(s: Seq<char>) -> bool {
    s.len() == 2 && is_digit(s[0]) && is_digit(s[1])
}

/// An English three-letter month (`%b`).
pub open spec fn month_abbrev(s: Seq<char>) -> bool {
    ||| s == "Jan"@
    ||| s == "Feb"@
    ||| s == "Mar"@
    ||| s == "Apr"@
    ||| s == "May"@
    ||| s == "Jun"@
    ||| s == "Jul"@
    ||| s == "Aug"@
    ||| s == "Sep"@
    ||| s == "Oct"@
    ||| s == "Nov"@
    ||| s == "Dec"@
}

/// The day of the month without padding (`%-d`).
pub open spec fn unpadded_day(s: Seq<char>) -> bool {
    (s.len() == 1 && is_digit(s[0]) && s[0] != '0') || (s.len() == 2 && '1' <= s[0] && s[0] <= '3'
        && is_digit(s[1]))
}

/// `HH:MM` (`%H:%M`).
pub open spec fn hm_text(s: Seq<char>) -> bool {
    s.len() == 5 && two_digits(s.subrange(0, 2)) && s[2] == ':' && two_digits(s.subrange(3, 5))
}

/// The compact turn label of another day: `Mon d, HH:MM` (`%b %-d, %H:%M`).
pub open spec fn month_day_hm_text(s: Seq<char>) -> bool {
    &&& (s.len() == 12 || s.len() == 13)
    &&& month_abbrev(s.subrange(0, 3))
    &&& s[3] == ' '
    &&& unpadded_day(s.subrange(4, s.len() - 7))
    &&& s[s.len() - 7] == ','
    &&& s[s.len() - 6] == ' '
    &&& hm_text(s.subrange(s.len() - 5, s.len() as int))
}

/// A calendar date as year, month and day.
pub type LocalDate = (i32, u32, u32);

/// `chrono::DateTime::parse_from_rfc3339`, moved to the machine's zone
/// (`with_timezone(&chrono::Local)`), and today (`chrono::Local::now()`):
/// the two local dates (`date_naive`) as year, month and day. Claimed: a
/// result exactly when the text parses; nothing of the dates, which depend
/// on the clock and the zone.
#[verifier::external_body]
fn local_dates(iso: &str) -> (r: Option<(LocalDate, LocalDate)>)
    ensures
        r is Some == rfc3339_parses(iso@),
{
    let then = chrono::DateTime::parse_from_rfc3339(iso).ok()?.with_timezone(&chrono::Local);
    let when = then.date_naive();
    let today = chrono::Local::now().date_naive();
    Some(((when.year(), when.month(), when.day()), (today.year(), today.month(), today.day())))
}

/// Whether two dates are the same day.
pub fn same_date(a: LocalDate, b: LocalDate) -> (r: bool)
    ensures
        r == (a == b),
{
    a.0 == b.0 && a.1 == b.1 && a.2 == b.2
}

/// `chrono::DateTime::parse_from_rfc3339`, moved to the machine's zone
/// (`with_timezone(&chrono::Local)`) and rendered with `format(pattern)`.
/// Claimed: a result exactly when the text parses, in the shape chrono's
/// formatting gives each of these patterns (`%b` an English three-letter
/// month, `%-d` the day unpadded, `%H` and `%M` two zero-padded digits); nothing of which date and time, which depend on the zone.
#[verifier::external_body]
fn local_clock(iso: &str, pattern: &str) -> (r: Option<String>)
    requires
        pattern@ == short_pattern(true) || pattern@ == short_pattern(false),
    ensures
        r is Some == rfc3339_parses(iso@),
        r matches Some(t) ==> {
            &&& pattern@ == short_pattern(true) ==> hm_text(t@)
            &&& pattern@ == short_pattern(false) ==> month_day_hm_text(t@)
        },
{
    let then = chrono::DateTime::parse_from_rfc3339(iso).ok()?;
    Some(then.with_timezone(&chrono::Local).format(pattern).to_string())
}

/// The compact age label for `secs` seconds: under a minute (or in the
/// future) "now", then whole minutes, hours, or days.
pub open spec fn age_label(secs: int) -> Seq<char> {
    if secs < 60 {
        "now"@
    } else if secs < 3600 {
        text::decimal((secs / 60) as nat) + "m"@
    } else if secs < 86400 {
        text::decimal((secs / 3600) as nat) + "h"@
    } else {
        text::decimal((secs / 86400) as nat) + "d"@
    }
}

/// The compact age label for an elapsed time in whole seconds.
pub fn relative_label(secs: i64) -> (r: String)
    ensures
        r@ == age_label(secs as int),
{
    if secs < 60 {
        return String::from_str("now");
    }
    let (n, unit) = if secs < 3600 {
        (secs / 60, "m")
    } else if secs < 86400 {
        (secs / 3600, "h")
    } else {
        (secs / 86400, "d")
    };
    let mut out: Vec<char> = Vec::new();
    text::push_decimal(&mut out, n as u64);
    let mut s = text::string_from(&out);
    text::push_str(&mut s, unit);
    assert(out@ =~= text::decimal(n as nat));
    s
}

/// The age of an RFC 3339 timestamp, as of now; `None` when it does not
/// parse.
pub fn relative_time(iso: &str) -> (r: Option<String>)
    ensures
        r is Some == rfc3339_parses(iso@),
        r matches Some(l) ==> exists|s: i64| l@ == age_label(s as int),
{
    let secs = age_seconds(iso)?;
    Some(relative_label(secs))
}

/// The compact relative timestamp of sidebar rows ("now", "5m", "2h",
/// "3d"); the text as given when it does not parse.
pub fn message_timestamp(iso: &str) -> (r: String)
    ensures
        rfc3339_parses(iso@) ==> exists|s: i64| r@ == age_label(s as int),
        !rfc3339_parses(iso@) ==> r@ == iso@,
{
    match relative_time(iso) {
        Some(l) => l,
        None => text::string_from(&text::chars_of(iso)),
    }
}

/// The compact turn timestamp of `iso` given its local date and today's
/// (`dates`, `None` when the text does not parse): the time of day for
/// today, otherwise month, day and time; the text as given when there is
/// nothing to format.
pub fn short_timestamp_from(iso: &str, dates: Option<(LocalDate, LocalDate)>) -> (r: String)
    ensures
        dates is None ==> r@ == iso@,
        !rfc3339_parses(iso@) ==> r@ == iso@,
        rfc3339_parses(iso@) ==> match dates {
            Some((when, today)) => if when == today {
                hm_text(r@)
            } else {
                month_day_hm_text(r@)
            },
            None => true,
        },
{
    let formatted = match dates {
        None => None,
        Some((when, today)) => local_clock(iso, short_pattern_of(when, today)),
    };
    match formatted {
        Some(f) => f,
        None => text::string_from(&text::chars_of(iso)),
    }
}

/// The compact timestamp of the diff panel's turn menu: the local time of
/// day for today, otherwise month, day and time; the text as given when it
/// does not parse.
pub fn format_short_timestamp(iso: &str) -> (r: String)
    ensures
        !rfc3339_parses(iso@) ==> r@ == iso@,
        rfc3339_parses(iso@) ==> hm_text(r@) || month_day_hm_text(r@),
{
    short_timestamp_from(iso, local_dates(iso))
}

} // verus!
