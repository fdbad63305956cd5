//! Date/timestamp handling. A post's `date` field may be a plain date or a
//! full timestamp; these helpers read it leniently and format it for RSS.
//!
//! The calendar work is chrono's: the functions below decide which of its
//! readings applies and what becomes of the result.

use vstd::prelude::*;

use chrono::{DateTime, Datelike, FixedOffset, Local, NaiveDate, NaiveDateTime};

use crate::strings::{chars_of, string_of};

verus! {

/// Seconds since the Unix epoch of the first instant chrono can represent
/// (January 1 of its minimum year, 00:00:00 UTC).
pub const MIN_SECS: i64 = -8334601228800i64;

/// Seconds since the Unix epoch of the last whole second chrono can represent
/// (December 31 of its maximum year, 23:59:59 UTC).
pub const MAX_SECS: i64 = 8210266876799i64;

/// chrono's day count (days from the common era, 0001-01-01 being day 1) of
/// its minimum date.
pub const MIN_DAY: i32 = -95746129i32;

/// chrono's day count of its maximum date.
pub const MAX_DAY: i32 = 95745399i32;

/// chrono's day count of 1970-01-01.
pub const UNIX_EPOCH_DAY: i64 = 719163i64;

/// A timezone-aware instant: the Unix timestamp of the UTC instant, its
/// sub-second nanoseconds (at least 10^9 only within a leap second), and the
/// offset of the local time east of UTC, in seconds.
#[derive(Clone, Copy, Debug)]
pub struct Instant {
    pub secs: i64,
    pub nanos: u32,
    pub offset: i32,
}

impl Instant {
    /// The values chrono's `DateTime<FixedOffset>` can hold.
    pub open spec fn wf(self) -> bool {
        &&& MIN_SECS <= self.secs <= MAX_SECS
        &&& self.nanos < 2_000_000_000
        &&& self.nanos >= 1_000_000_000 ==> self.secs % 60 == 59
        &&& -86_400 < self.offset < 86_400
    }

    /// `self` is a later instant than `other` (the offset plays no part).
    pub open spec fn later_than(self, other: Instant) -> bool {
        self.secs > other.secs || (self.secs == other.secs && self.nanos > other.nanos)
    }
}

/// What chrono's `DateTime::parse_from_rfc3339` reads from a string.
pub uninterp spec fn rfc3339_reading(s: Seq<char>) -> Option<Instant>;

/// The Unix timestamp and sub-second nanoseconds, taken as UTC, of what
/// chrono's `NaiveDateTime::parse_from_str` reads from a string in a format.
pub uninterp spec fn naive_datetime_reading(s: Seq<char>, fmt: Seq<char>) -> Option<(i64, u32)>;

/// The day count (`num_days_from_ce`) of what chrono's
/// `NaiveDate::parse_from_str` reads from a string in a format.
pub uninterp spec fn naive_date_reading(s: Seq<char>, fmt: Seq<char>) -> Option<i32>;

/// chrono's `DateTime::to_rfc2822` of an instant.
pub uninterp spec fn rfc2822_text(t: Instant) -> Seq<char>;

/// chrono's `DateTime::to_rfc3339` of an instant.
pub uninterp spec fn rfc3339_text(t: Instant) -> Seq<char>;

/// The local year (`Datelike::year`) of an instant.
pub uninterp spec fn local_year(t: Instant) -> i32;

/// chrono's `DateTime::format(fmt).to_string()` of an instant.
pub uninterp spec fn formatted(t: Instant, fmt: Seq<char>) -> Seq<char>;

/// An ASCII decimal digit.
pub open spec fn is_digit(c: char) -> bool {
    '0' <= c && c <= '9'
}

/// The value of an ASCII decimal digit.
pub open spec fn digit_value(c: char) -> int {
    c as int - '0' as int
}

/// `s` begins with `YYYY-MM-DD`, where `YYYY` is `year` written with four
/// digits.
pub open spec fn starts_with_date(s: Seq<char>, year: int) -> bool {
    &&& s.len() >= 10
    &&& is_digit(s[0]) && is_digit(s[1]) && is_digit(s[2]) && is_digit(s[3])
    &&& s[4] == '-'
    &&& is_digit(s[5]) && is_digit(s[6])
    &&& s[7] == '-'
    &&& is_digit(s[8]) && is_digit(s[9])
    &&& 1000 * digit_value(s[0]) + 100 * digit_value(s[1]) + 10 * digit_value(s[2])
        + digit_value(s[3]) == year
}

/// `s` is a date `YYYY-MM-DD` in `year`.
pub open spec fn is_date_text(s: Seq<char>, year: int) -> bool {
    s.len() == 10 && starts_with_date(s, year)
}

/// `s` is a timestamp `YYYY-MM-DDTHH:MM:SS+HH:MM` (or `-HH:MM`) in `year`.
pub open spec fn is_timestamp_text(s: Seq<char>, year: int) -> bool {
    &&& s.len() == 25
    &&& starts_with_date(s, year)
    &&& s[10] == 'T'
    &&& is_digit(s[11]) && is_digit(s[12])
    &&& s[13] == ':'
    &&& is_digit(s[14]) && is_digit(s[15])
    &&& s[16] == ':'
    &&& is_digit(s[17]) && is_digit(s[18])
    &&& (s[19] == '+' || s[19] == '-')
    &&& is_digit(s[20]) && is_digit(s[21])
    &&& s[22] == ':'
    &&& is_digit(s[23]) && is_digit(s[24])
}

/// Calls `DateTime::parse_from_rfc3339`; the reading is `rfc3339_reading` of
/// the text, and any instant it yields is one chrono can hold.
#[verifier::external_body]
fn read_rfc3339(s: &str) -> (res: Option<Instant>)
    ensures
        res == rfc3339_reading(s@),
        res matches Some(t) ==> t.wf(),
{
    match DateTime::parse_from_rfc3339(s) {
        Ok(dt) => Some(
            Instant {
                secs: dt.timestamp(),
                nanos: dt.timestamp_subsec_nanos(),
                offset: dt.offset().local_minus_utc(),
            },
        ),
        Err(_) => None,
    }
}

/// Calls `NaiveDateTime::parse_from_str`; the reading, taken as UTC, is
/// `naive_datetime_reading` of the text and format, within chrono's range.
#[verifier::external_body]
fn read_naive_datetime(s: &str, fmt: &str) -> (res: Option<(i64, u32)>)
    ensures
        res == naive_datetime_reading(s@, fmt@),
        res matches Some((secs, nanos)) ==> (Instant { secs, nanos, offset: 0 }).wf(),
{
    match NaiveDateTime::parse_from_str(s, fmt) {
        Ok(ndt) => Some((ndt.and_utc().timestamp(), ndt.and_utc().timestamp_subsec_nanos())),
        Err(_) => None,
    }
}

/// Calls `NaiveDate::parse_from_str`; the day count of the reading is
/// `naive_date_reading` of the text and format, within chrono's range.
#[verifier::external_body]
fn read_naive_date(s: &str, fmt: &str) -> (res: Option<i32>)
    ensures
        res == naive_date_reading(s@, fmt@),
        res matches Some(d) ==> MIN_DAY <= d <= MAX_DAY,
{
    match NaiveDate::parse_from_str(s, fmt) {
        Ok(d) => Some(d.num_days_from_ce()),
        Err(_) => None,
    }
}

/// Calls `Datelike::year` on the instant as a `DateTime<FixedOffset>`.
#[verifier::external_body]
fn year_of(t: Instant) -> (res: i32)
    requires
        t.wf(),
    ensures
        res == local_year(t),
{
    let offset = FixedOffset::east_opt(t.offset).unwrap();
    DateTime::from_timestamp(t.secs, t.nanos).unwrap().with_timezone(&offset).year()
}

/// Calls `DateTime::to_rfc2822`, which panics on a local year outside
/// 0..=9999 (RFC 2822 cannot write those); the text is `rfc2822_text`.
#[verifier::external_body]
fn write_rfc2822(t: Instant) -> (res: String)
    requires
        t.wf(),
        0 <= local_year(t) <= 9999,
    ensures
        res@ == rfc2822_text(t),
{
    let offset = FixedOffset::east_opt(t.offset).unwrap();
    DateTime::from_timestamp(t.secs, t.nanos).unwrap().with_timezone(&offset).to_rfc2822()
}

/// Calls `DateTime::to_rfc3339`; the text is `rfc3339_text`.
#[verifier::external_body]
fn write_rfc3339(t: Instant) -> (res: String)
    requires
        t.wf(),
    ensures
        res@ == rfc3339_text(t),
{
    let offset = FixedOffset::east_opt(t.offset).unwrap();
    DateTime::from_timestamp(t.secs, t.nanos).unwrap().with_timezone(&offset).to_rfc3339()
}

/// Calls `Local::now`: the current time with the local offset. What it
/// returns depends on the clock, so nothing is said of it beyond its range.
#[verifier::external_body]
fn local_now() -> (res: Instant)
    ensures
        res.wf(),
{
    let now = Local::now();
    Instant {
        secs: now.timestamp(),
        nanos: now.timestamp_subsec_nanos(),
        offset: now.offset().local_minus_utc(),
    }
}

/// Calls `DateTime::format(fmt).to_string()` for the two formats this
/// library uses (an unknown specifier would make `to_string` panic). With a
/// local year in 0..=9999, `%Y` writes it with four digits, and `%m`, `%d`,
/// `%H`, `%M`, `%S` and the hours and minutes of `%:z` two digits each (the
/// offset's hours are at most 24), so the text has a fixed shape.
#[verifier::external_body]
fn write_formatted(t: Instant, fmt: &str) -> (res: String)
    requires
        t.wf(),
        fmt@ == "%Y-%m-%d"@ || fmt@ == "%Y-%m-%dT%H:%M:%S%:z"@,
    ensures
        res@ == formatted(t, fmt@),
        fmt@ == "%Y-%m-%d"@ && 0 <= local_year(t) <= 9999 ==> is_date_text(
            res@,
            local_year(t) as int,
        ),
        fmt@ == "%Y-%m-%dT%H:%M:%S%:z"@ && 0 <= local_year(t) <= 9999 ==> is_timestamp_text(
            res@,
            local_year(t) as int,
        ),
{
    let offset = FixedOffset::east_opt(t.offset).unwrap();
    DateTime::from_timestamp(t.secs, t.nanos).unwrap().with_timezone(&offset).format(
        fmt,
    ).to_string()
}

/// `char::is_whitespace`: the Unicode `White_Space` property.
pub open spec fn is_unicode_space(c: char) -> bool {
    ||| ('\u{9}' <= c && c <= '\u{d}')
    ||| c == ' '
    ||| c == '\u{85}'
    ||| c == '\u{a0}'
    ||| c == '\u{1680}'
    ||| ('\u{2000}' <= c && c <= '\u{200a}')
    ||| c == '\u{2028}'
    ||| c == '\u{2029}'
    ||| c == '\u{202f}'
    ||| c == '\u{205f}'
    ||| c == '\u{3000}'
}

/// The number of leading whitespace characters of `s`.
pub open spec fn leading_space(s: Seq<char>) -> nat
    decreases s.len(),
{
    if s.len() > 0 && is_unicode_space(s[0]) {
        1 + leading_space(s.drop_first())
    } else {
        0
    }
}

/// `str::trim`: `s` without leading and trailing whitespace.
pub open spec fn trimmed(s: Seq<char>) -> Seq<char>
    decreases s.len(),
{
    if s.len() > 0 && is_unicode_space(s[0]) {
        trimmed(s.drop_first())
    } else if s.len() > 0 && is_unicode_space(s.last()) {
        trimmed(s.drop_last())
    } else {
        s
    }
}

/// The formats tried, in order, for a date and time without an offset.
pub open spec fn naive_format(k: int) -> Seq<char> {
    if k == 0 {
        "%Y-%m-%dT%H:%M:%S"@
    } else if k == 1 {
        "%Y-%m-%d %H:%M:%S"@
    } else if k == 2 {
        "%Y-%m-%dT%H:%M"@
    } else {
        "%Y-%m-%d %H:%M"@
    }
}

/// The first of the offset-less formats, from the `k`-th on, that reads `t`;
/// the reading is taken as UTC.
pub open spec fn naive_reading_from(t: Seq<char>, k: int) -> Option<Instant>
    decreases 4 - k,
{
    if k >= 4 || k < 0 {
        None
    } else {
        match naive_datetime_reading(t, naive_format(k)) {
            Some((secs, nanos)) => Some(Instant { secs, nanos, offset: 0 }),
            None => naive_reading_from(t, k + 1),
        }
    }
}

/// Midnight UTC of the day with chrono day count `d`.
pub open spec fn midnight(d: int) -> Instant {
    Instant { secs: ((d - UNIX_EPOCH_DAY) * 86_400) as i64, nanos: 0, offset: 0 }
}

/// What a post's `date` field means: an RFC 3339 timestamp, else a date and
/// time without an offset (taken as UTC), else a date (midnight UTC), else
/// nothing.
pub open spec fn reading(s: Seq<char>) -> Option<Instant> {
    let t = trimmed(s);
    match rfc3339_reading(t) {
        Some(i) => Some(i),
        None => match naive_reading_from(t, 0) {
            Some(i) => Some(i),
            None => match naive_date_reading(t, "%Y-%m-%d"@) {
                Some(d) => Some(midnight(d as int)),
                None => None,
            },
        },
    }
}

/// The `<pubDate>` text for a `date` field: RFC 2822 when it reads as an
/// instant RFC 2822 can write (local year 0..=9999), else the field as given.
pub open spec fn pub_date(s: Seq<char>) -> Seq<char> {
    match reading(s) {
        Some(t) => if 0 <= local_year(t) <= 9999 {
            rfc2822_text(t)
        } else {
            s
        },
        None => s,
    }
}

/// `a` sorts after `b` as `Option<DateTime>` does: any instant after none,
/// later instants after earlier ones.
pub open spec fn reading_after(a: Option<Instant>, b: Option<Instant>) -> bool {
    match (a, b) {
        (Some(x), Some(y)) => x.later_than(y),
        (Some(_), None) => true,
        _ => false,
    }
}

/// `str::trim` on characters.
pub fn trim_chars(s: &[char]) -> (res: (usize, usize))
    ensures
        res.0 <= res.1 <= s@.len(),
        s@.subrange(res.0 as int, res.1 as int) == trimmed(s@),
{
    let mut lo: usize = 0;
    let mut hi: usize = s.len();
    assert(s@.subrange(0, s@.len() as int) == s@);
    while lo < hi && is_space(s[lo])
        invariant
            lo <= hi == s@.len(),
            trimmed(s@) == trimmed(s@.subrange(lo as int, hi as int)),
        decreases hi - lo,
    {
        assert(s@.subrange(lo as int, hi as int).drop_first() == s@.subrange(lo + 1, hi as int));
        lo = lo + 1;
    }
    while lo < hi && is_space(s[hi - 1])
        invariant
            lo <= hi <= s@.len(),
            lo < hi ==> !is_unicode_space(s@[lo as int]),
            trimmed(s@) == trimmed(s@.subrange(lo as int, hi as int)),
        decreases hi - lo,
    {
        assert(s@.subrange(lo as int, hi as int).drop_last() == s@.subrange(lo as int, hi - 1));
        hi = hi - 1;
    }
    (lo, hi)
}

/// `char::is_whitespace`.
pub fn is_space(c: char) -> (res: bool)
    ensures
        res == is_unicode_space(c),
{
    ('\u{9}' <= c && c <= '\u{d}') || c == ' ' || c == '\u{85}' || c == '\u{a0}' || c
        == '\u{1680}' || ('\u{2000}' <= c && c <= '\u{200a}') || c == '\u{2028}' || c == '\u{2029}'
        || c == '\u{202f}' || c == '\u{205f}' || c == '\u{3000}'
}

/// The instant, UTC, of a date and time read without an offset.
pub fn utc_instant(secs: i64, nanos: u32) -> (res: Instant)
    ensures
        res == (Instant { secs, nanos, offset: 0 }),
{
    Instant { secs, nanos, offset: 0 }
}

/// Midnight UTC of the day with chrono day count `days`.
pub fn midnight_utc(days: i32) -> (res: Instant)
    requires
        MIN_DAY <= days <= MAX_DAY,
    ensures
        res == midnight(days as int),
        res.wf(),
{
    let secs: i64 = (days as i64 - UNIX_EPOCH_DAY) * 86_400;
    Instant { secs, nanos: 0, offset: 0 }
}

/// Parse a post's `date` field. Accepts, in order:
///   - RFC 3339 / ISO 8601 with offset or `Z`  (`2026-06-24T14:30:00+02:00`)
///   - date + time without an offset (assumed UTC)  (`2026-06-24 14:30[:00]`)
///   - date only (midnight UTC)  (`2026-06-24`)
///
/// Returns a timezone-aware instant, or `None` if unrecognized.
pub fn parse(s: &str) -> (res: Option<Instant>)
    ensures
        res == reading(s@),
        res matches Some(t) ==> t.wf(),
{
    let cs = chars_of(s);
    let (lo, hi): (usize, usize) = trim_chars(&cs);
    let trimmed_text = s.substring_char(lo, hi);
    let ghost t = trimmed(s@);
    assert(trimmed_text@ == t);

    if let Some(i) = read_rfc3339(trimmed_text) {
        return Some(i);
    }
    let formats = ["%Y-%m-%dT%H:%M:%S", "%Y-%m-%d %H:%M:%S", "%Y-%m-%dT%H:%M", "%Y-%m-%d %H:%M"];
    let mut k: usize = 0;
    while k < 4
        invariant
            k <= 4,
            trimmed_text@ == t,
            t == trimmed(s@),
            rfc3339_reading(t) is None,
            formats@.len() == 4,
            forall|m: int| 0 <= m < 4 ==> (#[trigger] formats@[m])@ == naive_format(m),
            naive_reading_from(t, 0) == naive_reading_from(t, k as int),
        decreases 4 - k,
    {
        let fmt = formats[k];
        assert(fmt@ == naive_format(k as int));
        if let Some((secs, nanos)) = read_naive_datetime(trimmed_text, fmt) {
            assert(naive_reading_from(t, k as int) == Some(Instant { secs, nanos, offset: 0 }));
            return Some(utc_instant(secs, nanos));
        }
        k = k + 1;
    }
    match read_naive_date(trimmed_text, "%Y-%m-%d") {
        Some(d) => Some(midnight_utc(d)),
        None => None,
    }
}

/// RFC-2822 form for an RSS `<pubDate>`, or the input unchanged if it isn't a
/// recognizable date/timestamp that RFC 2822 can write (never panics).
pub fn rfc2822(date: &str) -> (res: String)
    ensures
        res@ == pub_date(date@),
{
    match parse(date) {
        Some(t) => {
            let year: i32 = year_of(t);
            if 0 <= year && year <= 9999 {
                write_rfc2822(t)
            } else {
                string_of(&chars_of(date))
            }
        },
        None => string_of(&chars_of(date)),
    }
}

/// Whether reading `a` sorts after reading `b` (newer posts first in the
/// listing, unreadable dates last).
pub fn is_after(a: &Option<Instant>, b: &Option<Instant>) -> (res: bool)
    ensures
        res == reading_after(*a, *b),
{
    match (a, b) {
        (Some(x), Some(y)) => x.secs > y.secs || (x.secs == y.secs && x.nanos > y.nanos),
        (Some(_), None) => true,
        _ => false,
    }
}

impl Instant {
    /// The RFC 3339 text of this instant, as chrono writes it.
    pub fn to_rfc3339(&self) -> (res: String)
        requires
            self.wf(),
        ensures
            res@ == rfc3339_text(*self),
    {
        write_rfc3339(*self)
    }
}

/// Today's local date as `YYYY-MM-DD` (for the `new` scaffold's simple form).
pub fn today() -> (res: String)
    ensures
        exists|t: Instant|
            t.wf() && res@ == formatted(t, "%Y-%m-%d"@) && (0 <= local_year(t) <= 9999
                ==> is_date_text(res@, local_year(t) as int)),
{
    let now = local_now();
    write_formatted(now, "%Y-%m-%d")
}

/// The current local time as an RFC-3339 timestamp with offset
/// (`2026-06-24T15:30:00+02:00`), used to stamp new posts.
pub fn now_timestamp() -> (res: String)
    ensures
        exists|t: Instant|
            t.wf() && res@ == formatted(t, "%Y-%m-%dT%H:%M:%S%:z"@) && (0 <= local_year(t) <= 9999
                ==> is_timestamp_text(res@, local_year(t) as int)),
{
    let now = local_now();
    write_formatted(now, "%Y-%m-%dT%H:%M:%S%:z")
}


/// The date field forms, in the order they are tried on the trimmed text:
/// RFC 3339; then, read as UTC, `%Y-%m-%dT%H:%M:%S`, `%Y-%m-%d %H:%M:%S`,
/// `%Y-%m-%dT%H:%M` and `%Y-%m-%d %H:%M`; then a bare `%Y-%m-%d` at midnight
/// UTC (day count 719163 is 1970-01-01). The first form chrono reads decides.
pub proof fn lemma_date_forms(s: Seq<char>)
    ensures
        ({
            let t = trimmed(s);
            reading(s) == match rfc3339_reading(t) {
                Some(i) => Some(i),
                None => match naive_datetime_reading(t, "%Y-%m-%dT%H:%M:%S"@) {
                    Some((a, b)) => Some(Instant { secs: a, nanos: b, offset: 0 }),
                    None => match naive_datetime_reading(t, "%Y-%m-%d %H:%M:%S"@) {
                        Some((a, b)) => Some(Instant { secs: a, nanos: b, offset: 0 }),
                        None => match naive_datetime_reading(t, "%Y-%m-%dT%H:%M"@) {
                            Some((a, b)) => Some(Instant { secs: a, nanos: b, offset: 0 }),
                            None => match naive_datetime_reading(t, "%Y-%m-%d %H:%M"@) {
                                Some((a, b)) => Some(Instant { secs: a, nanos: b, offset: 0 }),
                                None => match naive_date_reading(t, "%Y-%m-%d"@) {
                                    Some(d) => Some(
                                        Instant {
                                            secs: ((d - 719163) * 86400) as i64,
                                            nanos: 0,
                                            offset: 0,
                                        },
                                    ),
                                    None => None,
                                },
                            },
                        },
                    },
                },
            }
        }),
{
    reveal_with_fuel(naive_reading_from, 5);
}

} // verus!
