//! Duplicity timestamps: parsing and pretty display.
//!
//! Timestamps in backup file names look like `19881211t152000z`, which stands
//! for `1988-12-11T15:20:00Z`.

use vstd::prelude::*;
use crate::text::decimal_text;

verus! {

/// A point in time, as seconds and nanoseconds since the UNIX epoch.
#[derive(Clone, Copy, Debug, PartialEq, Eq, Structural, Hash)]
pub struct Timespec {
    pub sec: i64,
    pub nsec: i32,
}

/// A broken-down calendar time, field by field as the `time` crate keeps it.
#[derive(Clone, Copy, Debug, PartialEq, Eq, Structural)]
pub struct Tm {
    pub tm_sec: i32,
    pub tm_min: i32,
    pub tm_hour: i32,
    pub tm_mday: i32,
    pub tm_mon: i32,
    pub tm_year: i32,
    pub tm_wday: i32,
    pub tm_yday: i32,
    pub tm_isdst: i32,
    pub tm_utcoff: i32,
    pub tm_nsec: i32,
}

/// The format of duplicity timestamps, as given to `strptime`.
pub open spec fn duplicity_time_format() -> Seq<char> {
    "%Y%m%dt%H%M%S%Z"@
}

/// `a` comes strictly before `b`.
pub open spec fn ts_lt(a: Timespec, b: Timespec) -> bool {
    a.sec < b.sec || (a.sec == b.sec && a.nsec < b.nsec)
}

/// `a` comes before `b` or is the same time.
pub open spec fn ts_le(a: Timespec, b: Timespec) -> bool {
    ts_lt(a, b) || a == b
}

/// Executable form of `ts_lt`.
pub fn timespec_lt(a: &Timespec, b: &Timespec) -> (r: bool)
    ensures
        r == ts_lt(*a, *b),
{
    a.sec < b.sec || (a.sec == b.sec && a.nsec < b.nsec)
}

/// Executable equality of two times.
pub fn timespec_eq(a: &Timespec, b: &Timespec) -> (r: bool)
    ensures
        r == (*a == *b),
{
    a.sec == b.sec && a.nsec == b.nsec
}

/// What `time::strptime` returns on the given text and format.
pub uninterp spec fn spec_strptime(s: Seq<char>, format: Seq<char>) -> Option<Tm>;

/// What `time::Tm::to_timespec` returns on a broken-down UTC time (one whose
/// `tm_utcoff` is zero).
pub uninterp spec fn spec_utc_tm_to_timespec(tm: Tm) -> Timespec;

/// What `time::at_utc` returns on a time.
pub uninterp spec fn spec_at_utc(ts: Timespec) -> Tm;

/// The range of seconds that can be displayed: their years (within about
/// 1.9 billion years of 1970) fit the C library's `int` year, so `gmtime_r`
/// and `localtime_r` succeed on them, and they keep `tm_year + 1900`, which
/// `strftime` computes for `%Y`, from overflowing.
pub open spec fn sec_in_calendar_range(sec: i64) -> bool {
    -60_000_000_000_000_000 <= sec <= 60_000_000_000_000_000
}

/// The nanoseconds of a time that `time::Timespec::new` accepts.
pub open spec fn nsec_valid(nsec: i32) -> bool {
    0 <= nsec < 1_000_000_000
}

/// A time that can be broken down and displayed.
pub open spec fn ts_displayable(ts: Timespec) -> bool {
    sec_in_calendar_range(ts.sec) && nsec_valid(ts.nsec)
}

/// A broken-down time that `strftime` accepts.
pub open spec fn tm_formattable(tm: Tm) -> bool {
    &&& 0 <= tm.tm_wday <= 6
    &&& 0 <= tm.tm_mon <= 11
    &&& -2_000_000_000 <= tm.tm_year <= 2_000_000_000
}

/// Calls `time::strptime`. The result is named by `spec_strptime`; the
/// source initialises `tm_utcoff` and `tm_nsec` to zero and only the `%z`,
/// `%s` and `%f` specifiers change them, so a format without the letters
/// `z`, `s` and `f` gives a result with both at zero. A format with `%s`
/// is left out: it goes through `at_utc`, which panics on seconds outside
/// the calendar.
#[verifier::external_body]
fn strptime(s: &str, format: &str) -> (r: Option<Tm>)
    requires
        !format@.contains('s'),
    ensures
        r == spec_strptime(s@, format@),
        r is Some && !format@.contains('z') && !format@.contains('s') && !format@.contains('f')
            ==> r->0.tm_utcoff == 0 && r->0.tm_nsec == 0,
{
    match time::strptime(s, format) {
        Ok(t) => Some(Tm {
            tm_sec: t.tm_sec, tm_min: t.tm_min, tm_hour: t.tm_hour, tm_mday: t.tm_mday,
            tm_mon: t.tm_mon, tm_year: t.tm_year, tm_wday: t.tm_wday, tm_yday: t.tm_yday,
            tm_isdst: t.tm_isdst, tm_utcoff: t.tm_utcoff, tm_nsec: t.tm_nsec,
        }),
        Err(_) => None,
    }
}

/// Calls `time::Tm::to_timespec`, which ends with `Timespec::new` of the
/// time's nanoseconds (it panics on nanoseconds out of range, so those are
/// left out) and keeps them. On a time with `tm_utcoff` zero the seconds
/// come from the C library's `timegm`, a function of the fields alone, and
/// the result is named by `spec_utc_tm_to_timespec`; on other times they
/// depend on the local time zone and are not stated.
#[verifier::external_body]
fn tm_to_timespec(tm: &Tm) -> (r: Timespec)
    requires
        nsec_valid(tm.tm_nsec),
    ensures
        r.nsec == tm.tm_nsec,
        tm.tm_utcoff == 0 ==> r == spec_utc_tm_to_timespec(*tm),
{
    let t = time::Tm {
        tm_sec: tm.tm_sec, tm_min: tm.tm_min, tm_hour: tm.tm_hour, tm_mday: tm.tm_mday,
        tm_mon: tm.tm_mon, tm_year: tm.tm_year, tm_wday: tm.tm_wday, tm_yday: tm.tm_yday,
        tm_isdst: tm.tm_isdst, tm_utcoff: tm.tm_utcoff, tm_nsec: tm.tm_nsec,
    }.to_timespec();
    Timespec { sec: t.sec, nsec: t.nsec }
}

/// Calls `time::at_utc`, which builds a `time::Timespec` (it panics on
/// nanoseconds out of range) and goes through `gmtime_r` (it panics where
/// that fails, outside the calendar range). The result is named by `spec_at_utc`;
/// `gmtime_r` gives a week day in 0..=6, a month in 0..=11 and, in this range
/// of seconds, a year that fits the bounds of `tm_formattable`.
#[verifier::external_body]
fn at_utc(ts: Timespec) -> (r: Tm)
    requires
        ts_displayable(ts),
    ensures
        r == spec_at_utc(ts),
        tm_formattable(r),
{
    let t = time::at_utc(time::Timespec::new(ts.sec, ts.nsec));
    Tm {
        tm_sec: t.tm_sec, tm_min: t.tm_min, tm_hour: t.tm_hour, tm_mday: t.tm_mday,
        tm_mon: t.tm_mon, tm_year: t.tm_year, tm_wday: t.tm_wday, tm_yday: t.tm_yday,
        tm_isdst: t.tm_isdst, tm_utcoff: t.tm_utcoff, tm_nsec: t.tm_nsec,
    }
}

/// The calendar fields of two broken-down times (second to day of the
/// year) are the same.
pub open spec fn same_calendar_fields(a: Tm, b: Tm) -> bool {
    &&& a.tm_sec == b.tm_sec
    &&& a.tm_min == b.tm_min
    &&& a.tm_hour == b.tm_hour
    &&& a.tm_mday == b.tm_mday
    &&& a.tm_mon == b.tm_mon
    &&& a.tm_year == b.tm_year
    &&& a.tm_wday == b.tm_wday
    &&& a.tm_yday == b.tm_yday
}

/// `tm` is `ts` broken down in a time zone `tm.tm_utcoff` seconds east of
/// UTC: its calendar fields are those of the time shifted by that offset,
/// broken down in UTC, and it keeps the nanoseconds of `ts`.
pub open spec fn local_clock_of(ts: Timespec, tm: Tm) -> bool {
    let shifted = Timespec { sec: (ts.sec + tm.tm_utcoff) as i64, nsec: ts.nsec };
    &&& tm.tm_nsec == ts.nsec
    &&& sec_in_calendar_range(shifted.sec) ==> same_calendar_fields(tm, spec_at_utc(shifted))
}

/// Calls `time::at`, which builds a `time::Timespec` (it panics on
/// nanoseconds out of range), goes through `localtime_r` and sets `tm_utcoff`
/// to the offset that the C library reports (`tm_gmtoff`, which the `time`
/// crate documents as the seconds east of UTC of the zone used) and
/// `tm_nsec` to the nanoseconds given. Which offset the local time zone has
/// is not stated; what is stated is that the result is the time broken
/// down at that offset, within the ranges that `localtime_r` guarantees.
#[verifier::external_body]
fn at_local(ts: Timespec) -> (r: Tm)
    requires
        ts_displayable(ts),
    ensures
        tm_formattable(r),
        local_clock_of(ts, r),
{
    let t = time::at(time::Timespec::new(ts.sec, ts.nsec));
    Tm {
        tm_sec: t.tm_sec, tm_min: t.tm_min, tm_hour: t.tm_hour, tm_mday: t.tm_mday,
        tm_mon: t.tm_mon, tm_year: t.tm_year, tm_wday: t.tm_wday, tm_yday: t.tm_yday,
        tm_isdst: t.tm_isdst, tm_utcoff: t.tm_utcoff, tm_nsec: t.tm_nsec,
    }
}

/// Calls `time::now_utc`: the current time, of which nothing is stated.
#[verifier::external_body]
fn now_utc() -> (r: Tm) {
    let t = time::now_utc();
    Tm {
        tm_sec: t.tm_sec, tm_min: t.tm_min, tm_hour: t.tm_hour, tm_mday: t.tm_mday,
        tm_mon: t.tm_mon, tm_year: t.tm_year, tm_wday: t.tm_wday, tm_yday: t.tm_yday,
        tm_isdst: t.tm_isdst, tm_utcoff: t.tm_utcoff, tm_nsec: t.tm_nsec,
    }
}

/// The three-letter English name of a month (0 for January).
pub open spec fn month_abbr(mon: i32) -> Seq<char> {
    if mon == 0 { "Jan"@ } else if mon == 1 { "Feb"@ } else if mon == 2 { "Mar"@ }
    else if mon == 3 { "Apr"@ } else if mon == 4 { "May"@ } else if mon == 5 { "Jun"@ }
    else if mon == 6 { "Jul"@ } else if mon == 7 { "Aug"@ } else if mon == 8 { "Sep"@ }
    else if mon == 9 { "Oct"@ } else if mon == 10 { "Nov"@ } else { "Dec"@ }
}

/// A number as `{}` writes it: a minus sign for a negative one, then its
/// decimal digits.
pub open spec fn signed_text(n: int) -> Seq<char> {
    if n < 0 {
        "-"@ + decimal_text((-n) as nat)
    } else {
        decimal_text(n as nat)
    }
}

/// A number as `{:02}` writes it: padded with a zero to two characters
/// after the sign.
pub open spec fn two_digit_text(n: int) -> Seq<char> {
    if 0 <= n < 10 {
        "0"@ + decimal_text(n as nat)
    } else {
        signed_text(n)
    }
}

/// The text that `strftime` writes for `%b %d %R` (`Feb 22 14:53`).
pub open spec fn month_day_clock_text(tm: Tm) -> Seq<char> {
    month_abbr(tm.tm_mon) + " "@ + two_digit_text(tm.tm_mday as int) + " "@ + two_digit_text(
        tm.tm_hour as int,
    ) + ":"@ + two_digit_text(tm.tm_min as int)
}

/// The text that `strftime` writes for `%b %d  %Y` (`Feb 22  2012`).
pub open spec fn month_day_year_text(tm: Tm) -> Seq<char> {
    month_abbr(tm.tm_mon) + " "@ + two_digit_text(tm.tm_mday as int) + "  "@ + signed_text(
        tm.tm_year + 1900,
    )
}

/// Calls `time::strftime` with one of the two formats of a pretty display.
/// The source checks the week day and the month (both in range here) and
/// the specifiers, then writes `%b` as the month's abbreviation, `%d`, `%H`
/// and `%M` with `{:02}` and `%Y` as `tm_year + 1900` with `{}`. Other
/// formats are left out: some of them panic on fields out of range.
#[verifier::external_body]
fn strftime(format: &str, tm: &Tm) -> (r: Option<String>)
    requires
        tm_formattable(*tm),
        format@ == "%b %d %R"@ || format@ == "%b %d  %Y"@,
    ensures
        r is Some,
        format@ == "%b %d %R"@ ==> r->0@ == month_day_clock_text(*tm),
        format@ == "%b %d  %Y"@ ==> r->0@ == month_day_year_text(*tm),
{
    let t = time::Tm {
        tm_sec: tm.tm_sec, tm_min: tm.tm_min, tm_hour: tm.tm_hour, tm_mday: tm.tm_mday,
        tm_mon: tm.tm_mon, tm_year: tm.tm_year, tm_wday: tm.tm_wday, tm_yday: tm.tm_yday,
        tm_isdst: tm.tm_isdst, tm_utcoff: tm.tm_utcoff, tm_nsec: tm.tm_nsec,
    };
    time::strftime(format, &t).ok()
}

/// The time that a duplicity timestamp stands for, if it parses.
pub open spec fn spec_parse_time_str(s: Seq<char>) -> Option<Timespec> {
    match spec_strptime(s, duplicity_time_format()) {
        Some(tm) => Some(spec_utc_tm_to_timespec(tm)),
        None => None,
    }
}

/// Parses a duplicity timestamp such as `19881211t152000z`.
pub fn parse_time_str(s: &str) -> (r: Option<Timespec>)
    ensures
        r == spec_parse_time_str(s@),
{
    let format = "%Y%m%dt%H%M%S%Z";
    proof {
        reveal_strlit("%Y%m%dt%H%M%S%Z");
    }
    match strptime(s, format) {
        Some(tm) => Some(tm_to_timespec(&tm)),
        None => None,
    }
}

/// The text of a pretty display of `tm` when the current year is
/// `current_year` (counted from 1900, as `tm_year` is): month, day and time
/// for a time in the current year, month, day and year (after two spaces)
/// otherwise.
pub open spec fn spec_pretty_text(current_year: i32, tm: Tm) -> Seq<char> {
    if current_year == tm.tm_year {
        month_day_clock_text(tm)
    } else {
        month_day_year_text(tm)
    }
}

/// `t` is a pretty text of `ts` in the local time zone: the text, for some
/// current year, of the time broken down at the offset of that zone.
pub open spec fn local_time_text_of(ts: Timespec, t: Seq<char>) -> bool {
    exists|tm: Tm, y: i32| local_clock_of(ts, tm) && t == spec_pretty_text(y, tm)
}

/// Displays a broken-down time in a pretty style: `Feb 22 14:53` for a time
/// in the current year, `Feb 22  2012` otherwise.
#[derive(Clone, Copy, Debug)]
pub struct PrettyDisplay {
    tm: Tm,
}

impl View for PrettyDisplay {
    type V = Tm;

    closed spec fn view(&self) -> Tm {
        self.tm
    }
}

impl PrettyDisplay {
    #[verifier::type_invariant]
    spec fn inv(self) -> bool {
        tm_formattable(self.tm)
    }

    /// The text of the display when the current year is `current_year`
    /// (counted from 1900).
    pub fn text_in_year(&self, current_year: i32) -> (r: String)
        ensures
            r@ == spec_pretty_text(current_year, self@),
    {
        proof {
            use_type_invariant(self);
        }
        let format = if current_year == self.tm.tm_year {
            "%b %d %R"
        } else {
            "%b %d  %Y"
        };
        match strftime(format, &self.tm) {
            Some(t) => t,
            None => String::new(),
        }
    }

    /// The text of the display, which depends on the current year.
    pub fn to_display_string(&self) -> (r: String)
        ensures
            exists|y: i32| r@ == spec_pretty_text(y, self@),
    {
        let now = now_utc();
        self.text_in_year(now.tm_year)
    }
}

/// Displays times in a pretty style, in the local or the UTC time zone.
pub trait TimeDisplay: Sized {
    /// The time can be broken down into a calendar date.
    spec fn displayable(&self) -> bool;

    /// A display that uses the local time zone.
    fn into_local_display(self) -> PrettyDisplay
        requires
            self.displayable(),
    ;

    /// A display that uses the UTC time zone.
    fn into_utc_display(self) -> PrettyDisplay
        requires
            self.displayable(),
    ;
}

impl TimeDisplay for Timespec {
    open spec fn displayable(&self) -> bool {
        ts_displayable(*self)
    }

    fn into_local_display(self) -> (r: PrettyDisplay)
        ensures
            local_clock_of(self, r@),
    {
        PrettyDisplay { tm: at_local(self) }
    }

    fn into_utc_display(self) -> (r: PrettyDisplay)
        ensures
            r@ == spec_at_utc(self),
    {
        PrettyDisplay { tm: at_utc(self) }
    }
}

} // verus!
