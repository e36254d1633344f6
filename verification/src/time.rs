//! Instants in UTC and the calendar computations that chrono does for them.
use chrono::{Datelike, TimeZone, Timelike};
use vstd::prelude::*;

verus! {

#[verifier::external_type_specification]
#[verifier::external_body]
pub struct ExChronoParseError(chrono::ParseError);

#[verifier::external_type_specification]
#[verifier::external_body]
pub struct ExChronoOutOfRangeError(chrono::OutOfRangeError);

/// An instant in UTC that chrono can represent: whole seconds since the Unix
/// epoch and the nanoseconds past that second, as chrono's
/// `DateTime::<Utc>::timestamp` and `timestamp_subsec_nanos` give them.
#[derive(Clone, Copy, Debug)]
pub struct UtcInstant {
    secs: i64,
    nanos: u32,
}

/// A length of time, as a `std::time::Duration` holds it: whole seconds and
/// the nanoseconds past them.
#[derive(Clone, Copy, Debug, PartialEq, Eq)]
pub struct Span {
    pub secs: u64,
    pub nanos: u32,
}

/// A calendar date and a time of day in UTC.
#[derive(Clone, Copy, Debug, PartialEq, Eq)]
pub struct CivilTime {
    pub year: i32,
    pub month: u32,
    pub day: u32,
    pub hour: u32,
    pub minute: u32,
    pub second: u32,
}

pub const NANOS_PER_SEC: i128 = 1_000_000_000;

/// chrono's day number of 1970-01-01 (January 1 of year 1 is day 1).
pub const UNIX_EPOCH_DAY: i64 = 719_163;

impl View for UtcInstant {
    type V = (int, int);

    closed spec fn view(&self) -> (int, int) {
        (self.secs as int, self.nanos as int)
    }
}

impl UtcInstant {
    #[verifier::type_invariant]
    closed spec fn inv(self) -> bool {
        utc_civil_of(self.secs as int, self.nanos as int) is Some
    }

    /// The seconds and nanoseconds lie in the ranges of `i64` and `u32`.
    pub proof fn lemma_view_bounds(self)
        ensures
            i64::MIN <= self@.0 <= i64::MAX,
            0 <= self@.1 <= u32::MAX,
    {
    }

    /// Seconds since the Unix epoch.
    pub open spec fn secs_spec(self) -> int {
        self@.0
    }

    /// Nanoseconds past the second.
    pub open spec fn nanos_spec(self) -> int {
        self@.1
    }

    /// The instant as nanoseconds since the Unix epoch.
    pub open spec fn total_nanos(self) -> int {
        self@.0 * 1_000_000_000 + self@.1
    }

    /// Chronological order, as chrono compares two `DateTime<Utc>`.
    pub open spec fn before(self, other: UtcInstant) -> bool {
        self@.0 < other@.0 || (self@.0 == other@.0 && self@.1 < other@.1)
    }

    /// The instant `secs` seconds and `nanos` nanoseconds after the Unix
    /// epoch, where chrono's `DateTime::<Utc>::from_timestamp` has one.
    pub fn from_timestamp(secs: i64, nanos: u32) -> (r: Option<UtcInstant>)
        ensures
            r is Some <==> utc_civil_of(secs as int, nanos as int) is Some,
            r matches Some(t) ==> t@ == (secs as int, nanos as int),
    {
        match chrono_civil_from_timestamp(secs, nanos) {
            Some(_) => Some(UtcInstant { secs, nanos }),
            None => None,
        }
    }

    /// Parses `text` with chrono's `NaiveDateTime::parse_from_str` and the
    /// strftime `format`, reading the result as UTC.
    pub fn parse_from_str(text: &str, format: &str) -> (r: Option<UtcInstant>)
        ensures
            match naive_utc_parse(text@, format@) {
                Some((s, n)) => r matches Some(t) && t@ == (s, n),
                None => r is None,
            },
    {
        match chrono_parse_naive_utc(text, format) {
            Ok((secs, nanos)) => Some(UtcInstant { secs, nanos }),
            Err(_) => None,
        }
    }

    /// The instant at the given UTC date and time of day, as chrono's
    /// `Utc.with_ymd_and_hms` makes it; `None` where there is no such date or
    /// time.
    pub fn from_ymd_hms(year: i32, month: u32, day: u32, hour: u32, minute: u32, second: u32) -> (r:
        Option<UtcInstant>)
        ensures
            r is Some <==> (ce_day_number(year as int, month as int, day as int) is Some && hour < 24
                && minute < 60 && second < 60),
            r matches Some(t) ==> t@ == (
                (ce_day_number(year as int, month as int, day as int)->0 - UNIX_EPOCH_DAY) * 86400
                    + hour * 3600 + minute * 60 + second,
                0int,
            ),
    {
        match chrono_utc_from_ymd_hms(year, month, day, hour, minute, second) {
            Some(secs) => Some(UtcInstant { secs, nanos: 0 }),
            None => None,
        }
    }

    pub fn secs(&self) -> (r: i64)
        ensures
            r == self@.0,
    {
        self.secs
    }

    pub fn nanos(&self) -> (r: u32)
        ensures
            r == self@.1,
    {
        self.nanos
    }

    /// Whether `self` comes strictly before `other`.
    pub fn is_before(&self, other: &UtcInstant) -> (b: bool)
        ensures
            b == self.before(*other),
    {
        self.secs < other.secs || (self.secs == other.secs && self.nanos < other.nanos)
    }

    /// The calendar date and time of day of the instant, as chrono's
    /// `year`, `month`, `day`, `hour`, `minute` and `second` give them.
    pub fn civil(&self) -> (c: CivilTime)
        ensures
            utc_civil_of(self@.0, self@.1) == Some(c.tuple()),
            1 <= c.month <= 12,
            1 <= c.day <= 31,
            c.hour < 24,
            c.minute < 60,
            c.second < 60,
            ce_day_number(c.year as int, c.month as int, c.day as int) == Some(
                self@.0 / 86400 + UNIX_EPOCH_DAY,
            ),
            c.hour * 3600 + c.minute * 60 + c.second == self@.0 % 86400,
    {
        proof {
            use_type_invariant(self);
        }
        match chrono_civil_from_timestamp(self.secs, self.nanos) {
            Some(c) => c,
            None => {
                proof {
                    assert(false);
                }
                CivilTime { year: 0, month: 1, day: 1, hour: 0, minute: 0, second: 0 }
            },
        }
    }
}

impl CivilTime {
    pub open spec fn tuple(self) -> (int, int, int, int, int, int) {
        (
            self.year as int,
            self.month as int,
            self.day as int,
            self.hour as int,
            self.minute as int,
            self.second as int,
        )
    }
}

/// What `NaiveDateTime::parse_from_str(text, format)` gives, taken as UTC:
/// the Unix seconds and the nanoseconds past them.
pub uninterp spec fn naive_utc_parse(text: Seq<char>, format: Seq<char>) -> Option<(int, int)>;

/// What `DateTime::<Utc>::from_timestamp(secs, nanos)` gives, read through
/// `year`, `month`, `day`, `hour`, `minute` and `second`.
pub uninterp spec fn utc_civil_of(secs: int, nanos: int) -> Option<(int, int, int, int, int, int)>;

/// The smallest and largest years that chrono's `NaiveDate` holds.
pub open spec fn chrono_year_in_range(year: int) -> bool {
    -262143 <= year <= 262142
}

/// Leap years of the proleptic Gregorian calendar.
pub open spec fn is_leap_year(year: int) -> bool {
    (year % 4 == 0 && year % 100 != 0) || year % 400 == 0
}

/// The number of days of a month of the proleptic Gregorian calendar.
pub open spec fn month_length(year: int, month: int) -> int {
    if month == 2 {
        if is_leap_year(year) {
            29
        } else {
            28
        }
    } else if month == 4 || month == 6 || month == 9 || month == 11 {
        30
    } else {
        31
    }
}

/// Whether the date exists and lies in the years that chrono holds.
pub open spec fn date_exists(year: int, month: int, day: int) -> bool {
    &&& chrono_year_in_range(year)
    &&& 1 <= month <= 12
    &&& 1 <= day <= month_length(year, month)
}

/// The days of the years before `year`, counted from year 1.
pub open spec fn days_before_year(year: int) -> int {
    let p = year - 1;
    365 * p + p / 4 - p / 100 + p / 400
}

/// The days of `year` before the first day of `month`.
pub open spec fn days_before_month(year: int, month: int) -> int {
    let common: int = if month <= 1 {
        0
    } else if month == 2 {
        31
    } else if month == 3 {
        59
    } else if month == 4 {
        90
    } else if month == 5 {
        120
    } else if month == 6 {
        151
    } else if month == 7 {
        181
    } else if month == 8 {
        212
    } else if month == 9 {
        243
    } else if month == 10 {
        273
    } else if month == 11 {
        304
    } else {
        334
    };
    let leap_day: int = if month > 2 && is_leap_year(year) {
        1
    } else {
        0
    };
    common + leap_day
}

proof fn lemma_floor_step(y: int, k: int)
    requires
        k > 0,
    ensures
        y / k - (y - 1) / k == if y % k == 0 {
            1int
        } else {
            0int
        },
{
    vstd::arithmetic::div_mod::lemma_fundamental_div_mod(y, k);
    let q = y / k;
    let r = y % k;
    assert(0 <= r < k) by (nonlinear_arith)
        requires
            k > 0,
            r == y % k,
    ;
    assert(y == k * q + r);
    if r == 0 {
        assert(y - 1 == (q - 1) * k + (k - 1)) by (nonlinear_arith)
            requires
                y == k * q + r,
                r == 0,
        ;
        vstd::arithmetic::div_mod::lemma_fundamental_div_mod_converse(y - 1, k, q - 1, k - 1);
    } else {
        assert(y - 1 == q * k + (r - 1)) by (nonlinear_arith)
            requires
                y == k * q + r,
        ;
        vstd::arithmetic::div_mod::lemma_fundamental_div_mod_converse(y - 1, k, q, r - 1);
    }
}

/// A year has 366 days where it is a leap year and 365 where it is not.
pub proof fn lemma_year_length(year: int)
    ensures
        days_before_year(year + 1) - days_before_year(year) == if is_leap_year(year) {
            366int
        } else {
            365int
        },
{
    lemma_floor_step(year, 4);
    lemma_floor_step(year, 100);
    lemma_floor_step(year, 400);
    // a multiple of 400 is one of 100, and a multiple of 100 is one of 4
    if year % 400 == 0 {
        assert(year % 100 == 0 && year % 4 == 0) by {
            vstd::arithmetic::div_mod::lemma_fundamental_div_mod(year, 400);
            let q = year / 400;
            assert(year == 400 * q + year % 400);
            assert(year == (4 * q) * 100 + 0) by (nonlinear_arith)
                requires
                    year == 400 * q + 0,
            ;
            vstd::arithmetic::div_mod::lemma_fundamental_div_mod_converse(year, 100, 4 * q, 0);
            assert(year == (100 * q) * 4 + 0) by (nonlinear_arith)
                requires
                    year == 400 * q + 0,
            ;
            vstd::arithmetic::div_mod::lemma_fundamental_div_mod_converse(year, 4, 100 * q, 0);
        }
    } else if year % 100 == 0 {
        assert(year % 4 == 0) by {
            vstd::arithmetic::div_mod::lemma_fundamental_div_mod(year, 100);
            let q = year / 100;
            assert(year == (25 * q) * 4 + 0) by (nonlinear_arith)
                requires
                    year == 100 * q + 0,
            ;
            vstd::arithmetic::div_mod::lemma_fundamental_div_mod_converse(year, 4, 25 * q, 0);
        }
    }
}

/// What `NaiveDate::from_ymd_opt(year, month, day)` gives, read through
/// `num_days_from_ce`: the date's number in the proleptic Gregorian calendar,
/// January 1 of year 1 being day 1, where the date exists.
pub open spec fn ce_day_number(year: int, month: int, day: int) -> Option<int> {
    if date_exists(year, month, day) {
        Some(days_before_year(year) + days_before_month(year, month) + day)
    } else {
        None
    }
}

/// Whether chrono holds the date with day number `n`: from January 1 of its
/// first year to December 31 of its last.
pub open spec fn chrono_day_in_range(n: int) -> bool {
    ce_day_number(-262143, 1, 1)->0 <= n <= ce_day_number(262142, 12, 31)->0
}

/// Calls `chrono::NaiveDateTime::parse_from_str(text, format)` and reads the
/// result as UTC through `timestamp` and `timestamp_subsec_nanos`.  The
/// contract names that result and adds what chrono documents of any value it
/// hands out: `DateTime::from_timestamp` takes it back.
#[verifier::external_body]
pub(crate) fn chrono_parse_naive_utc(text: &str, format: &str) -> (res: Result<
    (i64, u32),
    chrono::ParseError,
>)
    ensures
        match res {
            Ok((s, n)) => naive_utc_parse(text@, format@) == Some((s as int, n as int))
                && utc_civil_of(s as int, n as int) is Some,
            Err(_) => naive_utc_parse(text@, format@) is None,
        },
{
    match chrono::NaiveDateTime::parse_from_str(text, format) {
        Ok(dt) => Ok((dt.and_utc().timestamp(), dt.and_utc().timestamp_subsec_nanos())),
        Err(e) => Err(e),
    }
}

/// Calls `chrono::DateTime::<Utc>::from_timestamp(secs, nanos)` and reads the
/// calendar fields of the result.  As chrono's source shows, there is a result
/// exactly when the day lies in chrono's range and the nanoseconds are below a
/// second, or below two seconds in the last second of a minute (a leap
/// second); the date is the one whose day number is `secs` divided by a day
/// plus `UNIX_EPOCH_DAY`, and the time of day is the remainder; the accessors
/// give a month in 1..=12, a day in 1..=31, an hour below 24 and a minute and
/// second below 60.
#[verifier::external_body]
pub(crate) fn chrono_civil_from_timestamp(secs: i64, nanos: u32) -> (res: Option<CivilTime>)
    ensures
        match res {
            Some(c) => {
                &&& utc_civil_of(secs as int, nanos as int) == Some(c.tuple())
                &&& 1 <= c.month <= 12
                &&& 1 <= c.day <= 31
                &&& c.hour < 24
                &&& c.minute < 60
                &&& c.second < 60
                &&& ce_day_number(c.year as int, c.month as int, c.day as int) == Some(
                    secs as int / 86400 + UNIX_EPOCH_DAY,
                )
                &&& c.hour * 3600 + c.minute * 60 + c.second == secs as int % 86400
            },
            None => utc_civil_of(secs as int, nanos as int) is None,
        },
        res is Some <==> (chrono_day_in_range(secs as int / 86400 + UNIX_EPOCH_DAY) && (nanos
            < 1_000_000_000 || (nanos < 2_000_000_000 && secs as int % 60 == 59))),
{
    match chrono::DateTime::from_timestamp(secs, nanos) {
        Some(dt) => Some(
            CivilTime {
                year: dt.year(),
                month: dt.month(),
                day: dt.day(),
                hour: dt.hour(),
                minute: dt.minute(),
                second: dt.second(),
            },
        ),
        None => None,
    }
}

/// Calls `chrono::NaiveDate::from_ymd_opt(year, month, day)` and reads the
/// date through `num_days_from_ce`.  As chrono documents, the date exists
/// where the day exists in that month of the proleptic Gregorian calendar and
/// the year lies in `NaiveDate`'s range, and its number counts the days from
/// January 1 of year 1, which is day 1.
#[verifier::external_body]
pub(crate) fn chrono_day_number(year: i32, month: u32, day: u32) -> (res: Option<i32>)
    ensures
        match res {
            Some(n) => ce_day_number(year as int, month as int, day as int) == Some(n as int),
            None => ce_day_number(year as int, month as int, day as int) is None,
        },
{
    match chrono::NaiveDate::from_ymd_opt(year, month, day) {
        Some(d) => Some(d.num_days_from_ce()),
        None => None,
    }
}

/// Calls `chrono::Utc.with_ymd_and_hms(..)` and reads the result through
/// `timestamp`.  As chrono's source shows, the result exists exactly when the
/// date exists and the time is valid, and its timestamp counts the days from
/// `UNIX_EPOCH_DAY` and the seconds of the day; as `DateTime::from_timestamp`
/// documents, that timestamp gives the same instant back.
#[verifier::external_body]
pub(crate) fn chrono_utc_from_ymd_hms(
    year: i32,
    month: u32,
    day: u32,
    hour: u32,
    minute: u32,
    second: u32,
) -> (res: Option<i64>)
    ensures
        res is Some <==> (ce_day_number(year as int, month as int, day as int) is Some && hour < 24
            && minute < 60 && second < 60),
        res matches Some(t) ==> t == (ce_day_number(year as int, month as int, day as int)->0
            - UNIX_EPOCH_DAY) * 86400 + hour * 3600 + minute * 60 + second,
        res matches Some(t) ==> utc_civil_of(t as int, 0) is Some,
{
    match chrono::Utc.with_ymd_and_hms(year, month, day, hour, minute, second) {
        chrono::LocalResult::Single(dt) => Some(dt.timestamp()),
        chrono::LocalResult::Ambiguous(_, _) => None,
        chrono::LocalResult::None => None,
    }
}

/// Division that rounds toward zero, as Rust's `/` on integers does.
pub open spec fn trunc_div(a: int, b: int) -> int {
    if a >= 0 {
        a / b
    } else {
        -((-a) / b)
    }
}

/// The nanoseconds from `earlier` to `later` that chrono's `later - earlier`
/// gives on two `DateTime<Utc>`.  chrono takes the days between the dates and
/// the time between the times of day; a time of day inside a leap second
/// (nanoseconds of a second or more) counts that leap second once the other
/// time of day lies on the other side of it: one second more where `earlier`
/// is the leap second and `later`'s time of day is later, one less where
/// `later` is the leap second and `earlier`'s time of day is later.
pub open spec fn delta_nanos(later: UtcInstant, earlier: UtcInstant) -> int {
    let later_of_day = later@.0 % 86400;
    let earlier_of_day = earlier@.0 % 86400;
    let leap: int = if later_of_day > earlier_of_day && earlier@.1 >= 1_000_000_000 {
        1
    } else if later_of_day < earlier_of_day && later@.1 >= 1_000_000_000 {
        -1
    } else {
        0
    };
    (later@.0 - earlier@.0 + leap) * 1_000_000_000 + (later@.1 - earlier@.1)
}

/// The whole seconds from `earlier` to `later`, rounded toward zero, as
/// chrono's `(later - earlier).num_seconds()` gives them.
pub open spec fn whole_seconds_between(later: UtcInstant, earlier: UtcInstant) -> int {
    trunc_div(delta_nanos(later, earlier), 1_000_000_000)
}

/// Calls chrono's `later - earlier` on the two instants as `DateTime<Utc>`
/// and reads the `TimeDelta` through `num_seconds` and `subsec_nanos`.  As
/// chrono's source shows, the difference is `delta_nanos`; `num_seconds`
/// rounds it toward zero to whole seconds, and, as chrono documents,
/// `subsec_nanos` is what is left, so that the two make up the whole.  A
/// `UtcInstant` always lies in chrono's range, so the conversion to
/// `DateTime<Utc>` succeeds.
#[verifier::external_body]
pub(crate) fn chrono_signed_duration_since(later: &UtcInstant, earlier: &UtcInstant) -> (r: (
    i64,
    i32,
))
    ensures
        r.0 == whole_seconds_between(*later, *earlier),
        r.0 * 1_000_000_000 + r.1 == delta_nanos(*later, *earlier),
{
    let l = chrono::DateTime::from_timestamp(later.secs, later.nanos).unwrap();
    let e = chrono::DateTime::from_timestamp(earlier.secs, earlier.nanos).unwrap();
    let delta = l - e;
    (delta.num_seconds(), delta.subsec_nanos())
}

/// Whether chrono's `TimeDelta::from_std` takes a duration of `span.secs`
/// seconds: a `TimeDelta` holds at most `i64::MAX` milliseconds.
pub open spec fn fits_time_delta(span: Span) -> bool {
    span.secs < 9_223_372_036_854_775 || (span.secs == 9_223_372_036_854_775 && span.nanos
        <= 807_000_000)
}

/// The seconds and nanoseconds of the instant `span` before `now`, as
/// chrono's `DateTime - TimeDelta` computes them.  Inside a leap second
/// (nanoseconds of a second or more) chrono stays in that leap second when
/// `span` is less than a second; otherwise it counts the leap second as the
/// start of the next second and subtracts on the whole nanoseconds.
pub open spec fn span_before(now: UtcInstant, span: Span) -> (int, int) {
    if now@.1 >= 1_000_000_000 && span.secs == 0 {
        (now@.0, now@.1 - span.nanos)
    } else {
        let total = now.total_nanos() - (span.secs * 1_000_000_000 + span.nanos);
        (total / 1_000_000_000, total % 1_000_000_000)
    }
}

/// Calls chrono's `TimeDelta::from_std` on `span` and, where it takes the
/// duration, `DateTime::<Utc>::checked_sub_signed` on `now`, read through
/// `timestamp` and `timestamp_subsec_nanos`: what `now - span` gives in the
/// original, without its panics.  As chrono's source shows, `from_std` fails
/// exactly where `fits_time_delta` does not hold, and the subtraction gives
/// `span_before`, or nothing where that instant lies outside chrono's range.
#[verifier::external_body]
pub(crate) fn chrono_sub_span(now: &UtcInstant, span: Span) -> (r: Result<
    Option<(i64, u32)>,
    chrono::OutOfRangeError,
>)
    requires
        span.nanos < 1_000_000_000,
    ensures
        r is Err <==> !fits_time_delta(span),
        r matches Ok(res) ==> (res is Some <==> ({
            let (s, n) = span_before(*now, span);
            i64::MIN <= s <= i64::MAX && utc_civil_of(s, n) is Some
        })),
        r matches Ok(Some((s, n))) ==> (s as int, n as int) == span_before(*now, span),
{
    let dt = chrono::DateTime::from_timestamp(now.secs, now.nanos).unwrap();
    match chrono::TimeDelta::from_std(std::time::Duration::new(span.secs, span.nanos)) {
        Ok(d) => Ok(
            match dt.checked_sub_signed(d) {
                Some(t) => Some((t.timestamp(), t.timestamp_subsec_nanos())),
                None => None,
            },
        ),
        Err(e) => Err(e),
    }
}

} // verus!
