use vstd::prelude::*;
use vstd::arithmetic::div_mod::{
    lemma_fundamental_div_mod, lemma_fundamental_div_mod_converse_div,
    lemma_fundamental_div_mod_converse_mod, lemma_mod_bound,
};
use vstd::arithmetic::mul::lemma_mul_is_commutative;
use chrono::Datelike;
use crate::text::free_of;

verus! {

/// Seconds in one day.
pub const SECS_PER_DAY: i64 = 86400;

/// Day number (counted from January 1 of year 1, which is day 1) of January 1, 1970.
pub const UNIX_EPOCH_DAY: i64 = 719163;

/// Whether chrono can represent the date with this day number.
pub uninterp spec fn date_exists(day: int) -> bool;

/// The calendar year of the date with this day number.
pub uninterp spec fn year_of_day(day: int) -> i32;

/// The month (1 to 12) of the date with this day number.
pub uninterp spec fn month_of_day(day: int) -> u32;

/// The ISO week (ISO year, week number) of the date with this day number.
pub uninterp spec fn iso_week_of_day(day: int) -> (i32, u32);

/// Day number of the UTC date on which a Unix time falls.
pub open spec fn day_of_secs(secs: int) -> int {
    secs / (SECS_PER_DAY as int) + UNIX_EPOCH_DAY
}

/// Weekday of a day number, counted from Monday (0) to Sunday (6).
/// Day 1 (January 1 of year 1, proleptic Gregorian) is a Monday.
pub open spec fn weekday_of_day(day: int) -> int {
    (day - 1) % 7
}

/// Day number of the Monday that starts the week of a day number.
pub open spec fn monday_of(day: int) -> int {
    day - weekday_of_day(day)
}

/// An instant in UTC, held as Unix seconds and nanoseconds together with the
/// calendar facts about its date that the habit rules read.
#[derive(Clone, Copy, Debug, PartialEq, Eq, Structural)]
pub struct Timestamp {
    /// Whole seconds since 1970-01-01T00:00:00Z.
    pub secs: i64,
    /// Nanoseconds within the second.
    pub nanos: u32,
    /// Day number of the UTC date, January 1 of year 1 being day 1.
    pub day: i32,
    /// Days since the Monday of the date's week (0 to 6).
    pub weekday: u32,
    /// Calendar year of the date.
    pub year: i32,
    /// Month of the date, 1 to 12.
    pub month: u32,
    /// Year of the date's ISO week.
    pub iso_year: i32,
    /// Number of the date's ISO week.
    pub iso_week: u32,
}

/// What a timestamp with these Unix seconds and nanoseconds is, if it can be built.
pub open spec fn timestamp_spec(secs: int, nanos: int) -> Option<Timestamp> {
    let day = day_of_secs(secs);
    if 0 <= nanos < 1_000_000_000 && i32::MIN <= day <= i32::MAX && date_exists(day)
        && i64::MIN <= secs <= i64::MAX {
        Some(
            Timestamp {
                secs: secs as i64,
                nanos: nanos as u32,
                day: day as i32,
                weekday: weekday_of_day(day) as u32,
                year: year_of_day(day),
                month: month_of_day(day),
                iso_year: iso_week_of_day(day).0,
                iso_week: iso_week_of_day(day).1,
            },
        )
    } else {
        None
    }
}

impl Timestamp {
    /// The calendar fields agree with the seconds.
    pub open spec fn wf(&self) -> bool {
        &&& timestamp_spec(self.secs as int, self.nanos as int) == Some(*self)
        &&& 1 <= self.month <= 12
        &&& forall|d: int|
            date_exists(d) ==> ((self.iso_year, self.iso_week) == #[trigger] iso_week_of_day(d)
                <==> monday_of(d) == monday_of(self.day as int))
    }
}

/// Floor division and the matching non-negative remainder.
fn floor_div_mod(a: i64, b: i64) -> (r: (i64, i64))
    requires
        0 < b,
    ensures
        r.0 == a as int / b as int,
        r.1 == a as int % b as int,
{
    if a >= 0 {
        let q = a / b;
        let m = a % b;
        proof {
            lemma_fundamental_div_mod(a as int, b as int);
            lemma_mul_is_commutative(b as int, q as int);
            lemma_mod_bound(a as int, b as int);
            lemma_fundamental_div_mod_converse_div(a as int, b as int, q as int, m as int);
            lemma_fundamental_div_mod_converse_mod(a as int, b as int, q as int, m as int);
        }
        (q, m)
    } else {
        let n = -(a + 1);
        let q0 = n / b;
        let m0 = n % b;
        let q = -q0 - 1;
        let m = b - 1 - m0;
        proof {
            lemma_fundamental_div_mod(n as int, b as int);
            lemma_mul_is_commutative(b as int, q0 as int);
            lemma_mod_bound(n as int, b as int);
            assert(n == q0 * b + m0);
            assert(a == q * b + m) by (nonlinear_arith)
                requires
                    n == q0 * b + m0,
                    n == -(a + 1),
                    q == -q0 - 1,
                    m == b - 1 - m0,
            ;
            lemma_fundamental_div_mod_converse_div(a as int, b as int, q as int, m as int);
            lemma_fundamental_div_mod_converse_mod(a as int, b as int, q as int, m as int);
        }
        (q, m)
    }
}

/// Relies on chrono's `NaiveDate::from_num_days_from_ce_opt` for the date of a day
/// number (`None` out of its range), and on `Datelike::year`, `Datelike::month` and
/// `Datelike::iso_week` for that date's year, month (1 to 12) and ISO week. ISO weeks
/// start on Monday, so another date has the same ISO week exactly when its week starts
/// on the same Monday.
#[verifier::external_body]
fn calendar_fields(day: i32) -> (r: Option<(i32, u32, i32, u32)>)
    ensures
        r.is_some() == date_exists(day as int),
        r matches Some(f) ==> f.0 == year_of_day(day as int) && f.1 == month_of_day(day as int)
            && (f.2, f.3) == iso_week_of_day(day as int) && 1 <= f.1 <= 12,
        r matches Some(f) ==> forall|d: int|
            date_exists(d) ==> (#[trigger] iso_week_of_day(d) == (f.2, f.3) <==> monday_of(d)
                == monday_of(day as int)),
{
    match chrono::NaiveDate::from_num_days_from_ce_opt(day) {
        Some(d) => Some((d.year(), d.month(), d.iso_week().year(), d.iso_week().week())),
        None => None,
    }
}

/// The RFC 3339 text that chrono writes for an instant.
pub uninterp spec fn rfc3339_text(secs: int, nanos: int) -> Seq<char>;

/// The instant (Unix seconds and nanoseconds) that chrono reads from an RFC 3339 text.
pub uninterp spec fn rfc3339_instant(s: Seq<char>) -> Option<(i64, u32)>;

/// The Unix time lies in the years 0000 to 9999, which RFC 3339 writes with four digits.
pub open spec fn in_four_digit_years(secs: int) -> bool {
    -62167219200 <= secs <= 253402300799
}

/// Relies on chrono's `DateTime::from_timestamp` (which succeeds for the seconds and
/// nanoseconds of a well-formed timestamp) and `DateTime::<Utc>::to_rfc3339`: the text
/// is made of digits, `-`, `+`, `T`, `:` and `.` only (no `/`, no line feed), and for a four-digit year
/// `DateTime::parse_from_rfc3339` reads it back as the same instant.
#[verifier::external_body]
fn format_rfc3339(secs: i64, nanos: u32) -> (r: String)
    requires
        timestamp_spec(secs as int, nanos as int) is Some,
    ensures
        r@ == rfc3339_text(secs as int, nanos as int),
        free_of(r@, '/'),
        free_of(r@, '\n'),
        in_four_digit_years(secs as int) ==> rfc3339_instant(r@) == Some((secs, nanos)),
{
    match chrono::DateTime::from_timestamp(secs, nanos) {
        Some(d) => d.to_rfc3339(),
        None => String::new(),
    }
}

/// Relies on chrono's `DateTime::parse_from_rfc3339`, read through `DateTime::timestamp`
/// and `DateTime::timestamp_subsec_nanos`; `None` where the text is not RFC 3339.
#[verifier::external_body]
fn parse_rfc3339_instant(s: &str) -> (r: Option<(i64, u32)>)
    ensures
        r == rfc3339_instant(s@),
{
    match chrono::DateTime::parse_from_rfc3339(s) {
        Ok(d) => Some((d.timestamp(), d.timestamp_subsec_nanos())),
        Err(_) => None,
    }
}

/// The timestamp that an RFC 3339 text denotes, if it denotes one.
pub open spec fn timestamp_of_text(s: Seq<char>) -> Option<Timestamp> {
    match rfc3339_instant(s) {
        Some(p) => timestamp_spec(p.0 as int, p.1 as int),
        None => None,
    }
}

impl Timestamp {
    /// This instant as RFC 3339 text, in UTC.
    pub fn to_rfc3339(&self) -> (r: String)
        requires
            self.wf(),
        ensures
            r@ == rfc3339_text(self.secs as int, self.nanos as int),
            free_of(r@, '/'),
            free_of(r@, '\n'),
            in_four_digit_years(self.secs as int) ==> timestamp_of_text(r@) == Some(*self),
    {
        format_rfc3339(self.secs, self.nanos)
    }

    /// The instant that an RFC 3339 text denotes; `None` where it is not RFC 3339 or
    /// its instant cannot be represented.
    pub fn parse_rfc3339(s: &str) -> (r: Option<Timestamp>)
        ensures
            r == timestamp_of_text(s@),
            r matches Some(t) ==> t.wf(),
    {
        match parse_rfc3339_instant(s) {
            Some((secs, nanos)) => Timestamp::from_unix(secs, nanos),
            None => None,
        }
    }

    /// The instant `secs` seconds and `nanos` nanoseconds after the Unix epoch;
    /// `None` where `nanos` is a second or more, or the date is out of chrono's range.
    pub fn from_unix(secs: i64, nanos: u32) -> (r: Option<Timestamp>)
        ensures
            r == timestamp_spec(secs as int, nanos as int),
            r matches Some(t) ==> t.wf(),
    {
        if nanos >= 1_000_000_000 {
            return None;
        }
        let (q, _) = floor_div_mod(secs, SECS_PER_DAY);
        let day64 = q + UNIX_EPOCH_DAY;
        if day64 < i32::MIN as i64 || day64 > i32::MAX as i64 {
            return None;
        }
        let day = day64 as i32;
        let (_, wd) = floor_div_mod(day64 - 1, 7);
        match calendar_fields(day) {
            Some((year, month, iso_year, iso_week)) => Some(
                Timestamp {
                    secs,
                    nanos,
                    day,
                    weekday: wd as u32,
                    year,
                    month,
                    iso_year,
                    iso_week,
                },
            ),
            None => None,
        }
    }

}

} // verus!
