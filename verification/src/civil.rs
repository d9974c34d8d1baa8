//! Calendar dates and times of day, as `jiff` parses and orders them.
use vstd::prelude::*;

verus! {

/// A calendar date.
#[derive(Debug, Clone, Copy, PartialEq, Eq, Structural)]
pub struct CivilDate {
    pub year: i16,
    pub month: i8,
    pub day: i8,
}

/// A time of day with nanosecond precision.
#[derive(Debug, Clone, Copy, PartialEq, Eq, Structural)]
pub struct TimeOfDay {
    pub hour: i8,
    pub minute: i8,
    pub second: i8,
    pub subsec_nanosecond: i32,
}

/// `a` is a later date than `b`.
pub open spec fn date_after(a: CivilDate, b: CivilDate) -> bool {
    a.year > b.year || (a.year == b.year && (a.month > b.month || (a.month == b.month && a.day > b.day)))
}

/// `a` is an earlier time of day than `b`.
pub open spec fn time_before(a: TimeOfDay, b: TimeOfDay) -> bool {
    a.hour < b.hour || (a.hour == b.hour && (a.minute < b.minute || (a.minute == b.minute && (a.second < b.second
        || (a.second == b.second && a.subsec_nanosecond < b.subsec_nanosecond)))))
}

/// The moment `(da, ta)` is before the moment `(db, tb)`.
pub open spec fn moment_before(da: CivilDate, ta: TimeOfDay, db: CivilDate, tb: TimeOfDay) -> bool {
    date_after(db, da) || (da == db && time_before(ta, tb))
}

/// Whether `a` is a later date than `b`.
pub fn is_date_after(a: CivilDate, b: CivilDate) -> (r: bool)
    ensures
        r == date_after(a, b),
{
    a.year > b.year || (a.year == b.year && (a.month > b.month || (a.month == b.month && a.day > b.day)))
}

/// Whether the moment `(da, ta)` is before the moment `(db, tb)`.
pub fn is_moment_before(da: CivilDate, ta: TimeOfDay, db: CivilDate, tb: TimeOfDay) -> (r: bool)
    ensures
        r == moment_before(da, ta, db, tb),
{
    if is_date_after(db, da) {
        return true;
    }
    if da != db {
        return false;
    }
    ta.hour < tb.hour || (ta.hour == tb.hour && (ta.minute < tb.minute || (ta.minute == tb.minute && (ta.second < tb.second
        || (ta.second == tb.second && ta.subsec_nanosecond < tb.subsec_nanosecond)))))
}

/// A time as hour, minute, second and nanosecond.
pub open spec fn time_parts(t: Option<(i8, i8, i8, i32)>) -> Option<TimeOfDay> {
    match t {
        Some((h, m, s, n)) => Some(TimeOfDay { hour: h, minute: m, second: s, subsec_nanosecond: n }),
        None => None,
    }
}

/// The date of a parse of a date text: year, month and day, or none when
/// the text was refused.
pub open spec fn date_parts(d: Result<(i16, i8, i8), Seq<char>>) -> Option<CivilDate> {
    match d {
        Ok((y, m, day)) => Some(CivilDate { year: y, month: m, day: day }),
        Err(_) => None,
    }
}

/// What `jiff::civil::Time::strptime("%H:%M:%S", s)` gives, as hour, minute,
/// second and nanosecond.
pub uninterp spec fn jiff_time_strptime_hms(s: Seq<char>) -> Option<(i8, i8, i8, i32)>;

/// What `jiff::civil::Date::strptime("%Y-%m-%d", s)` gives: year, month and
/// day, or the text (`Display`) of its error.
pub uninterp spec fn jiff_date_strptime_ymd(s: Seq<char>) -> Result<(i16, i8, i8), Seq<char>>;

/// Parses `s` with `jiff::civil::Time::strptime("%H:%M:%S", _)`. Claims that
/// the result is the named function of `s` and a time of day as `jiff` holds
/// one (hour 0..=23, minute and second 0..=59, nanosecond below a second).
#[verifier::external_body]
pub(crate) fn parse_time_hms(s: &str) -> (r: Option<TimeOfDay>)
    ensures
        r == time_parts(jiff_time_strptime_hms(s@)),
        r matches Some(t) ==> 0 <= t.hour <= 23 && 0 <= t.minute <= 59 && 0 <= t.second <= 59
            && 0 <= t.subsec_nanosecond <= 999999999,
{
    match jiff::civil::Time::strptime("%H:%M:%S", s) {
        Ok(t) => Some(TimeOfDay { hour: t.hour(), minute: t.minute(), second: t.second(), subsec_nanosecond: t.subsec_nanosecond() }),
        Err(_) => None,
    }
}

/// Parses `s` with `jiff::civil::Date::strptime("%Y-%m-%d", _)`; on failure
/// gives the text of `jiff`'s error (`to_string`). Claims that the date, or
/// the error text, is the named function of `s`: both depend on the text
/// alone.
#[verifier::external_body]
pub(crate) fn parse_date_ymd(s: &str) -> (r: Result<CivilDate, String>)
    ensures
        match r {
            Ok(d) => date_parts(jiff_date_strptime_ymd(s@)) == Some(d),
            Err(e) => jiff_date_strptime_ymd(s@) == Err::<(i16, i8, i8), Seq<char>>(e@),
        },
{
    match jiff::civil::Date::strptime("%Y-%m-%d", s) {
        Ok(d) => Ok(CivilDate { year: d.year(), month: d.month(), day: d.day() }),
        Err(e) => Err(e.to_string()),
    }
}

} // verus!
