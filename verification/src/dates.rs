//! Minute-precision dates of the knowledge base's change log, read and shifted
//! with `chrono`.
use vstd::prelude::*;
use chrono::{Datelike, Timelike};
use std::fmt::Write;

verus! {

/// A date and time to the minute, as `chrono` reads it from the knowledge
/// base (`%Y-%m-%d %H:%M`).
#[derive(Debug, Clone, Copy, PartialEq, Eq, Structural)]
pub struct KbDate {
    pub year: i32,
    pub month: u32,
    pub day: u32,
    pub hour: u32,
    pub minute: u32,
}

impl KbDate {
    /// The date's fields in order of significance.
    pub open spec fn fields(self) -> (i32, u32, u32, u32, u32) {
        (self.year, self.month, self.day, self.hour, self.minute)
    }
}

/// The date with the given fields.
pub open spec fn date_of(t: (i32, u32, u32, u32, u32)) -> KbDate {
    KbDate { year: t.0, month: t.1, day: t.2, hour: t.3, minute: t.4 }
}

/// `a` is the same moment as `b` or later (chrono's order on a date and a
/// time of day: by year, month, day, hour and minute in turn).
pub open spec fn at_or_after(a: KbDate, b: KbDate) -> bool {
    if a.year != b.year {
        a.year > b.year
    } else if a.month != b.month {
        a.month > b.month
    } else if a.day != b.day {
        a.day > b.day
    } else if a.hour != b.hour {
        a.hour > b.hour
    } else {
        a.minute >= b.minute
    }
}

/// The number of minutes from a fixed origin to the moment `d`, counting
/// 60 minutes an hour, 24 hours a day, and room for 31 days a month and 12
/// months a year, so that later moments get larger numbers.
pub open spec fn minute_number(d: KbDate) -> int {
    d.year * 599040 + d.month * 46080 + d.day * 1440 + d.hour * 60 + d.minute
}

/// A time of day and a day of the month within their ranges (as every date
/// chrono reads has them).
pub open spec fn clock_fields_in_range(d: KbDate) -> bool {
    d.month <= 12 && d.day <= 31 && d.hour <= 23 && d.minute <= 59
}

/// `at_or_after` is the order of time: for moments whose fields are within
/// their ranges, `a` is at or after `b` exactly when it lies as many minutes
/// from the origin as `b` or more.  A change on a later day counts as later
/// whatever its hour.
pub proof fn lemma_at_or_after_is_time_order(a: KbDate, b: KbDate)
    requires
        clock_fields_in_range(a),
        clock_fields_in_range(b),
    ensures
        at_or_after(a, b) <==> minute_number(a) >= minute_number(b),
{
}

/// Whether `a` is the same moment as `b` or later.
pub fn is_at_or_after(a: KbDate, b: KbDate) -> (r: bool)
    ensures
        r == at_or_after(a, b),
{
    if a.year != b.year {
        a.year > b.year
    } else if a.month != b.month {
        a.month > b.month
    } else if a.day != b.day {
        a.day > b.day
    } else if a.hour != b.hour {
        a.hour > b.hour
    } else {
        a.minute >= b.minute
    }
}

/// What `NaiveDateTime::parse_from_str(text, format)` reads, as the fields
/// year, month, day, hour and minute; `None` where it fails.
pub uninterp spec fn chrono_parsed(text: Seq<char>, format: Seq<char>) -> Option<(i32, u32, u32, u32, u32)>;

/// What `NaiveDateTime::checked_sub_days(Days::new(days))` gives for the date
/// and time with the given fields; `None` where they name no valid date and
/// time, or the result is out of chrono's range.
pub uninterp spec fn chrono_sub_days(t: (i32, u32, u32, u32, u32), days: nat) -> Option<(i32, u32, u32, u32, u32)>;

/// `chrono::NaiveDateTime::parse_from_str`, with the result's fields taken
/// through `Datelike` and `Timelike`.  The contract names the result only.
#[verifier::external_body]
pub(crate) fn parse_date_time(text: &str, format: &str) -> (r: Option<KbDate>)
    ensures
        match r {
            Some(d) => chrono_parsed(text@, format@) == Some(d.fields()),
            None => chrono_parsed(text@, format@) is None,
        },
{
    chrono::NaiveDateTime::parse_from_str(text, format).ok().map(
        |d| KbDate { year: d.year(), month: d.month(), day: d.day(), hour: d.hour(), minute: d.minute() },
    )
}

/// The same time of day `days` days earlier: a `NaiveDateTime` built from the
/// fields (`NaiveDate::from_ymd_opt`, `and_hms_opt` with no seconds), then
/// `checked_sub_days(Days::new(days))`.  Beside the name, the contract claims
/// what chrono's source shows: only the date part moves, so hour and minute stay.
#[verifier::external_body]
pub(crate) fn sub_days(d: KbDate, days: u64) -> (r: Option<KbDate>)
    ensures
        match r {
            Some(p) => chrono_sub_days(d.fields(), days as nat) == Some(p.fields()) && p.hour == d.hour
                && p.minute == d.minute,
            None => chrono_sub_days(d.fields(), days as nat) is None,
        },
{
    let t = chrono::NaiveDate::from_ymd_opt(d.year, d.month, d.day)?.and_hms_opt(d.hour, d.minute, 0)?;
    let p = t.checked_sub_days(chrono::Days::new(days))?;
    Some(KbDate { year: p.year(), month: p.month(), day: p.day(), hour: p.hour(), minute: p.minute() })
}

/// What `NaiveDateTime::format(format)` writes for the date and time with the
/// given fields (and no seconds); `None` where they name no valid date and time
/// or the format cannot be written.
pub uninterp spec fn chrono_formatted(t: (i32, u32, u32, u32, u32), format: Seq<char>) -> Option<Seq<char>>;

/// Writes the date and time with `chrono`: a `NaiveDateTime` built from the
/// fields (`NaiveDate::from_ymd_opt`, `and_hms_opt` with no seconds), written
/// through `format(format)`.  Beside the name, the contract claims one fact of
/// chrono's source: in the format `%Y-%m-%d %H:%M`, what is written parses back
/// to the same fields.  format/formatting.rs (`write_year`, `write_n`) writes a
/// year in 0..=9999 as four zero-padded digits and any other year with its sign
/// (`+10000`, `-0001`), and the other fields as two zero-padded digits;
/// format/parse.rs reads an unsigned year of up to four digits, a signed one of
/// any length, and two digits for each other field.
#[verifier::external_body]
pub(crate) fn format_date_time(d: KbDate, format: &str) -> (r: Option<String>)
    ensures
        match r {
            Some(s) => chrono_formatted(d.fields(), format@) == Some(s@) && (format@ == "%Y-%m-%d %H:%M"@
                ==> chrono_parsed(s@, format@) == Some(d.fields())),
            None => chrono_formatted(d.fields(), format@) is None,
        },
{
    let t = chrono::NaiveDate::from_ymd_opt(d.year, d.month, d.day)?.and_hms_opt(d.hour, d.minute, 0)?;
    let mut out = String::new();
    write!(out, "{}", t.format(format)).ok()?;
    Some(out)
}

} // verus!
