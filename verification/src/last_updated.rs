//! The record of when the archive was last brought fully up to date.
use vstd::prelude::*;
use crate::dates::{chrono_formatted, chrono_parsed, chrono_sub_days, date_of, format_date_time, sub_days, parse_date_time, KbDate};

verus! {

/// Why the time of the last update could not be read.
#[derive(Debug, Clone, Copy, PartialEq, Eq, Structural)]
pub enum FailedToReadLastUpdated {
    /// The archive holds no `last_updated.txt`.
    FileNotFound,
    /// `last_updated.txt` does not hold a date in the expected format.
    InvalidFormat,
}

/// The format the time of the last update is written in.
pub open spec fn last_updated_format() -> Seq<char> {
    "%Y-%m-%d %H:%M"@
}

impl FailedToReadLastUpdated {
    /// The message shown for the failure.
    pub open spec fn spec_message(self) -> Seq<char> {
        match self {
            FailedToReadLastUpdated::FileNotFound => "Could not find 'last_updated.txt' in the mariadb_kb_archive.\n Run the standard scrape to update."@,
            FailedToReadLastUpdated::InvalidFormat => "Invalid date format in 'last_updated.txt'."@,
        }
    }

    /// The message shown for the failure.
    pub fn message(&self) -> (r: String)
        ensures
            r@ == self.spec_message(),
    {
        match self {
            FailedToReadLastUpdated::FileNotFound => "Could not find 'last_updated.txt' in the mariadb_kb_archive.\n Run the standard scrape to update.".to_owned(),
            FailedToReadLastUpdated::InvalidFormat => "Invalid date format in 'last_updated.txt'.".to_owned(),
        }
    }
}

/// The moment from which changes are fetched again, given the contents of
/// `last_updated.txt` (`None` where the file could not be read): the recorded
/// time, one day earlier.
pub open spec fn spec_last_updated(contents: Option<Seq<char>>) -> Result<KbDate, FailedToReadLastUpdated> {
    match contents {
        None => Err(FailedToReadLastUpdated::FileNotFound),
        Some(text) => match chrono_parsed(text, last_updated_format()) {
            None => Err(FailedToReadLastUpdated::InvalidFormat),
            Some(t) => match chrono_sub_days(t, 1) {
                Some(p) => Ok(date_of(p)),
                None => Err(FailedToReadLastUpdated::InvalidFormat),
            },
        },
    }
}

/// The moment from which changes are fetched again, from the contents of
/// `last_updated.txt`.
pub fn last_updated_from_contents(contents: Option<&str>) -> (r: Result<KbDate, FailedToReadLastUpdated>)
    ensures
        r == spec_last_updated(match contents {
            Some(s) => Some(s@),
            None => None,
        }),
{
    match contents {
        None => Err(FailedToReadLastUpdated::FileNotFound),
        Some(text) => match parse_date_time(text, "%Y-%m-%d %H:%M") {
            None => Err(FailedToReadLastUpdated::InvalidFormat),
            Some(d) => match sub_days(d, 1) {
                Some(p) => Ok(p),
                None => Err(FailedToReadLastUpdated::InvalidFormat),
            },
        },
    }
}

/// The text of `last_updated.txt` for an update at `now`: the time in the
/// format `%Y-%m-%d %H:%M`.  That text reads back, by `last_updated_from_contents`,
/// as the same minute one day earlier.
pub fn last_updated_text(now: KbDate) -> (r: Option<String>)
    ensures
        match r {
            Some(t) => chrono_formatted(now.fields(), last_updated_format()) == Some(t@) && spec_last_updated(
                Some(t@),
            ) == match chrono_sub_days(now.fields(), 1) {
                Some(p) => Ok(date_of(p)),
                None => Err(FailedToReadLastUpdated::InvalidFormat),
            },
            None => chrono_formatted(now.fields(), last_updated_format()) is None,
        },
{
    proof {
        reveal_strlit("%Y-%m-%d %H:%M");
    }
    format_date_time(now, "%Y-%m-%d %H:%M")
}

} // verus!
