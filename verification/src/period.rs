//! The period policy: how far back a request looks, and which days carry an
//! axis label.

use crate::calendar::{day_of_month_at, format_at, utc_day_of_month, utc_formatted};
use crate::clock::{midnight_of, Days};
use std::string::String;
use vstd::prelude::*;

verus! {

/// The span of time a request covers.
#[derive(Clone, Copy, Debug, PartialEq, Eq, Structural)]
pub enum Period {
    AllTime,
    LastYear,
    LastMonth,
    LastWeek,
}

/// The shape of an axis label.
#[derive(Clone, Copy, Debug, PartialEq, Eq, Structural)]
pub enum TickFormat {
    /// Month, day and two-digit year, separated by slashes.
    Date,
    /// The month's full name and the day.
    MonthDay,
    /// The weekday's full name.
    Weekday,
}

/// What a label reads as text, or nothing where there is no label.
pub open spec fn text_of(label: Option<String>) -> Option<Seq<char>> {
    match label {
        Some(s) => Some(s@),
        None => None,
    }
}

/// Midnight at the start of day `day`, in milliseconds since the Unix epoch.
pub open spec fn midnight_millis(day: int) -> int {
    midnight_of(day) * 1000
}

impl TickFormat {
    /// The strftime pattern that writes this shape.
    pub open spec fn pattern_spec(self) -> Seq<char> {
        match self {
            TickFormat::Date => "%m/%d/%y"@,
            TickFormat::MonthDay => "%B %d"@,
            TickFormat::Weekday => "%A"@,
        }
    }

    /// The strftime pattern that writes this shape.
    pub fn pattern(self) -> (r: &'static str)
        ensures
            r@ == self.pattern_spec(),
    {
        match self {
            TickFormat::Date => "%m/%d/%y",
            TickFormat::MonthDay => "%B %d",
            TickFormat::Weekday => "%A",
        }
    }
}

impl Default for Period {
    fn default() -> (r: Period)
        ensures
            r == Period::AllTime,
    {
        Period::AllTime
    }
}

impl Period {
    /// The number of days the period reaches back from today; nothing for a
    /// period without a limit.
    pub open spec fn reach(self) -> Option<int> {
        match self {
            Period::AllTime => None,
            Period::LastYear => Some(365),
            Period::LastMonth => Some(30),
            Period::LastWeek => Some(7),
        }
    }

    /// The first day of the period that ends on day `now`.
    pub open spec fn lower_bound_spec(self, now: int) -> int {
        match self.reach() {
            Some(n) if now >= n => now - n,
            _ => 0,
        }
    }

    /// The first day of the period that ends on `now`: `now` less the
    /// period's reach, and day 0 where that would lie before it.
    pub fn lower_bound(self, now: Days) -> (r: Days)
        ensures
            r.0 == self.lower_bound_spec(now.0 as int),
    {
        match self {
            Period::AllTime => Days(0),
            Period::LastYear => Days(now.0.saturating_sub(365)),
            Period::LastMonth => Days(now.0.saturating_sub(30)),
            Period::LastWeek => Days(now.0.saturating_sub(7)),
        }
    }

    /// The shape of the label that a day earns whose date is the
    /// `day_of_month`-th of its month; nothing where it earns none.
    pub open spec fn tick_format_spec(self, day_of_month: int) -> Option<TickFormat> {
        match self {
            Period::AllTime => if day_of_month == 1 {
                Some(TickFormat::Date)
            } else {
                None
            },
            Period::LastYear => if day_of_month == 1 {
                Some(TickFormat::MonthDay)
            } else {
                None
            },
            Period::LastMonth => if day_of_month % 7 == 0 {
                Some(TickFormat::MonthDay)
            } else {
                None
            },
            Period::LastWeek => Some(TickFormat::Weekday),
        }
    }

    /// Decides from the day of the month whether a day is labelled, and in
    /// which shape.
    pub fn tick_format(self, day_of_month: u32) -> (r: Option<TickFormat>)
        ensures
            r == self.tick_format_spec(day_of_month as int),
    {
        match self {
            Period::AllTime => if day_of_month == 1 {
                Some(TickFormat::Date)
            } else {
                None
            },
            Period::LastYear => if day_of_month == 1 {
                Some(TickFormat::MonthDay)
            } else {
                None
            },
            Period::LastMonth => if day_of_month % 7 == 0 {
                Some(TickFormat::MonthDay)
            } else {
                None
            },
            Period::LastWeek => Some(TickFormat::Weekday),
        }
    }

    /// The label of day `day`: its date written in the shape the period
    /// picks for its day of the month, or nothing.
    pub open spec fn label_spec(self, day: int) -> Option<Seq<char>> {
        match self.tick_format_spec(utc_day_of_month(midnight_millis(day))) {
            Some(format) => Some(utc_formatted(midnight_millis(day), format.pattern_spec())),
            None => None,
        }
    }

    /// The axis label of `day` under this period, or nothing where the day is
    /// not a tick. A label is never empty.
    pub fn label(self, day: Days) -> (r: Option<String>)
        requires
            day.is_valid(),
        ensures
            text_of(r) == self.label_spec(day.0 as int),
            r matches Some(s) ==> s@.len() > 0,
    {
        let seconds: i64 = day.to_timestamp();
        let millis: i64 = seconds * 1000;
        match self.tick_format(day_of_month_at(millis)) {
            Some(format) => Some(format_at(millis, format.pattern())),
            None => None,
        }
    }

    /// The tick text of `day`: its label, or the empty text where it has
    /// none.
    pub fn tic(self, day: Days) -> (r: String)
        requires
            day.is_valid(),
        ensures
            r@ == match self.label_spec(day.0 as int) {
                Some(text) => text,
                None => Seq::<char>::empty(),
            },
            r@.len() == 0 <==> self.label_spec(day.0 as int) is None,
    {
        match self.label(day) {
            Some(text) => text,
            None => String::new(),
        }
    }

    /// The floor as the renderer is to show it: withheld for a period
    /// without a limit, which has nothing before it.
    pub fn shown_floor(self, floor: u64) -> (r: Option<u64>)
        ensures
            r == if self == Period::AllTime {
                None
            } else {
                Some(floor)
            },
    {
        match self {
            Period::AllTime => None,
            _ => Some(floor),
        }
    }
}

/// Under `LastWeek` every day is labelled; under `AllTime` and `LastYear`
/// exactly the first of each month is; under `LastMonth` exactly the days
/// whose day of the month is a multiple of seven.
pub proof fn lemma_label_cadence(day: int)
    ensures
        Period::LastWeek.label_spec(day) is Some,
        Period::AllTime.label_spec(day) is Some <==> utc_day_of_month(midnight_millis(day)) == 1,
        Period::LastYear.label_spec(day) is Some <==> utc_day_of_month(midnight_millis(day)) == 1,
        Period::LastMonth.label_spec(day) is Some <==> utc_day_of_month(midnight_millis(day)) % 7
            == 0,
{
}

} // verus!
