//! Data model: the aggregation period descriptor and the kid views returned
//! by the repository.

use vstd::prelude::*;
use vstd::string::StringExecFns;
use crate::calendar::Instant;
use crate::text::decimal_digits;
use crate::text::decimal_string;

verus! {

/// The current aggregation period, tagged with the calendar components the
/// presentation needs to render a label.
#[derive(Clone, PartialEq, Eq, Structural, Hash, Debug)]
pub enum CountAggregation {
    /// month, year
    Monthly(u32, u32),
    /// week, month, year
    Weekly(u32, u32, u32),
    /// day, month, year
    Daily(u32, u32, u32),
    Yearly(u32),
}

/// The abbreviation used for month `m` in period labels.
pub open spec fn spec_month_abbr(m: int) -> Seq<char> {
    if m == 1 {
        "Jan"@
    } else if m == 2 {
        "Feb"@
    } else if m == 3 {
        "Mar"@
    } else if m == 4 {
        "Apr"@
    } else if m == 5 {
        "May"@
    } else if m == 6 {
        "Jun"@
    } else if m == 7 {
        "Jul"@
    } else if m == 8 {
        "Aug"@
    } else if m == 9 {
        "Sep"@
    } else if m == 10 {
        "Oct"@
    } else if m == 11 {
        "Nov"@
    } else if m == 12 {
        "Dec"@
    } else {
        "???"@
    }
}

/// Three-letter abbreviation of month `m`, or "???" when `m` is not a month.
pub fn month_abbr(m: u32) -> (r: &'static str)
    ensures
        r@ == spec_month_abbr(m as int),
{
    match m {
        1 => "Jan",
        2 => "Feb",
        3 => "Mar",
        4 => "Apr",
        5 => "May",
        6 => "Jun",
        7 => "Jul",
        8 => "Aug",
        9 => "Sep",
        10 => "Oct",
        11 => "Nov",
        12 => "Dec",
        _ => "???",
    }
}

impl CountAggregation {
    /// The period name shown by `label`.
    pub open spec fn spec_label(self) -> Seq<char> {
        match self {
            CountAggregation::Monthly(_, _) => "Monthly"@,
            CountAggregation::Weekly(_, _, _) => "Weekly"@,
            CountAggregation::Daily(_, _, _) => "Daily"@,
            CountAggregation::Yearly(_) => "Yearly"@,
        }
    }

    /// Returns the aggregation period label (e.g. "Monthly", "Weekly").
    pub fn label(&self) -> (r: &'static str)
        ensures
            r@ == self.spec_label(),
    {
        match self {
            CountAggregation::Monthly(_, _) => "Monthly",
            CountAggregation::Weekly(_, _, _) => "Weekly",
            CountAggregation::Daily(_, _, _) => "Daily",
            CountAggregation::Yearly(_) => "Yearly",
        }
    }

    /// The contextual label shown by `unit_label`.
    pub open spec fn spec_unit_label(self) -> Seq<char> {
        match self {
            CountAggregation::Monthly(_, _) => "Current month"@,
            CountAggregation::Weekly(_, _, _) => "Current week"@,
            CountAggregation::Daily(_, _, _) => "Today"@,
            CountAggregation::Yearly(_) => "Current year"@,
        }
    }

    /// Returns a contextual label for the footer (e.g. "Current month", "Today").
    pub fn unit_label(&self) -> (r: &'static str)
        ensures
            r@ == self.spec_unit_label(),
    {
        match self {
            CountAggregation::Monthly(_, _) => "Current month",
            CountAggregation::Weekly(_, _, _) => "Current week",
            CountAggregation::Daily(_, _, _) => "Today",
            CountAggregation::Yearly(_) => "Current year",
        }
    }

    /// The rendering produced by `unit_str`.
    pub open spec fn spec_unit_str(self) -> Seq<char> {
        match self {
            CountAggregation::Monthly(m, y) => spec_month_abbr(m as int) + " "@ + decimal_digits(
                y as int,
            ),
            CountAggregation::Weekly(w, m, y) => "W"@ + decimal_digits(w as int) + " \u{b7} "@
                + spec_month_abbr(m as int) + " "@ + decimal_digits(y as int),
            CountAggregation::Daily(d, m, y) => decimal_digits(d as int) + " "@ + spec_month_abbr(
                m as int,
            ) + " "@ + decimal_digits(y as int),
            CountAggregation::Yearly(y) => decimal_digits(y as int),
        }
    }

    /// Returns the current unit value for this aggregation period.
    pub fn unit_str(&self) -> (r: String)
        ensures
            r@ == self.spec_unit_str(),
    {
        match self {
            CountAggregation::Monthly(m, y) => {
                let mut s = String::from_str(month_abbr(*m));
                s.append(" ");
                s.append(decimal_string(*y).as_str());
                proof {
                    assert(s@ =~= self.spec_unit_str());
                }
                s
            },
            CountAggregation::Weekly(w, m, y) => {
                let mut s = String::from_str("W");
                s.append(decimal_string(*w).as_str());
                s.append(" \u{b7} ");
                s.append(month_abbr(*m));
                s.append(" ");
                s.append(decimal_string(*y).as_str());
                proof {
                    assert(s@ =~= self.spec_unit_str());
                }
                s
            },
            CountAggregation::Daily(d, m, y) => {
                let mut s = decimal_string(*d);
                s.append(" ");
                s.append(month_abbr(*m));
                s.append(" ");
                s.append(decimal_string(*y).as_str());
                proof {
                    assert(s@ =~= self.spec_unit_str());
                }
                s
            },
            CountAggregation::Yearly(y) => decimal_string(*y),
        }
    }
}

/// Metadata attached to a kid-list response: the period it was computed for.
#[derive(Clone, PartialEq, Eq, Structural, Hash, Debug)]
pub struct CountMetadata {
    pub aggregation: CountAggregation,
}

/// Loading state of a kid-list request, as held by the presentation layer.
#[derive(Clone)]
pub enum KidsResponseWrapper {
    Loading,
    Loaded(GetKidsResponse),
    NoKids,
}

/// A kid list together with the period the counts were aggregated over.
#[derive(Clone, PartialEq, Eq, Hash, Debug)]
pub struct GetKidsResponse {
    pub kids: Vec<Kid>,
    pub count_metadata: CountMetadata,
}

/// A kid's identity with its period-scoped note total and the timestamp of
/// its most recent note inside the window, when one exists.
#[derive(Clone, PartialEq, Eq, Hash, Debug)]
pub struct Kid {
    pub name: String,
    pub id: u32,
    pub count: i64,
    pub latest_note: Option<Instant>,
}

/// A kid's identity alone.
#[derive(Clone, Debug, PartialEq, Eq, Hash)]
pub struct KidSummary {
    pub id: u32,
    pub name: String,
}

} // verus!
