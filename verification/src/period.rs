//! Bucketing an instant into the current aggregation period.
//!
//! Given the configured granularity and the current instant, this module
//! computes the period descriptor that identifies "now" at that granularity
//! and the window start used to filter notes: the start of the current day,
//! of the current week (the most recent Monday), of the current month, or of
//! the current year.  An unrecognized granularity value is treated as
//! monthly.

use vstd::prelude::*;
use vstd::arithmetic::div_mod::lemma_fundamental_div_mod;
use vstd::arithmetic::div_mod::lemma_mod_bound;
use vstd::arithmetic::div_mod::lemma_mod_multiples_basic;
use crate::calendar::EPOCH_OFFSET;
use crate::calendar::Instant;
use crate::calendar::SECONDS_PER_DAY;
use crate::calendar::civil_of_days;
use crate::calendar::date_from_days;
use crate::calendar::day_number_of;
use crate::calendar::LAST_YEAR;
use crate::calendar::days_before_year;
use crate::calendar::lemma_days_before_month_mono;
use crate::calendar::lemma_days_before_year_nonneg;
use crate::calendar::lemma_days_before_year_upper;
use crate::calendar::lemma_months_sum;
use crate::calendar::max_day_number;
use crate::calendar::months_before;
use crate::calendar::weekday_of;
use crate::models::CountAggregation;
use crate::text::str_eq;

verus! {

broadcast use vstd::string::group_string_axioms;

/// The four granularity values the settings row may hold.
pub open spec fn is_allowed_granularity(s: Seq<char>) -> bool {
    s == "DAILY"@ || s == "WEEKLY"@ || s == "MONTHLY"@ || s == "YEARLY"@
}

/// True when `s` is one of the four allowed granularity values.
pub fn granularity_allowed(s: &str) -> (b: bool)
    ensures
        b == is_allowed_granularity(s@),
{
    str_eq(s, "DAILY") || str_eq(s, "WEEKLY") || str_eq(s, "MONTHLY") || str_eq(s, "YEARLY")
}

/// Instants the period computation accepts: a civil date in range, with
/// three days of headroom so that the week containing the instant still has
/// a civil Thursday.
pub open spec fn period_input_ok(now: Instant) -> bool {
    &&& now.in_civil_range()
    &&& now.days + 3 <= max_day_number()
}

/// ISO 8601 week number of a day number: the week runs Monday to Sunday and
/// is numbered by the ordinal of its Thursday within the Thursday's year.
pub open spec fn iso_week_of(days: int) -> int {
    let thursday = days - days % 7 + 3;
    let y = civil_of_days(thursday).0;
    (thursday - EPOCH_OFFSET - days_before_year(y) + 7) / 7
}

/// The period descriptor for granularity `g` at instant `now`.
pub open spec fn current_aggregation(g: Seq<char>, now: Instant) -> CountAggregation {
    let c = civil_of_days(now.days as int);
    if g == "DAILY"@ {
        CountAggregation::Daily(c.2 as u32, c.1 as u32, c.0 as u32)
    } else if g == "WEEKLY"@ {
        CountAggregation::Weekly(iso_week_of(now.days as int) as u32, c.1 as u32, c.0 as u32)
    } else if g == "YEARLY"@ {
        CountAggregation::Yearly(c.0 as u32)
    } else {
        CountAggregation::Monthly(c.1 as u32, c.0 as u32)
    }
}

/// The first instant of the period that granularity `g` puts `now` in.
pub open spec fn current_window_start(g: Seq<char>, now: Instant) -> Instant {
    let c = civil_of_days(now.days as int);
    if g == "DAILY"@ {
        Instant { days: now.days, secs: 0 }
    } else if g == "WEEKLY"@ {
        Instant { days: (now.days - (now.days as int) % 7) as u64, secs: 0 }
    } else if g == "YEARLY"@ {
        Instant { days: day_number_of(c.0, 1, 1) as u64, secs: 0 }
    } else {
        Instant { days: day_number_of(c.0, c.1, 1) as u64, secs: 0 }
    }
}

/// Computes the period descriptor identifying "now" at the given granularity
/// and the window start timestamp used to filter notes.  An unrecognized
/// granularity is treated as monthly.
pub fn compute_current_period(granularity: &str, now: &Instant) -> (r: (CountAggregation, Instant))
    requires
        period_input_ok(*now),
    ensures
        r.0 == current_aggregation(granularity@, *now),
        r.1 == current_window_start(granularity@, *now),
        r.1.wf(),
        r.1.secs == 0,
        r.1.timestamp() <= now.timestamp(),
{
    let c = now.civil();
    let y = c.0;
    let m = c.1;
    let d = c.2;
    proof {
        lemma_days_before_year_nonneg(y as int);
    }
    if str_eq(granularity, "DAILY") {
        (CountAggregation::Daily(d, m, y), Instant { days: now.days, secs: 0 })
    } else if str_eq(granularity, "WEEKLY") {
        proof {
            lemma_fundamental_div_mod(now.days as int, 7);
            lemma_mod_bound(now.days as int, 7);
            lemma_days_before_year_upper(LAST_YEAR as int + 1);
        }
        let monday = now.days - now.days % 7;
        let thursday = monday + 3;
        let tc = date_from_days(thursday);
        proof {
            lemma_days_before_month_mono(tc.0 as int, tc.1 as int, 13);
            lemma_months_sum(tc.0 as int);
        }
        let doy0 = months_before(tc.0, tc.1) + (tc.2 - 1);
        let week = (doy0 + 7) / 7;
        (CountAggregation::Weekly(week, m, y), Instant { days: monday, secs: 0 })
    } else if str_eq(granularity, "YEARLY") {
        let ws = now.days - (months_before(y, m) as u64) - ((d - 1) as u64);
        (CountAggregation::Yearly(y), Instant { days: ws, secs: 0 })
    } else {
        let ws = now.days - ((d - 1) as u64);
        (CountAggregation::Monthly(m, y), Instant { days: ws, secs: 0 })
    }
}

/// The period computation is deterministic: the same granularity and instant
/// always give the same period descriptor and the same window start.
pub proof fn lemma_current_period_deterministic(
    g1: Seq<char>,
    g2: Seq<char>,
    t1: Instant,
    t2: Instant,
)
    requires
        g1 == g2,
        t1 == t2,
    ensures
        current_aggregation(g1, t1) == current_aggregation(g2, t2),
        current_window_start(g1, t1) == current_window_start(g2, t2),
{
}

/// The weekly window starts on a Monday at 00:00:00, at or before the
/// instant that produced it, and less than seven days before it.
pub proof fn lemma_weekly_window_start(g: Seq<char>, now: Instant)
    requires
        period_input_ok(now),
        g == "WEEKLY"@,
    ensures
        ({
            let ws = current_window_start(g, now);
            &&& ws.secs == 0
            &&& weekday_of(ws.days as int) == 0
            &&& ws.timestamp() <= now.timestamp()
            &&& now.timestamp() < ws.timestamp() + 7 * (SECONDS_PER_DAY as int)
        }),
{
    reveal_strlit("DAILY");
    reveal_strlit("WEEKLY");
    let dd = now.days as int;
    lemma_fundamental_div_mod(dd, 7);
    lemma_mod_bound(dd, 7);
    assert("DAILY"@.len() == 5);
    assert("WEEKLY"@.len() == 6);
    assert(g != "DAILY"@);
    assert(0 <= dd % 7 < 7);
    assert(dd == 7 * (dd / 7) + dd % 7);
    assert(dd - dd % 7 >= 0);
    let ws = current_window_start(g, now);
    assert(ws.days as int == dd - dd % 7);
    assert(ws.days as int == 7 * (dd / 7));
    lemma_mod_multiples_basic(dd / 7, 7);
    assert((dd / 7) * 7 == 7 * (dd / 7)) by (nonlinear_arith);
    assert(weekday_of(ws.days as int) == 0);
}

} // verus!
