use notica::calendar::Instant;
use notica::models::CountAggregation;
use notica::period::compute_current_period;
use notica::period::granularity_allowed;

fn at(y: u32, m: u32, d: u32, h: u32, mi: u32, s: u32) -> Instant {
    Instant::from_civil(y, m, d, h, mi, s).unwrap()
}

#[test]
fn allowed_granularities() {
    assert!(granularity_allowed("DAILY"));
    assert!(granularity_allowed("WEEKLY"));
    assert!(granularity_allowed("MONTHLY"));
    assert!(granularity_allowed("YEARLY"));
    assert!(!granularity_allowed("BIWEEKLY"));
    assert!(!granularity_allowed("daily"));
    assert!(!granularity_allowed(""));
}

#[test]
fn daily_period() {
    let now = at(2024, 5, 15, 10, 30, 0);
    let (agg, ws) = compute_current_period("DAILY", &now);
    assert_eq!(agg, CountAggregation::Daily(15, 5, 2024));
    assert_eq!(ws, at(2024, 5, 15, 0, 0, 0));
}

#[test]
fn weekly_period() {
    // 2024-05-15 is a Wednesday; the most recent Monday is 2024-05-13,
    // and the ISO week is 20.
    let now = at(2024, 5, 15, 10, 30, 0);
    let (agg, ws) = compute_current_period("WEEKLY", &now);
    assert_eq!(agg, CountAggregation::Weekly(20, 5, 2024));
    assert_eq!(ws, at(2024, 5, 13, 0, 0, 0));
}

#[test]
fn weekly_period_on_a_monday() {
    let now = at(2024, 5, 13, 0, 0, 0);
    let (_, ws) = compute_current_period("WEEKLY", &now);
    assert_eq!(ws, now);
}

#[test]
fn weekly_period_on_a_sunday() {
    let now = at(2024, 5, 19, 23, 59, 59);
    let (_, ws) = compute_current_period("WEEKLY", &now);
    assert_eq!(ws, at(2024, 5, 13, 0, 0, 0));
}

#[test]
fn monthly_period() {
    let now = at(2024, 5, 15, 10, 30, 0);
    let (agg, ws) = compute_current_period("MONTHLY", &now);
    assert_eq!(agg, CountAggregation::Monthly(5, 2024));
    assert_eq!(ws, at(2024, 5, 1, 0, 0, 0));
}

#[test]
fn yearly_period() {
    let now = at(2024, 5, 15, 10, 30, 0);
    let (agg, ws) = compute_current_period("YEARLY", &now);
    assert_eq!(agg, CountAggregation::Yearly(2024));
    assert_eq!(ws, at(2024, 1, 1, 0, 0, 0));
}

#[test]
fn unrecognized_granularity_is_monthly() {
    let now = at(2024, 5, 15, 10, 30, 0);
    let (agg, ws) = compute_current_period("BIWEEKLY", &now);
    assert_eq!(agg, CountAggregation::Monthly(5, 2024));
    assert_eq!(ws, at(2024, 5, 1, 0, 0, 0));
}

#[test]
fn period_is_deterministic() {
    let now = at(2024, 5, 15, 10, 30, 0);
    for g in ["DAILY", "WEEKLY", "MONTHLY", "YEARLY", "OTHER"] {
        let first = compute_current_period(g, &now);
        let second = compute_current_period(g, &now);
        assert_eq!(first, second);
    }
}

#[test]
fn weekly_window_is_monday_within_seven_days() {
    // One instant on each weekday of a week.
    for d in 13..=19 {
        let now = at(2024, 5, d, 17, 45, 1);
        let (_, ws) = compute_current_period("WEEKLY", &now);
        assert_eq!(ws.days % 7, 0);
        assert_eq!(ws.secs, 0);
        assert!(ws.le(&now));
        assert!(now.days < ws.days + 7);
    }
}

#[test]
fn iso_week_at_year_boundaries() {
    // 2023-01-01 is a Sunday that still belongs to ISO week 52 of 2022.
    let now = at(2023, 1, 1, 8, 0, 0);
    let (agg, _) = compute_current_period("WEEKLY", &now);
    assert_eq!(agg, CountAggregation::Weekly(52, 1, 2023));
    // 2024-01-01 is a Monday and starts ISO week 1.
    let now = at(2024, 1, 1, 8, 0, 0);
    let (agg, _) = compute_current_period("WEEKLY", &now);
    assert_eq!(agg, CountAggregation::Weekly(1, 1, 2024));
    // 2020-12-31 is a Thursday inside ISO week 53.
    let now = at(2020, 12, 31, 8, 0, 0);
    let (agg, _) = compute_current_period("WEEKLY", &now);
    assert_eq!(agg, CountAggregation::Weekly(53, 12, 2020));
}
