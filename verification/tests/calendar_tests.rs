use notica::calendar::Instant;

fn at(y: u32, m: u32, d: u32, h: u32, mi: u32, s: u32) -> Instant {
    Instant::from_civil(y, m, d, h, mi, s).unwrap()
}

#[test]
fn from_civil_epoch() {
    let t = at(1970, 1, 1, 0, 0, 0);
    assert_eq!(t.days, 3);
    assert_eq!(t.secs, 0);
}

#[test]
fn from_civil_time_of_day() {
    let t = at(1970, 1, 1, 1, 2, 3);
    assert_eq!(t.secs, 3723);
}

#[test]
fn from_civil_leap_day() {
    assert!(Instant::from_civil(2024, 2, 29, 0, 0, 0).is_some());
    assert!(Instant::from_civil(2023, 2, 29, 0, 0, 0).is_none());
    assert!(Instant::from_civil(2024, 2, 30, 0, 0, 0).is_none());
    assert!(Instant::from_civil(2000, 2, 29, 0, 0, 0).is_some());
    assert!(Instant::from_civil(2100, 2, 29, 0, 0, 0).is_none());
}

#[test]
fn from_civil_rejects_bad_components() {
    assert!(Instant::from_civil(2024, 0, 1, 0, 0, 0).is_none());
    assert!(Instant::from_civil(2024, 13, 1, 0, 0, 0).is_none());
    assert!(Instant::from_civil(2024, 4, 31, 0, 0, 0).is_none());
    assert!(Instant::from_civil(2024, 1, 1, 24, 0, 0).is_none());
    assert!(Instant::from_civil(2024, 1, 1, 0, 60, 0).is_none());
    assert!(Instant::from_civil(2024, 1, 1, 0, 0, 60).is_none());
    assert!(Instant::from_civil(1969, 12, 31, 0, 0, 0).is_none());
    assert!(Instant::from_civil(10000, 1, 1, 0, 0, 0).is_none());
}

#[test]
fn civil_round_trip() {
    let dates = [
        (1970, 1, 1),
        (1999, 12, 31),
        (2000, 2, 29),
        (2024, 5, 15),
        (2024, 12, 31),
        (9999, 12, 31),
    ];
    for &(y, m, d) in dates.iter() {
        let t = at(y, m, d, 12, 0, 0);
        assert_eq!(t.civil(), (y, m, d));
    }
}

#[test]
fn from_unix_seconds_epoch() {
    let t = Instant::from_unix_seconds(0).unwrap();
    assert_eq!((t.days, t.secs), (3, 0));
    let t = Instant::from_unix_seconds(86399).unwrap();
    assert_eq!((t.days, t.secs), (3, 86399));
    let t = Instant::from_unix_seconds(86400).unwrap();
    assert_eq!((t.days, t.secs), (4, 0));
}

#[test]
fn from_unix_seconds_known_date() {
    // 2024-05-15 00:00:00 UTC is 19858 days after the Unix epoch.
    let t = Instant::from_unix_seconds(19858 * 86400 + 3600).unwrap();
    assert_eq!(t.civil(), (2024, 5, 15));
    assert_eq!(t.secs, 3600);
}

#[test]
fn day_zero_is_a_monday() {
    // 2024-01-01 was a Monday; its day number is divisible by 7 because
    // day 0 (1969-12-29) was a Monday too.
    let t = at(2024, 1, 1, 0, 0, 0);
    assert_eq!(t.days % 7, 0);
    // 2024-05-13 was also a Monday.
    let t = at(2024, 5, 13, 0, 0, 0);
    assert_eq!(t.days % 7, 0);
    // 1970-01-01 was a Thursday.
    let t = at(1970, 1, 1, 0, 0, 0);
    assert_eq!(t.days % 7, 3);
}

#[test]
fn le_orders_instants() {
    let a = at(2024, 5, 15, 10, 0, 0);
    let b = at(2024, 5, 15, 10, 0, 1);
    let c = at(2024, 5, 16, 0, 0, 0);
    assert!(a.le(&a));
    assert!(a.le(&b));
    assert!(!b.le(&a));
    assert!(b.le(&c));
    assert!(!c.le(&a));
}
