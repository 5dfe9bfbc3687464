//! How long ago something was.

use turnstile::age::{now, Age};
use turnstile::timestamp::Timestamp;

fn seconds(n: i128) -> i128 {
    n * 1_000_000_000
}

fn minutes(n: i128) -> i128 {
    seconds(n * 60)
}

fn hours(n: i128) -> i128 {
    minutes(n * 60)
}

fn days(n: i128) -> i128 {
    hours(n * 24)
}

/// So many nanoseconds after noon on a certain day.
fn moment(after: i128) -> Timestamp {
    let noon = Timestamp::parse("2026-09-16T12:00:00Z").unwrap();
    Timestamp::from_nanos(noon.nanos() + after).unwrap()
}

fn age_after(d: i128) -> Age {
    Age::since(moment(-d), moment(0))
}

#[test]
fn under_a_minute_still_reports_minutes() {
    assert_eq!(age_after(seconds(5)), Age::Minutes(0));
}

#[test]
fn exactly_one_unit_uses_the_singular_variant() {
    assert_eq!(age_after(minutes(1)), Age::Minute);
    assert_eq!(age_after(hours(1)), Age::Hour);
    assert_eq!(age_after(days(1)), Age::Day);
    assert_eq!(age_after(days(30)), Age::Month);
    assert_eq!(age_after(days(365)), Age::Year);
}

#[test]
fn every_variant_is_reachable() {
    let reached = [
        age_after(minutes(1)),
        age_after(minutes(5)),
        age_after(hours(1)),
        age_after(hours(5)),
        age_after(days(1)),
        age_after(days(5)),
        age_after(days(30)),
        age_after(days(90)),
        age_after(days(365)),
        age_after(days(365 * 3)),
    ];
    assert_eq!(
        reached,
        [
            Age::Minute,
            Age::Minutes(5),
            Age::Hour,
            Age::Hours(5),
            Age::Day,
            Age::Days(5),
            Age::Month,
            Age::Months(3),
            Age::Year,
            Age::Years(3),
        ]
    );
}

#[test]
fn the_hour_boundary_switches_units() {
    assert_eq!(age_after(minutes(59)), Age::Minutes(59));
    assert_eq!(age_after(minutes(60)), Age::Hour);
}

#[test]
fn the_day_boundary_switches_units() {
    assert_eq!(age_after(hours(23)), Age::Hours(23));
    assert_eq!(age_after(hours(24)), Age::Day);
}

#[test]
fn the_thirty_day_boundary_switches_to_months() {
    assert_eq!(age_after(days(29)), Age::Days(29));
    assert_eq!(age_after(days(30)), Age::Month);
    assert_eq!(age_after(days(60)), Age::Months(2));
}

#[test]
fn the_twelve_month_boundary_switches_to_years() {
    assert_eq!(age_after(days(359)), Age::Months(11));
    assert_eq!(age_after(days(365)), Age::Year);
    assert_eq!(age_after(days(365 * 2)), Age::Years(2));
}

#[test]
fn a_future_timestamp_does_not_panic_or_underflow() {
    let (now, later) = (moment(0), moment(days(7)));
    assert_eq!(Age::since(later, now), Age::Minutes(0));
}

#[test]
fn a_part_of_a_unit_is_not_counted() {
    assert_eq!(age_after(minutes(2) - 1), Age::Minute);
    assert_eq!(age_after(hours(3) - seconds(1)), Age::Hours(2));
    assert_eq!(age_after(days(59)), Age::Month);
    assert_eq!(age_after(days(364)), Age::Months(12));
    assert_eq!(age_after(days(365 * 2) - seconds(1)), Age::Year);
}

#[test]
fn the_clock_gives_an_instant_after_this_was_written() {
    let written = Timestamp::parse("2025-01-01T00:00:00Z").unwrap();
    assert!(now().nanos() > written.nanos());
}

#[test]
fn instants_are_read_with_their_offset_and_fraction() {
    let utc = Timestamp::parse("2026-09-16T12:00:00Z").unwrap();
    assert_eq!(utc.nanos(), seconds(1_789_560_000));
    assert_eq!(Timestamp::parse("2026-09-16T14:00:00+02:00"), Some(utc));
    let later = Timestamp::parse("2026-09-16T12:00:00.25Z").unwrap();
    assert_eq!(later.nanos() - utc.nanos(), 250_000_000);
    assert_eq!(Timestamp::parse("yesterday"), None);
    assert_eq!(Timestamp::parse(""), None);
}

#[test]
fn instants_are_bounded() {
    assert_eq!(
        Timestamp::from_unix_timestamp(1_789_560_000),
        Timestamp::parse("2026-09-16T12:00:00Z")
    );
    assert_eq!(Timestamp::from_unix_timestamp(i64::MAX), None);
    assert_eq!(Timestamp::from_nanos(i128::MAX), None);
    assert_eq!(Timestamp::from_nanos(0).unwrap().nanos(), 0);
}
