use std::cmp::Ordering;

use lemma_planning::rational::{rational_new, rational_zero};
use lemma_planning::temporal::{
    compare_semantic_dates, compare_semantic_times, SemanticDateTime, SemanticTime, SemanticTimezone,
};

fn dt(year: i32, month: u32, day: u32) -> SemanticDateTime {
    SemanticDateTime {
        year,
        month,
        day,
        hour: 0,
        minute: 0,
        second: 0,
        microsecond: 0,
        timezone: None,
    }
}

#[test]
fn timezone_display_is_z_or_signed_offset() {
    assert_eq!(SemanticTimezone { offset_hours: 0, offset_minutes: 0 }.display(), "Z");
    assert_eq!(SemanticTimezone { offset_hours: 5, offset_minutes: 30 }.display(), "+05:30");
    assert_eq!(SemanticTimezone { offset_hours: -8, offset_minutes: 0 }.display(), "-08:00");
    assert_eq!(SemanticTimezone { offset_hours: 0, offset_minutes: 45 }.display(), "+00:45");
}

#[test]
fn time_display_pads_fields_and_shows_fraction_and_zone() {
    let plain = SemanticTime { hour: 9, minute: 5, second: 7, microsecond: 0, timezone: None };
    assert_eq!(plain.display(), "09:05:07");
    let precise = SemanticTime {
        hour: 23,
        minute: 59,
        second: 59,
        microsecond: 42,
        timezone: Some(SemanticTimezone { offset_hours: -3, offset_minutes: 0 }),
    };
    assert_eq!(precise.display(), "23:59:59.000042-03:00");
}

#[test]
fn date_display_omits_a_zero_time_part() {
    assert_eq!(dt(2024, 2, 9).display(), "2024-02-09");
    assert_eq!(dt(7, 1, 1).display(), "0007-01-01");
    assert_eq!(dt(-44, 3, 15).display(), "-044-03-15");
    let mut with_time = dt(2024, 12, 31);
    with_time.hour = 18;
    with_time.timezone = Some(SemanticTimezone { offset_hours: 0, offset_minutes: 0 });
    assert_eq!(with_time.display(), "2024-12-31T18:00:00Z");
    let mut utc_midnight = dt(2024, 1, 1);
    utc_midnight.timezone = Some(SemanticTimezone { offset_hours: 1, offset_minutes: 0 });
    assert_eq!(utc_midnight.display(), "2024-01-01T00:00:00+01:00");
}

#[test]
fn dates_and_times_compare_field_by_field_ignoring_timezones() {
    assert_eq!(compare_semantic_dates(&dt(2023, 12, 31), &dt(2024, 1, 1)), Ordering::Less);
    assert_eq!(compare_semantic_dates(&dt(2024, 3, 1), &dt(2024, 2, 29)), Ordering::Greater);
    let mut early_utc = dt(2024, 1, 1);
    early_utc.timezone = Some(SemanticTimezone { offset_hours: 5, offset_minutes: 0 });
    assert_eq!(compare_semantic_dates(&early_utc, &dt(2024, 1, 1)), Ordering::Equal);
    let a = SemanticTime { hour: 10, minute: 0, second: 0, microsecond: 1, timezone: None };
    let b = SemanticTime { hour: 10, minute: 0, second: 0, microsecond: 0, timezone: None };
    assert_eq!(compare_semantic_times(&a, &b), Ordering::Greater);
    assert_eq!(compare_semantic_times(&b, &a), Ordering::Less);
}

#[test]
fn rational_display_is_integer_or_reduced_fraction() {
    assert_eq!(rational_new(6, 3).display_str(), "2");
    assert_eq!(rational_new(6, -4).display_str(), "-3/2");
    assert_eq!(rational_zero().display_str(), "0");
    assert_eq!(rational_new(i64::MIN, 1).display_str(), "-9223372036854775808");
}
