use rustling_chains::dates::{present_days, DateRange};
use rustling_chains::time::LocalTime;

fn range(zone: &str) -> DateRange {
    DateRange {
        // 2024-03-29 07:00 and 2024-03-31 22:00 in Stockholm; summer time starts in between.
        start: LocalTime { utc_seconds: 1_711_692_000, offset_seconds: 3_600 },
        end: LocalTime { utc_seconds: 1_711_915_200, offset_seconds: 7_200 },
        zone: zone.to_string(),
    }
}

#[test]
fn range_length_in_whole_days() {
    assert_eq!(range("Europe/Stockholm").len(), 2);
    let backwards = DateRange {
        start: LocalTime { utc_seconds: 1_711_915_200, offset_seconds: 0 },
        end: LocalTime { utc_seconds: 1_711_692_000, offset_seconds: 0 },
        zone: "UTC".to_string(),
    };
    assert_eq!(backwards.len(), -2);
    assert!(backwards.date_times().is_empty());
}

#[test]
fn days_keep_the_wall_clock_across_summer_time() {
    let days = range("Europe/Stockholm").date_times();
    assert_eq!(days.len(), 3);
    assert_eq!(days[0], LocalTime { utc_seconds: 1_711_692_000, offset_seconds: 3_600 });
    assert_eq!(days[1], LocalTime { utc_seconds: 1_711_778_400, offset_seconds: 3_600 });
    assert_eq!(days[2], LocalTime { utc_seconds: 1_711_861_200, offset_seconds: 7_200 });
}

#[test]
fn unknown_zone_has_no_days() {
    assert_eq!(range("Mars/Olympus").get_day(1), None);
    assert!(range("Mars/Olympus").date_times().is_empty());
}

#[test]
fn start_date_on_the_wall_clock() {
    assert_eq!(range("Europe/Stockholm").start_date(), 19_811);
    let before_epoch = DateRange {
        start: LocalTime { utc_seconds: -1, offset_seconds: 0 },
        end: LocalTime { utc_seconds: 0, offset_seconds: 0 },
        zone: "UTC".to_string(),
    };
    assert_eq!(before_epoch.start_date(), -1);
}

#[test]
fn present_days_skip_missing_ones() {
    let a = LocalTime { utc_seconds: 1, offset_seconds: 0 };
    let b = LocalTime { utc_seconds: 2, offset_seconds: 0 };
    assert_eq!(present_days(&vec![Some(a), None, Some(b), None]), vec![a, b]);
}
