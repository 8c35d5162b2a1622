use chrono::Datelike;
use gaia::date::{add_seconds, DateTime};

#[test]
fn test_date_formatting() {
    let dt = DateTime { year: 2024, month: 2, day: 4, hour: 6, minute: 9, second: 7 };
    assert_eq!(dt.date_string(), "2024-02-04");
    assert_eq!(dt.time_string(), "06:09:07");
    assert_eq!(dt.iso8601(), "2024-02-04T06:09:07");
}

#[test]
fn test_add_seconds_carries() {
    let dt = DateTime { year: 2024, month: 2, day: 28, hour: 23, minute: 59, second: 30 };
    let r = add_seconds(&dt, 45);
    // 2024 is a leap year: February has a 29th.
    assert_eq!((r.year, r.month, r.day), (2024, 2, 29));
    assert_eq!((r.hour, r.minute, r.second), (0, 0, 15));

    let dt = DateTime { year: 2023, month: 2, day: 28, hour: 23, minute: 59, second: 30 };
    let r = add_seconds(&dt, 45);
    assert_eq!((r.year, r.month, r.day), (2023, 3, 1));
}

#[test]
fn test_iso_week_against_reference() {
    // Sweep every day of a leap and a non-leap year against the
    // calendar crate's ISO week numbering.
    for year in [2020i32, 2023] {
        let mut day = chrono::NaiveDate::from_ymd_opt(year, 1, 1).unwrap();
        while day.year() == year {
            let dt = DateTime {
                year: day.year() as u32,
                month: day.month(),
                day: day.day(),
                hour: 12,
                minute: 0,
                second: 0,
            };
            assert_eq!(dt.week(), day.iso_week().week(), "mismatch on {day}");
            day = day.succ_opt().unwrap();
        }
    }
}
