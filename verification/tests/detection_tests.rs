use gaia::date::DateTime;
use gaia::detection::{format_confidence, round_confidence, sanitize_name, Detection};

#[test]
fn test_detection_display() {
    let d = Detection::new(
        "birds",
        &DateTime { year: 2024, month: 6, day: 15, hour: 10, minute: 30, second: 0 },
        0,
        3000,
        "Turdus merula",
        "Eurasian Blackbird",
        920_000,
    );
    let s = d.describe();
    assert!(s.contains("birds"));
    assert!(s.contains("Turdus merula"));
    assert_eq!(
        s,
        "Detection(birds/Turdus merula, Eurasian Blackbird, 0.9200, 2024-06-15T10:30:00)"
    );
}

#[test]
fn test_detection_fields() {
    let d = Detection::new(
        "birds",
        &DateTime { year: 2024, month: 6, day: 15, hour: 10, minute: 30, second: 0 },
        6000,
        9000,
        "Turdus merula",
        "Robin's Friend",
        931_449,
    );
    assert_eq!(d.date, "2024-06-15");
    assert_eq!(d.time, "10:30:06");
    assert_eq!(d.iso8601, "2024-06-15T10:30:06");
    // ISO week of 2024-06-15.
    assert_eq!(d.week, 24);
    // Rounded to four decimals for storage; compared raw before.
    assert_eq!(d.confidence, 931_400);
    assert_eq!(d.confidence_pct(), 93);
    // Apostrophes removed, spaces underscored.
    assert_eq!(d.common_name_safe, "Robins_Friend");
    assert!(d.start_ms < d.stop_ms);
}

#[test]
fn test_confidence_rounding() {
    assert_eq!(round_confidence(931_449), 931_400);
    assert_eq!(round_confidence(931_450), 931_500);
    assert_eq!(round_confidence(1_000_000), 1_000_000);
    assert_eq!(round_confidence(0), 0);
    assert_eq!(format_confidence(930_000), "0.9300");
    assert_eq!(format_confidence(1_000_000), "1.0000");
    assert_eq!(format_confidence(0), "0.0000");
}

#[test]
fn test_sanitize_name() {
    assert_eq!(sanitize_name("Eurasian Blackbird"), "Eurasian_Blackbird");
    assert_eq!(sanitize_name("Bewick's Wren"), "Bewicks_Wren");
    assert_eq!(sanitize_name("Plain"), "Plain");
}

#[test]
fn test_detection_crosses_midnight() {
    let d = Detection::new(
        "birds",
        &DateTime { year: 2024, month: 12, day: 31, hour: 23, minute: 59, second: 58 },
        4000,
        7000,
        "Strix aluco",
        "Tawny Owl",
        800_000,
    );
    assert_eq!(d.date, "2025-01-01");
    assert_eq!(d.time, "00:00:02");
}
