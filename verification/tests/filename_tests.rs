use chrono::Datelike;
use gaia::filename::{FileNameError, ParsedFileName};

#[test]
fn test_parse_filename_plain() {
    let pf = ParsedFileName::parse("/data/StreamData/2024-02-24-birdnet-16:19:37.wav").unwrap();
    assert_eq!(pf.file_date.date_string(), "2024-02-24");
    assert_eq!(pf.rtsp_id, "");
}

#[test]
fn test_parse_filename_rtsp() {
    let pf =
        ParsedFileName::parse("/data/StreamData/2024-02-24-birdnet-RTSP_1-16:19:37.wav").unwrap();
    assert_eq!(pf.rtsp_id, "RTSP_1-");
}

#[test]
fn test_parse_filename_components_round_trip() {
    let pf = ParsedFileName::parse("2031-12-31-birdnet-RTSP_7-23:59:59.wav").unwrap();
    assert_eq!(pf.file_date.date_string(), "2031-12-31");
    assert_eq!(pf.file_date.time_string(), "23:59:59");
    assert_eq!(pf.rtsp_id, "RTSP_7-");
    assert_eq!(pf.file_date.year, 2031);
    assert_eq!(pf.file_date.second, 59);
}

#[test]
fn test_parse_filename_early_years() {
    // The grammar's four digits reach back to year one; year zero is
    // the one four-digit year the calendar model leaves out.
    let pf = ParsedFileName::parse("0001-01-01-birdnet-00:00:00.wav").unwrap();
    assert_eq!(pf.file_date.date_string(), "0001-01-01");
    let pf = ParsedFileName::parse("0850-06-15-birdnet-12:00:00.wav").unwrap();
    assert_eq!(pf.file_date.year, 850);
    assert!(matches!(
        ParsedFileName::parse("0000-01-01-birdnet-00:00:00.wav"),
        Err(FileNameError::BadDate)
    ));
}

#[test]
fn test_parse_filename_errors() {
    assert!(matches!(
        ParsedFileName::parse("short.wav"),
        Err(FileNameError::TooShort)
    ));
    assert!(matches!(
        ParsedFileName::parse("2024-13-24-birdnet-16:19:37.wav"),
        Err(FileNameError::BadDate)
    ));
    assert!(matches!(
        ParsedFileName::parse("2024-02-30-birdnet-16:19:37.wav"),
        Err(FileNameError::BadDate)
    ));
    assert!(matches!(
        ParsedFileName::parse("2024-02-24-birdnet-26:19:37.wav"),
        Err(FileNameError::BadTime)
    ));
}

#[test]
fn test_filename_week_matches_reference() {
    // Cross-check the ISO week computation against the calendar crate.
    for (y, m, d) in [
        (2024u32, 2u32, 24u32),
        (2024, 1, 1),
        (2024, 12, 31),
        (2021, 1, 1),
        (2020, 12, 31),
        (2026, 6, 15),
        (100, 6, 15),
        (1, 1, 1),
    ] {
        let name = format!("{y:04}-{m:02}-{d:02}-birdnet-10:00:00.wav");
        let pf = ParsedFileName::parse(&name).unwrap();
        let expect = chrono::NaiveDate::from_ymd_opt(y as i32, m, d)
            .unwrap()
            .iso_week()
            .week();
        assert_eq!(pf.week(), expect, "week mismatch for {name}");
    }
}

#[test]
fn test_filename_iso8601() {
    let pf = ParsedFileName::parse("2024-06-15-birdnet-10:30:00.wav").unwrap();
    assert_eq!(pf.iso8601(), "2024-06-15T10:30:00");
}
