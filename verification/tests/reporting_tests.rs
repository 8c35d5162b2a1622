use gaia::date::DateTime;
use gaia::detection::Detection;
use gaia::reporting::{
    extracted_file_name, extracted_rel_dir, extraction_window, format_micro, format_summary,
};

fn sample_detection() -> Detection {
    Detection::new(
        "birds",
        &DateTime { year: 2024, month: 6, day: 15, hour: 10, minute: 30, second: 0 },
        3000,
        6000,
        "Turdus merula",
        "Eurasian Blackbird",
        930_000,
    )
}

#[test]
fn test_extraction_window_symmetric() {
    // A 6 s extraction around a 3 s chunk adds 1.5 s each side.
    let (a, b) = extraction_window(3000, 6000, 6, 15);
    assert_eq!(a, 1500);
    assert_eq!(b, 7500);
    // Clamped at the recording edges.
    let (a, b) = extraction_window(0, 3000, 6, 15);
    assert_eq!(a, 0);
    assert_eq!(b, 4500);
    let (a, b) = extraction_window(13000, 15000, 6, 15);
    assert_eq!(a, 11500);
    assert_eq!(b, 15000);
    // An extraction length at or below the chunk adds nothing.
    let (a, b) = extraction_window(3000, 6000, 3, 15);
    assert_eq!((a, b), (3000, 6000));
    // A recording that ends before the window starts yields an empty,
    // ordered window instead of an inverted one.
    let (a, b) = extraction_window(13000, 15000, 6, 10);
    assert_eq!((a, b), (11500, 11500));
}

#[test]
fn test_extracted_names() {
    let d = sample_detection();
    assert_eq!(
        extracted_file_name(&d, "RTSP_1-"),
        "birds-Eurasian_Blackbird-93-2024-06-15-birdnet-RTSP_1-10:30:03.wav"
    );
    assert_eq!(
        extracted_rel_dir(&d),
        "By_Date/2024-06-15/Eurasian_Blackbird"
    );
}

#[test]
fn test_format_micro_values() {
    assert_eq!(format_micro(0), "0");
    assert_eq!(format_micro(1_000_000), "1");
    assert_eq!(format_micro(42_360_000), "42.36");
    assert_eq!(format_micro(-72_520_000), "-72.52");
    assert_eq!(format_micro(930_000), "0.93");
    assert_eq!(format_micro(1), "0.000001");
    assert_eq!(format_micro(-1_250_000), "-1.25");
}

#[test]
fn test_format_summary_line() {
    let d = sample_detection();
    let line = format_summary(&d, 42_360_000, -72_520_000, 700_000, 1_250_000, 0);
    assert_eq!(
        line,
        "birds;2024-06-15;10:30:03;Turdus merula;Eurasian Blackbird;0.93;42.36;-72.52;0.7;24;1.25;0"
    );
}
