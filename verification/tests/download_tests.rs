use std::io::Write;

use gaia::download::{
    apply_download_data, backoff_marker_path, checksum_matches, digest_equals,
    format_backoff_marker, next_backoff, parse_backoff_marker, plan_entry, plan_extraction,
    resume_step, zenodo_url, DownloadStep,
};

#[test]
fn test_zenodo_url_format() {
    let url = zenodo_url("15050749", "BirdNET_v2.4_tflite_fp16.zip");
    assert_eq!(
        url,
        "https://zenodo.org/api/records/15050749/files/BirdNET_v2.4_tflite_fp16.zip/content"
    );
}

#[test]
fn test_backoff_marker_round_trip() {
    let text = format_backoff_marker(1700000000, 40);
    assert_eq!(text, "1700000000 40");
    assert_eq!(parse_backoff_marker(&text), (1700000000, 40));
    assert_eq!(parse_backoff_marker("  123   456  "), (123, 456));
    assert_eq!(parse_backoff_marker(""), (0, 0));
    assert_eq!(parse_backoff_marker("garbage"), (0, 0));
    assert_eq!(parse_backoff_marker("77"), (77, 0));
}

#[test]
fn test_backoff_marker_path() {
    assert_eq!(backoff_marker_path("/models/birdnet"), "/models/birdnet/.download_backoff");
}

#[test]
fn test_next_backoff_doubles_to_cap() {
    assert_eq!(next_backoff(0), 5);
    assert_eq!(next_backoff(5), 10);
    assert_eq!(next_backoff(10), 20);
    assert_eq!(next_backoff(160), 320);
    assert_eq!(next_backoff(320), 600);
    assert_eq!(next_backoff(600), 600);
}

#[test]
fn test_backoff_across_restarts() {
    // Three failed starts in quick succession: the persisted backoff
    // doubles each time, so the third start waits at least four times
    // the initial backoff.
    let mut now: u64 = 1_700_000_000;
    let mut marker = String::new();
    let mut stamps: Vec<u64> = Vec::new();
    for _ in 0..3 {
        let (_, prev) = parse_backoff_marker(&marker);
        let next = next_backoff(prev);
        let resume_at = now + next;
        marker = format_backoff_marker(resume_at, next);
        stamps.push(resume_at);
        now += 1;
    }
    let (resume_at, backoff) = parse_backoff_marker(&marker);
    assert_eq!(backoff, 20);
    assert!(backoff >= 4 * 5);
    assert!(resume_at >= now);
    assert!(stamps.windows(2).all(|w| w[0] <= w[1]));
}

#[test]
fn test_resume_step_cases() {
    assert_eq!(resume_step(416, 100), DownloadStep::AlreadyComplete);
    assert_eq!(resume_step(416, 0), DownloadStep::Retry);
    assert_eq!(resume_step(206, 100), DownloadStep::Append);
    assert_eq!(resume_step(200, 100), DownloadStep::Restart);
    assert_eq!(resume_step(200, 0), DownloadStep::Restart);
    assert_eq!(resume_step(500, 100), DownloadStep::Retry);
    assert_eq!(resume_step(404, 0), DownloadStep::Retry);
}

#[test]
fn test_resume_append_restores_whole_file() {
    let full: Vec<u8> = (0u8..200).collect();
    // Any prefix already on disk, plus the remainder appended, equals
    // the single-shot download.
    for cut in [0usize, 1, 99, 200] {
        let mut part: Vec<u8> = full[..cut].to_vec();
        let tail: Vec<u8> = full[cut..].to_vec();
        apply_download_data(&mut part, &tail, DownloadStep::Append);
        assert_eq!(part, full);
    }
    // A server that ignored the range rewrites from scratch.
    let mut part: Vec<u8> = vec![1, 2, 3];
    apply_download_data(&mut part, &full, DownloadStep::Restart);
    assert_eq!(part, full);
}

#[test]
fn test_checksum_known_digest() {
    let bytes: Vec<u8> = b"abc".to_vec();
    assert!(checksum_matches(&bytes, "900150983cd24fb0d6963f7d28e17f72"));
    assert!(!checksum_matches(&bytes, "00000000000000000000000000000000"));
    assert!(digest_equals("abcd", "abcd"));
    assert!(!digest_equals("abcd", "abce"));
}

#[test]
fn test_plan_entry_rules() {
    assert_eq!(plan_entry("model.tflite").unwrap(), "model.tflite");
    assert_eq!(plan_entry("BirdNET/labels/en.txt").unwrap(), "en.txt");
    assert!(plan_entry("BirdNET/").is_none());
    assert!(plan_entry("__MACOSX/model.tflite").is_none());
    assert!(plan_entry("a/._model.tflite").is_none());
    assert!(plan_entry("").is_none());
    assert!(plan_entry("a/..").is_none());
}

#[test]
fn test_plan_extraction_flattens() {
    // Build a small archive in memory with a nested entry, a hidden
    // resource fork, and a directory entry.
    let mut cursor = std::io::Cursor::new(Vec::new());
    {
        let mut zw = zip::ZipWriter::new(&mut cursor);
        let opts: zip::write::SimpleFileOptions = Default::default();
        zw.add_directory("BirdNET/", opts).unwrap();
        zw.start_file("BirdNET/model.tflite", opts).unwrap();
        zw.write_all(b"MODELDATA").unwrap();
        zw.start_file("__MACOSX/junk", opts).unwrap();
        zw.write_all(b"x").unwrap();
        zw.start_file("BirdNET/labels.txt", opts).unwrap();
        zw.write_all(b"Turdus merula_Eurasian Blackbird").unwrap();
        zw.finish().unwrap();
    }
    let bytes = cursor.into_inner();
    let files = plan_extraction(&bytes).unwrap();
    assert_eq!(files.len(), 2);
    assert_eq!(files[0].0, "model.tflite");
    assert_eq!(files[0].1, b"MODELDATA");
    assert_eq!(files[1].0, "labels.txt");

    // A corrupt archive yields no plan.
    let garbage: Vec<u8> = vec![1, 2, 3, 4];
    assert!(plan_extraction(&garbage).is_none());
}
