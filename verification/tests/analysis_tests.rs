use gaia::analysis::{assemble_detections, filter_humans, human_cutoff};
use gaia::date::DateTime;
use gaia::strmap::StrMap;

fn chunk(preds: &[(&str, u32)]) -> Vec<(String, u32)> {
    preds.iter().map(|(l, c)| (l.to_string(), *c)).collect()
}

#[test]
fn test_human_cutoff_floor() {
    // max(10, round(60 * P)) with P in percent (hundredths stored).
    assert_eq!(human_cutoff(0), 10);
    assert_eq!(human_cutoff(10), 10); // 0.1 % -> 6, floored to 10
    assert_eq!(human_cutoff(100), 60); // 1 %
    assert_eq!(human_cutoff(1000), 600); // 10 %
}

#[test]
fn test_privacy_filter_blanks_neighbours() {
    let chunks = vec![
        chunk(&[("Turdus merula", 900_000)]),
        chunk(&[("Human vocal_Human", 100_000), ("Turdus merula", 50_000)]),
        chunk(&[("Cyanistes caeruleus", 800_000)]),
        chunk(&[("Parus major", 700_000)]),
    ];
    let out = filter_humans(&chunks, 0);
    assert_eq!(out.len(), 4);
    // The human chunk and both neighbours emit only the synthetic entry.
    for i in [0usize, 1, 2] {
        assert_eq!(out[i].len(), 1);
        assert_eq!(out[i][0].0, "Human_Human");
        assert_eq!(out[i][0].1, 0);
    }
    // The distant chunk is untouched.
    assert_eq!(out[3].len(), 1);
    assert_eq!(out[3][0].0, "Parus major");
}

#[test]
fn test_privacy_filter_truncates_to_ten() {
    let many: Vec<(String, u32)> = (0..15).map(|i| (format!("Species {i}"), 1000 - i)).collect();
    let out = filter_humans(&vec![many], 0);
    assert_eq!(out[0].len(), 10);
    assert_eq!(out[0][0].0, "Species 0");
    assert_eq!(out[0][9].0, "Species 9");
}

#[test]
fn test_assemble_no_detections_above_threshold() {
    // A segment of noise: nothing passes the confidence floor, so no
    // detections are emitted.
    let file_date = DateTime { year: 2024, month: 6, day: 15, hour: 10, minute: 30, second: 0 };
    let chunks = vec![
        chunk(&[("Turdus merula", 100_000), ("Parus major", 50_000)]),
        chunk(&[("Turdus merula", 200_000)]),
    ];
    let empty: Vec<String> = Vec::new();
    let names = StrMap::new();
    let dets = assemble_detections(
        "birds", &file_date, &chunks, 3000, 0, 700_000, &empty, &empty, &empty, &empty, &names,
    );
    assert_eq!(dets.len(), 0);
}

#[test]
fn test_assemble_single_detection() {
    // One confident prediction at 0.93 with a 0.70 threshold: exactly
    // one detection, rounded to four decimals for storage.
    let file_date = DateTime { year: 2024, month: 6, day: 15, hour: 10, minute: 30, second: 0 };
    let chunks = vec![
        chunk(&[("Turdus merula", 930_000), ("Parus major", 50_000)]),
        chunk(&[("Parus major", 100_000)]),
    ];
    let empty: Vec<String> = Vec::new();
    let mut names = StrMap::new();
    names.insert(
        String::from("Turdus merula"),
        String::from("Eurasian Blackbird"),
    );
    let dets = assemble_detections(
        "birds", &file_date, &chunks, 3000, 0, 700_000, &empty, &empty, &empty, &empty, &names,
    );
    assert_eq!(dets.len(), 1);
    let d = &dets[0];
    assert_eq!(d.scientific_name, "Turdus merula");
    assert_eq!(d.common_name, "Eurasian Blackbird");
    assert_eq!(d.confidence, 930_000);
    assert_eq!(gaia::detection::format_confidence(d.confidence), "0.9300");
    assert_eq!(d.start_ms, 0);
    assert_eq!(d.stop_ms, 3000);
    assert_eq!(d.date, "2024-06-15");
    assert_eq!(d.time, "10:30:00");
}

#[test]
fn test_assemble_list_rules() {
    let file_date = DateTime { year: 2024, month: 6, day: 15, hour: 10, minute: 30, second: 0 };
    let chunks = vec![chunk(&[
        ("Turdus merula", 900_000),
        ("Parus major", 900_000),
        ("Corvus corax", 900_000),
    ])];
    let names = StrMap::new();
    let empty: Vec<String> = Vec::new();

    // Exclude list rejects a label.
    let exclude = vec![String::from("Parus major")];
    let dets = assemble_detections(
        "birds", &file_date, &chunks, 3000, 0, 700_000, &empty, &exclude, &empty, &empty, &names,
    );
    assert_eq!(dets.len(), 2);

    // A non-empty occurrence-gate list rejects labels outside it,
    // unless whitelisted.
    let gate = vec![String::from("Turdus merula")];
    let whitelist = vec![String::from("Corvus corax")];
    let dets = assemble_detections(
        "birds", &file_date, &chunks, 3000, 0, 700_000, &empty, &empty, &gate, &whitelist, &names,
    );
    assert_eq!(dets.len(), 2);
    assert_eq!(dets[0].scientific_name, "Turdus merula");
    assert_eq!(dets[1].scientific_name, "Corvus corax");

    // A non-empty include list keeps only its members.
    let included = vec![String::from("Corvus corax")];
    let dets = assemble_detections(
        "birds", &file_date, &chunks, 3000, 0, 700_000, &included, &empty, &empty, &empty, &names,
    );
    assert_eq!(dets.len(), 1);
    assert_eq!(dets[0].scientific_name, "Corvus corax");
}

#[test]
fn test_assemble_chunk_timing_with_overlap() {
    let file_date = DateTime { year: 2024, month: 6, day: 15, hour: 10, minute: 30, second: 0 };
    let chunks = vec![
        chunk(&[("Turdus merula", 900_000)]),
        chunk(&[("Turdus merula", 900_000)]),
        chunk(&[("Turdus merula", 900_000)]),
    ];
    let names = StrMap::new();
    let empty: Vec<String> = Vec::new();
    let dets = assemble_detections(
        "birds", &file_date, &chunks, 3000, 1000, 700_000, &empty, &empty, &empty, &empty,
        &names,
    );
    assert_eq!(dets.len(), 3);
    assert_eq!((dets[0].start_ms, dets[0].stop_ms), (0, 3000));
    assert_eq!((dets[1].start_ms, dets[1].stop_ms), (2000, 5000));
    assert_eq!((dets[2].start_ms, dets[2].stop_ms), (4000, 7000));
    // The wall-clock datetime advances with the chunk start.
    assert_eq!(dets[2].time, "10:30:04");
}
