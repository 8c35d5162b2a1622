use gaia::audio::{chunk_spans, clip_sample_range};

#[test]
fn test_split_signal() {
    // 48 kHz, 3-second chunks, 0 overlap, 7 seconds of audio.
    let spans = chunk_spans(48000 * 7, 48000, 3000, 0, 1500);
    assert_eq!(spans.len(), 2);
    assert_eq!(spans[0].start, 0);
    assert_eq!(spans[0].take, 48000 * 3);
    assert_eq!(spans[1].start, 48000 * 3);
    assert_eq!(spans[1].take, 48000 * 3);
}

#[test]
fn test_split_with_overlap() {
    // 6 seconds with 1 s overlap: chunks at 0 s, 2 s, 4 s; the last is
    // 2 s of data, kept and padded.
    let spans = chunk_spans(48000 * 6, 48000, 3000, 1000, 1500);
    assert_eq!(spans.len(), 3);
    assert_eq!(spans[2].start, 48000 * 4);
    assert_eq!(spans[2].take, 48000 * 2);
}

#[test]
fn test_split_discards_short_tail() {
    // 3.5 seconds: the tail after the first chunk is 0.5 s, below the
    // 1.5 s floor, so only one chunk survives.
    let spans = chunk_spans(48000 * 7 / 2, 48000, 3000, 0, 1500);
    assert_eq!(spans.len(), 1);
    // A buffer shorter than the floor yields nothing.
    let spans = chunk_spans(48000 / 2, 48000, 3000, 0, 1500);
    assert_eq!(spans.len(), 0);
}

#[test]
fn test_chunk_count_formula() {
    // count == (total - min_samples) / step + 1 whenever one chunk
    // passes the floor.
    let total: usize = 48000 * 15;
    let spans = chunk_spans(total, 48000, 3000, 0, 1500);
    let step: usize = 3 * 48000;
    let mins: usize = 48000 * 3 / 2;
    assert_eq!(spans.len(), (total - mins) / step + 1);
}

#[test]
fn test_clip_sample_range_clamps() {
    let (a, b) = clip_sample_range(1000, 4000, 48000, 2, 1_000_000);
    assert_eq!(a, 96_000);
    assert_eq!(b, 384_000);
    let (a, b) = clip_sample_range(1000, 4000, 48000, 2, 100_000);
    assert_eq!(a, 96_000);
    assert_eq!(b, 100_000);
}
