//! Audio chunk planning.
//!
//! Decoding, down-mixing and resampling produce a mono sample buffer;
//! what the classifier then needs is the exact slicing of that buffer
//! into fixed-length overlapping chunks. The slicing plan is computed
//! here over sample counts; the caller copies samples by it and pads
//! the final short chunk with zeros.

use vstd::prelude::*;

verus! {

/// One planned chunk: `take` samples starting at `start`, padded with
/// zeros up to the full chunk length when `take` falls short.
#[derive(Clone, Copy, PartialEq, Eq, Structural, Debug)]
pub struct ChunkSpan {
    pub start: usize,
    pub take: usize,
}

/// Samples in a duration at a rate, truncating: `ms * rate / 1000`.
pub open spec fn samples_of_ms(ms: int, rate: int) -> int {
    ms * rate / 1000
}

/// Samples in a duration at a rate, rounding up — the full chunk
/// length, so a fractional chunk duration never loses its last sample.
pub open spec fn ceil_samples_of_ms(ms: int, rate: int) -> int {
    (ms * rate + 999) / 1000
}

/// Smaller of two lengths.
pub open spec fn min_int(a: int, b: int) -> int {
    if a < b { a } else { b }
}

/// Split a buffer of `total` samples into overlapping chunks.
///
/// Chunks hold the ceiling of `chunk_ms` of audio and step by
/// `chunk_ms - overlap_ms`; a final chunk shorter than `min_ms` is
/// discarded, a longer one is kept and padded. The chunk count follows
/// the closed formula `(total - min_samples) / step + 1` whenever one
/// chunk survives the length floor, and is zero otherwise.
pub fn chunk_spans(
    total: usize,
    rate: usize,
    chunk_ms: usize,
    overlap_ms: usize,
    min_ms: usize,
) -> (r: Vec<ChunkSpan>)
    requires
        1 <= rate,
        overlap_ms < chunk_ms,
        chunk_ms * rate <= usize::MAX - 999,
        min_ms * rate <= usize::MAX,
        (chunk_ms - overlap_ms) * rate >= 1000,
        min_ms * rate >= 1000,
        total <= usize::MAX - chunk_ms * rate,
    ensures
        ({
            let chunk = ceil_samples_of_ms(chunk_ms as int, rate as int);
            let step = samples_of_ms(chunk_ms as int - overlap_ms as int, rate as int);
            let mins = samples_of_ms(min_ms as int, rate as int);
            &&& (total < mins || chunk < mins) ==> r@.len() == 0
            &&& (total >= mins && chunk >= mins)
                ==> r@.len() == (total - mins) / step + 1
            &&& forall|k: int| 0 <= k < r@.len()
                ==> (#[trigger] r@[k]).start == k * step
            &&& forall|k: int| 0 <= k < r@.len()
                ==> (#[trigger] r@[k]).take == min_int(chunk, total - k * step)
            &&& forall|k: int| 0 <= k < r@.len()
                ==> mins <= (#[trigger] r@[k]).take <= chunk
        }),
{
    proof {
        assert((chunk_ms - overlap_ms) * rate <= chunk_ms * rate) by (nonlinear_arith)
            requires rate >= 1, overlap_ms < chunk_ms;
        assert(chunk_ms * rate >= 1000);
        assert((chunk_ms * rate + 999) / 1000 <= chunk_ms * rate) by (nonlinear_arith)
            requires chunk_ms * rate >= 1000;
        assert((chunk_ms - overlap_ms) * rate / 1000 <= (chunk_ms * rate + 999) / 1000) by {
            vstd::arithmetic::div_mod::lemma_div_is_ordered(
                (chunk_ms - overlap_ms) as int * rate as int,
                chunk_ms as int * rate as int + 999,
                1000,
            );
        }
    }
    let chunk: usize = (chunk_ms * rate + 999) / 1000;
    let step: usize = (chunk_ms - overlap_ms) * rate / 1000;
    let mins: usize = min_ms * rate / 1000;
    proof {
        assert(step >= 1) by {
            assert((chunk_ms - overlap_ms) * rate >= 1000);
        }
        assert(mins >= 1) by {
            assert(min_ms * rate >= 1000);
        }
    }
    let mut spans: Vec<ChunkSpan> = Vec::new();
    let ghost gchunk = chunk as int;
    let ghost gstep = step as int;
    let ghost gmins = mins as int;
    let mut i: usize = 0;
    let mut done: bool = false;
    while !done && i < total
        invariant
            1 <= step,
            1 <= mins,
            gchunk == chunk,
            gstep == step,
            gmins == mins,
            step <= chunk,
            chunk <= usize::MAX - total,
            spans@.len() * step == i,
            forall|k: int| 0 <= k < spans@.len()
                ==> (#[trigger] spans@[k]).start == k * gstep,
            forall|k: int| 0 <= k < spans@.len()
                ==> (#[trigger] spans@[k]).take == min_int(gchunk, total - k * gstep),
            forall|k: int| 0 <= k < spans@.len()
                ==> gmins <= (#[trigger] spans@[k]).take <= gchunk,
            forall|k: int| 0 <= k < spans@.len() ==> total - #[trigger] (k * gstep) >= gmins,
            done ==> i < total && min_int(gchunk, total - spans@.len() * gstep) < gmins,
        decreases (if done { 0int } else if i > total { 0int } else { total - i + 1 }),
    {
        let avail: usize = if total - i < chunk { total - i } else { chunk };
        if avail < mins {
            done = true;
        } else {
            proof {
                assert((spans@.len() + 1) * gstep == spans@.len() * gstep + gstep)
                    by (nonlinear_arith);
            }
            spans.push(ChunkSpan { start: i, take: avail });
            i = i + step;
        }
    }
    proof {
        let n = spans@.len() as int;
        let gtotal = total as int;
        // At exit either the floor cut the next chunk off, or the next
        // start is past the end of the buffer.
        assert(min_int(gchunk, gtotal - n * gstep) < gmins || n * gstep >= gtotal);
        if gtotal >= gmins && gchunk >= gmins {
            assert(n >= 1) by {
                if n == 0 {
                    assert(min_int(gchunk, gtotal) < gmins || gtotal <= 0);
                }
            }
            assert(gtotal - (n - 1) * gstep >= gmins);
            assert(gtotal - n * gstep < gmins) by {
                if n * gstep < gtotal {
                    assert(min_int(gchunk, gtotal - n * gstep) < gmins);
                }
            }
            let x = gtotal - gmins;
            let rem = x - (n - 1) * gstep;
            assert(n * gstep == (n - 1) * gstep + gstep) by (nonlinear_arith);
            assert(0 <= rem < gstep);
            vstd::arithmetic::div_mod::lemma_fundamental_div_mod_converse(
                x, gstep, n - 1, rem);
        } else {
            assert(n == 0) by {
                if n >= 1 {
                    assert(gtotal - 0 * gstep >= gmins);
                    assert(gmins <= spans@[0].take <= gchunk);
                }
            }
        }
    }
    spans
}

/// Sample range of an extracted clip inside the source recording:
/// second bounds scaled by the native rate and channel count, clamped
/// to the recording's length.
pub fn clip_sample_range(
    start_ms: u64,
    stop_ms: u64,
    sample_rate: u32,
    channels: u32,
    total_samples: usize,
) -> (r: (usize, usize))
    requires
        channels >= 1,
        start_ms <= stop_ms,
    ensures
        r.0 as int == min_int(
            start_ms as int * sample_rate as int / 1000 * channels as int,
            total_samples as int,
        ),
        r.1 as int == min_int(
            stop_ms as int * sample_rate as int / 1000 * channels as int,
            total_samples as int,
        ),
        r.0 <= r.1 <= total_samples,
{
    proof {
        vstd::arithmetic::mul::lemma_mul_inequality(
            start_ms as int, stop_ms as int, sample_rate as int);
        vstd::arithmetic::div_mod::lemma_div_is_ordered(
            start_ms as int * sample_rate as int,
            stop_ms as int * sample_rate as int,
            1000,
        );
        vstd::arithmetic::mul::lemma_mul_inequality(
            start_ms as int * sample_rate as int / 1000,
            stop_ms as int * sample_rate as int / 1000,
            channels as int,
        );
        assert(start_ms as int * sample_rate as int
            <= u64::MAX as int * u32::MAX as int) by (nonlinear_arith)
            requires
                0 <= start_ms as int <= u64::MAX as int,
                0 <= sample_rate as int <= u32::MAX as int;
        assert(stop_ms as int * sample_rate as int
            <= u64::MAX as int * u32::MAX as int) by (nonlinear_arith)
            requires
                0 <= stop_ms as int <= u64::MAX as int,
                0 <= sample_rate as int <= u32::MAX as int;
    }
    let sa: u128 = start_ms as u128 * sample_rate as u128 / 1000;
    let sb: u128 = stop_ms as u128 * sample_rate as u128 / 1000;
    proof {
        assert(sa as int * channels as int
            <= u64::MAX as int * u32::MAX as int * u32::MAX as int) by (nonlinear_arith)
            requires
                0 <= sa as int <= u64::MAX as int * u32::MAX as int,
                0 <= channels as int <= u32::MAX as int;
        assert(sb as int * channels as int
            <= u64::MAX as int * u32::MAX as int * u32::MAX as int) by (nonlinear_arith)
            requires
                0 <= sb as int <= u64::MAX as int * u32::MAX as int,
                0 <= channels as int <= u32::MAX as int;
    }
    let a: u128 = sa * channels as u128;
    let b: u128 = sb * channels as u128;
    let lo: usize = if a >= total_samples as u128 { total_samples } else { a as usize };
    let hi: usize = if b >= total_samples as u128 { total_samples } else { b as usize };
    (lo, hi)
}

} // verus!
