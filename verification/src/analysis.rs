//! The detection pipeline: from per-chunk prediction lists to
//! time-anchored detections.
//!
//! Chunks are time-labelled by their index, a privacy filter blanks
//! chunks that ranked a human sound highly (and their neighbours), and
//! the surviving predictions pass a confidence threshold and the
//! included / exclude / occurrence-gate list rules before becoming
//! detections.

use vstd::prelude::*;
use crate::date::DateTime;
use crate::detection::Detection;
use crate::model::Prediction;
use crate::strmap::{StrMap, assoc_get};
use crate::text::{contains_seq, list_contains, str_contains};

verus! {

/// The views of one chunk's predictions.
pub open spec fn preds_view(v: Seq<(String, u32)>) -> Seq<(Seq<char>, u32)> {
    v.map_values(|p: (String, u32)| (p.0@, p.1))
}

/// The views of a whole recording's per-chunk predictions.
pub open spec fn chunks_view(v: Seq<Vec<(String, u32)>>) -> Seq<Seq<(Seq<char>, u32)>> {
    v.map_values(|c: Vec<(String, u32)>| preds_view(c@))
}

// ── privacy filter ───────────────────────────────────────────────────

/// The top-rank cutoff the privacy filter scans: `max(10, round(60·P))`
/// for a privacy threshold of `P` percent, carried in hundredths of a
/// percent. The constant maps a slider percentage to a rank over a
/// fixed label budget.
pub open spec fn human_cutoff_spec(privacy_centi: int) -> int {
    let r = (6 * privacy_centi + 5) / 10;
    if r < 10 {
        10
    } else {
        r
    }
}

pub fn human_cutoff(privacy_centi: u32) -> (r: u64)
    ensures
        r as int == human_cutoff_spec(privacy_centi as int),
        r >= 10,
{
    let v: u64 = (6 * privacy_centi as u64 + 5) / 10;
    if v < 10 {
        10
    } else {
        v
    }
}

/// One of the chunk's top `cutoff` predictions names a human sound.
pub open spec fn is_human_chunk(preds: Seq<(Seq<char>, u32)>, cutoff: int) -> bool {
    exists|j: int|
        0 <= j < preds.len() && j < cutoff && contains_seq(#[trigger] preds[j].0, "Human"@)
}

/// A chunk the privacy filter blanks: itself human-marked, or an
/// immediate neighbour of a human-marked chunk.
pub open spec fn privacy_masked(
    chunks: Seq<Seq<(Seq<char>, u32)>>,
    i: int,
    cutoff: int,
) -> bool {
    ||| is_human_chunk(chunks[i], cutoff)
    ||| (i > 0 && is_human_chunk(chunks[i - 1], cutoff))
    ||| (i + 1 < chunks.len() && is_human_chunk(chunks[i + 1], cutoff))
}

/// Privacy law: a human-marked chunk blanks itself and both immediate
/// neighbours — each of them emits only the synthetic human entry
/// after filtering.
pub proof fn lemma_privacy_dilation(chunks: Seq<Seq<(Seq<char>, u32)>>, i: int, cutoff: int)
    requires
        0 <= i < chunks.len(),
        is_human_chunk(chunks[i], cutoff),
    ensures
        privacy_masked(chunks, i, cutoff),
        i > 0 ==> privacy_masked(chunks, i - 1, cutoff),
        i + 1 < chunks.len() ==> privacy_masked(chunks, i + 1, cutoff),
{
}

/// Number of predictions a non-blanked chunk keeps.
pub open spec fn keep_top() -> int {
    10
}

/// Apply the privacy filter to a recording's chunk predictions.
///
/// Blanked chunks are replaced by the single synthetic entry
/// `("Human_Human", 0)`; the others are truncated to the top ten
/// predictions.
pub fn filter_humans(predictions: &Vec<Vec<Prediction>>, privacy_centi: u32) -> (r: Vec<
    Vec<Prediction>,
>)
    ensures
        r@.len() == predictions@.len(),
        ({
            let cv = chunks_view(predictions@);
            let cutoff = human_cutoff_spec(privacy_centi as int);
            forall|i: int| 0 <= i < r@.len() ==> #[trigger] preds_view(r@[i]@) == (
            if privacy_masked(cv, i, cutoff) {
                seq![("Human_Human"@, 0u32)]
            } else {
                cv[i].take(if cv[i].len() < keep_top() { cv[i].len() as int } else { keep_top() })
            })
        }),
{
    let cutoff = human_cutoff(privacy_centi);
    let n = predictions.len();
    let ghost cv = chunks_view(predictions@);
    let ghost gcut = human_cutoff_spec(privacy_centi as int);

    // First pass: which chunks rank a human sound inside the cutoff.
    let mut human: Vec<bool> = Vec::new();
    let mut i: usize = 0;
    while i < n
        invariant
            0 <= i <= n,
            n == predictions@.len(),
            cv == chunks_view(predictions@),
            gcut == cutoff,
            human@.len() == i,
            forall|k: int| 0 <= k < i
                ==> #[trigger] human@[k] == is_human_chunk(cv[k], gcut),
        decreases n - i,
    {
        let preds = &predictions[i];
        let m = preds.len();
        let mut j: usize = 0;
        let mut found: bool = false;
        proof {
            assert(cv[i as int] == preds_view(preds@));
        }
        while j < m && !found
            invariant
                0 <= j <= m,
                m == preds@.len(),
                cv[i as int] == preds_view(preds@),
                0 <= i < n == predictions@.len(),
                cv == chunks_view(predictions@),
                gcut == cutoff,
                found ==> is_human_chunk(cv[i as int], gcut),
                !found ==> (forall|t: int| 0 <= t < j
                    ==> !(t < gcut && contains_seq(#[trigger] preds_view(preds@)[t].0, "Human"@))),
            decreases m - j,
        {
            if (j as u64) < cutoff {
                if str_contains(preds[j].0.as_str(), "Human") {
                    proof {
                        assert(preds_view(preds@)[j as int].0 == preds@[j as int].0@);
                        assert(is_human_chunk(cv[i as int], gcut)) by {
                            assert(0 <= j < cv[i as int].len() && (j as int) < gcut
                                && contains_seq(cv[i as int][j as int].0, "Human"@));
                        }
                    }
                    found = true;
                }
            } else {
                proof {
                    assert(gcut <= j);
                }
                j = m;
                continue;
            }
            if !found {
                proof {
                    assert(preds_view(preds@)[j as int].0 == preds@[j as int].0@);
                }
                j = j + 1;
            } else {
                j = j + 1;
            }
        }
        proof {
            if !found {
                assert(!is_human_chunk(cv[i as int], gcut)) by {
                    if is_human_chunk(cv[i as int], gcut) {
                        let t = choose|t: int|
                            0 <= t < cv[i as int].len() && t < gcut
                                && contains_seq(#[trigger] cv[i as int][t].0, "Human"@);
                        assert(!(t < gcut && contains_seq(preds_view(preds@)[t].0, "Human"@)));
                    }
                }
            }
        }
        human.push(found);
        i = i + 1;
    }

    // Second pass: blank masked chunks, truncate the rest.
    let mut out: Vec<Vec<Prediction>> = Vec::new();
    let mut i2: usize = 0;
    while i2 < n
        invariant
            0 <= i2 <= n,
            n == predictions@.len(),
            cv == chunks_view(predictions@),
            human@.len() == n,
            forall|k: int| 0 <= k < n
                ==> #[trigger] human@[k] == is_human_chunk(cv[k], gcut),
            out@.len() == i2,
            forall|k: int| 0 <= k < i2 ==> #[trigger] preds_view(out@[k]@) == (
            if privacy_masked(cv, k, gcut) {
                seq![("Human_Human"@, 0u32)]
            } else {
                cv[k].take(if cv[k].len() < keep_top() { cv[k].len() as int } else { keep_top() })
            }),
        decreases n - i2,
    {
        let masked = human[i2] || (i2 > 0 && human[i2 - 1]) || (i2 + 1 < n && human[i2 + 1]);
        proof {
            assert(masked == privacy_masked(cv, i2 as int, gcut));
        }
        if masked {
            let mut blank: Vec<Prediction> = Vec::new();
            blank.push((String::from_str("Human_Human"), 0));
            proof {
                assert(preds_view(blank@) =~= seq![("Human_Human"@, 0u32)]);
            }
            out.push(blank);
        } else {
            let preds = &predictions[i2];
            let m = preds.len();
            let limit: usize = if m < 10 { m } else { 10 };
            let mut kept: Vec<Prediction> = Vec::new();
            let mut j: usize = 0;
            proof {
                assert(cv[i2 as int] == preds_view(preds@));
            }
            while j < limit
                invariant
                    0 <= j <= limit <= m,
                    m == preds@.len(),
                    cv[i2 as int] == preds_view(preds@),
                    kept@.len() == j,
                    forall|t: int| 0 <= t < j
                        ==> #[trigger] preds_view(kept@)[t] == preds_view(preds@)[t],
                decreases limit - j,
            {
                let p = &preds[j];
                let ghost before = kept@;
                kept.push((p.0.clone(), p.1));
                proof {
                    assert(preds_view(kept@) =~= preds_view(before).push(
                        (preds@[j as int].0@, preds@[j as int].1)));
                    assert(forall|t: int| 0 <= t < j
                        ==> preds_view(before)[t] == preds_view(kept@)[t]);
                    assert(preds_view(kept@)[j as int] == preds_view(preds@)[j as int]);
                }
                j = j + 1;
            }
            proof {
                let lim = if cv[i2 as int].len() < keep_top() {
                    cv[i2 as int].len() as int
                } else {
                    keep_top()
                };
                assert(preds_view(kept@) =~= cv[i2 as int].take(lim));
            }
            out.push(kept);
        }
        i2 = i2 + 1;
    }
    out
}

// ── threshold and list rules ─────────────────────────────────────────

/// Whether one prediction survives the confidence threshold and the
/// included / exclude / occurrence-gate rules.
pub open spec fn keeps_pred(
    label: Seq<char>,
    conf: int,
    threshold: int,
    included: Seq<Seq<char>>,
    exclude: Seq<Seq<char>>,
    gate: Seq<Seq<char>>,
    whitelist: Seq<Seq<char>>,
) -> bool {
    &&& conf >= threshold
    &&& (included.len() == 0 || included.contains(label))
    &&& !exclude.contains(label)
    &&& (gate.len() == 0 || gate.contains(label) || whitelist.contains(label))
}

/// The `(chunk index, label, confidence)` entries one chunk
/// contributes, in prediction order.
pub open spec fn chunk_plan(
    preds: Seq<(Seq<char>, u32)>,
    i: int,
    threshold: int,
    included: Seq<Seq<char>>,
    exclude: Seq<Seq<char>>,
    gate: Seq<Seq<char>>,
    whitelist: Seq<Seq<char>>,
) -> Seq<(int, Seq<char>, u32)>
    decreases preds.len(),
{
    if preds.len() == 0 {
        Seq::empty()
    } else {
        let head: Seq<(int, Seq<char>, u32)> = if keeps_pred(
            preds.first().0,
            preds.first().1 as int,
            threshold,
            included,
            exclude,
            gate,
            whitelist,
        ) {
            seq![(i, preds.first().0, preds.first().1)]
        } else {
            Seq::empty()
        };
        head + chunk_plan(preds.drop_first(), i, threshold, included, exclude, gate, whitelist)
    }
}

/// All entries a recording contributes, chunk by chunk from `from`.
pub open spec fn full_plan(
    chunks: Seq<Seq<(Seq<char>, u32)>>,
    from: int,
    threshold: int,
    included: Seq<Seq<char>>,
    exclude: Seq<Seq<char>>,
    gate: Seq<Seq<char>>,
    whitelist: Seq<Seq<char>>,
) -> Seq<(int, Seq<char>, u32)>
    decreases chunks.len() - from,
{
    if from < 0 || from >= chunks.len() {
        Seq::empty()
    } else {
        chunk_plan(chunks[from], from, threshold, included, exclude, gate, whitelist)
            + full_plan(chunks, from + 1, threshold, included, exclude, gate, whitelist)
    }
}

/// The common name for a label: the language map's entry, or the label
/// itself.
pub open spec fn name_or_self(
    pairs: Seq<(Seq<char>, Seq<char>)>,
    label: Seq<char>,
) -> Seq<char> {
    match assoc_get(pairs, label) {
        Some(v) => v,
        None => label,
    }
}

/// Views of a list of strings.
pub open spec fn list_view(v: Seq<String>) -> Seq<Seq<char>> {
    v.map_values(|x: String| x@)
}

/// Assemble detections from filtered chunk predictions.
///
/// Chunk `i` covers `[i·(chunk_ms − overlap_ms), i·(chunk_ms −
/// overlap_ms) + chunk_ms)` relative to the segment start. Each
/// prediction that passes `keeps_pred` becomes one detection, in chunk
/// order then prediction order; its common name comes from the
/// language map when present.
pub fn assemble_detections(
    domain: &str,
    file_date: &DateTime,
    chunks: &Vec<Vec<Prediction>>,
    chunk_ms: u64,
    overlap_ms: u64,
    threshold: u32,
    included: &Vec<String>,
    exclude: &Vec<String>,
    gate: &Vec<String>,
    whitelist: &Vec<String>,
    names: &StrMap,
) -> (r: Vec<Detection>)
    requires
        file_date.valid(),
        file_date.year < 9999,
        overlap_ms < chunk_ms,
        chunks@.len() * (chunk_ms - overlap_ms) + chunk_ms <= 86400000,
        threshold <= 1000000,
        forall|i: int| 0 <= i < chunks@.len() ==> forall|j: int|
            0 <= j < (#[trigger] chunks@[i])@.len()
                ==> (#[trigger] chunks@[i]@[j]).1 <= 1000000,
    ensures
        ({
            let plan = full_plan(
                chunks_view(chunks@),
                0,
                threshold as int,
                list_view(included@),
                list_view(exclude@),
                list_view(gate@),
                list_view(whitelist@),
            );
            let step = chunk_ms - overlap_ms;
            &&& r@.len() == plan.len()
            &&& forall|k: int| 0 <= k < r@.len() ==> (#[trigger] r@[k]).built_from(
                domain@,
                *file_date,
                plan[k].0 * step,
                plan[k].0 * step + chunk_ms,
                plan[k].1,
                name_or_self(names.view_pairs(), plan[k].1),
                plan[k].2 as int,
            )
        }),
{
    let step: u64 = chunk_ms - overlap_ms;
    let n = chunks.len();
    let ghost cv = chunks_view(chunks@);
    let ghost ginc = list_view(included@);
    let ghost gexc = list_view(exclude@);
    let ghost ggate = list_view(gate@);
    let ghost gwl = list_view(whitelist@);
    let ghost plan0 = full_plan(cv, 0, threshold as int, ginc, gexc, ggate, gwl);
    let mut dets: Vec<Detection> = Vec::new();
    let mut i: usize = 0;
    proof {
        assert(plan0.take(0) =~= Seq::<(int, Seq<char>, u32)>::empty());
        assert(plan0.take(0) + full_plan(cv, 0, threshold as int, ginc, gexc, ggate, gwl)
            =~= plan0);
    }
    while i < n
        invariant
            0 <= i <= n,
            n == chunks@.len(),
            cv == chunks_view(chunks@),
            ginc == list_view(included@),
            gexc == list_view(exclude@),
            ggate == list_view(gate@),
            gwl == list_view(whitelist@),
            plan0 == full_plan(cv, 0, threshold as int, ginc, gexc, ggate, gwl),
            step == chunk_ms - overlap_ms,
            file_date.valid(),
            file_date.year < 9999,
            threshold <= 1000000,
            overlap_ms < chunk_ms,
            n * (chunk_ms - overlap_ms) + chunk_ms <= 86400000,
            forall|a: int| 0 <= a < n ==> forall|b: int|
                0 <= b < (#[trigger] chunks@[a])@.len()
                    ==> (#[trigger] chunks@[a]@[b]).1 <= 1000000,
            dets@.len() <= plan0.len(),
            plan0 == plan0.take(dets@.len() as int)
                + full_plan(cv, i as int, threshold as int, ginc, gexc, ggate, gwl),
            forall|k: int| 0 <= k < dets@.len() ==> (#[trigger] dets@[k]).built_from(
                domain@,
                *file_date,
                plan0[k].0 * (chunk_ms - overlap_ms),
                plan0[k].0 * (chunk_ms - overlap_ms) + chunk_ms,
                plan0[k].1,
                name_or_self(names.view_pairs(), plan0[k].1),
                plan0[k].2 as int,
            ),
        decreases n - i,
    {
        let preds = &chunks[i];
        let m = preds.len();
        let mut j: usize = 0;
        proof {
            assert(cv[i as int] == preds_view(preds@));
            assert(full_plan(cv, i as int, threshold as int, ginc, gexc, ggate, gwl)
                == chunk_plan(cv[i as int], i as int, threshold as int, ginc, gexc, ggate, gwl)
                    + full_plan(cv, i + 1, threshold as int, ginc, gexc, ggate, gwl));
            assert(cv[i as int].skip(0) =~= cv[i as int]);
        }
        while j < m
            invariant
                0 <= j <= m,
                m == preds@.len(),
                0 <= i < n,
                n == chunks@.len(),
                cv == chunks_view(chunks@),
                ginc == list_view(included@),
                gexc == list_view(exclude@),
                ggate == list_view(gate@),
                gwl == list_view(whitelist@),
                plan0 == full_plan(cv, 0, threshold as int, ginc, gexc, ggate, gwl),
                step == chunk_ms - overlap_ms,
                file_date.valid(),
                file_date.year < 9999,
                threshold <= 1000000,
                overlap_ms < chunk_ms,
                n * (chunk_ms - overlap_ms) + chunk_ms <= 86400000,
                cv[i as int] == preds_view(preds@),
                forall|b: int| 0 <= b < preds@.len()
                    ==> (#[trigger] preds@[b]).1 <= 1000000,
                dets@.len() <= plan0.len(),
                plan0 == plan0.take(dets@.len() as int)
                    + chunk_plan(
                    cv[i as int].skip(j as int),
                    i as int,
                    threshold as int,
                    ginc,
                    gexc,
                    ggate,
                    gwl,
                ) + full_plan(cv, i + 1, threshold as int, ginc, gexc, ggate, gwl),
                forall|k: int| 0 <= k < dets@.len() ==> (#[trigger] dets@[k]).built_from(
                    domain@,
                    *file_date,
                    plan0[k].0 * (chunk_ms - overlap_ms),
                    plan0[k].0 * (chunk_ms - overlap_ms) + chunk_ms,
                    plan0[k].1,
                    name_or_self(names.view_pairs(), plan0[k].1),
                    plan0[k].2 as int,
                ),
            decreases m - j,
        {
            let p = &preds[j];
            let label = p.0.as_str();
            let conf = p.1;
            proof {
                assert(preds_view(preds@)[j as int] == (preds@[j as int].0@, preds@[j as int].1));
                assert(cv[i as int].skip(j as int).first() == cv[i as int][j as int]);
                assert(cv[i as int].skip(j as int).drop_first() =~= cv[i as int].skip(j + 1));
            }
            let keep = conf >= threshold
                && (included.len() == 0 || list_contains(included, label))
                && !list_contains(exclude, label)
                && (gate.len() == 0 || list_contains(gate, label)
                    || list_contains(whitelist, label));
            proof {
                assert(keep == keeps_pred(
                    cv[i as int][j as int].0,
                    cv[i as int][j as int].1 as int,
                    threshold as int,
                    ginc,
                    gexc,
                    ggate,
                    gwl,
                ));
            }
            if keep {
                proof {
                    vstd::arithmetic::mul::lemma_mul_inequality(
                        i as int, n as int, step as int);
                }
                let start_ms: u64 = (i as u64) * step;
                let common = match names.get(label) {
                    Some(v) => v.clone(),
                    None => String::from_str(label),
                };
                let d = Detection::new(
                    domain,
                    file_date,
                    start_ms,
                    start_ms + chunk_ms,
                    label,
                    common.as_str(),
                    conf,
                );
                let ghost lnum = dets@.len() as int;
                dets.push(d);
                proof {
                    let e = (i as int, cv[i as int][j as int].0, cv[i as int][j as int].1);
                    assert(chunk_plan(
                        cv[i as int].skip(j as int), i as int, threshold as int,
                        ginc, gexc, ggate, gwl)
                        == seq![e] + chunk_plan(
                            cv[i as int].skip(j + 1), i as int, threshold as int,
                            ginc, gexc, ggate, gwl));
                    assert(plan0[lnum] == e);
                    assert(plan0.take(lnum + 1) =~= plan0.take(lnum).push(e));
                    assert(plan0.take(lnum + 1) + chunk_plan(
                        cv[i as int].skip(j + 1), i as int, threshold as int,
                        ginc, gexc, ggate, gwl)
                        + full_plan(cv, i + 1, threshold as int, ginc, gexc, ggate, gwl)
                        =~= plan0.take(lnum) + (seq![e] + chunk_plan(
                            cv[i as int].skip(j + 1), i as int, threshold as int,
                            ginc, gexc, ggate, gwl))
                        + full_plan(cv, i + 1, threshold as int, ginc, gexc, ggate, gwl));
                    assert(dets@[lnum].built_from(
                        domain@,
                        *file_date,
                        plan0[lnum].0 * (chunk_ms - overlap_ms),
                        plan0[lnum].0 * (chunk_ms - overlap_ms) + chunk_ms,
                        plan0[lnum].1,
                        name_or_self(names.view_pairs(), plan0[lnum].1),
                        plan0[lnum].2 as int,
                    ));
                }
            } else {
                proof {
                    assert(chunk_plan(
                        cv[i as int].skip(j as int), i as int, threshold as int,
                        ginc, gexc, ggate, gwl)
                        =~= chunk_plan(
                            cv[i as int].skip(j + 1), i as int, threshold as int,
                            ginc, gexc, ggate, gwl));
                }
            }
            j = j + 1;
        }
        proof {
            assert(cv[i as int].skip(m as int)
                =~= Seq::<(Seq<char>, u32)>::empty());
            assert(chunk_plan(
                Seq::<(Seq<char>, u32)>::empty(), i as int, threshold as int,
                ginc, gexc, ggate, gwl) == Seq::<(int, Seq<char>, u32)>::empty());
            assert(plan0.take(dets@.len() as int)
                + Seq::<(int, Seq<char>, u32)>::empty()
                + full_plan(cv, i + 1, threshold as int, ginc, gexc, ggate, gwl)
                =~= plan0.take(dets@.len() as int)
                    + full_plan(cv, i + 1, threshold as int, ginc, gexc, ggate, gwl));
        }
        i = i + 1;
    }
    proof {
        assert(full_plan(cv, n as int, threshold as int, ginc, gexc, ggate, gwl)
            == Seq::<(int, Seq<char>, u32)>::empty());
        assert(plan0.take(dets@.len() as int) + Seq::<(int, Seq<char>, u32)>::empty()
            =~= plan0.take(dets@.len() as int));
        assert(plan0 == plan0.take(dets@.len() as int));
        assert(dets@.len() == plan0.len()) by {
            if dets@.len() < plan0.len() {
                assert(plan0.take(dets@.len() as int).len() < plan0.len());
            }
        }
        assert(plan0.take(dets@.len() as int) =~= plan0);
    }
    dets
}

} // verus!
