//! Persisting detections: clip extraction windows, output naming, and
//! the log-line format.
//!
//! The database, the WAV writer and the renderer live outside the
//! library; what they are told to write — which sample window, under
//! which path, with which row values — is computed here.

use vstd::prelude::*;
use crate::detection::Detection;
use crate::text::{dec_str, digit_char, digit_string, u32_dec, u64_dec};
use crate::config::trail_run;

verus! {

/// Six-character zero-padded decimal rendering.
pub open spec fn dec6_str(n: nat) -> Seq<char> {
    seq![
        digit_char((n / 100000) as int),
        digit_char(((n / 10000) % 10) as int),
        digit_char(((n / 1000) % 10) as int),
        digit_char(((n / 100) % 10) as int),
        digit_char(((n / 10) % 10) as int),
        digit_char((n % 10) as int),
    ]
}

/// Decimal text of a micro-scaled value: the whole part, then the
/// fraction with trailing zeros dropped, omitted entirely when zero.
pub open spec fn micro_chars(v: int) -> Seq<char> {
    let sign: Seq<char> = if v < 0 {
        seq!['-']
    } else {
        Seq::empty()
    };
    let m = if v < 0 {
        -v
    } else {
        v
    };
    let whole = dec_str((m / 1000000) as nat);
    let frac = (m % 1000000) as nat;
    if frac == 0 {
        sign + whole
    } else {
        let fd = dec6_str(frac);
        sign + whole + seq!['.'] + fd.take(6 - trail_run(fd, '0'))
    }
}

/// Render a micro-scaled value as decimal text.
pub fn format_micro(v: i64) -> (r: String)
    requires
        v > i64::MIN,
    ensures
        r@ == micro_chars(v as int),
{
    let neg = v < 0;
    let m: u64 = if neg {
        (-v) as u64
    } else {
        v as u64
    };
    let mut out = if neg {
        String::from_str("-")
    } else {
        String::new()
    };
    proof {
        reveal_strlit("-");
        assert(out@ =~= (if v < 0 { seq!['-'] } else { Seq::<char>::empty() }));
    }
    let whole = u64_dec(m / 1000000);
    out.append(whole.as_str());
    let frac: u64 = m % 1000000;
    if frac == 0 {
        proof {
            assert(out@ =~= micro_chars(v as int));
        }
        return out;
    }
    let mut fd = String::from_str(digit_string((frac / 100000) as u32));
    fd.append(digit_string(((frac / 10000) % 10) as u32));
    fd.append(digit_string(((frac / 1000) % 10) as u32));
    fd.append(digit_string(((frac / 100) % 10) as u32));
    fd.append(digit_string(((frac / 10) % 10) as u32));
    fd.append(digit_string((frac % 10) as u32));
    proof {
        assert(fd@ =~= dec6_str(frac as nat));
    }
    // Count trailing zeros of the fixed six-digit fraction.
    let mut keep: usize = 6;
    let mut stopped: bool = false;
    while !stopped && keep > 0
        invariant
            0 <= keep <= 6,
            fd@ == dec6_str(frac as nat),
            fd@.len() == 6,
            forall|j: int| keep <= j < 6 ==> fd@[j] == '0',
            stopped ==> keep > 0 && fd@[keep - 1] != '0',
        decreases (if stopped { 0int } else { 1int }), keep,
    {
        if fd.as_str().get_char(keep - 1) != '0' {
            stopped = true;
        } else {
            keep = keep - 1;
        }
    }
    proof {
        lemma_trail_props(fd@, keep as int, stopped);
    }
    out.append(".");
    let trimmed = fd.as_str().substring_char(0, keep);
    out.append(trimmed);
    proof {
        reveal_strlit(".");
        assert(trimmed@ =~= dec6_str(frac as nat).take(
            6 - trail_run(dec6_str(frac as nat), '0')));
        assert(out@ =~= micro_chars(v as int));
    }
    out
}

/// The scanned boundary equals the trailing-zero run.
proof fn lemma_trail_props(fd: Seq<char>, keep: int, stopped: bool)
    requires
        fd.len() == 6,
        0 <= keep <= 6,
        forall|j: int| keep <= j < 6 ==> fd[j] == '0',
        stopped ==> keep > 0 && fd[keep - 1] != '0',
        !stopped ==> keep == 0,
    ensures
        trail_run(fd, '0') == 6 - keep,
{
    lemma_trail_run_char_props(fd, '0');
    let tr = trail_run(fd, '0');
    if tr < 6 - keep {
        assert(fd[fd.len() - tr - 1] == '0');
        assert(fd[fd.len() - tr - 1] != '0');
    } else if tr > 6 - keep {
        assert(stopped || keep == 0);
        assert(fd[keep - 1] == '0');
    }
}

proof fn lemma_trail_run_char_props(s: Seq<char>, c: char)
    ensures
        0 <= trail_run(s, c) <= s.len(),
        forall|j: int| s.len() - trail_run(s, c) <= j < s.len() ==> s[j] == c,
        trail_run(s, c) < s.len() ==> s[s.len() - trail_run(s, c) - 1] != c,
    decreases s.len(),
{
    if s.len() > 0 && s.last() == c {
        lemma_trail_run_char_props(s.drop_last(), c);
        assert(forall|j: int| 0 <= j < s.len() - 1 ==> s.drop_last()[j] == s[j]);
    }
}

// ── clip extraction ──────────────────────────────────────────────────

/// The extraction window around one detection, in milliseconds: the
/// chunk's span expanded symmetrically so its total length approaches
/// the configured extraction length, clamped to the recording. When
/// the recording ends before the window starts, the window collapses
/// to an empty one at its start rather than inverting.
pub fn extraction_window(
    start_ms: u64,
    stop_ms: u64,
    extraction_length_s: u32,
    recording_length_s: u32,
) -> (r: (u64, u64))
    requires
        stop_ms <= 86400000,
    ensures
        ({
            let spacer = if extraction_length_s * 1000 >= 3000 {
                (extraction_length_s * 1000 - 3000) / 2
            } else {
                0int
            };
            let lo = if start_ms >= spacer {
                start_ms - spacer
            } else {
                0int
            };
            let hi = if stop_ms + spacer <= recording_length_s * 1000 {
                stop_ms + spacer
            } else {
                recording_length_s * 1000
            };
            &&& r.0 as int == lo
            &&& r.1 as int == (if hi >= lo {
                hi
            } else {
                lo
            })
            &&& r.0 <= r.1
        }),
{
    let ext_ms: u64 = extraction_length_s as u64 * 1000;
    let spacer: u64 = if ext_ms >= 3000 {
        (ext_ms - 3000) / 2
    } else {
        0
    };
    let safe_start: u64 = if start_ms >= spacer {
        start_ms - spacer
    } else {
        0
    };
    let rec_ms: u64 = recording_length_s as u64 * 1000;
    let clamped: u64 = if stop_ms + spacer <= rec_ms {
        stop_ms + spacer
    } else {
        rec_ms
    };
    let safe_stop: u64 = if clamped >= safe_start {
        clamped
    } else {
        safe_start
    };
    (safe_start, safe_stop)
}

/// The extracted clip's filename:
/// `<domain>-<safe-name>-<confidence%>-<date>-birdnet-<tag><time>.wav`.
pub fn extracted_file_name(d: &Detection, rtsp_id: &str) -> (r: String)
    requires
        d.confidence <= 1000000,
    ensures
        r@ == d.domain@ + "-"@ + d.common_name_safe@ + "-"@
            + dec_str(crate::detection::pct_of(d.confidence as int) as nat) + "-"@ + d.date@
            + "-birdnet-"@ + rtsp_id@ + d.time@ + ".wav"@,
{
    let mut out = d.domain.clone();
    out.append("-");
    out.append(d.common_name_safe.as_str());
    out.append("-");
    let pct = u32_dec(d.confidence_pct());
    out.append(pct.as_str());
    out.append("-");
    out.append(d.date.as_str());
    out.append("-birdnet-");
    out.append(rtsp_id);
    out.append(d.time.as_str());
    out.append(".wav");
    out
}

/// The extracted clip's directory below the extraction root:
/// `By_Date/<date>/<safe-name>`.
pub fn extracted_rel_dir(d: &Detection) -> (r: String)
    ensures
        r@ == "By_Date/"@ + d.date@ + "/"@ + d.common_name_safe@,
{
    let mut out = String::from_str("By_Date/");
    out.append(d.date.as_str());
    out.append("/");
    out.append(d.common_name_safe.as_str());
    out
}

/// The semicolon-separated log line for one detection:
/// `domain;date;time;sci;common;confidence;lat;lon;cutoff;week;sens;overlap`.
pub fn format_summary(
    d: &Detection,
    lat_micro: i64,
    lon_micro: i64,
    cutoff_micro: i64,
    sens_micro: i64,
    overlap_micro: i64,
) -> (r: String)
    requires
        d.confidence <= 1000000,
        lat_micro > i64::MIN,
        lon_micro > i64::MIN,
        cutoff_micro > i64::MIN,
        sens_micro > i64::MIN,
        overlap_micro > i64::MIN,
    ensures
        r@ == d.domain@ + ";"@ + d.date@ + ";"@ + d.time@ + ";"@ + d.scientific_name@ + ";"@
            + d.common_name@ + ";"@ + micro_chars(d.confidence as int) + ";"@
            + micro_chars(lat_micro as int) + ";"@ + micro_chars(lon_micro as int) + ";"@
            + micro_chars(cutoff_micro as int) + ";"@ + dec_str(d.week as nat) + ";"@
            + micro_chars(sens_micro as int) + ";"@ + micro_chars(overlap_micro as int),
{
    let mut out = d.domain.clone();
    out.append(";");
    out.append(d.date.as_str());
    out.append(";");
    out.append(d.time.as_str());
    out.append(";");
    out.append(d.scientific_name.as_str());
    out.append(";");
    out.append(d.common_name.as_str());
    out.append(";");
    let conf = format_micro(d.confidence as i64);
    out.append(conf.as_str());
    out.append(";");
    let lat = format_micro(lat_micro);
    out.append(lat.as_str());
    out.append(";");
    let lon = format_micro(lon_micro);
    out.append(lon.as_str());
    out.append(";");
    let cut = format_micro(cutoff_micro);
    out.append(cut.as_str());
    out.append(";");
    let wk = u32_dec(d.week);
    out.append(wk.as_str());
    out.append(";");
    let sens = format_micro(sens_micro);
    out.append(sens.as_str());
    out.append(";");
    let ov = format_micro(overlap_micro);
    out.append(ov.as_str());
    out
}

} // verus!
