//! Detections: a confident prediction anchored in wall-clock time.
//!
//! Confidences are carried in millionths of a unit; storage rounds
//! them to four decimal places, and thresholds compare against the raw
//! value before rounding.

use vstd::prelude::*;
use crate::date::{DateTime, date_chars, dec4_str, dt_plus_seconds, iso_week_of, time_chars};
use crate::text::{dec_str, join_replacing, replace_sep, u64_dec};

verus! {

/// Confidence rounded to four decimal places, still in millionths:
/// the nearest multiple of 100, halves away from zero.
pub open spec fn round4(c: int) -> int {
    (c + 50) / 100 * 100
}

/// Round a confidence for storage.
pub fn round_confidence(c: u32) -> (r: u32)
    requires
        c <= 1000000,
    ensures
        r as int == round4(c as int),
        r <= 1000000,
{
    (c + 50) / 100 * 100
}

/// Integer percentage of a confidence in millionths, rounding half up.
pub open spec fn pct_of(c: int) -> int {
    (c + 5000) / 10000
}

/// A common name made file-system safe: apostrophes removed, spaces
/// replaced by underscores.
pub open spec fn sanitized(s: Seq<char>) -> Seq<char> {
    replace_sep(replace_sep(s, '\'', Seq::empty()), ' ', seq!['_'])
}

/// Make a common name safe for use in paths.
pub fn sanitize_name(s: &str) -> (r: String)
    ensures
        r@ == sanitized(s@),
{
    let removed = join_replacing(s, '\'', "");
    proof {
        reveal_strlit("");
        reveal_strlit("_");
        assert(""@ =~= Seq::<char>::empty());
        assert("_"@ =~= seq!['_']);
    }
    join_replacing(removed.as_str(), ' ', "_")
}

/// The text `D.DDDD` of a confidence in millionths.
pub open spec fn confidence_chars(c: int) -> Seq<char> {
    dec_str((c / 1000000) as nat) + seq!['.'] + dec4_str(((c % 1000000) / 100) as nat)
}

/// Render a confidence with four decimal places.
pub fn format_confidence(c: u32) -> (r: String)
    requires
        c <= 1000000,
    ensures
        r@ == confidence_chars(c as int),
{
    let mut out = u64_dec((c / 1000000) as u64);
    out.append(".");
    let frac = crate::date::u32_dec4(c % 1000000 / 100);
    out.append(frac.as_str());
    proof {
        reveal_strlit(".");
        assert(out@ =~= confidence_chars(c as int));
    }
    out
}

/// A single species detection within a recording.
pub struct Detection {
    /// Taxonomic family of the model that produced it (e.g. `birds`).
    pub domain: String,
    /// Offset of the chunk's start from the segment's start.
    pub start_ms: u64,
    /// Offset of the chunk's end.
    pub stop_ms: u64,
    /// Absolute wall-clock datetime of the chunk's start.
    pub datetime: DateTime,
    /// `YYYY-MM-DD` of `datetime`.
    pub date: String,
    /// `HH:MM:SS` of `datetime`.
    pub time: String,
    /// Naive ISO-8601 of `datetime`.
    pub iso8601: String,
    /// ISO week of `datetime`.
    pub week: u32,
    /// Confidence in millionths, rounded to four decimal places.
    pub confidence: u32,
    pub scientific_name: String,
    pub common_name: String,
    pub common_name_safe: String,
    /// Path of the extracted clip, once one exists.
    pub file_name_extr: Option<String>,
}

impl Detection {
    /// Everything `new` promises about the detection it builds.
    pub open spec fn built_from(
        self,
        domain: Seq<char>,
        file_date: DateTime,
        start_ms: int,
        stop_ms: int,
        sci: Seq<char>,
        common: Seq<char>,
        confidence: int,
    ) -> bool {
        let dt = dt_plus_seconds(file_date, start_ms / 1000);
        &&& self.domain@ == domain
        &&& self.start_ms == start_ms
        &&& self.stop_ms == stop_ms
        &&& self.datetime == dt
        &&& self.datetime.valid()
        &&& self.date@ == date_chars(dt.year as nat, dt.month as nat, dt.day as nat)
        &&& self.time@ == time_chars(dt.hour as nat, dt.minute as nat, dt.second as nat)
        &&& self.iso8601@ == date_chars(dt.year as nat, dt.month as nat, dt.day as nat)
            + seq!['T'] + time_chars(dt.hour as nat, dt.minute as nat, dt.second as nat)
        &&& self.week as int == iso_week_of(dt.year as int, dt.month as int, dt.day as int)
        &&& self.confidence as int == round4(confidence)
        &&& self.scientific_name@ == sci
        &&& self.common_name@ == common
        &&& self.common_name_safe@ == sanitized(common)
        &&& self.file_name_extr is None
    }

    /// Build a detection for one chunk of a parsed segment.
    ///
    /// The wall-clock datetime is the segment's filename datetime plus
    /// the chunk's start offset; the stored confidence is the raw one
    /// rounded to four decimal places.
    pub fn new(
        domain: &str,
        file_date: &DateTime,
        start_ms: u64,
        stop_ms: u64,
        scientific_name: &str,
        common_name: &str,
        confidence: u32,
    ) -> (r: Detection)
        requires
            file_date.valid(),
            file_date.year < 9999,
            start_ms < stop_ms,
            start_ms <= 86400000,
            confidence <= 1000000,
        ensures
            r.built_from(
                domain@,
                *file_date,
                start_ms as int,
                stop_ms as int,
                scientific_name@,
                common_name@,
                confidence as int,
            ),
            r.start_ms < r.stop_ms,
    {
        let dt = crate::date::add_seconds(file_date, (start_ms / 1000) as u32);
        let date = dt.date_string();
        let time = dt.time_string();
        let iso = dt.iso8601();
        let week = dt.week();
        Detection {
            domain: String::from_str(domain),
            start_ms,
            stop_ms,
            datetime: dt,
            date,
            time,
            iso8601: iso,
            week,
            confidence: round_confidence(confidence),
            scientific_name: String::from_str(scientific_name),
            common_name: String::from_str(common_name),
            common_name_safe: sanitize_name(common_name),
            file_name_extr: None,
        }
    }

    /// Confidence as an integer percentage.
    pub fn confidence_pct(&self) -> (r: u32)
        requires
            self.confidence <= 1000000,
        ensures
            r as int == pct_of(self.confidence as int),
            r <= 100,
    {
        (self.confidence + 5000) / 10000
    }

    /// One-line human-readable rendering:
    /// `Detection(<domain>/<sci>, <common>, <confidence>, <iso8601>)`.
    pub fn describe(&self) -> (r: String)
        requires
            self.confidence <= 1000000,
        ensures
            r@ == "Detection("@ + self.domain@ + "/"@ + self.scientific_name@ + ", "@
                + self.common_name@ + ", "@ + confidence_chars(self.confidence as int)
                + ", "@ + self.iso8601@ + ")"@,
    {
        let mut out = String::from_str("Detection(");
        out.append(self.domain.as_str());
        out.append("/");
        out.append(self.scientific_name.as_str());
        out.append(", ");
        out.append(self.common_name.as_str());
        out.append(", ");
        let conf = format_confidence(self.confidence);
        out.append(conf.as_str());
        out.append(", ");
        out.append(self.iso8601.as_str());
        out.append(")");
        out
    }
}

} // verus!
