//! Data-transfer values of the dashboard, and the photo cache.
//!
//! The dashboard's rendering and HTTP stack live outside the library;
//! the row shapes it exchanges, the clip URL rules, and the in-memory
//! species-photo cache are here.

use vstd::prelude::*;
use crate::text::{join_replacing, replace_sep, str_eq};


verus! {

/// A single detection row, fully plain-valued.
pub struct WebDetection {
    pub id: i64,
    pub domain: String,
    pub scientific_name: String,
    pub common_name: String,
    /// Confidence in millionths.
    pub confidence_micro: i64,
    pub date: String,
    pub time: String,
    pub file_name: String,
    pub source_node: String,
}

/// A common name made path-safe, as the extraction step writes it.
pub open spec fn path_safe(s: Seq<char>) -> Seq<char> {
    crate::detection::sanitized(s)
}

impl WebDetection {
    /// URL of the extracted audio clip under `/extracted/`, or none
    /// when no clip was recorded.
    pub fn clip_url(&self) -> (r: Option<String>)
        ensures
            r is None <==> self.file_name@.len() == 0,
            r matches Some(u) ==> u@ == "/extracted/By_Date/"@ + self.date@ + "/"@
                + path_safe(self.common_name@) + "/"@ + self.file_name@,
    {
        if self.file_name.as_str().unicode_len() == 0 {
            return None;
        }
        let safe = crate::detection::sanitize_name(self.common_name.as_str());
        let mut out = String::from_str("/extracted/By_Date/");
        out.append(self.date.as_str());
        out.append("/");
        out.append(safe.as_str());
        out.append("/");
        out.append(self.file_name.as_str());
        Some(out)
    }

    /// URL of the spectrogram PNG rendered beside the clip.
    pub fn spectrogram_url(&self) -> (r: Option<String>)
        ensures
            r is None <==> self.file_name@.len() == 0,
            r matches Some(u) ==> u@ == "/extracted/By_Date/"@ + self.date@ + "/"@
                + path_safe(self.common_name@) + "/"@ + self.file_name@ + ".png"@,
    {
        match self.clip_url() {
            Some(mut u) => {
                u.append(".png");
                Some(u)
            }
            None => None,
        }
    }

    /// Operator-facing label for the capture node: the URL without its
    /// scheme prefix or trailing slash, or `local` when none was
    /// recorded.
    pub fn source_label(&self) -> (r: String)
        ensures
            self.source_node@.len() == 0 ==> r@ == "local"@,
            self.source_node@.len() > 0 ==> r@ == strip_one_slash(strip_scheme(
                self.source_node@,
            )),
    {
        let s = self.source_node.as_str();
        let n = s.unicode_len();
        if n == 0 {
            return String::from_str("local");
        }
        let after_scheme = if crate::text::str_starts_with(s, "http://") {
            proof {
                reveal_strlit("http://");
            }
            s.substring_char(7, n)
        } else if crate::text::str_starts_with(s, "https://") {
            proof {
                reveal_strlit("https://");
            }
            s.substring_char(8, n)
        } else {
            s
        };
        proof {
            assert(after_scheme@ =~= strip_scheme(self.source_node@));
        }
        let m = after_scheme.unicode_len();
        let trimmed = if m > 0 && after_scheme.get_char(m - 1) == '/' {
            after_scheme.substring_char(0, m - 1)
        } else {
            after_scheme
        };
        proof {
            assert(trimmed@ =~= strip_one_slash(strip_scheme(self.source_node@)));
        }
        String::from_str(trimmed)
    }
}

/// A URL with a leading `http://` or `https://` removed.
pub open spec fn strip_scheme(s: Seq<char>) -> Seq<char> {
    if crate::text::starts_with_seq(s, "http://"@) {
        s.skip("http://"@.len() as int)
    } else if crate::text::starts_with_seq(s, "https://"@) {
        s.skip("https://"@.len() as int)
    } else {
        s
    }
}

/// A string with one trailing `/` removed.
pub open spec fn strip_one_slash(s: Seq<char>) -> Seq<char> {
    if s.len() > 0 && s.last() == '/' {
        s.drop_last()
    } else {
        s
    }
}

/// Aggregated species information.
pub struct SpeciesInfo {
    pub scientific_name: String,
    pub common_name: String,
    pub domain: String,
    pub image_url: Option<String>,
    pub wikipedia_url: Option<String>,
    pub total_detections: u64,
    pub first_seen: Option<String>,
    pub last_seen: Option<String>,
}

/// One cell in the monthly calendar view.
pub struct CalendarDay {
    pub date: String,
    pub total_detections: u32,
    pub unique_species: u32,
}

/// All of one species' detections within one day, grouped.
pub struct DayDetectionGroup {
    pub scientific_name: String,
    pub common_name: String,
    pub domain: String,
    pub image_url: Option<String>,
    pub detections: Vec<WebDetection>,
    /// In millionths.
    pub max_confidence_micro: i64,
}

/// A cached species photo record.
pub struct SpeciesPhoto {
    pub medium_url: String,
    pub attribution: String,
    pub wikipedia_url: Option<String>,
}

impl SpeciesPhoto {
    /// Value copy.
    pub fn duplicate(&self) -> (r: SpeciesPhoto)
        ensures
            r.medium_url == self.medium_url,
            r.attribution == self.attribution,
            r.wikipedia_url == self.wikipedia_url,
    {
        SpeciesPhoto {
            medium_url: self.medium_url.clone(),
            attribution: self.attribution.clone(),
            wikipedia_url: match &self.wikipedia_url {
                Some(u) => Some(u.clone()),
                None => None,
            },
        }
    }
}

/// Compact species row for list pages.
pub struct SpeciesSummary {
    pub scientific_name: String,
    pub common_name: String,
    pub domain: String,
    pub detection_count: u32,
    pub last_seen: Option<String>,
    pub image_url: Option<String>,
}

/// Pre-import analysis of a backup archive.
pub struct ImportReport {
    pub tar_path: String,
    pub tar_size_bytes: u64,
    pub total_detections: u64,
    pub today_detections: u64,
    pub total_species: u32,
    pub today_species: u32,
    pub date_min: Option<String>,
    pub date_max: Option<String>,
    pub audio_file_count: u64,
    pub spectrogram_count: u64,
    /// Micro-degrees, when the backup's configuration carried them.
    pub latitude_micro: Option<i64>,
    pub longitude_micro: Option<i64>,
    pub top_species: Vec<(String, u64)>,
}

/// Progress report emitted during an import.
pub struct ImportProgress {
    pub detections_imported: u64,
    pub files_extracted: u64,
    pub phase: String,
}

/// Result of a completed import.
pub struct ImportResult {
    pub detections_imported: u64,
    pub files_extracted: u64,
    pub skipped_existing: u64,
    pub errors: Vec<String>,
}

/// Minimal URL-encoding for a query parameter: spaces become `+`, and
/// the `&` and `=` separators are percent-escaped.
pub open spec fn urlencoded_spec(s: Seq<char>) -> Seq<char> {
    replace_sep(replace_sep(replace_sep(s, ' ', "+"@), '&', "%26"@), '=', "%3D"@)
}

pub fn urlencoded(s: &str) -> (r: String)
    ensures
        r@ == urlencoded_spec(s@),
{
    let a = join_replacing(s, ' ', "+");
    let b = join_replacing(a.as_str(), '&', "%26");
    join_replacing(b.as_str(), '=', "%3D")
}

// ── photo cache ──────────────────────────────────────────────────────

/// In-memory cache of photo lookups by scientific name. A `None`
/// entry records that the lookup already failed, so it is not retried.
pub struct PhotoCache {
    pub entries: Vec<(String, Option<SpeciesPhoto>)>,
}

/// Create an empty cache.
pub fn new_cache() -> (r: PhotoCache)
    ensures
        r.entries@.len() == 0,
{
    PhotoCache { entries: Vec::new() }
}

impl PhotoCache {
    /// The cached answer for a name: `Some(entry)` when a lookup was
    /// recorded, whatever its outcome.
    pub fn lookup(&self, scientific_name: &str) -> (r: Option<&Option<SpeciesPhoto>>)
        ensures
            r matches Some(v) ==> exists|i: int|
                0 <= i < self.entries@.len() && (#[trigger] self.entries@[i]).0@
                    == scientific_name@ && self.entries@[i].1 == *v,
            r is None ==> forall|i: int| 0 <= i < self.entries@.len()
                ==> (#[trigger] self.entries@[i]).0@ != scientific_name@,
    {
        let n = self.entries.len();
        let mut i: usize = 0;
        while i < n
            invariant
                0 <= i <= n,
                n == self.entries@.len(),
                forall|j: int| 0 <= j < i
                    ==> (#[trigger] self.entries@[j]).0@ != scientific_name@,
            decreases n - i,
        {
            if str_eq(self.entries[i].0.as_str(), scientific_name) {
                return Some(&self.entries[i].1);
            }
            i = i + 1;
        }
        None
    }

    /// Record a lookup's outcome.
    pub fn store(&mut self, scientific_name: String, photo: Option<SpeciesPhoto>)
        ensures
            final(self).entries@ == old(self).entries@.push((scientific_name, photo)),
    {
        self.entries.push((scientific_name, photo));
    }
}

} // verus!
