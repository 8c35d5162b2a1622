//! Model artifact validation, label handling, and the side-channel
//! metadata the raw-audio classifier takes.
//!
//! The inference runtime can abort the process on a truncated or
//! misidentified artifact, so a set of cheap byte-level checks runs
//! before a file is ever handed to it. Loading and running the graphs
//! happens outside the library; everything those steps decide on —
//! which bytes pass validation, how labels are normalised, the
//! sensitivity transform, the occurrence-gate cache — is here.

use vstd::prelude::*;
use crate::text::{
    char_count, count_char, lines_of, prefix_before, split_lines, take_before, trim,
    trim_spec,
};

verus! {

/// One prediction: a label paired with a confidence in millionths
/// (1_000_000 is a confidence of 1.0).
pub type Prediction = (String, u32);

/// Why an artifact failed its pre-flight checks.
#[derive(Clone, Copy, PartialEq, Eq, Structural, Debug)]
pub enum ArtifactCheckError {
    /// Zero-length file.
    EmptyFile,
    /// Below the plausible minimum size of a real model.
    TooSmall,
    /// Fewer than eight header bytes could be read.
    ShortHeader,
    /// The file starts with an archive magic: it was never extracted.
    ZipMagic,
    /// The file starts like an HTML error page.
    HtmlPage,
    /// The schema identifier bytes at offset four are wrong.
    BadSchemaId,
    /// The root-table offset points past the end of the file.
    RootOffsetPastEnd,
}

/// Why a model failed to load.
#[derive(Clone, Copy, PartialEq, Eq, Structural, Debug)]
pub enum LoadError {
    /// Pre-flight validation rejected the artifact.
    Artifact(ArtifactCheckError),
    /// The runtime aborted while optimising the graph — an unsupported
    /// tensor type, caught at a panic boundary around the one load call.
    RuntimeAborted,
    /// The runtime reported an ordinary error.
    RuntimeError,
}

/// Smallest plausible size of a real model artifact, in bytes.
pub open spec fn min_model_size() -> int {
    1024
}

/// Little-endian 32-bit read of the first four header bytes.
pub open spec fn root_offset_of(h: Seq<u8>) -> int {
    h[0] + 256 * h[1] + 65536 * h[2] + 16777216 * h[3]
}

/// The validation verdict over the header bytes and the file length.
pub open spec fn validate_spec(h: Seq<u8>, file_len: int) -> Result<(), ArtifactCheckError> {
    if file_len == 0 {
        Err(ArtifactCheckError::EmptyFile)
    } else if file_len < min_model_size() {
        Err(ArtifactCheckError::TooSmall)
    } else if h.len() < 8 {
        Err(ArtifactCheckError::ShortHeader)
    } else if h[0] == 0x50 && h[1] == 0x4b && h[2] == 0x03 && h[3] == 0x04 {
        Err(ArtifactCheckError::ZipMagic)
    } else if h[0] == 0x3c && (h[1] == 0x21 || h[1] == 0x68 || h[1] == 0x48) {
        Err(ArtifactCheckError::HtmlPage)
    } else if !(h[4] == 0x54 && h[5] == 0x46 && h[6] == 0x4c && h[7] == 0x33) {
        Err(ArtifactCheckError::BadSchemaId)
    } else if root_offset_of(h) >= file_len {
        Err(ArtifactCheckError::RootOffsetPastEnd)
    } else {
        Ok(())
    }
}

/// Pre-flight checks on a model artifact, cheapest first: real size,
/// no archive magic (`PK\x03\x04`), no HTML error page (`<!`, `<h`,
/// `<H`), the schema identifier `TFL3` at offset four, and a root-table
/// offset inside the file.
///
/// `header` holds the first bytes of the file (eight suffice), and
/// `file_len` its full length.
pub fn validate_model_header(header: &Vec<u8>, file_len: u64) -> (r: Result<
    (),
    ArtifactCheckError,
>)
    ensures
        r == validate_spec(header@, file_len as int),
{
    if file_len == 0 {
        return Err(ArtifactCheckError::EmptyFile);
    }
    if file_len < 1024 {
        return Err(ArtifactCheckError::TooSmall);
    }
    if header.len() < 8 {
        return Err(ArtifactCheckError::ShortHeader);
    }
    let b0 = header[0];
    let b1 = header[1];
    let b2 = header[2];
    let b3 = header[3];
    if b0 == 0x50 && b1 == 0x4b && b2 == 0x03 && b3 == 0x04 {
        return Err(ArtifactCheckError::ZipMagic);
    }
    if b0 == 0x3c && (b1 == 0x21 || b1 == 0x68 || b1 == 0x48) {
        return Err(ArtifactCheckError::HtmlPage);
    }
    if !(header[4] == 0x54 && header[5] == 0x46 && header[6] == 0x4c && header[7] == 0x33) {
        return Err(ArtifactCheckError::BadSchemaId);
    }
    let root: u64 = b0 as u64 + 256 * b1 as u64 + 65536 * b2 as u64 + 16777216 * b3 as u64;
    if root >= file_len {
        return Err(ArtifactCheckError::RootOffsetPastEnd);
    }
    Ok(())
}

// ── labels ───────────────────────────────────────────────────────────

/// One label line, normalised: trimmed, and reduced to the part before
/// the underscore when the line holds exactly one.
pub open spec fn label_of_line(l: Seq<char>) -> Seq<char> {
    let t = trim_spec(l);
    if count_char(t, '_') == 1 {
        prefix_before(t, '_')
    } else {
        t
    }
}

/// The label list of a label file's text, line by line.
pub open spec fn labels_spec(text: Seq<char>) -> Seq<Seq<char>> {
    lines_of(text).map_values(|l: Seq<char>| label_of_line(l))
}

/// Parse a label file: each line is one label, `Sci Name_Common Name`
/// lines are reduced to `Sci Name`.
pub fn parse_labels(text: &str) -> (r: Vec<String>)
    ensures
        r@.map_values(|l: String| l@) == labels_spec(text@),
{
    let lines = split_lines(text);
    let mut out: Vec<String> = Vec::new();
    let mut i: usize = 0;
    while i < lines.len()
        invariant
            0 <= i <= lines@.len(),
            lines@.map_values(|l: String| l@) == lines_of(text@),
            out@.map_values(|l: String| l@)
                =~= labels_spec(text@).take(i as int),
        decreases lines@.len() - i,
    {
        let line = trim(lines[i].as_str());
        let label = if char_count(line, '_') == 1 {
            take_before(line, '_')
        } else {
            line
        };
        proof {
            assert(lines@.map_values(|l: String| l@)[i as int] == lines@[i as int]@);
            assert(label@ == label_of_line(lines_of(text@)[i as int]));
            assert(labels_spec(text@)[i as int]
                == label_of_line(lines_of(text@)[i as int]));
        }
        let ghost before = out@.map_values(|l: String| l@);
        out.push(String::from_str(label));
        proof {
            assert(out@.map_values(|l: String| l@) =~= before.push(label@));
            assert(before.push(label@) =~= labels_spec(text@).take(i + 1));
        }
        i = i + 1;
    }
    proof {
        assert(labels_spec(text@).take(lines@.len() as int) =~= labels_spec(text@));
    }
    out
}

/// One species-list line: trimmed and cut at the first underscore;
/// empty lines are dropped.
pub open spec fn species_list_spec(ls: Seq<Seq<char>>) -> Seq<Seq<char>>
    decreases ls.len(),
{
    if ls.len() == 0 {
        Seq::empty()
    } else {
        let t = trim_spec(ls[0]);
        let head: Seq<Seq<char>> = if t.len() == 0 {
            Seq::empty()
        } else {
            seq![prefix_before(t, '_')]
        };
        head + species_list_spec(ls.drop_first())
    }
}

/// Parse a custom species list (include / exclude / whitelist file):
/// one entry per non-empty line, cut at the first underscore.
pub fn parse_species_list(text: &str) -> (r: Vec<String>)
    ensures
        r@.map_values(|l: String| l@) == species_list_spec(lines_of(text@)),
{
    let lines = split_lines(text);
    let mut out: Vec<String> = Vec::new();
    let mut i: usize = 0;
    while i < lines.len()
        invariant
            0 <= i <= lines@.len(),
            lines@.map_values(|l: String| l@) == lines_of(text@),
            out@.map_values(|l: String| l@)
                =~= species_list_spec(lines_of(text@).take(i as int)),
        decreases lines@.len() - i,
    {
        proof {
            lemma_species_list_snoc(lines_of(text@), i as int);
            assert(lines@.map_values(|l: String| l@)[i as int] == lines@[i as int]@);
        }
        let line = trim(lines[i].as_str());
        if line.unicode_len() > 0 {
            let entry = take_before(line, '_');
            let ghost before = out@.map_values(|l: String| l@);
            out.push(String::from_str(entry));
            proof {
                assert(out@.map_values(|l: String| l@) =~= before.push(entry@));
                assert(before.push(entry@)
                    =~= species_list_spec(lines_of(text@).take(i + 1)));
            }
        } else {
            proof {
                assert(species_list_spec(lines_of(text@).take(i + 1))
                    =~= species_list_spec(lines_of(text@).take(i as int)));
            }
        }
        i = i + 1;
    }
    proof {
        assert(lines_of(text@).take(lines@.len() as int) =~= lines_of(text@));
    }
    out
}

/// Extending the processed prefix by one line appends that line's
/// contribution.
proof fn lemma_species_list_snoc(ls: Seq<Seq<char>>, i: int)
    requires
        0 <= i < ls.len(),
    ensures
        species_list_spec(ls.take(i + 1)) == species_list_spec(ls.take(i))
            + (if trim_spec(ls[i]).len() == 0 {
                Seq::<Seq<char>>::empty()
            } else {
                seq![prefix_before(trim_spec(ls[i]), '_')]
            }),
    decreases i,
{
    let added = if trim_spec(ls[i]).len() == 0 {
        Seq::<Seq<char>>::empty()
    } else {
        seq![prefix_before(trim_spec(ls[i]), '_')]
    };
    if i == 0 {
        assert(ls.take(1)[0] == ls[0]);
        assert(ls.take(1).drop_first() =~= Seq::<Seq<char>>::empty());
        assert(species_list_spec(Seq::<Seq<char>>::empty()) == Seq::<Seq<char>>::empty());
        assert(ls.take(0).len() == 0);
        assert(species_list_spec(ls.take(0)) == Seq::<Seq<char>>::empty());
        assert(species_list_spec(ls.take(1)) =~= species_list_spec(ls.take(0)) + added);
    } else {
        let tail = ls.drop_first();
        lemma_species_list_snoc(tail, i - 1);
        let t0 = trim_spec(ls[0]);
        let head: Seq<Seq<char>> = if t0.len() == 0 {
            Seq::<Seq<char>>::empty()
        } else {
            seq![prefix_before(t0, '_')]
        };
        assert(ls.take(i + 1)[0] == ls[0]);
        assert(ls.take(i)[0] == ls[0]);
        assert(tail[i - 1] == ls[i]);
        assert(ls.take(i + 1).drop_first() =~= tail.take(i));
        assert(ls.take(i).drop_first() =~= tail.take(i - 1));
        assert(species_list_spec(ls.take(i + 1)) == head + species_list_spec(tail.take(i)));
        assert(species_list_spec(ls.take(i)) == head + species_list_spec(tail.take(i - 1)));
        assert(species_list_spec(tail.take(i))
            == species_list_spec(tail.take(i - 1)) + added);
        assert(head + (species_list_spec(tail.take(i - 1)) + added)
            =~= (head + species_list_spec(tail.take(i - 1))) + added);
    }
}

// ── V1 side-channel metadata ─────────────────────────────────────────

/// Sentinel for an unset coordinate, in micro-degrees (-1.0).
pub open spec fn coord_sentinel() -> int {
    -1000000
}

/// The discrete part of the V1 metadata vector `[lat, lon, w, m0, m1,
/// m2]`: whether the week term is live, and the three 0/1 masks.
#[derive(Clone, Copy, PartialEq, Eq, Structural, Debug)]
pub struct V1MetaShape {
    /// True when the week lies in 1..=48, so the week term is a cosine
    /// value; false when it is the sentinel -1.
    pub week_live: bool,
    pub m0: u8,
    pub m1: u8,
    pub m2: u8,
}

/// Build the mask part of the V1 metadata input from the coordinates
/// (in micro-degrees) and the week of year.
///
/// The masks are always 0 or 1; a sentinel coordinate forces the
/// location masks to zero; the third mask is zero exactly when the week
/// term is the sentinel.
pub fn v1_metadata_shape(lat_micro: i64, lon_micro: i64, week: u32) -> (r: V1MetaShape)
    ensures
        r.week_live == (1 <= week <= 48),
        (r.m0 == 0 || r.m0 == 1) && (r.m1 == 0 || r.m1 == 1) && (r.m2 == 0 || r.m2 == 1),
        (lat_micro == coord_sentinel() || lon_micro == coord_sentinel())
            ==> r.m0 == 0 && r.m1 == 0,
        !(lat_micro == coord_sentinel() || lon_micro == coord_sentinel())
            ==> r.m0 == 1 && r.m1 == 1,
        r.m2 == 1 <==> r.week_live,
{
    let week_live = 1 <= week && week <= 48;
    let m2: u8 = if week_live { 1 } else { 0 };
    if lat_micro == -1000000 || lon_micro == -1000000 {
        V1MetaShape { week_live, m0: 0, m1: 0, m2 }
    } else {
        V1MetaShape { week_live, m0: 1, m1: 1, m2 }
    }
}

// ── sensitivity ──────────────────────────────────────────────────────

/// Clamp to the sensitivity range, in thousandths.
pub open spec fn clamp_sens(v: int) -> int {
    if v < 500 {
        500
    } else if v > 1500 {
        1500
    } else {
        v
    }
}

/// The sigmoid sensitivity actually applied to logits: the user value
/// (in thousandths, 1000 is neutral) clamped to `[0.5, 1.5]` and
/// reflected around 1, which lands in the same range.
pub fn adjusted_sensitivity(user_milli: u32) -> (r: u32)
    ensures
        r as int == clamp_sens(2000 - clamp_sens(user_milli as int)),
        500 <= r <= 1500,
{
    let s: u32 = if user_milli < 500 {
        500
    } else if user_milli > 1500 {
        1500
    } else {
        user_milli
    };
    2000 - s
}

// ── occurrence-gate cache ────────────────────────────────────────────

/// Cache for the occurrence gate: it holds the latest
/// `(lat, lon, week)` key with its above-threshold label list, so a
/// repeat query within one file is free.
pub struct SpeciesListCache {
    pub cached: Option<((i64, i64, u32), Vec<String>)>,
}

impl SpeciesListCache {
    /// An empty cache.
    pub fn new() -> (r: SpeciesListCache)
        ensures
            r.cached is None,
    {
        SpeciesListCache { cached: None }
    }

    /// The cached list for this exact triple, when the cache holds it.
    pub fn lookup(&self, lat_micro: i64, lon_micro: i64, week: u32) -> (r: Option<&Vec<String>>)
        ensures
            r matches Some(v) ==> {
                &&& self.cached matches Some(c)
                &&& c.0 == (lat_micro, lon_micro, week)
                &&& v == c.1
            },
            r is None ==> match self.cached {
                Some(c) => c.0 != (lat_micro, lon_micro, week),
                None => true,
            },
    {
        match &self.cached {
            Some(c) => {
                let (key, list) = c;
                if key.0 == lat_micro && key.1 == lon_micro && key.2 == week {
                    Some(list)
                } else {
                    None
                }
            }
            None => None,
        }
    }

    /// Put one key's list into the cache, displacing the old entry.
    pub fn store(&mut self, lat_micro: i64, lon_micro: i64, week: u32, list: Vec<String>)
        ensures
            final(self).cached matches Some(c) && c.0 == (lat_micro, lon_micro, week)
                && c.1 == list,
    {
        self.cached = Some(((lat_micro, lon_micro, week), list));
    }
}

} // verus!
