//! Artifact acquisition logic: resumable-download bookkeeping,
//! cross-restart backoff, checksum verification, and flat archive
//! extraction planning.
//!
//! The network and file-system sides live outside the library; this
//! module holds every decision they follow: what a response status
//! means for the partial file, how the backoff marker evolves, which
//! archive entries are written where, and when a checksum passes.

use vstd::prelude::*;
use crate::text::{
    contains_seq, dec_str, is_space_char, next_boundary, scan_boundary, starts_with_seq,
    str_eq, u64_dec,
};

verus! {

/// Base URL of the remote archive's file API.
pub fn zenodo_files_url() -> (r: &'static str)
    ensures
        r@ == "https://zenodo.org/api/records"@,
{
    "https://zenodo.org/api/records"
}

/// `<base>/<record>/files/<name>/content`.
pub fn zenodo_url(record_id: &str, file: &str) -> (r: String)
    ensures
        r@ == "https://zenodo.org/api/records"@ + "/"@ + record_id@ + "/files/"@ + file@
            + "/content"@,
{
    let mut out = String::from_str(zenodo_files_url());
    out.append("/");
    out.append(record_id);
    out.append("/files/");
    out.append(file);
    out.append("/content");
    out
}

// ── cross-restart backoff ────────────────────────────────────────────

/// Name of the marker file that persists backoff across restarts.
pub fn backoff_marker_name() -> (r: &'static str)
    ensures
        r@ == ".download_backoff"@,
{
    ".download_backoff"
}

/// Path of the marker file inside a model's base directory.
pub fn backoff_marker_path(base_dir: &str) -> (r: String)
    ensures
        r@ == base_dir@ + "/"@ + ".download_backoff"@,
{
    let mut out = String::from_str(base_dir);
    out.append("/");
    out.append(backoff_marker_name());
    out
}

/// First backoff after a fresh failure, in seconds.
pub open spec fn initial_backoff() -> int {
    5
}

/// Cap on the persisted backoff, in seconds.
pub open spec fn max_restart_backoff() -> int {
    600
}

/// The backoff recorded after one more failure: it starts at the
/// initial value and doubles up to the cap.
pub open spec fn next_backoff_spec(prev: int) -> int {
    if prev <= 0 {
        initial_backoff()
    } else if 2 * prev >= max_restart_backoff() {
        max_restart_backoff()
    } else {
        2 * prev
    }
}

pub fn next_backoff(prev: u64) -> (r: u64)
    ensures
        r as int == next_backoff_spec(prev as int),
        1 <= r <= 600,
{
    if prev == 0 {
        5
    } else if prev >= 300 {
        600
    } else {
        2 * prev
    }
}

/// Backoff law: across consecutive failures the recorded earliest-retry
/// stamp never moves backwards, and the backoff itself never passes the
/// cap.
pub proof fn lemma_backoff_monotone(prev: int, now1: int, now2: int)
    requires
        0 <= prev <= max_restart_backoff(),
        now1 <= now2,
    ensures
        now2 + next_backoff_spec(prev) >= now1 + prev,
        next_backoff_spec(prev) <= max_restart_backoff(),
        next_backoff_spec(prev) >= prev,
{
}

/// The marker content: earliest-retry epoch second, a space, and the
/// current backoff in seconds.
pub fn format_backoff_marker(resume_at: u64, backoff: u64) -> (r: String)
    ensures
        r@ == dec_str(resume_at as nat) + seq![' '] + dec_str(backoff as nat),
{
    let mut out = u64_dec(resume_at);
    out.append(" ");
    let b = u64_dec(backoff);
    out.append(b.as_str());
    proof {
        reveal_strlit(" ");
        assert(out@ =~= dec_str(resume_at as nat) + seq![' '] + dec_str(backoff as nat));
    }
    out
}

/// The first whitespace-separated token of `s` at or after `i`, as a
/// pair of bounds.
pub open spec fn token_bounds(s: Seq<char>, i: int) -> (int, int) {
    let a = next_boundary(s, i, false);
    let b = next_boundary(s, a, true);
    (a, b)
}

/// Value of a whitespace-separated token if it is a parsable number,
/// else 0 — matching a reader that defaults each missing or malformed
/// field to zero.
pub open spec fn token_value(s: Seq<char>, a: int, b: int) -> int {
    let t = s.subrange(a, b);
    if a < b && crate::text::all_digits(t) && crate::text::dec_value(t) <= u64::MAX {
        crate::text::dec_value(t)
    } else {
        0
    }
}

/// Parse the two integers of a backoff marker: earliest-retry second
/// and current backoff. A missing or malformed field reads as 0.
pub fn parse_backoff_marker(s: &str) -> (r: (u64, u64))
    ensures
        ({
            let (a1, b1) = token_bounds(s@, 0);
            let (a2, b2) = token_bounds(s@, b1);
            r.0 as int == token_value(s@, a1, b1) && r.1 as int == token_value(s@, a2, b2)
        }),
{
    let a1 = scan_boundary(s, 0, false);
    let b1 = scan_boundary(s, a1, true);
    let first = parse_token(s, a1, b1);
    let a2 = scan_boundary(s, b1, false);
    let b2 = scan_boundary(s, a2, true);
    let second = parse_token(s, a2, b2);
    (first, second)
}

/// Parse one token slice as a `u64`, defaulting to 0.
fn parse_token(s: &str, a: usize, b: usize) -> (r: u64)
    requires
        a <= b <= s@.len(),
    ensures
        r as int == token_value(s@, a as int, b as int),
{
    let t = s.substring_char(a, b);
    proof {
        assert(t@ == s@.subrange(a as int, b as int));
    }
    if a == b {
        return 0;
    }
    match crate::text::str_parse_u64(t) {
        Some(v) => v,
        None => 0,
    }
}

/// Marker round-trip law: the two integers written into the backoff
/// marker are exactly the two integers a later start reads back, so the
/// backoff state survives a restart unchanged.
pub proof fn lemma_marker_round_trip(resume_at: u64, backoff: u64)
    ensures
        ({
            let s = dec_str(resume_at as nat) + seq![' '] + dec_str(backoff as nat);
            let (a1, b1) = token_bounds(s, 0);
            let (a2, b2) = token_bounds(s, b1);
            token_value(s, a1, b1) == resume_at && token_value(s, a2, b2) == backoff
        }),
{
    let d1 = dec_str(resume_at as nat);
    let d2 = dec_str(backoff as nat);
    let s = d1 + seq![' '] + d2;
    let l1 = d1.len() as int;
    let sp = l1;
    let l2 = d2.len() as int;
    crate::text::lemma_dec_str_digits(resume_at as nat);
    crate::text::lemma_dec_str_digits(backoff as nat);
    crate::text::lemma_dec_str_value(resume_at as nat);
    crate::text::lemma_dec_str_value(backoff as nat);
    assert(forall|i: int| 0 <= i < l1 ==> s[i] == d1[i]);
    assert(s[sp] == ' ');
    assert(forall|i: int| 0 <= i < l2 ==> s[sp + 1 + i] == d2[i]);
    assert(forall|i: int| 0 <= i < l1 ==> !is_space_char(s[i])) by {
        assert(forall|i: int| 0 <= i < l1 ==> crate::text::is_digit_char(#[trigger] d1[i]));
    }
    assert(forall|i: int| sp + 1 <= i < s.len() ==> !is_space_char(s[i])) by {
        assert(forall|i: int| 0 <= i < l2 ==> crate::text::is_digit_char(#[trigger] d2[i]));
    }

    crate::text::lemma_next_boundary_props(s, 0, false);
    let a1 = next_boundary(s, 0, false);
    assert(a1 == 0) by {
        if a1 > 0 {
            assert(is_space_char(s[0]) != false);
        }
    }
    crate::text::lemma_next_boundary_props(s, 0, true);
    let b1 = next_boundary(s, 0, true);
    assert(b1 == sp) by {
        if b1 < sp {
            assert(is_space_char(s[b1]));
        } else if b1 > sp {
            assert(!is_space_char(s[sp]));
        }
    }
    assert(s.subrange(0, sp) =~= d1);
    assert(token_value(s, 0, sp) == resume_at);

    crate::text::lemma_next_boundary_props(s, sp, false);
    let a2 = next_boundary(s, sp, false);
    assert(a2 == sp + 1) by {
        if a2 == sp {
            assert(is_space_char(s[sp]) == false);
        } else if a2 > sp + 1 {
            assert(is_space_char(s[sp + 1]));
        }
    }
    crate::text::lemma_next_boundary_props(s, sp + 1, true);
    let b2 = next_boundary(s, sp + 1, true);
    assert(b2 == s.len()) by {
        if b2 < s.len() {
            assert(is_space_char(s[b2]));
        }
    }
    assert(s.subrange(sp + 1, s.len() as int) =~= d2);
    assert(token_value(s, sp + 1, s.len() as int) == backoff);
}

// ── resumable download protocol ──────────────────────────────────────

/// What one HTTP response means for the partial file.
#[derive(Clone, Copy, PartialEq, Eq, Structural, Debug)]
pub enum DownloadStep {
    /// 416 with data on disk: the file is already fully present.
    AlreadyComplete,
    /// 206: the server honoured the range; append the body.
    Append,
    /// Another success: the server ignored the range; rewrite from the
    /// start.
    Restart,
    /// Any failure status: try again later.
    Retry,
}

/// Decide the next step from a response status and the bytes already
/// on disk.
pub fn resume_step(status: u16, existing_len: u64) -> (r: DownloadStep)
    ensures
        r == DownloadStep::AlreadyComplete <==> (status == 416 && existing_len > 0),
        r == DownloadStep::Retry <==> (!(200 <= status < 300)
            && !(status == 416 && existing_len > 0)),
        r == DownloadStep::Append <==> (status == 206 && !(existing_len > 0 && status == 416)),
        r == DownloadStep::Restart <==> (200 <= status < 300 && status != 206),
{
    if status == 416 && existing_len > 0 {
        DownloadStep::AlreadyComplete
    } else if !(200 <= status && status < 300) {
        DownloadStep::Retry
    } else if status == 206 {
        DownloadStep::Append
    } else {
        DownloadStep::Restart
    }
}

/// Update the partial file's bytes for one response body.
pub fn apply_download_data(part: &mut Vec<u8>, body: &Vec<u8>, step: DownloadStep)
    requires
        step == DownloadStep::Append || step == DownloadStep::Restart,
    ensures
        step == DownloadStep::Append ==> final(part)@ == old(part)@ + body@,
        step == DownloadStep::Restart ==> final(part)@ == body@,
{
    match step {
        DownloadStep::Append => {
            proof {
                assert(old(part)@ + body@.take(0) =~= old(part)@);
            }
            let mut i: usize = 0;
            let m = body.len();
            while i < m
                invariant
                    0 <= i <= m,
                    m == body@.len(),
                    part@ == old(part)@ + body@.take(i as int),
                decreases m - i,
            {
                let b = body[i];
                part.push(b);
                proof {
                    assert(old(part)@ + body@.take(i + 1)
                        =~= (old(part)@ + body@.take(i as int)).push(body@[i as int]));
                }
                i = i + 1;
            }
            proof {
                assert(body@.take(m as int) =~= body@);
            }
        }
        _ => {
            part.clear();
            proof {
                assert(body@.take(0) =~= part@);
            }
            let mut i: usize = 0;
            let m = body.len();
            while i < m
                invariant
                    0 <= i <= m,
                    m == body@.len(),
                    part@ == body@.take(i as int),
                decreases m - i,
            {
                let b = body[i];
                part.push(b);
                proof {
                    assert(body@.take(i + 1) =~= body@.take(i as int).push(body@[i as int]));
                }
                i = i + 1;
            }
            proof {
                assert(body@.take(m as int) =~= body@);
            }
        }
    }
}

/// Resume law: however much of the file was already on disk, appending
/// the remainder reproduces the whole file byte for byte — a resumed
/// download equals a single-shot one.
pub proof fn lemma_resume_idempotent(full: Seq<u8>, k: int)
    requires
        0 <= k <= full.len(),
    ensures
        full.subrange(0, k) + full.subrange(k, full.len() as int) == full,
{
    assert(full.subrange(0, k) + full.subrange(k, full.len() as int) =~= full);
}

// ── checksum verification ────────────────────────────────────────────

/// Hex digest of a byte string under the archive's checksum; a function
/// of the bytes alone.
pub uninterp spec fn md5_hex_of(bytes: Seq<u8>) -> Seq<char>;

/// Relies on `md5::compute`: the digest depends on the input bytes
/// alone and renders as 32 lowercase hex characters.
#[verifier::external_body]
fn md5_hex(bytes: &Vec<u8>) -> (r: String)
    ensures
        r@ == md5_hex_of(bytes@),
        r@.len() == 32,
{
    format!("{:x}", md5::compute(bytes.as_slice()))
}

/// Whether the downloaded bytes match a declared digest.
pub fn checksum_matches(bytes: &Vec<u8>, expected: &str) -> (r: bool)
    ensures
        r == (md5_hex_of(bytes@) == expected@),
{
    let digest = md5_hex(bytes);
    str_eq(digest.as_str(), expected)
}

/// Compare a computed digest against a declared one.
pub fn digest_equals(digest: &str, expected: &str) -> (r: bool)
    ensures
        r == (digest@ == expected@),
{
    str_eq(digest, expected)
}

// ── archive extraction planning ──────────────────────────────────────

/// The (name, decompressed data) entry list of a zip archive; a
/// function of the archive bytes alone.
pub uninterp spec fn zip_entries_of(bytes: Seq<u8>) -> Seq<(Seq<char>, Seq<u8>)>;

/// Whether the bytes are a fully readable archive: the central
/// directory parses and every listed entry's name and data decode.
/// Deterministic decompression makes this a function of the bytes
/// alone. (The converse direction is not promised anywhere: a parsed
/// directory does not witness that each entry's data also decodes.)
pub uninterp spec fn zip_readable(bytes: Seq<u8>) -> bool;

/// Relies on `zip::ZipArchive::new` and `len` over an in-memory
/// archive: how many entries the central directory lists. On a fully
/// readable archive the directory parse cannot fail.
#[verifier::external_body]
fn zip_entry_count(bytes: &Vec<u8>) -> (r: Option<usize>)
    ensures
        r matches Some(n) ==> n == zip_entries_of(bytes@).len(),
        zip_readable(bytes@) ==> r is Some,
{
    let cur = std::io::Cursor::new(bytes.as_slice());
    match zip::ZipArchive::new(cur) {
        Ok(a) => Some(a.len()),
        Err(_) => None,
    }
}

/// Relies on `zip::ZipArchive::by_index` and `Read::read_to_end`: the
/// name and decompressed bytes of one entry. On a fully readable
/// archive every in-range entry decodes.
#[verifier::external_body]
fn zip_entry(bytes: &Vec<u8>, i: usize) -> (r: Option<(String, Vec<u8>)>)
    requires
        i < zip_entries_of(bytes@).len(),
    ensures
        r matches Some(e) ==> (e.0@, e.1@) == zip_entries_of(bytes@)[i as int],
        zip_readable(bytes@) ==> r is Some,
{
    let cur = std::io::Cursor::new(bytes.as_slice());
    let mut archive = match zip::ZipArchive::new(cur) {
        Ok(a) => a,
        Err(_) => return None,
    };
    let mut entry = match archive.by_index(i) {
        Ok(f) => f,
        Err(_) => return None,
    };
    let name = entry.name().to_string();
    let mut data = Vec::new();
    match std::io::Read::read_to_end(&mut entry, &mut data) {
        Ok(_) => Some((name, data)),
        Err(_) => None,
    }
}

/// An entry the flat extraction writes out: a regular file, not part of
/// archive metadata directories, with a real basename.
pub open spec fn keeps_entry(name: Seq<char>) -> bool {
    &&& name.len() > 0
    &&& name.last() != '/'
    &&& !starts_with_seq(name, "__MACOSX"@)
    &&& !contains_seq(name, "/._"@)
    &&& entry_basename(name) != Seq::<char>::empty()
    &&& entry_basename(name) != ".."@
    &&& entry_basename(name) != "."@
}

/// Final path component of an entry name: directory structure inside
/// the archive is discarded.
pub open spec fn entry_basename(name: Seq<char>) -> Seq<char> {
    name.subrange(crate::text::last_index_of(name, '/') + 1, name.len() as int)
}

/// The extraction plan over an entry list: each kept entry flattened to
/// its basename, in order.
pub open spec fn extraction_plan(entries: Seq<(Seq<char>, Seq<u8>)>) -> Seq<(Seq<char>, Seq<u8>)>
    decreases entries.len(),
{
    if entries.len() == 0 {
        Seq::empty()
    } else {
        let head = if keeps_entry(entries[0].0) {
            seq![(entry_basename(entries[0].0), entries[0].1)]
        } else {
            Seq::empty()
        };
        head + extraction_plan(entries.drop_first())
    }
}

/// Decide whether one entry is written, and under which basename.
pub fn plan_entry(name: &str) -> (r: Option<String>)
    ensures
        r matches Some(base) ==> keeps_entry(name@) && base@ == entry_basename(name@),
        r is None ==> !keeps_entry(name@),
{
    let n = name.unicode_len();
    if n == 0 {
        return None;
    }
    if name.get_char(n - 1) == '/' {
        return None;
    }
    if crate::text::str_starts_with(name, "__MACOSX") {
        return None;
    }
    if crate::text::str_contains(name, "/._") {
        return None;
    }
    let base = match crate::text::rfind_char(name, '/') {
        Some(i) => {
            proof {
                crate::text::lemma_last_index_of_props(name@, '/');
            }
            name.substring_char(i + 1, n)
        }
        None => {
            proof {
                assert(name@.subrange(0, name@.len() as int) =~= name@);
            }
            name
        }
    };
    proof {
        assert(base@ == entry_basename(name@));
    }
    if base.unicode_len() == 0 {
        return None;
    }
    if str_eq(base, "..") || str_eq(base, ".") {
        return None;
    }
    Some(String::from_str(base))
}

/// Plan the flat extraction of a whole archive.
///
/// `None` means the archive could not be read; on a fully readable
/// archive the plan is owed. `Some` lists, in order, each file to
/// write as `(basename, bytes)`.
pub fn plan_extraction(bytes: &Vec<u8>) -> (r: Option<Vec<(String, Vec<u8>)>>)
    ensures
        zip_readable(bytes@) ==> r is Some,
        r matches Some(files) ==> {
            let plan = extraction_plan(zip_entries_of(bytes@));
            files@.len() == plan.len()
                && (forall|i: int| 0 <= i < files@.len()
                    ==> (#[trigger] files@[i].0@, files@[i].1@) == plan[i])
        },
{
    let count = match zip_entry_count(bytes) {
        Some(n) => n,
        None => {
            return None;
        }
    };
    let mut files: Vec<(String, Vec<u8>)> = Vec::new();
    let mut i: usize = 0;
    while i < count
        invariant
            0 <= i <= count,
            count == zip_entries_of(bytes@).len(),
            ({
                let plan = extraction_plan(zip_entries_of(bytes@).take(i as int));
                files@.len() == plan.len()
                    && (forall|k: int| 0 <= k < files@.len()
                        ==> (#[trigger] files@[k].0@, files@[k].1@) == plan[k])
            }),
        decreases count - i,
    {
        let entry = match zip_entry(bytes, i) {
            Some(e) => e,
            None => {
                return None;
            }
        };
        let (name, data) = entry;
        proof {
            lemma_extraction_plan_snoc(zip_entries_of(bytes@), i as int);
        }
        match plan_entry(name.as_str()) {
            Some(base) => {
                files.push((base, data));
            }
            None => {
            }
        }
        i = i + 1;
    }
    proof {
        assert(zip_entries_of(bytes@).take(count as int) =~= zip_entries_of(bytes@));
    }
    Some(files)
}

/// Extending the planned prefix by one entry appends that entry's
/// contribution.
proof fn lemma_extraction_plan_snoc(entries: Seq<(Seq<char>, Seq<u8>)>, i: int)
    requires
        0 <= i < entries.len(),
    ensures
        extraction_plan(entries.take(i + 1)) == extraction_plan(entries.take(i))
            + (if keeps_entry(entries[i].0) {
                seq![(entry_basename(entries[i].0), entries[i].1)]
            } else {
                Seq::empty()
            }),
    decreases i,
{
    let added = if keeps_entry(entries[i].0) {
        seq![(entry_basename(entries[i].0), entries[i].1)]
    } else {
        Seq::<(Seq<char>, Seq<u8>)>::empty()
    };
    if i == 0 {
        let head = if keeps_entry(entries[0].0) {
            seq![(entry_basename(entries[0].0), entries[0].1)]
        } else {
            Seq::<(Seq<char>, Seq<u8>)>::empty()
        };
        assert(entries.take(1)[0] == entries[0]);
        assert(entries.take(1).drop_first() =~= Seq::<(Seq<char>, Seq<u8>)>::empty());
        assert(extraction_plan(Seq::<(Seq<char>, Seq<u8>)>::empty())
            == Seq::<(Seq<char>, Seq<u8>)>::empty());
        assert(extraction_plan(entries.take(1))
            == head + extraction_plan(entries.take(1).drop_first()));
        assert(entries.take(0).len() == 0);
        assert(extraction_plan(entries.take(0)) == Seq::<(Seq<char>, Seq<u8>)>::empty());
        assert(extraction_plan(entries.take(1)) =~= extraction_plan(entries.take(0)) + added);
    } else {
        let tail = entries.drop_first();
        lemma_extraction_plan_snoc(tail, i - 1);
        let head = if keeps_entry(entries[0].0) {
            seq![(entry_basename(entries[0].0), entries[0].1)]
        } else {
            Seq::<(Seq<char>, Seq<u8>)>::empty()
        };
        assert(entries.take(i + 1)[0] == entries[0]);
        assert(entries.take(i)[0] == entries[0]);
        assert(tail[i - 1] == entries[i]);
        assert(entries.take(i + 1).drop_first() =~= tail.take(i));
        assert(entries.take(i).drop_first() =~= tail.take(i - 1));
        assert(extraction_plan(entries.take(i + 1))
            == head + extraction_plan(tail.take(i)));
        assert(extraction_plan(entries.take(i))
            == head + extraction_plan(tail.take(i - 1)));
        assert(extraction_plan(tail.take(i)) == extraction_plan(tail.take(i - 1)) + added);
        assert(head + (extraction_plan(tail.take(i - 1)) + added)
            =~= (head + extraction_plan(tail.take(i - 1))) + added);
    }
}

} // verus!
