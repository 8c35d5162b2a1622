//! Recording filename grammar.
//!
//! Segment files are named `YYYY-MM-DD-birdnet-HH:MM:SS.wav`, with an
//! optional `RTSP_<n>-` stream tag before the time. The filename is the
//! sole authoritative source of a segment's wall-clock time: the first
//! ten characters of the stem carry the date, the last eight the time.

use vstd::prelude::*;
use crate::date::{DateTime, date_chars, time_chars, valid_date, valid_time};
use crate::text::{
    all_digits, dec_value, find_sub, first_match_from, last_index_of, lemma_dec2_roundtrip,
    lemma_dec4_roundtrip, lemma_find_sub_first_match, matches_at, rfind_char, str_parse_u32,
};

verus! {

/// Why a filename was rejected.
#[derive(Clone, Copy, PartialEq, Eq, Structural, Debug)]
pub enum FileNameError {
    /// The stem has fewer than ten characters.
    TooShort,
    /// The leading ten characters are not a valid `YYYY-MM-DD` date.
    BadDate,
    /// The trailing eight characters are not a valid `HH:MM:SS` time.
    BadTime,
}

/// Parsed metadata of a recording filename.
pub struct ParsedFileName {
    /// The path the file was parsed from, unchanged.
    pub file_path: String,
    /// Wall-clock datetime carried by the filename.
    pub file_date: DateTime,
    /// Stream tag (`RTSP_<n>-`), or empty when the filename has none.
    pub rtsp_id: String,
}

/// The basename of a path: everything after the last `/`.
pub open spec fn basename_spec(s: Seq<char>) -> Seq<char> {
    s.subrange(last_index_of(s, '/') + 1, s.len() as int)
}

/// The stem of a path: the basename with everything from its last `.`
/// removed.
pub open spec fn stem_spec(s: Seq<char>) -> Seq<char> {
    let base = basename_spec(s);
    let di = last_index_of(base, '.');
    if di >= 0 {
        base.take(di)
    } else {
        base
    }
}

/// The leading ten characters form a valid date.
pub open spec fn date_text_ok(s: Seq<char>) -> bool {
    &&& s.len() >= 10
    &&& all_digits(s.subrange(0, 4))
    &&& s[4] == '-'
    &&& all_digits(s.subrange(5, 7))
    &&& s[7] == '-'
    &&& all_digits(s.subrange(8, 10))
    &&& valid_date(
        dec_value(s.subrange(0, 4)),
        dec_value(s.subrange(5, 7)),
        dec_value(s.subrange(8, 10)),
    )
}

/// The trailing eight characters form a valid time.
pub open spec fn time_text_ok(s: Seq<char>) -> bool {
    let n = s.len() as int;
    &&& n >= 8
    &&& all_digits(s.subrange(n - 8, n - 6))
    &&& s[n - 6] == ':'
    &&& all_digits(s.subrange(n - 5, n - 3))
    &&& s[n - 3] == ':'
    &&& all_digits(s.subrange(n - 2, n))
    &&& valid_time(
        dec_value(s.subrange(n - 8, n - 6)),
        dec_value(s.subrange(n - 5, n - 3)),
        dec_value(s.subrange(n - 2, n)),
    )
}

/// A stem this grammar accepts.
pub open spec fn stem_ok(s: Seq<char>) -> bool {
    s.len() >= 10 && date_text_ok(s) && time_text_ok(s)
}

/// The datetime carried by an accepted stem.
pub open spec fn stem_datetime(s: Seq<char>) -> DateTime {
    let n = s.len() as int;
    DateTime {
        year: dec_value(s.subrange(0, 4)) as u32,
        month: dec_value(s.subrange(5, 7)) as u32,
        day: dec_value(s.subrange(8, 10)) as u32,
        hour: dec_value(s.subrange(n - 8, n - 6)) as u32,
        minute: dec_value(s.subrange(n - 5, n - 3)) as u32,
        second: dec_value(s.subrange(n - 2, n)) as u32,
    }
}

/// The stream tag carried by a stem: from the first `RTSP_` through the
/// next `-` (inclusive), or empty.
pub open spec fn rtsp_spec(s: Seq<char>) -> Seq<char> {
    let fi = first_match_from(s, "RTSP_"@, 0);
    if fi < 0 {
        Seq::<char>::empty()
    } else {
        let di = first_match_from(s.subrange(fi, s.len() as int), "-"@, 0);
        if di < 0 {
            Seq::<char>::empty()
        } else {
            s.subrange(fi, fi + di + 1)
        }
    }
}

impl ParsedFileName {
    /// Parse a path into its wall-clock datetime and stream tag.
    ///
    /// Succeeds exactly when the stem carries a valid date in its first
    /// ten characters and a valid time in its last eight.
    pub fn parse(path: &str) -> (r: Result<ParsedFileName, FileNameError>)
        ensures
            r matches Ok(p) ==> {
                &&& stem_ok(stem_spec(path@))
                &&& p.file_path@ == path@
                &&& p.file_date == stem_datetime(stem_spec(path@))
                &&& p.file_date.valid()
                &&& p.rtsp_id@ == rtsp_spec(stem_spec(path@))
            },
            r matches Err(e) ==> !stem_ok(stem_spec(path@)) && {
                ||| e == FileNameError::TooShort && stem_spec(path@).len() < 10
                ||| e == FileNameError::BadDate && stem_spec(path@).len() >= 10
                    && !date_text_ok(stem_spec(path@))
                ||| e == FileNameError::BadTime && stem_spec(path@).len() >= 10
                    && date_text_ok(stem_spec(path@)) && !time_text_ok(stem_spec(path@))
            },
    {
        let plen = path.unicode_len();
        let base = match rfind_char(path, '/') {
            Some(i) => path.substring_char(i + 1, plen),
            None => path,
        };
        proof {
            crate::text::lemma_last_index_of_props(path@, '/');
            if last_index_of(path@, '/') == -1 {
                assert(path@.subrange(0, path@.len() as int) =~= path@);
            }
            assert(base@ == basename_spec(path@));
        }
        let stem = match rfind_char(base, '.') {
            Some(i) => base.substring_char(0, i),
            None => base,
        };
        proof {
            crate::text::lemma_last_index_of_props(base@, '.');
            assert(stem@ == stem_spec(path@)) by {
                if last_index_of(base@, '.') >= 0 {
                    assert(base@.subrange(0, last_index_of(base@, '.'))
                        =~= base@.take(last_index_of(base@, '.')));
                }
            }
        }
        let ghost gstem = stem_spec(path@);
        let n = stem.unicode_len();
        if n < 10 {
            return Err(FileNameError::TooShort);
        }

        // Date: positions 0..10 of the stem.
        let ytxt = stem.substring_char(0, 4);
        let year = match str_parse_u32(ytxt) {
            Some(v) => v,
            None => {
                proof {
                    lemma_no_date(gstem);
                }
                return Err(FileNameError::BadDate);
            }
        };
        let mtxt = stem.substring_char(5, 7);
        let month = match str_parse_u32(mtxt) {
            Some(v) => v,
            None => {
                proof {
                    lemma_no_date(gstem);
                }
                return Err(FileNameError::BadDate);
            }
        };
        let dtxt = stem.substring_char(8, 10);
        let day = match str_parse_u32(dtxt) {
            Some(v) => v,
            None => {
                proof {
                    lemma_no_date(gstem);
                }
                return Err(FileNameError::BadDate);
            }
        };
        proof {
            lemma_dec4_roundtrip(gstem.subrange(0, 4));
            lemma_dec2_roundtrip(gstem.subrange(5, 7));
            lemma_dec2_roundtrip(gstem.subrange(8, 10));
        }
        if !(stem.get_char(4) == '-' && stem.get_char(7) == '-') {
            return Err(FileNameError::BadDate);
        }
        if !(1 <= year && year <= 9999 && 1 <= month && month <= 12 && 1 <= day) {
            return Err(FileNameError::BadDate);
        }
        if day > crate::date::month_length(year, month) {
            return Err(FileNameError::BadDate);
        }

        // Time: the last eight characters of the stem.
        let htxt = stem.substring_char(n - 8, n - 6);
        let hour = match str_parse_u32(htxt) {
            Some(v) => v,
            None => {
                proof {
                    lemma_no_time(gstem);
                }
                return Err(FileNameError::BadTime);
            }
        };
        let mitxt = stem.substring_char(n - 5, n - 3);
        let minute = match str_parse_u32(mitxt) {
            Some(v) => v,
            None => {
                proof {
                    lemma_no_time(gstem);
                }
                return Err(FileNameError::BadTime);
            }
        };
        let stxt = stem.substring_char(n - 2, n);
        let second = match str_parse_u32(stxt) {
            Some(v) => v,
            None => {
                proof {
                    lemma_no_time(gstem);
                }
                return Err(FileNameError::BadTime);
            }
        };
        proof {
            lemma_dec2_roundtrip(gstem.subrange(gstem.len() - 8, gstem.len() - 6));
            lemma_dec2_roundtrip(gstem.subrange(gstem.len() - 5, gstem.len() - 3));
            lemma_dec2_roundtrip(gstem.subrange(gstem.len() - 2, gstem.len() as int));
        }
        if !(stem.get_char(n - 6) == ':' && stem.get_char(n - 3) == ':') {
            return Err(FileNameError::BadTime);
        }
        if !(hour < 24 && minute < 60 && second < 60) {
            return Err(FileNameError::BadTime);
        }

        // Stream tag.
        let rtsp_id = match find_sub(stem, "RTSP_") {
            Some(i) => {
                proof {
                    reveal_strlit("RTSP_");
                    reveal_strlit("-");
                    lemma_find_sub_first_match(stem@, "RTSP_"@, Some(i));
                }
                let rest = stem.substring_char(i, n);
                match find_sub(rest, "-") {
                    Some(j) => {
                        proof {
                            lemma_find_sub_first_match(rest@, "-"@, Some(j));
                            assert(i + j < n) by {
                                assert(matches_at(rest@, "-"@, j as int));
                            }
                        }
                        let tag = stem.substring_char(i, i + j + 1);
                        proof {
                            assert(tag@ =~= rtsp_spec(gstem));
                        }
                        String::from_str(tag)
                    }
                    None => {
                        proof {
                            lemma_find_sub_first_match(rest@, "-"@, None);
                        }
                        String::new()
                    }
                }
            }
            None => {
                proof {
                    lemma_find_sub_first_match(stem@, "RTSP_"@, None);
                }
                String::new()
            }
        };

        Ok(ParsedFileName {
            file_path: String::from_str(path),
            file_date: DateTime { year, month, day, hour, minute, second },
            rtsp_id,
        })
    }

    /// ISO week number of the filename's date.
    pub fn week(&self) -> (r: u32)
        requires
            self.file_date.valid(),
        ensures
            r as int == crate::date::iso_week_of(
                self.file_date.year as int,
                self.file_date.month as int,
                self.file_date.day as int,
            ),
            1 <= r <= 53,
    {
        self.file_date.week()
    }

    /// Naive ISO-8601 rendering of the filename's datetime.
    pub fn iso8601(&self) -> (r: String)
        requires
            self.file_date.valid(),
        ensures
            r@ == date_chars(
                self.file_date.year as nat,
                self.file_date.month as nat,
                self.file_date.day as nat,
            ) + seq!['T'] + time_chars(
                self.file_date.hour as nat,
                self.file_date.minute as nat,
                self.file_date.second as nat,
            ),
    {
        self.file_date.iso8601()
    }
}

/// If one of the three date fields is not an all-digit group, the date
/// text is not accepted.
proof fn lemma_no_date(s: Seq<char>)
    requires
        s.len() >= 10,
        !all_digits(s.subrange(0, 4)) || dec_value(s.subrange(0, 4)) > u32::MAX
            || !all_digits(s.subrange(5, 7)) || dec_value(s.subrange(5, 7)) > u32::MAX
            || !all_digits(s.subrange(8, 10)) || dec_value(s.subrange(8, 10)) > u32::MAX,
    ensures
        !date_text_ok(s),
{
    if all_digits(s.subrange(0, 4)) {
        lemma_dec4_roundtrip(s.subrange(0, 4));
    }
    if all_digits(s.subrange(5, 7)) {
        lemma_dec2_roundtrip(s.subrange(5, 7));
    }
    if all_digits(s.subrange(8, 10)) {
        lemma_dec2_roundtrip(s.subrange(8, 10));
    }
}

/// If one of the three time fields is not an all-digit group, the time
/// text is not accepted.
proof fn lemma_no_time(s: Seq<char>)
    requires
        s.len() >= 8,
        !all_digits(s.subrange(s.len() - 8, s.len() - 6))
            || dec_value(s.subrange(s.len() - 8, s.len() - 6)) > u32::MAX
            || !all_digits(s.subrange(s.len() - 5, s.len() - 3))
            || dec_value(s.subrange(s.len() - 5, s.len() - 3)) > u32::MAX
            || !all_digits(s.subrange(s.len() - 2, s.len() as int))
            || dec_value(s.subrange(s.len() - 2, s.len() as int)) > u32::MAX,
    ensures
        !time_text_ok(s),
{
    let n = s.len() as int;
    if all_digits(s.subrange(n - 8, n - 6)) {
        lemma_dec2_roundtrip(s.subrange(n - 8, n - 6));
    }
    if all_digits(s.subrange(n - 5, n - 3)) {
        lemma_dec2_roundtrip(s.subrange(n - 5, n - 3));
    }
    if all_digits(s.subrange(n - 2, n)) {
        lemma_dec2_roundtrip(s.subrange(n - 2, n));
    }
}

/// Round-trip law: for any stem the grammar accepts, re-rendering the
/// parsed datetime reproduces the stem's date and time components
/// byte-for-byte.
pub proof fn lemma_filename_round_trip(stem: Seq<char>)
    requires
        stem_ok(stem),
    ensures
        ({
            let dt = stem_datetime(stem);
            date_chars(dt.year as nat, dt.month as nat, dt.day as nat) == stem.take(10)
                && time_chars(dt.hour as nat, dt.minute as nat, dt.second as nat)
                    == stem.subrange(stem.len() - 8, stem.len() as int)
        }),
{
    let n = stem.len() as int;
    let dt = stem_datetime(stem);
    lemma_dec4_roundtrip(stem.subrange(0, 4));
    lemma_dec2_roundtrip(stem.subrange(5, 7));
    lemma_dec2_roundtrip(stem.subrange(8, 10));
    lemma_dec2_roundtrip(stem.subrange(n - 8, n - 6));
    lemma_dec2_roundtrip(stem.subrange(n - 5, n - 3));
    lemma_dec2_roundtrip(stem.subrange(n - 2, n));
    assert(date_chars(dt.year as nat, dt.month as nat, dt.day as nat) =~= stem.take(10));
    assert(time_chars(dt.hour as nat, dt.minute as nat, dt.second as nat)
        =~= stem.subrange(n - 8, n));
}

} // verus!
