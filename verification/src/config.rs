//! Application configuration: a `KEY=VALUE` file shared by the capture
//! and processing nodes.
//!
//! Lines starting with `#` are comments, values may be double-quoted,
//! unknown keys are ignored. Fractional settings (coordinates,
//! thresholds, overlap) are carried as scaled integers: micro-units
//! for values of unit scale, thousandths for the sensitivity,
//! hundredths of a percent for the privacy threshold.

use vstd::prelude::*;
use crate::strmap::{StrMap, assoc_get};
use crate::text::{
    all_digits, dec_value, find_char, first_index_of, lines_of, split_lines, str_parse_u32,
    str_parse_u64, trim, trim_spec,
};

verus! {

// ── quote stripping ──────────────────────────────────────────────────

/// Length of the run of `c` at the front of `s`.
pub open spec fn lead_run(s: Seq<char>, c: char) -> int
    decreases s.len(),
{
    if s.len() == 0 {
        0
    } else if s.first() == c {
        1 + lead_run(s.drop_first(), c)
    } else {
        0
    }
}

/// Length of the run of `c` at the back of `s`.
pub open spec fn trail_run(s: Seq<char>, c: char) -> int
    decreases s.len(),
{
    if s.len() == 0 {
        0
    } else if s.last() == c {
        1 + trail_run(s.drop_last(), c)
    } else {
        0
    }
}

/// `s` with every leading and trailing `c` removed.
pub open spec fn strip_matches_spec(s: Seq<char>, c: char) -> Seq<char> {
    let rest = s.skip(lead_run(s, c));
    rest.take(rest.len() - trail_run(rest, c))
}

proof fn lemma_lead_run_props(s: Seq<char>, c: char)
    ensures
        0 <= lead_run(s, c) <= s.len(),
        forall|j: int| 0 <= j < lead_run(s, c) ==> s[j] == c,
        lead_run(s, c) < s.len() ==> s[lead_run(s, c)] != c,
    decreases s.len(),
{
    if s.len() > 0 && s.first() == c {
        lemma_lead_run_props(s.drop_first(), c);
        let lr = lead_run(s, c);
        assert forall|j: int| 0 <= j < lr implies s[j] == c by {
            if j >= 1 {
                assert(s.drop_first()[j - 1] == s[j]);
            }
        }
        if lr < s.len() {
            assert(s.drop_first()[lr - 1] == s[lr]);
        }
    }
}

proof fn lemma_trail_run_props(s: Seq<char>, c: char)
    ensures
        0 <= trail_run(s, c) <= s.len(),
        forall|j: int| s.len() - trail_run(s, c) <= j < s.len() ==> s[j] == c,
        trail_run(s, c) < s.len() ==> s[s.len() - trail_run(s, c) - 1] != c,
    decreases s.len(),
{
    if s.len() > 0 && s.last() == c {
        lemma_trail_run_props(s.drop_last(), c);
        assert(forall|j: int| 0 <= j < s.len() - 1 ==> s.drop_last()[j] == s[j]);
    }
}

/// Strip every leading and trailing `c`.
pub fn strip_matches(s: &str, c: char) -> (r: &str)
    ensures
        r@ == strip_matches_spec(s@, c),
{
    let n = s.unicode_len();
    let mut a: usize = 0;
    let mut stop_a: bool = false;
    while !stop_a && a < n
        invariant
            0 <= a <= n,
            n == s@.len(),
            forall|j: int| 0 <= j < a ==> s@[j] == c,
            stop_a ==> a < n && s@[a as int] != c,
        decreases (if stop_a { 0int } else { 1int }), n - a,
    {
        if s.get_char(a) != c {
            stop_a = true;
        } else {
            a = a + 1;
        }
    }
    proof {
        lemma_lead_run_props(s@, c);
        let lr = lead_run(s@, c);
        assert(lr == a) by {
            if lr < a {
                assert(s@[lr] == c);
            } else if lr > a {
                assert(stop_a || a == n);
                assert(s@[a as int] == c);
            }
        }
    }
    let mut b: usize = n;
    let mut stop_b: bool = false;
    while !stop_b && b > a
        invariant
            a <= b <= n,
            n == s@.len(),
            forall|j: int| b <= j < n ==> s@[j] == c,
            stop_b ==> b > a && s@[b - 1] != c,
        decreases (if stop_b { 0int } else { 1int }), b,
    {
        if s.get_char(b - 1) != c {
            stop_b = true;
        } else {
            b = b - 1;
        }
    }
    proof {
        let rest = s@.skip(a as int);
        lemma_trail_run_props(rest, c);
        let tr = trail_run(rest, c);
        assert(forall|j: int| 0 <= j < rest.len() ==> rest[j] == s@[a + j]);
        assert(rest.len() - tr == b - a) by {
            if rest.len() - tr < b - a {
                // The character before position b is inside the trailing
                // run but the loop saw it differ from c.
                assert(stop_b);
                assert(rest[b - a - 1] == c);
                assert(s@[b - 1] == c);
            } else if rest.len() - tr > b - a {
                assert(rest[rest.len() - tr - 1] != c);
                assert(s@[a + (rest.len() - tr - 1)] == c);
            }
        }
    }
    let out = s.substring_char(a, b);
    proof {
        assert(out@ =~= strip_matches_spec(s@, c));
    }
    out
}

// ── the KEY=VALUE grammar ────────────────────────────────────────────

/// The pair one line contributes: none for blanks and comments and
/// lines without `=`; otherwise the trimmed key and the trimmed,
/// unquoted value.
pub open spec fn conf_line_pair(l: Seq<char>) -> Option<(Seq<char>, Seq<char>)> {
    let t = trim_spec(l);
    if t.len() == 0 || t[0] == '#' {
        None
    } else {
        let eq = first_index_of(t, '=');
        if eq < 0 {
            None
        } else {
            let key = trim_spec(t.take(eq));
            let val = strip_matches_spec(trim_spec(t.skip(eq + 1)), '"');
            Some((key, val))
        }
    }
}

/// The key/value pairs of a whole file, in line order.
pub open spec fn conf_pairs(ls: Seq<Seq<char>>) -> Seq<(Seq<char>, Seq<char>)>
    decreases ls.len(),
{
    if ls.len() == 0 {
        Seq::empty()
    } else {
        let head: Seq<(Seq<char>, Seq<char>)> = match conf_line_pair(ls.first()) {
            Some(p) => seq![p],
            None => Seq::empty(),
        };
        head + conf_pairs(ls.drop_first())
    }
}

/// Parse a `KEY=VALUE` configuration text into a map; a later line
/// with the same key wins.
pub fn parse_conf(text: &str) -> (r: StrMap)
    ensures
        r.view_pairs() == conf_pairs(lines_of(text@)),
{
    let lines = split_lines(text);
    let mut out = StrMap::new();
    let mut i: usize = 0;
    let ghost ls = lines_of(text@);
    proof {
        assert(ls.skip(0) =~= ls);
        assert(Seq::<(Seq<char>, Seq<char>)>::empty() + conf_pairs(ls.skip(0))
            =~= conf_pairs(ls));
    }
    while i < lines.len()
        invariant
            0 <= i <= lines@.len(),
            lines@.map_values(|l: String| l@) == ls,
            ls == lines_of(text@),
            out.view_pairs() + conf_pairs(ls.skip(i as int)) == conf_pairs(ls),
        decreases lines@.len() - i,
    {
        proof {
            assert(ls.skip(i as int).first() == ls[i as int]);
            assert(ls.skip(i as int).drop_first() =~= ls.skip(i + 1));
            assert(lines@.map_values(|l: String| l@)[i as int] == lines@[i as int]@);
        }
        let t = trim(lines[i].as_str());
        let tn = t.unicode_len();
        if tn == 0 || t.get_char(0) == '#' {
            proof {
                assert(conf_line_pair(ls[i as int]) is None);
                assert(out.view_pairs() + (Seq::<(Seq<char>, Seq<char>)>::empty()
                    + conf_pairs(ls.skip(i + 1)))
                    =~= out.view_pairs() + conf_pairs(ls.skip(i + 1)));
            }
        } else {
            match find_char(t, '=') {
                Some(eq) => {
                    let rawkey = t.substring_char(0, eq);
                    let key = trim(rawkey);
                    let rawval = t.substring_char(eq + 1, tn);
                    let tval = trim(rawval);
                    let val = strip_matches(tval, '"');
                    proof {
                        assert(rawkey@ =~= trim_spec(ls[i as int]).take(eq as int));
                        assert(rawval@ =~= trim_spec(ls[i as int]).skip(eq + 1));
                        assert(conf_line_pair(ls[i as int]) == Some((key@, val@)));
                    }
                    let ghost before = out.view_pairs();
                    out.insert(String::from_str(key), String::from_str(val));
                    proof {
                        assert(before.push((key@, val@)) + conf_pairs(ls.skip(i + 1))
                            =~= before + (seq![(key@, val@)] + conf_pairs(ls.skip(i + 1))));
                    }
                }
                None => {
                    proof {
                        assert(conf_line_pair(ls[i as int]) is None);
                        assert(out.view_pairs() + (Seq::<(Seq<char>, Seq<char>)>::empty()
                            + conf_pairs(ls.skip(i + 1)))
                            =~= out.view_pairs() + conf_pairs(ls.skip(i + 1)));
                    }
                }
            }
        }
        i = i + 1;
    }
    proof {
        assert(ls.skip(lines@.len() as int) =~= Seq::<Seq<char>>::empty());
        assert(conf_pairs(Seq::<Seq<char>>::empty()) == Seq::<(Seq<char>, Seq<char>)>::empty());
        assert(out.view_pairs() + Seq::<(Seq<char>, Seq<char>)>::empty()
            =~= out.view_pairs());
    }
    out
}

// ── decimal settings ─────────────────────────────────────────────────

/// Largest whole-unit magnitude a micro-scaled `i64` can carry.
pub open spec fn micro_whole_max() -> int {
    9223372036853
}

/// Ten to the `e`-th, for the fractional padding.
pub open spec fn pow10(e: int) -> int
    decreases e,
{
    if e <= 0 {
        1
    } else {
        10 * pow10(e - 1)
    }
}

/// A decimal literal read into micro-units: an optional `-`, an
/// integer part, optionally a `.` and up to six fraction digits, at
/// least one digit in all. Values whose whole part exceeds what an
/// `i64` of micro-units can carry are rejected.
pub open spec fn decimal_micro(s: Seq<char>) -> Option<int> {
    let neg = s.len() > 0 && s[0] == '-';
    let body = if neg {
        s.skip(1)
    } else {
        s
    };
    let dot = first_index_of(body, '.');
    let ip = if dot < 0 {
        body
    } else {
        body.take(dot)
    };
    let fp = if dot < 0 {
        Seq::<char>::empty()
    } else {
        body.skip(dot + 1)
    };
    if ip.len() + fp.len() == 0 || !all_digits(ip) || !all_digits(fp) || fp.len() > 6
        || dec_value(ip) > micro_whole_max() {
        None
    } else {
        let v = dec_value(ip) * 1000000 + dec_value(fp) * pow10(6 - fp.len());
        Some(if neg { -v } else { v })
    }
}

/// Parse a decimal setting into micro-units.
pub fn parse_decimal_micro(s: &str) -> (r: Option<i64>)
    ensures
        match r {
            Some(v) => decimal_micro(s@) == Some(v as int),
            None => decimal_micro(s@) is None,
        },
{
    let n = s.unicode_len();
    let neg = n > 0 && s.get_char(0) == '-';
    let body = if neg {
        s.substring_char(1, n)
    } else {
        s
    };
    proof {
        if neg {
            assert(body@ =~= s@.skip(1));
        } else {
            assert(body@ =~= s@);
        }
    }
    let bn = body.unicode_len();
    let (ip, fp) = match find_char(body, '.') {
        Some(dot) => {
            let a = body.substring_char(0, dot);
            let b = body.substring_char(dot + 1, bn);
            proof {
                assert(a@ =~= body@.take(first_index_of(body@, '.')));
                assert(b@ =~= body@.skip(first_index_of(body@, '.') + 1));
            }
            (a, b)
        }
        None => {
            let b = body.substring_char(bn, bn);
            proof {
                assert(b@ =~= Seq::<char>::empty());
            }
            (body, b)
        }
    };
    let ilen = ip.unicode_len();
    let flen = fp.unicode_len();
    if ilen + flen == 0 || flen > 6 {
        proof {
            lemma_decimal_none(s@, neg, ip@, fp@);
        }
        return None;
    }
    let iv: u64 = if ilen == 0 {
        0
    } else {
        match str_parse_u64(ip) {
            Some(v) => v,
            None => {
                proof {
                    if all_digits(ip@) {
                        lemma_dec_value_vs_u64(ip@);
                    }
                    lemma_decimal_none(s@, neg, ip@, fp@);
                }
                return None;
            }
        }
    };
    if iv > 9223372036853 {
        proof {
            lemma_decimal_none(s@, neg, ip@, fp@);
        }
        return None;
    }
    let fv: u64 = if flen == 0 {
        0
    } else {
        match str_parse_u64(fp) {
            Some(v) => v,
            None => {
                proof {
                    lemma_frac_fits(fp@);
                    lemma_decimal_none(s@, neg, ip@, fp@);
                }
                return None;
            }
        }
    };
    proof {
        if flen > 0 {
            lemma_frac_fits(fp@);
        }
    }
    let scale: u64 = pow10_exec(6 - flen);
    proof {
        lemma_pow10_bounds(6 - flen as int);
        if flen == 0 {
            assert(fv == 0);
        } else {
            lemma_frac_fits(fp@);
        }
        assert((fv as int) < pow10(flen as int));
        assert(fv * scale < 1000000) by (nonlinear_arith)
            requires
                0 <= fv,
                (fv as int) < pow10(flen as int),
                scale as int == pow10(6 - flen as int),
                scale >= 1,
                pow10(flen as int) * pow10(6 - flen as int) == 1000000;
    }
    let v: i64 = (iv * 1000000 + fv * scale) as i64;
    if neg {
        Some(-v)
    } else {
        Some(v)
    }
}

/// All six-or-fewer-digit fractions fit a `u64`.
proof fn lemma_frac_fits(fp: Seq<char>)
    requires
        fp.len() >= 1,
        fp.len() <= 6,
    ensures
        all_digits(fp) ==> dec_value(fp) < pow10(fp.len() as int) <= 1000000,
{
    if all_digits(fp) {
        lemma_dec_value_bound(fp);
        lemma_pow10_mono(fp.len() as int, 6);
        lemma_pow10_vals();
    }
}

/// A digit string's value is below ten to its length.
proof fn lemma_dec_value_bound(s: Seq<char>)
    requires
        all_digits(s),
    ensures
        0 <= dec_value(s) < pow10(s.len() as int),
    decreases s.len(),
{
    if s.len() == 0 {
    } else {
        assert(all_digits(s.drop_last())) by {
            assert(forall|i: int| 0 <= i < s.len() - 1 ==> s.drop_last()[i] == s[i]);
        }
        lemma_dec_value_bound(s.drop_last());
        assert(pow10(s.len() as int) == 10 * pow10(s.len() - 1));
    }
}

proof fn lemma_pow10_vals()
    ensures
        pow10(0) == 1,
        pow10(1) == 10,
        pow10(2) == 100,
        pow10(3) == 1000,
        pow10(4) == 10000,
        pow10(5) == 100000,
        pow10(6) == 1000000,
{
    assert(pow10(0) == 1);
    assert(pow10(1) == 10);
    assert(pow10(2) == 100);
    assert(pow10(3) == 1000);
    assert(pow10(4) == 10000);
    assert(pow10(5) == 100000);
    assert(pow10(6) == 1000000);
}

proof fn lemma_pow10_mono(a: int, b: int)
    requires
        0 <= a <= b,
    ensures
        pow10(a) <= pow10(b),
        pow10(a) >= 1,
    decreases b,
{
    if a < b {
        lemma_pow10_mono(a, b - 1);
    } else if a > 0 {
        lemma_pow10_mono(a - 1, a - 1);
    }
}

proof fn lemma_pow10_bounds(e: int)
    requires
        0 <= e <= 6,
    ensures
        1 <= pow10(e) <= 1000000,
        pow10(6 - e) * pow10(e) == 1000000,
{
    lemma_pow10_mono(e, 6);
    lemma_pow10_prod(6 - e, e);
    lemma_pow10_vals();
}

proof fn lemma_pow10_prod(a: int, b: int)
    requires
        0 <= a,
        0 <= b,
    ensures
        pow10(a) * pow10(b) == pow10(a + b),
    decreases a,
{
    if a > 0 {
        lemma_pow10_prod(a - 1, b);
        assert(pow10(a) * pow10(b) == 10 * pow10(a - 1) * pow10(b));
        assert(10 * pow10(a - 1) * pow10(b) == 10 * (pow10(a - 1) * pow10(b)))
            by (nonlinear_arith);
    }
}

/// A u64-parse failure on an all-digit string means the value passes
/// the whole-part cap.
proof fn lemma_dec_value_vs_u64(ip: Seq<char>)
    requires
        all_digits(ip),
        dec_value(ip) > u64::MAX,
    ensures
        dec_value(ip) > micro_whole_max(),
{
}

/// The spec rejects whenever the executable path rejects.
proof fn lemma_decimal_none(s: Seq<char>, neg: bool, ip: Seq<char>, fp: Seq<char>)
    requires
        neg == (s.len() > 0 && s[0] == '-'),
        ({
            let body = if neg { s.skip(1) } else { s };
            let dot = first_index_of(body, '.');
            ip == (if dot < 0 { body } else { body.take(dot) })
                && fp == (if dot < 0 { Seq::<char>::empty() } else { body.skip(dot + 1) })
        }),
        ip.len() + fp.len() == 0 || fp.len() > 6 || !all_digits(ip) || !all_digits(fp)
            || dec_value(ip) > micro_whole_max(),
    ensures
        decimal_micro(s) is None,
{
    if ip.len() > 0 && all_digits(ip) && dec_value(ip) > u64::MAX {
        lemma_dec_value_vs_u64(ip);
    }
}

// ── typed settings ───────────────────────────────────────────────────

/// Case-insensitive equality of two ASCII characters.
pub open spec fn eq_ci_char(a: char, b: char) -> bool {
    a == b || ('A' <= a <= 'Z' && b as int == a as int + 32) || ('A' <= b <= 'Z' && a as int
        == b as int + 32)
}

/// ASCII-case-insensitive string equality.
pub open spec fn ascii_ieq(a: Seq<char>, b: Seq<char>) -> bool {
    a.len() == b.len() && (forall|i: int| 0 <= i < a.len() ==> eq_ci_char(#[trigger] a[i], b[i]))
}

/// Compare two strings ignoring ASCII case.
pub fn str_eq_ci(a: &str, b: &str) -> (r: bool)
    ensures
        r == ascii_ieq(a@, b@),
{
    let n = a.unicode_len();
    if b.unicode_len() != n {
        return false;
    }
    let mut i: usize = 0;
    while i < n
        invariant
            0 <= i <= n,
            n == a@.len() == b@.len(),
            forall|j: int| 0 <= j < i ==> eq_ci_char(#[trigger] a@[j], b@[j]),
        decreases n - i,
    {
        let x = a.get_char(i);
        let y = b.get_char(i);
        let same = x == y || ('A' <= x && x <= 'Z' && y as u32 == x as u32 + 32) || ('A' <= y
            && y <= 'Z' && x as u32 == y as u32 + 32);
        if !same {
            return false;
        }
        i = i + 1;
    }
    true
}

/// A configuration value that reads as true: `1`, or `true` in any
/// case.
pub open spec fn truthy(v: Seq<char>) -> bool {
    v == "1"@ || ascii_ieq(v, "true"@)
}

/// The comma-separated fields of a value, split only (not yet
/// trimmed or filtered).
pub open spec fn comma_fields(s: Seq<char>) -> Seq<Seq<char>>
    decreases s.len(),
{
    let fi = first_index_of(s, ',');
    if 0 <= fi < s.len() {
        seq![s.take(fi)] + comma_fields(s.skip(fi + 1))
    } else {
        seq![s]
    }
}

/// Trimmed, non-empty comma-separated entries.
pub open spec fn csv_items(fields: Seq<Seq<char>>) -> Seq<Seq<char>>
    decreases fields.len(),
{
    if fields.len() == 0 {
        Seq::empty()
    } else {
        let t = trim_spec(fields.first());
        let head: Seq<Seq<char>> = if t.len() == 0 {
            Seq::empty()
        } else {
            seq![t]
        };
        head + csv_items(fields.drop_first())
    }
}

/// Split a comma-separated value into trimmed, non-empty entries.
pub fn parse_csv(s: &str) -> (r: Vec<String>)
    ensures
        r@.map_values(|x: String| x@) == csv_items(comma_fields(s@)),
{
    let mut out: Vec<String> = Vec::new();
    let n = s.unicode_len();
    let mut pos: usize = 0;
    let mut finished: bool = false;
    let ghost fields = comma_fields(s@);
    proof {
        assert(s@.skip(0) =~= s@);
        assert(out@.map_values(|x: String| x@) + csv_items(comma_fields(s@.skip(0)))
            =~= csv_items(fields));
    }
    while !finished
        invariant
            0 <= pos <= n,
            n == s@.len(),
            fields == comma_fields(s@),
            !finished ==> out@.map_values(|x: String| x@)
                + csv_items(comma_fields(s@.skip(pos as int))) == csv_items(fields),
            finished ==> out@.map_values(|x: String| x@) == csv_items(fields),
        decreases (if finished { 0int } else { 1int }), n - pos,
    {
        let rest = s.substring_char(pos, n);
        proof {
            assert(rest@ == s@.skip(pos as int));
        }
        let piece = match find_char(rest, ',') {
            Some(i) => {
                let raw = rest.substring_char(0, i);
                proof {
                    assert(raw@ =~= rest@.take(i as int));
                    assert(rest@.skip(i + 1) =~= s@.skip(pos + i + 1));
                }
                (raw, pos + i + 1, false)
            }
            None => (rest, n, true),
        };
        let (raw, next_pos, last) = piece;
        let t = trim(raw);
        proof {
            let cf = comma_fields(rest@);
            if last {
                assert(cf == seq![rest@]);
                assert(seq![rest@].first() == rest@);
                assert(seq![rest@].drop_first() =~= Seq::<Seq<char>>::empty());
                assert(csv_items(cf) == (if trim_spec(rest@).len() == 0 {
                    Seq::<Seq<char>>::empty()
                } else {
                    seq![trim_spec(rest@)]
                }) + csv_items(Seq::<Seq<char>>::empty()));
            } else {
                assert(cf == seq![raw@] + comma_fields(s@.skip(next_pos as int)));
                assert(cf.first() == raw@);
                assert(cf.drop_first() =~= comma_fields(s@.skip(next_pos as int)));
            }
        }
        if t.unicode_len() > 0 {
            let ghost before = out@.map_values(|x: String| x@);
            out.push(String::from_str(t));
            proof {
                assert(out@.map_values(|x: String| x@) =~= before.push(t@));
            }
        }
        proof {
            let done = out@.map_values(|x: String| x@);
            if last {
                assert(csv_items(Seq::<Seq<char>>::empty()) == Seq::<Seq<char>>::empty());
                assert(done =~= csv_items(fields));
            } else {
                assert(done + csv_items(comma_fields(s@.skip(next_pos as int)))
                    =~= csv_items(fields));
            }
        }
        if last {
            finished = true;
        } else {
            pos = next_pos;
        }
    }
    out
}

/// The string value for `key`, or a default.
pub open spec fn cfg_string_or(
    pairs: Seq<(Seq<char>, Seq<char>)>,
    key: Seq<char>,
    dflt: Seq<char>,
) -> Seq<char> {
    match assoc_get(pairs, key) {
        Some(v) => v,
        None => dflt,
    }
}

/// A micro-scaled decimal value for `key`, or a default when absent or
/// malformed.
pub open spec fn cfg_micro_or(
    pairs: Seq<(Seq<char>, Seq<char>)>,
    key: Seq<char>,
    dflt: int,
) -> int {
    match assoc_get(pairs, key) {
        Some(v) => match decimal_micro(v) {
            Some(x) => x,
            None => dflt,
        },
        None => dflt,
    }
}

/// An unsigned integer value for `key`, or a default when absent or
/// malformed.
pub open spec fn cfg_uint_or(
    pairs: Seq<(Seq<char>, Seq<char>)>,
    key: Seq<char>,
    bound: int,
    dflt: int,
) -> int {
    match assoc_get(pairs, key) {
        Some(v) => if v.len() >= 1 && all_digits(v) && dec_value(v) <= bound {
            dec_value(v)
        } else {
            dflt
        },
        None => dflt,
    }
}

/// A non-empty string value for `key`, when present.
pub open spec fn cfg_opt(pairs: Seq<(Seq<char>, Seq<char>)>, key: Seq<char>) -> Option<
    Seq<char>,
> {
    match assoc_get(pairs, key) {
        Some(v) => if v.len() > 0 {
            Some(v)
        } else {
            None
        },
        None => None,
    }
}

/// Application configuration, shared between capture and processing.
///
/// Fractional settings are scaled integers: coordinates, confidence,
/// overlap and the occurrence-gate threshold in millionths; the
/// sensitivity in thousandths; the privacy threshold in hundredths of
/// a percent.
pub struct Config {
    /// Micro-degrees; -1000000 is the unset sentinel.
    pub latitude_micro: i64,
    pub longitude_micro: i64,
    /// Detection threshold in millionths.
    pub confidence_micro: i64,
    /// User sensitivity in millionths.
    pub sensitivity_micro: i64,
    /// Chunk overlap in micro-seconds... carried in millionths of a
    /// second of overlap, i.e. microseconds.
    pub overlap_micro: i64,
    pub recording_length: u32,
    pub channels: u32,
    pub rec_card: Option<String>,
    pub recs_dir: String,
    pub extracted_dir: String,
    pub audio_fmt: String,
    pub rtsp_streams: Vec<String>,
    pub model_dir: String,
    pub database_lang: String,
    /// Occurrence-gate threshold in millionths.
    pub sf_thresh_micro: i64,
    pub data_model_version: u32,
    pub model_variant: Option<String>,
    pub raw_spectrogram: bool,
    /// Privacy threshold in millionths of a percent... carried in
    /// micro-percent.
    pub privacy_threshold_micro: i64,
    pub extraction_length: u32,
    pub birdweather_id: Option<String>,
    pub heartbeat_url: Option<String>,
    pub db_path: String,
    pub capture_listen_addr: String,
    pub capture_server_url: String,
    pub poll_interval_secs: u64,
}

impl Config {
    /// Default config path.
    pub fn default_path() -> (r: &'static str)
        ensures
            r@ == "/etc/gaia/gaia.conf"@,
    {
        "/etc/gaia/gaia.conf"
    }

    /// The user sensitivity in thousandths, clamped to the range the
    /// sigmoid transform accepts.
    pub fn sensitivity_milli(&self) -> (r: u32)
        ensures
            r as int == crate::model::clamp_sens(self.sensitivity_micro as int / 1000),
            500 <= r <= 1500,
    {
        if self.sensitivity_micro < 500000 {
            500
        } else if self.sensitivity_micro > 1500000 {
            1500
        } else {
            (self.sensitivity_micro / 1000) as u32
        }
    }

    /// The StreamData subdirectory under `recs_dir`.
    pub fn stream_data_dir(&self) -> (r: String)
        ensures
            r@ == self.recs_dir@ + "/StreamData"@,
    {
        let mut out = self.recs_dir.clone();
        out.append("/StreamData");
        out
    }

    /// Build the configuration from parsed `KEY=VALUE` pairs, filling
    /// defaults for anything absent or malformed.
    pub fn from_pairs(m: &StrMap) -> (r: Config)
        ensures
            ({
                let p = m.view_pairs();
                &&& r.latitude_micro as int == cfg_micro_or(p, "LATITUDE"@, -1000000)
                &&& r.longitude_micro as int == cfg_micro_or(p, "LONGITUDE"@, -1000000)
                &&& r.confidence_micro as int == cfg_micro_or(p, "CONFIDENCE"@, 700000)
                &&& r.sensitivity_micro as int == cfg_micro_or(p, "SENSITIVITY"@, 1250000)
                &&& r.overlap_micro as int == cfg_micro_or(p, "OVERLAP"@, 0)
                &&& r.recording_length as int == cfg_uint_or(
                    p, "RECORDING_LENGTH"@, u32::MAX as int, 15)
                &&& r.channels as int == cfg_uint_or(p, "CHANNELS"@, u32::MAX as int, 1)
                &&& opt_matches(r.rec_card, cfg_opt(p, "REC_CARD"@))
                &&& r.recs_dir@ == cfg_string_or(p, "RECS_DIR"@, "/data"@)
                &&& r.extracted_dir@ == (match cfg_opt(p, "EXTRACTED"@) {
                    Some(v) => v,
                    None => cfg_string_or(p, "RECS_DIR"@, "/data"@) + "/Extracted"@,
                })
                &&& r.audio_fmt@ == cfg_string_or(p, "AUDIOFMT"@, "wav"@)
                &&& r.rtsp_streams@.map_values(|x: String| x@) == (match assoc_get(
                    p, "RTSP_STREAMS"@) {
                    Some(v) => csv_items(comma_fields(v)),
                    None => Seq::<Seq<char>>::empty(),
                })
                &&& r.model_dir@ == cfg_string_or(p, "MODEL_DIR"@, "/models"@)
                &&& r.database_lang@ == cfg_string_or(p, "DATABASE_LANG"@, "en"@)
                &&& r.sf_thresh_micro as int == cfg_micro_or(p, "SF_THRESH"@, 30000)
                &&& r.data_model_version as int == cfg_uint_or(
                    p, "DATA_MODEL_VERSION"@, u32::MAX as int, 2)
                &&& opt_matches(r.model_variant, cfg_opt(p, "MODEL_VARIANT"@))
                &&& r.raw_spectrogram == (match assoc_get(p, "RAW_SPECTROGRAM"@) {
                    Some(v) => truthy(v),
                    None => false,
                })
                &&& r.privacy_threshold_micro as int == cfg_micro_or(
                    p, "PRIVACY_THRESHOLD"@, 0)
                &&& r.extraction_length as int == cfg_uint_or(
                    p, "EXTRACTION_LENGTH"@, u32::MAX as int, 6)
                &&& opt_matches(r.birdweather_id, cfg_opt(p, "BIRDWEATHER_ID"@))
                &&& opt_matches(r.heartbeat_url, cfg_opt(p, "HEARTBEAT_URL"@))
                &&& r.db_path@ == cfg_string_or(p, "DB_PATH"@, "/data/birds.db"@)
                &&& r.capture_listen_addr@ == cfg_string_or(
                    p, "CAPTURE_LISTEN_ADDR"@, "0.0.0.0:8089"@)
                &&& r.capture_server_url@ == cfg_string_or(
                    p, "CAPTURE_SERVER_URL"@, "http://capture:8089"@)
                &&& r.poll_interval_secs as int == cfg_uint_or(
                    p, "POLL_INTERVAL_SECS"@, u64::MAX as int, 5)
            }),
    {
        let recs_dir = get_string_or(m, "RECS_DIR", "/data");
        let extracted_dir = match m.get("EXTRACTED") {
            Some(v) if v.unicode_len() > 0 => v.clone(),
            _ => {
                let mut e = recs_dir.clone();
                e.append("/Extracted");
                e
            }
        };
        let rtsp_streams = match m.get("RTSP_STREAMS") {
            Some(v) => parse_csv(v.as_str()),
            None => Vec::new(),
        };
        proof {
            if assoc_get(m.view_pairs(), "RTSP_STREAMS"@) is None {
                assert(rtsp_streams@.map_values(|x: String| x@)
                    =~= Seq::<Seq<char>>::empty());
            }
        }
        Config {
            latitude_micro: get_micro_or(m, "LATITUDE", -1000000),
            longitude_micro: get_micro_or(m, "LONGITUDE", -1000000),
            confidence_micro: get_micro_or(m, "CONFIDENCE", 700000),
            sensitivity_micro: get_micro_or(m, "SENSITIVITY", 1250000),
            overlap_micro: get_micro_or(m, "OVERLAP", 0),
            recording_length: get_u32_or(m, "RECORDING_LENGTH", 15),
            channels: get_u32_or(m, "CHANNELS", 1),
            rec_card: get_opt(m, "REC_CARD"),
            recs_dir,
            extracted_dir,
            audio_fmt: get_string_or(m, "AUDIOFMT", "wav"),
            rtsp_streams,
            model_dir: get_string_or(m, "MODEL_DIR", "/models"),
            database_lang: get_string_or(m, "DATABASE_LANG", "en"),
            sf_thresh_micro: get_micro_or(m, "SF_THRESH", 30000),
            data_model_version: get_u32_or(m, "DATA_MODEL_VERSION", 2),
            model_variant: get_opt(m, "MODEL_VARIANT"),
            raw_spectrogram: match m.get("RAW_SPECTROGRAM") {
                Some(v) => {
                    crate::text::str_eq(v.as_str(), "1") || str_eq_ci(v.as_str(), "true")
                }
                None => false,
            },
            privacy_threshold_micro: get_micro_or(m, "PRIVACY_THRESHOLD", 0),
            extraction_length: get_u32_or(m, "EXTRACTION_LENGTH", 6),
            birdweather_id: get_opt(m, "BIRDWEATHER_ID"),
            heartbeat_url: get_opt(m, "HEARTBEAT_URL"),
            db_path: get_string_or(m, "DB_PATH", "/data/birds.db"),
            capture_listen_addr: get_string_or(m, "CAPTURE_LISTEN_ADDR", "0.0.0.0:8089"),
            capture_server_url: get_string_or(m, "CAPTURE_SERVER_URL", "http://capture:8089"),
            poll_interval_secs: get_u64_or(m, "POLL_INTERVAL_SECS", 5),
        }
    }
}

/// Lift an optional view to a predicate a caller can use.
pub open spec fn opt_matches(r: Option<String>, o: Option<Seq<char>>) -> bool {
    match (r, o) {
        (Some(s), Some(v)) => s@ == v,
        (None, None) => true,
        _ => false,
    }
}

fn get_string_or(m: &StrMap, key: &str, dflt: &str) -> (r: String)
    ensures
        r@ == cfg_string_or(m.view_pairs(), key@, dflt@),
{
    match m.get(key) {
        Some(v) => v.clone(),
        None => String::from_str(dflt),
    }
}

fn get_micro_or(m: &StrMap, key: &str, dflt: i64) -> (r: i64)
    ensures
        r as int == cfg_micro_or(m.view_pairs(), key@, dflt as int),
{
    match m.get(key) {
        Some(v) => match parse_decimal_micro(v.as_str()) {
            Some(x) => x,
            None => dflt,
        },
        None => dflt,
    }
}

fn get_u32_or(m: &StrMap, key: &str, dflt: u32) -> (r: u32)
    ensures
        r as int == cfg_uint_or(m.view_pairs(), key@, u32::MAX as int, dflt as int),
{
    match m.get(key) {
        Some(v) => match str_parse_u32(v.as_str()) {
            Some(x) => x,
            None => dflt,
        },
        None => dflt,
    }
}

fn get_u64_or(m: &StrMap, key: &str, dflt: u64) -> (r: u64)
    ensures
        r as int == cfg_uint_or(m.view_pairs(), key@, u64::MAX as int, dflt as int),
{
    match m.get(key) {
        Some(v) => match str_parse_u64(v.as_str()) {
            Some(x) => x,
            None => dflt,
        },
        None => dflt,
    }
}

fn get_opt(m: &StrMap, key: &str) -> (r: Option<String>)
    ensures
        opt_matches(r, cfg_opt(m.view_pairs(), key@)),
{
    match m.get(key) {
        Some(v) => {
            if v.unicode_len() > 0 {
                Some(v.clone())
            } else {
                None
            }
        }
        None => None,
    }
}

/// Executable ten-to-the-`e` for small exponents.
fn pow10_exec(e: usize) -> (r: u64)
    requires
        e <= 6,
    ensures
        r as int == pow10(e as int),
{
    proof {
        lemma_pow10_vals();
    }
    if e == 0 { 1 }
    else if e == 1 { 10 }
    else if e == 2 { 100 }
    else if e == 3 { 1000 }
    else if e == 4 { 10000 }
    else if e == 5 { 100000 }
    else { 1000000 }
}

} // verus!
