//! Character and string helpers shared by the parsing and formatting code.
//!
//! All executable functions here carry exact contracts over `Seq<char>`
//! views, so that callers can reason about the strings they build or read.

use vstd::prelude::*;

verus! {

/// True for the ten ASCII decimal digits.
pub open spec fn is_digit_char(c: char) -> bool {
    '0' <= c && c <= '9'
}

/// Numeric value of one digit character.
pub open spec fn digit_val(c: char) -> int {
    c as int - '0' as int
}

/// Every character of `s` is a decimal digit.
pub open spec fn all_digits(s: Seq<char>) -> bool {
    forall|i: int| 0 <= i < s.len() ==> is_digit_char(#[trigger] s[i])
}

/// Value of a digit string read in base ten.
pub open spec fn dec_value(s: Seq<char>) -> int
    decreases s.len(),
{
    if s.len() == 0 {
        0
    } else {
        dec_value(s.drop_last()) * 10 + digit_val(s.last())
    }
}

/// The digit character for a value in `[0, 9]`.
pub open spec fn digit_char(d: int) -> char {
    if d == 0 { '0' }
    else if d == 1 { '1' }
    else if d == 2 { '2' }
    else if d == 3 { '3' }
    else if d == 4 { '4' }
    else if d == 5 { '5' }
    else if d == 6 { '6' }
    else if d == 7 { '7' }
    else if d == 8 { '8' }
    else { '9' }
}

/// Decimal rendering of `n`, without leading zeros (`0` renders as "0").
pub open spec fn dec_str(n: nat) -> Seq<char>
    decreases n,
{
    if n < 10 {
        seq![digit_char(n as int)]
    } else {
        dec_str(n / 10) + seq![digit_char((n % 10) as int)]
    }
}

pub proof fn lemma_dec_value_nonneg(s: Seq<char>)
    requires
        all_digits(s),
    ensures
        dec_value(s) >= 0,
    decreases s.len(),
{
    if s.len() > 0 {
        assert(all_digits(s.drop_last())) by {
            assert(forall|i: int|
                0 <= i < s.drop_last().len() ==> s.drop_last()[i] == s[i]);
        }
        lemma_dec_value_nonneg(s.drop_last());
    }
}

/// Extending a digit string by one digit multiplies its value by ten and
/// adds the digit.
pub proof fn lemma_dec_value_snoc(s: Seq<char>, c: char)
    ensures
        dec_value(s.push(c)) == dec_value(s) * 10 + digit_val(c),
{
    assert(s.push(c).drop_last() =~= s);
    assert(s.push(c).last() == c);
}

/// A digit-string prefix never has a larger value than the whole string.
pub proof fn lemma_dec_value_prefix(s: Seq<char>, i: int)
    requires
        all_digits(s),
        0 <= i <= s.len(),
    ensures
        dec_value(s.take(i)) <= dec_value(s),
    decreases s.len() - i,
{
    if i < s.len() {
        let t = s.take(i + 1);
        assert(t =~= s.take(i).push(s[i]));
        lemma_dec_value_snoc(s.take(i), s[i]);
        assert(all_digits(s.take(i))) by {
            assert(forall|j: int| 0 <= j < i ==> s.take(i)[j] == s[j]);
        }
        lemma_dec_value_nonneg(s.take(i));
        assert(dec_value(s.take(i + 1)) >= dec_value(s.take(i)));
        lemma_dec_value_prefix(s, i + 1);
    } else {
        assert(s.take(i) =~= s);
    }
}

/// Parse a non-empty all-digit string as a `u32`.
///
/// Returns `None` exactly when the string is empty, holds a non-digit, or
/// its value does not fit in a `u32`.
pub fn str_parse_u32(s: &str) -> (r: Option<u32>)
    ensures
        r matches Some(v) ==> s@.len() >= 1 && all_digits(s@) && v as int == dec_value(s@),
        r is None ==> s@.len() == 0 || !all_digits(s@) || dec_value(s@) > u32::MAX,
{
    let n = s.unicode_len();
    if n == 0 {
        return None;
    }
    let mut acc: u32 = 0;
    let mut i: usize = 0;
    while i < n
        invariant
            0 <= i <= n,
            n == s@.len(),
            all_digits(s@.take(i as int)),
            acc as int == dec_value(s@.take(i as int)),
        decreases n - i,
    {
        let c = s.get_char(i);
        if !('0' <= c && c <= '9') {
            return None;
        }
        let d: u32 = (c as u32) - ('0' as u32);
        proof {
            lemma_dec_value_snoc(s@.take(i as int), c);
            assert(s@.take(i + 1) =~= s@.take(i as int).push(c));
        }
        if acc > (u32::MAX - d) / 10 {
            proof {
                assert(all_digits(s@.take(i + 1)));
                assert(dec_value(s@.take(i + 1)) > u32::MAX);
                if all_digits(s@) {
                    lemma_dec_value_prefix(s@, i + 1);
                }
            }
            return None;
        }
        acc = acc * 10 + d;
        i = i + 1;
    }
    proof {
        assert(s@.take(n as int) =~= s@);
    }
    Some(acc)
}

/// Parse a non-empty all-digit string as a `u64`.
///
/// Returns `None` exactly when the string is empty, holds a non-digit,
/// or its value does not fit in a `u64`.
pub fn str_parse_u64(s: &str) -> (r: Option<u64>)
    ensures
        r matches Some(v) ==> s@.len() >= 1 && all_digits(s@) && v as int == dec_value(s@),
        r is None ==> s@.len() == 0 || !all_digits(s@) || dec_value(s@) > u64::MAX,
{
    let n = s.unicode_len();
    if n == 0 {
        return None;
    }
    let mut acc: u64 = 0;
    let mut i: usize = 0;
    while i < n
        invariant
            0 <= i <= n,
            n == s@.len(),
            all_digits(s@.take(i as int)),
            acc as int == dec_value(s@.take(i as int)),
        decreases n - i,
    {
        let c = s.get_char(i);
        if !('0' <= c && c <= '9') {
            return None;
        }
        let d: u64 = (c as u64) - ('0' as u64);
        proof {
            lemma_dec_value_snoc(s@.take(i as int), c);
            assert(s@.take(i + 1) =~= s@.take(i as int).push(c));
        }
        if acc > (u64::MAX - d) / 10 {
            proof {
                assert(all_digits(s@.take(i + 1)));
                assert(dec_value(s@.take(i + 1)) > u64::MAX);
                if all_digits(s@) {
                    lemma_dec_value_prefix(s@, i + 1);
                }
            }
            return None;
        }
        acc = acc * 10 + d;
        i = i + 1;
    }
    proof {
        assert(s@.take(n as int) =~= s@);
    }
    Some(acc)
}

/// One-character string for a digit value.
pub fn digit_string(d: u32) -> (r: &'static str)
    requires
        d < 10,
    ensures
        r@ =~= seq![digit_char(d as int)],
{
    proof {
        reveal_strlit("0");
        reveal_strlit("1");
        reveal_strlit("2");
        reveal_strlit("3");
        reveal_strlit("4");
        reveal_strlit("5");
        reveal_strlit("6");
        reveal_strlit("7");
        reveal_strlit("8");
        reveal_strlit("9");
    }
    if d == 0 { "0" }
    else if d == 1 { "1" }
    else if d == 2 { "2" }
    else if d == 3 { "3" }
    else if d == 4 { "4" }
    else if d == 5 { "5" }
    else if d == 6 { "6" }
    else if d == 7 { "7" }
    else if d == 8 { "8" }
    else { "9" }
}

/// Decimal rendering of a `u64`.
pub fn u64_dec(n: u64) -> (r: String)
    ensures
        r@ == dec_str(n as nat),
    decreases n,
{
    if n < 10 {
        String::from_str(digit_string(n as u32))
    } else {
        let mut head = u64_dec(n / 10);
        head.append(digit_string((n % 10) as u32));
        head
    }
}

/// Decimal rendering of a `u32`.
pub fn u32_dec(n: u32) -> (r: String)
    ensures
        r@ == dec_str(n as nat),
{
    u64_dec(n as u64)
}

/// Two-character zero-padded decimal rendering, for values below 100.
pub open spec fn dec2_str(n: nat) -> Seq<char> {
    seq![digit_char((n / 10) as int), digit_char((n % 10) as int)]
}

pub fn u32_dec2(n: u32) -> (r: String)
    requires
        n < 100,
    ensures
        r@ == dec2_str(n as nat),
        r@.len() == 2,
{
    let mut out = String::from_str(digit_string(n / 10));
    out.append(digit_string(n % 10));
    proof {
        assert(out@ =~= dec2_str(n as nat));
    }
    out
}

/// A decimal rendering is a non-empty string of digits.
pub proof fn lemma_dec_str_digits(n: nat)
    ensures
        dec_str(n).len() >= 1,
        all_digits(dec_str(n)),
    decreases n,
{
    if n < 10 {
        assert(is_digit_char(digit_char(n as int)));
        assert(forall|i: int| 0 <= i < dec_str(n).len()
            ==> is_digit_char(#[trigger] dec_str(n)[i]));
    } else {
        lemma_dec_str_digits(n / 10);
        let s = dec_str(n);
        let h = dec_str(n / 10);
        assert(is_digit_char(digit_char((n % 10) as int)));
        assert forall|i: int| 0 <= i < s.len() implies is_digit_char(#[trigger] s[i]) by {
            if i < h.len() {
                assert(s[i] == h[i]);
            } else {
                assert(s[i] == digit_char((n % 10) as int));
            }
        }
    }
}

/// Reading a decimal rendering back gives the value.
pub proof fn lemma_dec_str_value(n: nat)
    ensures
        dec_value(dec_str(n)) == n,
    decreases n,
{
    if n < 10 {
        let s = dec_str(n);
        assert(s.drop_last() =~= Seq::<char>::empty());
        assert(dec_value(Seq::<char>::empty()) == 0);
        assert(s.last() == digit_char(n as int));
    } else {
        lemma_dec_str_value(n / 10);
        let s = dec_str(n);
        let h = dec_str(n / 10);
        assert(s =~= h.push(digit_char((n % 10) as int)));
        lemma_dec_value_snoc(h, digit_char((n % 10) as int));
        assert(digit_val(digit_char((n % 10) as int)) == n % 10);
    }
}

/// Rendering the value of a digit character gives that character back.
pub proof fn lemma_digit_char_val(c: char)
    requires
        is_digit_char(c),
    ensures
        digit_char(digit_val(c)) == c,
        0 <= digit_val(c) <= 9,
{
}

/// A two-digit string is exactly the padded rendering of its value.
pub proof fn lemma_dec2_roundtrip(s: Seq<char>)
    requires
        s.len() == 2,
        all_digits(s),
    ensures
        0 <= dec_value(s) <= 99,
        dec2_str(dec_value(s) as nat) =~= s,
{
    let d0 = digit_val(s[0]);
    let d1 = digit_val(s[1]);
    let v = dec_value(s);
    assert(v == d0 * 10 + d1) by {
        assert(s.drop_last() =~= seq![s[0]]);
        assert(seq![s[0]].drop_last() =~= Seq::<char>::empty());
        assert(dec_value(Seq::<char>::empty()) == 0);
        assert(dec_value(seq![s[0]]) == 0 * 10 + digit_val(seq![s[0]].last()));
        assert(seq![s[0]].last() == s[0]);
        assert(s.last() == s[1]);
    }
    lemma_digit_char_val(s[0]);
    lemma_digit_char_val(s[1]);
    vstd::arithmetic::div_mod::lemma_fundamental_div_mod_converse(v, 10, d0, d1);
}

/// A four-digit string is exactly the padded rendering of its value.
pub proof fn lemma_dec4_roundtrip(s: Seq<char>)
    requires
        s.len() == 4,
        all_digits(s),
    ensures
        0 <= dec_value(s) <= 9999,
        crate::date::dec4_str(dec_value(s) as nat) =~= s,
{
    let d0 = digit_val(s[0]);
    let d1 = digit_val(s[1]);
    let d2 = digit_val(s[2]);
    let d3 = digit_val(s[3]);
    lemma_digit_char_val(s[0]);
    lemma_digit_char_val(s[1]);
    lemma_digit_char_val(s[2]);
    lemma_digit_char_val(s[3]);
    let v = dec_value(s);
    assert(v == ((d0 * 10 + d1) * 10 + d2) * 10 + d3) by {
        assert(seq![s[0]].drop_last() =~= Seq::<char>::empty());
        assert(dec_value(Seq::<char>::empty()) == 0);
        assert(dec_value(seq![s[0]]) == 0 * 10 + digit_val(seq![s[0]].last()));
        assert(seq![s[0]].last() == s[0]);
        assert(s.take(2).drop_last() =~= seq![s[0]]);
        assert(s.take(2).last() == s[1]);
        assert(dec_value(s.take(2)) == dec_value(seq![s[0]]) * 10 + d1);
        assert(s.take(3).drop_last() =~= s.take(2));
        assert(s.take(3).last() == s[2]);
        assert(dec_value(s.take(3)) == dec_value(s.take(2)) * 10 + d2);
        assert(s.drop_last() =~= s.take(3));
        assert(s.last() == s[3]);
        assert(dec_value(s) == dec_value(s.take(3)) * 10 + d3);
    }
    vstd::arithmetic::div_mod::lemma_fundamental_div_mod_converse(
        v, 10, (d0 * 10 + d1) * 10 + d2, d3);
    vstd::arithmetic::div_mod::lemma_fundamental_div_mod_converse(
        (d0 * 10 + d1) * 10 + d2, 10, d0 * 10 + d1, d2);
    vstd::arithmetic::div_mod::lemma_fundamental_div_mod_converse(
        d0 * 10 + d1, 10, d0, d1);
    assert(v / 10 == (d0 * 10 + d1) * 10 + d2);
    assert(v % 10 == d3);
    vstd::arithmetic::div_mod::lemma_div_denominator(v, 10, 10);
    assert(v / 100 == d0 * 10 + d1);
    assert((v / 10) % 10 == d2);
    assert((v / 100) % 10 == d1);
    vstd::arithmetic::div_mod::lemma_div_denominator(v, 100, 10);
    assert(v / 1000 == d0);
}

/// `sub` occurs in `s` starting at position `i`.
pub open spec fn matches_at(s: Seq<char>, sub: Seq<char>, i: int) -> bool {
    0 <= i && i + sub.len() <= s.len() && s.subrange(i, i + sub.len() as int) == sub
}

/// `sub` occurs somewhere in `s`.
pub open spec fn contains_seq(s: Seq<char>, sub: Seq<char>) -> bool {
    exists|i: int| matches_at(s, sub, i)
}

/// First occurrence of `sub` in `s`, if any.
pub fn find_sub(s: &str, sub: &str) -> (r: Option<usize>)
    ensures
        r matches Some(i) ==> matches_at(s@, sub@, i as int)
            && (forall|j: int| 0 <= j < i ==> !matches_at(s@, sub@, j)),
        r is None ==> !contains_seq(s@, sub@),
{
    let n = s.unicode_len();
    let m = sub.unicode_len();
    if m > n {
        return None;
    }
    let mut i: usize = 0;
    while i <= n - m
        invariant
            0 <= i <= n - m + 1,
            m <= n,
            n == s@.len(),
            m == sub@.len(),
            forall|j: int| 0 <= j < i ==> !matches_at(s@, sub@, j),
        decreases n - m + 1 - i,
    {
        let mut k: usize = 0;
        let mut all_eq: bool = true;
        while k < m && all_eq
            invariant
                0 <= k <= m,
                i + m <= n,
                n == s@.len(),
                m == sub@.len(),
                all_eq ==> (forall|t: int| 0 <= t < k ==> s@[i + t] == sub@[t]),
                !all_eq ==> (exists|t: int| 0 <= t < m && s@[i + t] != sub@[t]),
            decreases (if all_eq { 1int } else { 0int }), m - k,
        {
            let a = s.get_char(i + k);
            let b = sub.get_char(k);
            if a != b {
                all_eq = false;
            } else {
                k = k + 1;
            }
        }
        if all_eq {
            proof {
                assert(s@.subrange(i as int, i + m) =~= sub@);
            }
            return Some(i);
        }
        proof {
            assert(!matches_at(s@, sub@, i as int)) by {
                let w = choose|t: int| 0 <= t < m && s@[i + t] != sub@[t];
                if matches_at(s@, sub@, i as int) {
                    assert(s@.subrange(i as int, i + m)[w] == s@[i + w]);
                }
            }
        }
        i = i + 1;
    }
    proof {
        assert(forall|j: int| 0 <= j < n - m + 1 ==> !matches_at(s@, sub@, j));
        assert(!contains_seq(s@, sub@)) by {
            if contains_seq(s@, sub@) {
                let j = choose|j: int| matches_at(s@, sub@, j);
                assert(j < n - m + 1);
            }
        }
    }
    None
}

/// Whether `sub` occurs in `s`.
pub fn str_contains(s: &str, sub: &str) -> (r: bool)
    ensures
        r == contains_seq(s@, sub@),
{
    find_sub(s, sub).is_some()
}

/// Character-wise equality of two string slices.
pub fn str_eq(a: &str, b: &str) -> (r: bool)
    ensures
        r == (a@ == b@),
{
    let n = a.unicode_len();
    if b.unicode_len() != n {
        proof {
            assert(a@ != b@) by {
                if a@ == b@ { assert(a@.len() == b@.len()); }
            }
        }
        return false;
    }
    let mut i: usize = 0;
    while i < n
        invariant
            0 <= i <= n,
            n == a@.len() == b@.len(),
            forall|j: int| 0 <= j < i ==> a@[j] == b@[j],
        decreases n - i,
    {
        if a.get_char(i) != b.get_char(i) {
            return false;
        }
        i = i + 1;
    }
    proof {
        assert(a@ =~= b@);
    }
    true
}

/// Index of the last occurrence of `c` in `s`, or -1.
pub open spec fn last_index_of(s: Seq<char>, c: char) -> int
    decreases s.len(),
{
    if s.len() == 0 {
        -1
    } else if s.last() == c {
        s.len() - 1
    } else {
        last_index_of(s.drop_last(), c)
    }
}

pub proof fn lemma_last_index_of_props(s: Seq<char>, c: char)
    ensures
        last_index_of(s, c) >= -1,
        last_index_of(s, c) == -1 ==> (forall|j: int| 0 <= j < s.len() ==> s[j] != c),
        last_index_of(s, c) >= 0 ==> 0 <= last_index_of(s, c) < s.len()
            && s[last_index_of(s, c)] == c
            && (forall|j: int| last_index_of(s, c) < j < s.len() ==> s[j] != c),
    decreases s.len(),
{
    if s.len() > 0 && s.last() != c {
        lemma_last_index_of_props(s.drop_last(), c);
        assert(forall|j: int| 0 <= j < s.len() - 1 ==> s.drop_last()[j] == s[j]);
    }
}

/// Last occurrence of `c` in `s`, if any.
pub fn rfind_char(s: &str, c: char) -> (r: Option<usize>)
    ensures
        r matches Some(i) ==> i as int == last_index_of(s@, c) && i < s@.len(),
        r is None ==> last_index_of(s@, c) == -1,
{
    let n = s.unicode_len();
    let mut i: usize = n;
    while i > 0
        invariant
            0 <= i <= n,
            n == s@.len(),
            forall|j: int| i <= j < n ==> s@[j] != c,
        decreases i,
    {
        let ch = s.get_char(i - 1);
        if ch == c {
            proof {
                lemma_last_index_of_props(s@, c);
                let li = last_index_of(s@, c);
                assert(li == i - 1) by {
                    assert(s@[i - 1] == c);
                    if li == -1 {
                        assert(s@[i - 1] != c);
                    } else if li > i - 1 {
                        assert(s@[li] != c);
                    } else if li < i - 1 {
                        assert(s@[i - 1] != c);
                    }
                }
            }
            return Some(i - 1);
        }
        i = i - 1;
    }
    proof {
        lemma_last_index_of_props(s@, c);
        let li = last_index_of(s@, c);
        assert(li == -1) by {
            if li >= 0 {
                assert(s@[li] != c);
                assert(s@[li] == c);
            }
        }
    }
    None
}

/// Index of the first occurrence of `sub` in `s` at or after `i`, or -1.
pub open spec fn first_match_from(s: Seq<char>, sub: Seq<char>, i: int) -> int
    decreases s.len() - i + 1,
{
    if i < 0 || i + sub.len() > s.len() || s.len() - i + 1 <= 0 {
        -1
    } else if matches_at(s, sub, i) {
        i
    } else {
        first_match_from(s, sub, i + 1)
    }
}

proof fn lemma_first_match_from_found(s: Seq<char>, sub: Seq<char>, k: int, i: int)
    requires
        0 <= k <= i,
        matches_at(s, sub, i),
        forall|j: int| k <= j < i ==> !matches_at(s, sub, j),
    ensures
        first_match_from(s, sub, k) == i,
    decreases i - k,
{
    if k < i {
        lemma_first_match_from_found(s, sub, k + 1, i);
    }
}

proof fn lemma_first_match_from_none(s: Seq<char>, sub: Seq<char>, k: int)
    requires
        0 <= k,
        forall|j: int| k <= j ==> !matches_at(s, sub, j),
    ensures
        first_match_from(s, sub, k) == -1,
    decreases s.len() - k + 1,
{
    if !(k + sub.len() > s.len() || s.len() - k + 1 <= 0) {
        lemma_first_match_from_none(s, sub, k + 1);
    }
}

/// The contract of `find_sub`, restated against `first_match_from`.
pub proof fn lemma_find_sub_first_match(s: Seq<char>, sub: Seq<char>, r: Option<usize>)
    requires
        r matches Some(i) ==> matches_at(s, sub, i as int)
            && (forall|j: int| 0 <= j < i as int ==> !matches_at(s, sub, j)),
        r is None ==> !contains_seq(s, sub),
    ensures
        r matches Some(i) ==> first_match_from(s, sub, 0) == i as int,
        r is None ==> first_match_from(s, sub, 0) == -1,
{
    match r {
        Some(i) => {
            lemma_first_match_from_found(s, sub, 0, i as int);
        }
        None => {
            assert(forall|j: int| 0 <= j ==> !matches_at(s, sub, j));
            lemma_first_match_from_none(s, sub, 0);
        }
    }
}

/// Index of the first occurrence of `c` in `s`, or -1.
pub open spec fn first_index_of(s: Seq<char>, c: char) -> int
    decreases s.len(),
{
    if s.len() == 0 {
        -1
    } else if s.first() == c {
        0
    } else {
        let t = first_index_of(s.drop_first(), c);
        if t < 0 {
            -1
        } else {
            t + 1
        }
    }
}

pub proof fn lemma_first_index_of_props(s: Seq<char>, c: char)
    ensures
        first_index_of(s, c) >= -1,
        first_index_of(s, c) == -1 ==> (forall|j: int| 0 <= j < s.len() ==> s[j] != c),
        first_index_of(s, c) >= 0 ==> 0 <= first_index_of(s, c) < s.len()
            && s[first_index_of(s, c)] == c
            && (forall|j: int| 0 <= j < first_index_of(s, c) ==> s[j] != c),
    decreases s.len(),
{
    if s.len() > 0 && s.first() != c {
        lemma_first_index_of_props(s.drop_first(), c);
        let t = first_index_of(s.drop_first(), c);
        if t >= 0 {
            assert(s[t + 1] == s.drop_first()[t]);
            assert forall|j: int| 0 <= j < t + 1 implies s[j] != c by {
                if j >= 1 {
                    assert(s[j] == s.drop_first()[j - 1]);
                }
            }
        } else {
            assert forall|j: int| 0 <= j < s.len() implies s[j] != c by {
                if j >= 1 {
                    assert(s[j] == s.drop_first()[j - 1]);
                }
            }
        }
    }
}

/// First occurrence of `c` in `s`, if any.
pub fn find_char(s: &str, c: char) -> (r: Option<usize>)
    ensures
        r matches Some(i) ==> i as int == first_index_of(s@, c) && i < s@.len(),
        r is None ==> first_index_of(s@, c) == -1,
{
    let n = s.unicode_len();
    let mut i: usize = 0;
    while i < n
        invariant
            0 <= i <= n,
            n == s@.len(),
            forall|j: int| 0 <= j < i ==> s@[j] != c,
        decreases n - i,
    {
        if s.get_char(i) == c {
            proof {
                lemma_first_index_of_props(s@, c);
                let fi = first_index_of(s@, c);
                assert(fi == i) by {
                    assert(s@[i as int] == c);
                    if fi == -1 {
                        assert(s@[i as int] != c);
                    } else if fi < i {
                        assert(s@[fi] != c);
                    } else if fi > i {
                        assert(s@[i as int] != c);
                    }
                }
            }
            return Some(i);
        }
        i = i + 1;
    }
    proof {
        lemma_first_index_of_props(s@, c);
        let fi = first_index_of(s@, c);
        assert(fi == -1) by {
            if fi >= 0 {
                assert(s@[fi] != c);
                assert(s@[fi] == c);
            }
        }
    }
    None
}

/// Number of occurrences of `c` in `s`.
pub open spec fn count_char(s: Seq<char>, c: char) -> int
    decreases s.len(),
{
    if s.len() == 0 {
        0
    } else {
        count_char(s.drop_last(), c) + if s.last() == c { 1int } else { 0int }
    }
}

/// Count occurrences of `c`.
pub fn char_count(s: &str, c: char) -> (r: usize)
    ensures
        r as int == count_char(s@, c),
{
    let n = s.unicode_len();
    let mut i: usize = 0;
    let mut acc: usize = 0;
    while i < n
        invariant
            0 <= i <= n,
            n == s@.len(),
            acc <= i,
            acc as int == count_char(s@.take(i as int), c),
        decreases n - i,
    {
        proof {
            assert(s@.take(i + 1).drop_last() =~= s@.take(i as int));
            assert(s@.take(i + 1).last() == s@[i as int]);
        }
        if s.get_char(i) == c {
            acc = acc + 1;
        }
        i = i + 1;
    }
    proof {
        assert(s@.take(n as int) =~= s@);
    }
    acc
}

/// The prefix of `s` before the first `c`, or all of `s` when `c` does
/// not occur.
pub open spec fn prefix_before(s: Seq<char>, c: char) -> Seq<char> {
    let fi = first_index_of(s, c);
    if fi < 0 {
        s
    } else {
        s.take(fi)
    }
}

/// Everything before the first `c`, executable.
pub fn take_before(s: &str, c: char) -> (r: &str)
    ensures
        r@ == prefix_before(s@, c),
{
    match find_char(s, c) {
        Some(i) => {
            let head = s.substring_char(0, i);
            proof {
                assert(head@ =~= prefix_before(s@, c));
            }
            head
        }
        None => s,
    }
}

/// Index just past the last non-whitespace character, or 0.
pub open spec fn last_nonspace_end(s: Seq<char>) -> int
    decreases s.len(),
{
    if s.len() == 0 {
        0
    } else if !is_space_char(s.last()) {
        s.len() as int
    } else {
        last_nonspace_end(s.drop_last())
    }
}

proof fn lemma_last_nonspace_end_props(s: Seq<char>)
    ensures
        0 <= last_nonspace_end(s) <= s.len(),
        forall|j: int| last_nonspace_end(s) <= j < s.len() ==> is_space_char(s[j]),
        last_nonspace_end(s) > 0 ==> !is_space_char(s[last_nonspace_end(s) - 1]),
    decreases s.len(),
{
    if s.len() > 0 && is_space_char(s.last()) {
        lemma_last_nonspace_end_props(s.drop_last());
        assert(forall|j: int| 0 <= j < s.len() - 1 ==> s.drop_last()[j] == s[j]);
    }
}

/// `s` with leading and trailing ASCII whitespace removed.
pub open spec fn trim_spec(s: Seq<char>) -> Seq<char> {
    let a = next_boundary(s, 0, false);
    let b = last_nonspace_end(s);
    if a >= b {
        Seq::empty()
    } else {
        s.subrange(a, b)
    }
}

/// Trim ASCII whitespace from both ends.
pub fn trim(s: &str) -> (r: &str)
    ensures
        r@ == trim_spec(s@),
{
    let n = s.unicode_len();
    let a = scan_boundary(s, 0, false);
    let mut b: usize = n;
    let mut stop: bool = false;
    while !stop && b > 0
        invariant
            0 <= b <= n,
            n == s@.len(),
            forall|j: int| b <= j < n ==> is_space_char(s@[j]),
            stop ==> b > 0 && !is_space_char(s@[b - 1]),
        decreases (if stop { 0int } else { 1int }), b,
    {
        let c = s.get_char(b - 1);
        if !(c == ' ' || c == '\t' || c == '\n' || c == '\r') {
            stop = true;
        } else {
            b = b - 1;
        }
    }
    proof {
        lemma_last_nonspace_end_props(s@);
        let le = last_nonspace_end(s@);
        assert(le == b) by {
            if stop {
                assert(!is_space_char(s@[b - 1]));
                if le < b {
                    assert(is_space_char(s@[b - 1]));
                } else if le > b {
                    assert(is_space_char(s@[le - 1]));
                }
            } else {
                if le > 0 {
                    assert(is_space_char(s@[le - 1]));
                    assert(!is_space_char(s@[le - 1]));
                }
            }
        }
        crate::text::lemma_next_boundary_props(s@, 0, false);
    }
    if a >= b {
        proof {
            reveal_strlit("");
            assert(""@ =~= trim_spec(s@));
        }
        ""
    } else {
        let out = s.substring_char(a, b);
        proof {
            assert(out@ =~= trim_spec(s@));
        }
        out
    }
}

/// `s` with a single trailing carriage return removed.
pub open spec fn strip_cr(l: Seq<char>) -> Seq<char> {
    if l.len() > 0 && l.last() == '\r' {
        l.drop_last()
    } else {
        l
    }
}

/// The lines of `s`: split at `\n`, one trailing `\r` stripped from
/// each line, and no final empty line after a terminating newline.
pub open spec fn lines_of(s: Seq<char>) -> Seq<Seq<char>>
    decreases s.len(),
{
    if s.len() == 0 {
        Seq::empty()
    } else {
        let i = first_index_of(s, '\n');
        if 0 <= i < s.len() {
            seq![strip_cr(s.take(i))] + lines_of(s.skip(i + 1))
        } else {
            seq![strip_cr(s)]
        }
    }
}

/// Split into lines, as `lines_of` describes.
pub fn split_lines(s: &str) -> (r: Vec<String>)
    ensures
        r@.map_values(|l: String| l@) == lines_of(s@),
{
    let mut out: Vec<String> = Vec::new();
    let mut pos: usize = 0;
    let n = s.unicode_len();
    proof {
        assert(out@.map_values(|l: String| l@) + lines_of(s@.skip(0))
            =~= lines_of(s@.skip(0)));
        assert(s@.skip(0) =~= s@);
    }
    while pos < n
        invariant
            0 <= pos <= n,
            n == s@.len(),
            out@.map_values(|l: String| l@) + lines_of(s@.skip(pos as int)) == lines_of(s@),
        decreases n - pos,
    {
        let rest = s.substring_char(pos, n);
        proof {
            assert(rest@ == s@.skip(pos as int));
            assert(rest@.len() > 0);
        }
        let line_str = match find_char(rest, '\n') {
            Some(i) => {
                let raw = rest.substring_char(0, i);
                proof {
                    assert(raw@ =~= rest@.take(i as int));
                }
                (raw, pos + i + 1)
            }
            None => (rest, n),
        };
        let (raw, next_pos) = line_str;
        let line = strip_carriage(raw);
        proof {
            let rv = rest@;
            let fi = first_index_of(rv, '\n');
            if fi >= 0 {
                assert(lines_of(rv) == seq![strip_cr(rv.take(fi))] + lines_of(rv.skip(fi + 1)));
                assert(s@.skip(pos as int).skip(fi + 1) =~= s@.skip(pos + fi + 1));
                assert(seq![strip_cr(rv.take(fi))] =~= seq![line@]);
            } else {
                assert(lines_of(rv) == seq![strip_cr(rv)]);
                assert(s@.skip(n as int) =~= Seq::<char>::empty());
                assert(seq![strip_cr(rv)] =~= seq![line@]);
            }
            assert(lines_of(s@.skip(pos as int))
                == seq![line@] + lines_of(s@.skip(next_pos as int)) || (fi < 0
                    && lines_of(s@.skip(pos as int)) == seq![line@]));
        }
        let ghost prev_seq = out@.map_values(|l: String| l@);
        out.push(String::from_str(line));
        proof {
            let done = out@.map_values(|l: String| l@);
            assert(done =~= prev_seq.push(line@));
            assert(prev_seq.push(line@) + lines_of(s@.skip(next_pos as int))
                =~= prev_seq + (seq![line@] + lines_of(s@.skip(next_pos as int))));
            if next_pos == n {
                assert(s@.skip(n as int) =~= Seq::<char>::empty());
                assert(lines_of(Seq::<char>::empty()) == Seq::<Seq<char>>::empty());
                assert(seq![line@] + Seq::<Seq<char>>::empty() =~= seq![line@]);
            }
        }
        pos = next_pos;
    }
    proof {
        assert(s@.skip(n as int) =~= Seq::<char>::empty());
        assert(lines_of(Seq::<char>::empty()) =~= Seq::<Seq<char>>::empty());
        assert(out@.map_values(|l: String| l@) + Seq::<Seq<char>>::empty()
            =~= out@.map_values(|l: String| l@));
    }
    out
}

/// Strip one trailing carriage return.
fn strip_carriage(l: &str) -> (r: &str)
    ensures
        r@ == strip_cr(l@),
{
    let n = l.unicode_len();
    if n > 0 && l.get_char(n - 1) == '\r' {
        let out = l.substring_char(0, n - 1);
        proof {
            assert(out@ =~= strip_cr(l@));
        }
        out
    } else {
        l
    }
}

/// `s` with every occurrence of `c` replaced by the joiner string.
pub open spec fn replace_sep(s: Seq<char>, c: char, joiner: Seq<char>) -> Seq<char>
    decreases s.len(),
{
    let fi = first_index_of(s, c);
    if 0 <= fi < s.len() {
        s.take(fi) + joiner + replace_sep(s.skip(fi + 1), c, joiner)
    } else {
        s
    }
}

/// Replace every occurrence of `c` in `s` by `joiner` (which may be
/// empty, deleting the character).
pub fn join_replacing(s: &str, c: char, joiner: &str) -> (r: String)
    ensures
        r@ == replace_sep(s@, c, joiner@),
{
    let mut out = String::new();
    let n = s.unicode_len();
    let mut pos: usize = 0;
    proof {
        assert(s@.skip(0) =~= s@);
        assert(out@ + replace_sep(s@.skip(0), c, joiner@) =~= replace_sep(s@, c, joiner@));
    }
    while pos < n
        invariant
            0 <= pos <= n,
            n == s@.len(),
            out@ + replace_sep(s@.skip(pos as int), c, joiner@) == replace_sep(s@, c, joiner@),
        decreases n - pos,
    {
        let rest = s.substring_char(pos, n);
        proof {
            assert(rest@ == s@.skip(pos as int));
        }
        match find_char(rest, c) {
            Some(i) => {
                let head = rest.substring_char(0, i);
                proof {
                    assert(head@ =~= rest@.take(i as int));
                    assert(rest@.skip(i + 1) =~= s@.skip(pos + i + 1));
                }
                let ghost before = out@;
                out.append(head);
                out.append(joiner);
                proof {
                    let tail = replace_sep(s@.skip(pos + i + 1), c, joiner@);
                    assert(replace_sep(rest@, c, joiner@)
                        == rest@.take(i as int) + joiner@ + tail);
                    assert(out@ + tail =~= before + (rest@.take(i as int) + joiner@ + tail));
                }
                pos = pos + i + 1;
            }
            None => {
                let ghost before = out@;
                out.append(rest);
                proof {
                    assert(replace_sep(rest@, c, joiner@) == rest@);
                    assert(s@.skip(n as int) =~= Seq::<char>::empty());
                    assert(replace_sep(Seq::<char>::empty(), c, joiner@)
                        == Seq::<char>::empty());
                    assert(out@ + Seq::<char>::empty() =~= before + rest@);
                }
                pos = n;
            }
        }
    }
    proof {
        assert(s@.skip(n as int) =~= Seq::<char>::empty());
        assert(replace_sep(Seq::<char>::empty(), c, joiner@) == Seq::<char>::empty());
        assert(out@ + Seq::<char>::empty() =~= out@);
    }
    out
}

/// Membership of a string among the views of a vector of strings.
pub fn list_contains(v: &Vec<String>, s: &str) -> (r: bool)
    ensures
        r == v@.map_values(|x: String| x@).contains(s@),
{
    let mut i: usize = 0;
    let n = v.len();
    while i < n
        invariant
            0 <= i <= n,
            n == v@.len(),
            forall|j: int| 0 <= j < i ==> (#[trigger] v@[j])@ != s@,
        decreases n - i,
    {
        if str_eq(v[i].as_str(), s) {
            proof {
                assert(v@.map_values(|x: String| x@)[i as int] == s@);
            }
            return true;
        }
        i = i + 1;
    }
    proof {
        let vw = v@.map_values(|x: String| x@);
        assert(!vw.contains(s@)) by {
            if vw.contains(s@) {
                let j = choose|j: int| 0 <= j < vw.len() && vw[j] == s@;
                assert(vw[j] == v@[j]@);
                assert(v@[j]@ != s@);
            }
        }
    }
    false
}

/// `s` starts with `pre`.
pub open spec fn starts_with_seq(s: Seq<char>, pre: Seq<char>) -> bool {
    pre.len() <= s.len() && s.take(pre.len() as int) == pre
}

pub fn str_starts_with(s: &str, pre: &str) -> (r: bool)
    ensures
        r == starts_with_seq(s@, pre@),
{
    let n = s.unicode_len();
    let m = pre.unicode_len();
    if m > n {
        return false;
    }
    let head = s.substring_char(0, m);
    proof {
        assert(head@ == s@.subrange(0, m as int));
        assert(s@.take(m as int) =~= s@.subrange(0, m as int));
    }
    str_eq(head, pre)
}

/// ASCII whitespace, as the marker parser understands it.
pub open spec fn is_space_char(c: char) -> bool {
    c == ' ' || c == '\t' || c == '\n' || c == '\r'
}

/// Index of the first character at or after `i` satisfying `ws`
/// (whitespace or not), or the length of `s`.
pub open spec fn next_boundary(s: Seq<char>, i: int, ws: bool) -> int
    decreases s.len() - i + 1,
{
    if i < 0 || i >= s.len() {
        s.len() as int
    } else if is_space_char(s[i]) == ws {
        i
    } else {
        next_boundary(s, i + 1, ws)
    }
}

pub proof fn lemma_next_boundary_props(s: Seq<char>, i: int, ws: bool)
    requires
        0 <= i <= s.len(),
    ensures
        i <= next_boundary(s, i, ws) <= s.len(),
        forall|j: int| i <= j < next_boundary(s, i, ws) ==> is_space_char(s[j]) != ws,
        next_boundary(s, i, ws) < s.len() ==> is_space_char(s[next_boundary(s, i, ws)]) == ws,
    decreases s.len() - i + 1,
{
    if i < s.len() && is_space_char(s[i]) != ws {
        lemma_next_boundary_props(s, i + 1, ws);
    }
}

/// Executable scan to the next boundary.
pub fn scan_boundary(s: &str, from: usize, ws: bool) -> (r: usize)
    requires
        from <= s@.len(),
    ensures
        r as int == next_boundary(s@, from as int, ws),
        from <= r <= s@.len(),
{
    let n = s.unicode_len();
    let mut i: usize = from;
    while i < n
        invariant
            from <= i <= n,
            n == s@.len(),
            next_boundary(s@, from as int, ws) == next_boundary(s@, i as int, ws),
        decreases n - i,
    {
        let c = s.get_char(i);
        let sp = c == ' ' || c == '\t' || c == '\n' || c == '\r';
        if sp == ws {
            return i;
        }
        i = i + 1;
    }
    i
}


} // verus!
