//! Record extractor: recognizes `ptp4l` log lines and collects their
//! `master offset` and `path delay` values.
//!
//! A line is matched against a fixed structural pattern, anchored at the
//! start of the line: an ISO timestamp, a host name, the syslog tag
//! `ptp4l[<pid>]:`, the internal tag `ptp4l[<seconds>.<fraction>]:`, then
//! `master offset <int> s<digit> freq <int> path delay <int>`, with
//! arbitrary trailing text allowed. Non-matching lines are skipped
//! silently. All character classes are ASCII; lines are handled as raw
//! bytes.

use vstd::prelude::*;

verus! {

/// Character class of the structural pattern.
#[derive(Clone, Copy, PartialEq, Eq)]
pub enum Cls {
    /// ASCII whitespace.
    Space,
    /// ASCII decimal digit.
    Digit,
    /// ASCII word character: letter, digit or underscore.
    Word,
}

/// True for the ASCII decimal digits `0`..=`9`.
pub open spec fn is_digit(b: u8) -> bool {
    0x30 <= b && b <= 0x39
}

/// True for ASCII whitespace: space, tab, line feed, vertical tab,
/// form feed, carriage return.
pub open spec fn is_space(b: u8) -> bool {
    b == 0x20 || b == 0x09 || b == 0x0a || b == 0x0b || b == 0x0c || b == 0x0d
}

/// True for ASCII word characters: letters, digits and `_`.
pub open spec fn is_word(b: u8) -> bool {
    is_digit(b) || (0x41 <= b && b <= 0x5a) || (0x61 <= b && b <= 0x7a) || b == 0x5f
}

/// Whether byte `b` belongs to class `c`.
pub open spec fn in_cls(c: Cls, b: u8) -> bool {
    match c {
        Cls::Space => is_space(b),
        Cls::Digit => is_digit(b),
        Cls::Word => is_word(b),
    }
}

/// First position at or after `i` whose byte is not in class `c`
/// (or the end of `s`).
pub open spec fn scan(s: Seq<u8>, i: int, c: Cls) -> int
    decreases s.len() - i
        when 0 <= i <= s.len()
{
    if i < s.len() && in_cls(c, s[i]) {
        scan(s, i + 1, c)
    } else {
        i
    }
}

/// Whether byte `b` belongs to class `c`.
fn in_cls_exec(c: Cls, b: u8) -> (r: bool)
    ensures
        r == in_cls(c, b),
{
    match c {
        Cls::Space => b == 0x20 || b == 0x09 || b == 0x0a || b == 0x0b || b == 0x0c
            || b == 0x0d,
        Cls::Digit => 0x30 <= b && b <= 0x39,
        Cls::Word => (0x30 <= b && b <= 0x39) || (0x41 <= b && b <= 0x5a)
            || (0x61 <= b && b <= 0x7a) || b == 0x5f,
    }
}

/// Skips the longest run of bytes of class `c` starting at `i`.
fn scan_cls(s: &Vec<u8>, i: usize, c: Cls) -> (r: usize)
    requires
        i <= s@.len(),
    ensures
        r == scan(s@, i as int, c),
        i <= r <= s@.len(),
        forall|k: int| i <= k < r ==> in_cls(c, s@[k]),
{
    let mut j: usize = i;
    while j < s.len() && in_cls_exec(c, s[j])
        invariant
            i <= j <= s@.len(),
            scan(s@, i as int, c) == scan(s@, j as int, c),
            forall|k: int| i <= k < j ==> in_cls(c, s@[k]),
        decreases s@.len() - j,
    {
        j = j + 1;
    }
    j
}

/// Ten to the power `n`.
pub open spec fn pow10(n: nat) -> int
    decreases n,
{
    if n == 0 {
        1
    } else {
        10 * pow10((n - 1) as nat)
    }
}

/// `pow10` is positive.
pub proof fn lemma_pow10_pos(n: nat)
    ensures
        pow10(n) >= 1,
    decreases n,
{
    if n > 0 {
        lemma_pow10_pos((n - 1) as nat);
    }
}

/// `pow10` is at least one and monotone.
pub proof fn lemma_pow10_mono(a: nat, b: nat)
    requires
        a <= b,
    ensures
        1 <= pow10(a) <= pow10(b),
    decreases b,
{
    lemma_pow10_pos(a);
    if a < b {
        lemma_pow10_mono(a, (b - 1) as nat);
        lemma_pow10_pos((b - 1) as nat);
    }
}

/// Concrete values of `pow10` needed for 64-bit range checks.
pub proof fn lemma_pow10_vals()
    ensures
        pow10(18) == 1_000_000_000_000_000_000,
        pow10(19) == 10_000_000_000_000_000_000,
{
    assert(pow10(0) == 1);
    assert(pow10(1) == 10);
    assert(pow10(2) == 100);
    assert(pow10(3) == 1000);
    assert(pow10(4) == 10000);
    assert(pow10(5) == 100000);
    assert(pow10(6) == 1000000);
    assert(pow10(7) == 10000000);
    assert(pow10(8) == 100000000);
    assert(pow10(9) == 1000000000);
    assert(pow10(10) == 10000000000);
    assert(pow10(11) == 100000000000);
    assert(pow10(12) == 1000000000000);
    assert(pow10(13) == 10000000000000);
    assert(pow10(14) == 100000000000000);
    assert(pow10(15) == 1000000000000000);
    assert(pow10(16) == 10000000000000000);
    assert(pow10(17) == 100000000000000000);
    assert(pow10(18) == 1000000000000000000);
    assert(pow10(19) == 10000000000000000000);
}

/// Value of the decimal digit run `s[i..e)`, most significant digit first.
pub open spec fn dv(s: Seq<u8>, i: int, e: int) -> int
    decreases e - i
        when i <= e
{
    if e <= i {
        0
    } else {
        dv(s, i, e - 1) * 10 + (s[e - 1] - 0x30)
    }
}

/// A digit run's value is nonnegative and below ten to its length.
pub proof fn lemma_dv_bounds(s: Seq<u8>, i: int, e: int)
    requires
        0 <= i <= e <= s.len(),
        forall|k: int| i <= k < e ==> is_digit(s[k]),
    ensures
        0 <= dv(s, i, e) < pow10((e - i) as nat),
    decreases e - i,
{
    if e <= i {
    } else {
        lemma_dv_bounds(s, i, e - 1);
        assert(pow10((e - i) as nat) == 10 * pow10((e - i - 1) as nat));
    }
}

/// A digit run starting with a nonzero digit is at least ten to the
/// power of one less than its length.
pub proof fn lemma_dv_min_lead(s: Seq<u8>, i: int, e: int)
    requires
        0 <= i < e <= s.len(),
        forall|k: int| i <= k < e ==> is_digit(s[k]),
        s[i] != 0x30,
    ensures
        dv(s, i, e) >= pow10((e - i - 1) as nat),
    decreases e - i,
{
    if e == i + 1 {
        assert(dv(s, i, i) == 0);
    } else {
        lemma_dv_min_lead(s, i, e - 1);
        assert(pow10((e - i - 1) as nat) == 10 * pow10((e - i - 2) as nat));
    }
}

/// A single leading zero does not change a digit run's value.
proof fn lemma_dv_skip_zero(s: Seq<u8>, i: int, e: int)
    requires
        0 <= i < e,
        s[i] == 0x30,
    ensures
        dv(s, i, e) == dv(s, i + 1, e),
    decreases e - i,
{
    if e == i + 1 {
        assert(dv(s, i, i) == 0);
        assert(dv(s, i + 1, i + 1) == 0);
    } else {
        lemma_dv_skip_zero(s, i, e - 1);
    }
}

/// Leading zeros do not change a digit run's value.
pub proof fn lemma_dv_skip_zeros(s: Seq<u8>, i: int, j: int, e: int)
    requires
        0 <= i <= j <= e,
        forall|k: int| i <= k < j ==> s[k] == 0x30,
    ensures
        dv(s, i, e) == dv(s, j, e),
    decreases j - i,
{
    if i < j {
        lemma_dv_skip_zero(s, i, e);
        lemma_dv_skip_zeros(s, i + 1, j, e);
    }
}

/// The value, if any, that an `i64` can hold for the mathematical
/// integer `v`.
pub open spec fn fit_i64(v: int) -> Option<i64> {
    if i64::MIN <= v && v <= i64::MAX {
        Some(v as i64)
    } else {
        None
    }
}

/// End position of an optionally signed decimal integer starting at `i`,
/// or `None` if no digit follows the optional sign.
pub open spec fn num_end(s: Seq<u8>, i: int) -> Option<int> {
    let d0 = if i < s.len() && (s[i] == 0x2b || s[i] == 0x2d) {
        i + 1
    } else {
        i
    };
    let e = scan(s, d0, Cls::Digit);
    if e == d0 {
        None
    } else {
        Some(e)
    }
}

/// Value of the optionally signed decimal integer starting at `i`.
pub open spec fn num_val(s: Seq<u8>, i: int) -> int {
    let neg = i < s.len() && s[i] == 0x2d;
    let d0 = if i < s.len() && (s[i] == 0x2b || s[i] == 0x2d) {
        i + 1
    } else {
        i
    };
    let e = scan(s, d0, Cls::Digit);
    if neg {
        -dv(s, d0, e)
    } else {
        dv(s, d0, e)
    }
}

/// Reads the decimal value of the all-digit run `s[j0..e)`, which is
/// short enough to fit in a `u64`.
fn digits_value(s: &Vec<u8>, j0: usize, e: usize) -> (r: u64)
    requires
        j0 <= e <= s@.len(),
        forall|k: int| j0 <= k < e ==> is_digit(s@[k]),
        e - j0 <= 19,
    ensures
        r as int == dv(s@, j0 as int, e as int),
{
    proof {
        lemma_pow10_vals();
    }
    let mut acc: u64 = 0;
    let mut j: usize = j0;
    while j < e
        invariant
            j0 <= j <= e <= s@.len(),
            e - j0 <= 19,
            forall|k: int| j0 <= k < e ==> is_digit(s@[k]),
            acc as int == dv(s@, j0 as int, j as int),
            (acc as int) < pow10((j - j0) as nat),
            pow10(18) == 1_000_000_000_000_000_000,
        decreases e - j,
    {
        proof {
            lemma_pow10_mono((j - j0) as nat, 18);
            assert(pow10((j + 1 - j0) as nat) == 10 * pow10((j - j0) as nat));
        }
        let d = s[j] - 0x30;
        acc = acc * 10 + (d as u64);
        j = j + 1;
    }
    acc
}

/// Parses the optionally signed decimal integer at `i`: its end position,
/// and its value when it fits in an `i64`.
fn parse_num(s: &Vec<u8>, i: usize) -> (r: Option<(usize, Option<i64>)>)
    requires
        i <= s@.len(),
    ensures
        match r {
            None => num_end(s@, i as int) is None,
            Some(p) => num_end(s@, i as int) == Some(p.0 as int) && p.0 <= s@.len()
                && p.1 == fit_i64(num_val(s@, i as int)),
        },
{
    let n = s.len();
    let neg: bool;
    let d0: usize;
    if i < n && (s[i] == 0x2b || s[i] == 0x2d) {
        neg = s[i] == 0x2d;
        d0 = i + 1;
    } else {
        neg = false;
        d0 = i;
    }
    let e = scan_cls(s, d0, Cls::Digit);
    if e == d0 {
        return None;
    }
    let mut j0: usize = d0;
    while j0 < e && s[j0] == 0x30
        invariant
            d0 <= j0 <= e <= s@.len(),
            forall|k: int| d0 <= k < j0 ==> s@[k] == 0x30,
        decreases e - j0,
    {
        j0 = j0 + 1;
    }
    proof {
        lemma_dv_skip_zeros(s@, d0 as int, j0 as int, e as int);
        lemma_pow10_vals();
        lemma_dv_bounds(s@, j0 as int, e as int);
    }
    let mag: Option<u64> = if e - j0 >= 20 {
        proof {
            lemma_dv_min_lead(s@, j0 as int, e as int);
            lemma_pow10_mono(19, (e - j0 - 1) as nat);
        }
        None
    } else {
        proof {
            lemma_pow10_mono((e - j0) as nat, 19);
        }
        Some(digits_value(s, j0, e))
    };
    let v: Option<i64> = match mag {
        None => None,
        Some(m) => {
            if neg {
                if m <= 9_223_372_036_854_775_807u64 {
                    Some(-(m as i64))
                } else if m == 9_223_372_036_854_775_808u64 {
                    Some(i64::MIN)
                } else {
                    None
                }
            } else {
                if m <= 9_223_372_036_854_775_807u64 {
                    Some(m as i64)
                } else {
                    None
                }
            }
        },
    };
    Some((e, v))
}

/// True if the six bytes at `i` spell `ptp4l[`.
pub open spec fn tag_at(s: Seq<u8>, i: int) -> bool {
    i + 6 <= s.len() && s[i] == 0x70 && s[i + 1] == 0x74 && s[i + 2] == 0x70 && s[i + 3]
        == 0x34 && s[i + 4] == 0x6c && s[i + 5] == 0x5b
}

/// True if the six bytes at `i` spell `master`.
pub open spec fn master_at(s: Seq<u8>, i: int) -> bool {
    i + 6 <= s.len() && s[i] == 0x6d && s[i + 1] == 0x61 && s[i + 2] == 0x73 && s[i + 3]
        == 0x74 && s[i + 4] == 0x65 && s[i + 5] == 0x72
}

/// True if the six bytes at `i` spell `offset`.
pub open spec fn offset_at(s: Seq<u8>, i: int) -> bool {
    i + 6 <= s.len() && s[i] == 0x6f && s[i + 1] == 0x66 && s[i + 2] == 0x66 && s[i + 3]
        == 0x73 && s[i + 4] == 0x65 && s[i + 5] == 0x74
}

/// True if the four bytes at `i` spell `freq`.
pub open spec fn freq_at(s: Seq<u8>, i: int) -> bool {
    i + 4 <= s.len() && s[i] == 0x66 && s[i + 1] == 0x72 && s[i + 2] == 0x65 && s[i + 3]
        == 0x71
}

/// True if the four bytes at `i` spell `path`.
pub open spec fn path_at(s: Seq<u8>, i: int) -> bool {
    i + 4 <= s.len() && s[i] == 0x70 && s[i + 1] == 0x61 && s[i + 2] == 0x74 && s[i + 3]
        == 0x68
}

/// True if the five bytes at `i` spell `delay`.
pub open spec fn delay_at(s: Seq<u8>, i: int) -> bool {
    i + 5 <= s.len() && s[i] == 0x64 && s[i + 1] == 0x65 && s[i + 2] == 0x6c && s[i + 3]
        == 0x61 && s[i + 4] == 0x79
}

/// True if the line starts with a timestamp of the form
/// `YYYY-MM-DDThh:mm:ss±hh:mm` (25 bytes, sign `+` or `-`).
pub open spec fn ts_ok(s: Seq<u8>) -> bool {
    s.len() >= 25 && is_digit(s[0]) && is_digit(s[1]) && is_digit(s[2]) && is_digit(s[3])
        && s[4] == 0x2d && is_digit(s[5]) && is_digit(s[6]) && s[7] == 0x2d && is_digit(
        s[8],
    ) && is_digit(s[9]) && s[10] == 0x54 && is_digit(s[11]) && is_digit(s[12]) && s[13]
        == 0x3a && is_digit(s[14]) && is_digit(s[15]) && s[16] == 0x3a && is_digit(s[17])
        && is_digit(s[18]) && (s[19] == 0x2b || s[19] == 0x2d) && is_digit(s[20])
        && is_digit(s[21]) && s[22] == 0x3a && is_digit(s[23]) && is_digit(s[24])
}

/// Position after the syslog header that follows the timestamp:
/// whitespace, a host name, whitespace, `ptp4l[<digits>]:`, whitespace,
/// `ptp4l[<digits>.<digits>]:`, whitespace.
pub open spec fn hdr_end(s: Seq<u8>, i: int) -> Option<int> {
    let a = scan(s, i, Cls::Space);
    if a == i {
        None
    } else {
        let b = scan(s, a, Cls::Word);
        if b == a {
            None
        } else {
            let c = scan(s, b, Cls::Space);
            if c == b {
                None
            } else if !tag_at(s, c) {
                None
            } else {
                let d = scan(s, c + 6, Cls::Digit);
                if d == c + 6 {
                    None
                } else if !(d + 2 <= s.len() && s[d] == 0x5d && s[d + 1] == 0x3a) {
                    None
                } else {
                    let e = scan(s, d + 2, Cls::Space);
                    if e == d + 2 {
                        None
                    } else if !tag_at(s, e) {
                        None
                    } else {
                        let f = scan(s, e + 6, Cls::Digit);
                        if f == e + 6 {
                            None
                        } else if !(f < s.len() && s[f] == 0x2e) {
                            None
                        } else {
                            let g = scan(s, f + 1, Cls::Digit);
                            if g == f + 1 {
                                None
                            } else if !(g + 2 <= s.len() && s[g] == 0x5d && s[g + 1]
                                == 0x3a) {
                                None
                            } else {
                                let h = scan(s, g + 2, Cls::Space);
                                if h == g + 2 {
                                    None
                                } else {
                                    Some(h)
                                }
                            }
                        }
                    }
                }
            }
        }
    }
}

/// Position after `master`, whitespace, `offset`, whitespace.
pub open spec fn kw_end(s: Seq<u8>, i: int) -> Option<int> {
    if !master_at(s, i) {
        None
    } else {
        let a = scan(s, i + 6, Cls::Space);
        if a == i + 6 {
            None
        } else if !offset_at(s, a) {
            None
        } else {
            let b = scan(s, a + 6, Cls::Space);
            if b == a + 6 {
                None
            } else {
                Some(b)
            }
        }
    }
}

/// Position after the part between the offset value and the delay value:
/// whitespace, `s<digit>`, whitespace, `freq <int>`, whitespace,
/// `path`, whitespace, `delay`, whitespace.
pub open spec fn mid_end(s: Seq<u8>, i: int) -> Option<int> {
    let a = scan(s, i, Cls::Space);
    if a == i {
        None
    } else if !(a + 2 <= s.len() && s[a] == 0x73 && is_digit(s[a + 1])) {
        None
    } else {
        let b = scan(s, a + 2, Cls::Space);
        if b == a + 2 {
            None
        } else if !freq_at(s, b) {
            None
        } else {
            let c = scan(s, b + 4, Cls::Space);
            if c == b + 4 {
                None
            } else {
                match num_end(s, c) {
                    None => None,
                    Some(f) => {
                        let g = scan(s, f, Cls::Space);
                        if g == f {
                            None
                        } else if !path_at(s, g) {
                            None
                        } else {
                            let h = scan(s, g + 4, Cls::Space);
                            if h == g + 4 {
                                None
                            } else if !delay_at(s, h) {
                                None
                            } else {
                                let k = scan(s, h + 5, Cls::Space);
                                if k == h + 5 {
                                    None
                                } else {
                                    Some(k)
                                }
                            }
                        }
                    },
                }
            }
        }
    }
}

/// Checks for an ASCII digit.
fn is_digit_exec(b: u8) -> (r: bool)
    ensures
        r == is_digit(b),
{
    0x30 <= b && b <= 0x39
}

/// Checks for `ptp4l[` at position `i`.
fn tag_check(s: &Vec<u8>, i: usize) -> (r: bool)
    requires
        i <= s@.len(),
    ensures
        r == tag_at(s@, i as int),
{
    s.len() - i >= 6 && s[i] == 0x70 && s[i + 1] == 0x74 && s[i + 2] == 0x70 && s[i + 3]
        == 0x34 && s[i + 4] == 0x6c && s[i + 5] == 0x5b
}

/// Checks for the leading timestamp.
fn ts_check(s: &Vec<u8>) -> (r: bool)
    ensures
        r == ts_ok(s@),
{
    s.len() >= 25 && is_digit_exec(s[0]) && is_digit_exec(s[1]) && is_digit_exec(s[2])
        && is_digit_exec(s[3]) && s[4] == 0x2d && is_digit_exec(s[5]) && is_digit_exec(
        s[6],
    ) && s[7] == 0x2d && is_digit_exec(s[8]) && is_digit_exec(s[9]) && s[10] == 0x54
        && is_digit_exec(s[11]) && is_digit_exec(s[12]) && s[13] == 0x3a && is_digit_exec(
        s[14],
    ) && is_digit_exec(s[15]) && s[16] == 0x3a && is_digit_exec(s[17]) && is_digit_exec(
        s[18],
    ) && (s[19] == 0x2b || s[19] == 0x2d) && is_digit_exec(s[20]) && is_digit_exec(s[21])
        && s[22] == 0x3a && is_digit_exec(s[23]) && is_digit_exec(s[24])
}

/// Scans the syslog header that follows the timestamp.
fn hdr_scan(s: &Vec<u8>, i: usize) -> (r: Option<usize>)
    requires
        i <= s@.len(),
    ensures
        match r {
            None => hdr_end(s@, i as int) is None,
            Some(h) => hdr_end(s@, i as int) == Some(h as int) && h <= s@.len(),
        },
{
    let n = s.len();
    let a = scan_cls(s, i, Cls::Space);
    if a == i {
        return None;
    }
    let b = scan_cls(s, a, Cls::Word);
    if b == a {
        return None;
    }
    let c = scan_cls(s, b, Cls::Space);
    if c == b {
        return None;
    }
    if !tag_check(s, c) {
        return None;
    }
    let d = scan_cls(s, c + 6, Cls::Digit);
    if d == c + 6 {
        return None;
    }
    if !(n - d >= 2 && s[d] == 0x5d && s[d + 1] == 0x3a) {
        return None;
    }
    let e = scan_cls(s, d + 2, Cls::Space);
    if e == d + 2 {
        return None;
    }
    if !tag_check(s, e) {
        return None;
    }
    let f = scan_cls(s, e + 6, Cls::Digit);
    if f == e + 6 {
        return None;
    }
    if !(f < n && s[f] == 0x2e) {
        return None;
    }
    let g = scan_cls(s, f + 1, Cls::Digit);
    if g == f + 1 {
        return None;
    }
    if !(n - g >= 2 && s[g] == 0x5d && s[g + 1] == 0x3a) {
        return None;
    }
    let h = scan_cls(s, g + 2, Cls::Space);
    if h == g + 2 {
        return None;
    }
    Some(h)
}

/// Scans `master`, whitespace, `offset`, whitespace.
fn kw_scan(s: &Vec<u8>, i: usize) -> (r: Option<usize>)
    requires
        i <= s@.len(),
    ensures
        match r {
            None => kw_end(s@, i as int) is None,
            Some(m) => kw_end(s@, i as int) == Some(m as int) && m <= s@.len(),
        },
{
    let n = s.len();
    if !(n - i >= 6 && s[i] == 0x6d && s[i + 1] == 0x61 && s[i + 2] == 0x73 && s[i
        + 3] == 0x74 && s[i + 4] == 0x65 && s[i + 5] == 0x72) {
        return None;
    }
    let a = scan_cls(s, i + 6, Cls::Space);
    if a == i + 6 {
        return None;
    }
    if !(n - a >= 6 && s[a] == 0x6f && s[a + 1] == 0x66 && s[a + 2] == 0x66 && s[a
        + 3] == 0x73 && s[a + 4] == 0x65 && s[a + 5] == 0x74) {
        return None;
    }
    let b = scan_cls(s, a + 6, Cls::Space);
    if b == a + 6 {
        return None;
    }
    Some(b)
}

/// Scans from the end of the offset value past `s<digit>`, `freq <int>`,
/// `path` and `delay`, up to the start of the delay value.
fn mid_scan(s: &Vec<u8>, i: usize) -> (r: Option<usize>)
    requires
        i <= s@.len(),
    ensures
        match r {
            None => mid_end(s@, i as int) is None,
            Some(k) => mid_end(s@, i as int) == Some(k as int) && k <= s@.len(),
        },
{
    let n = s.len();
    let a = scan_cls(s, i, Cls::Space);
    if a == i {
        return None;
    }
    if !(n - a >= 2 && s[a] == 0x73 && is_digit_exec(s[a + 1])) {
        return None;
    }
    let b = scan_cls(s, a + 2, Cls::Space);
    if b == a + 2 {
        return None;
    }
    if !(n - b >= 4 && s[b] == 0x66 && s[b + 1] == 0x72 && s[b + 2] == 0x65 && s[b
        + 3] == 0x71) {
        return None;
    }
    let c = scan_cls(s, b + 4, Cls::Space);
    if c == b + 4 {
        return None;
    }
    let f = match parse_num(s, c) {
        None => {
            return None;
        },
        Some(p) => p.0,
    };
    let g = scan_cls(s, f, Cls::Space);
    if g == f {
        return None;
    }
    if !(n - g >= 4 && s[g] == 0x70 && s[g + 1] == 0x61 && s[g + 2] == 0x74 && s[g
        + 3] == 0x68) {
        return None;
    }
    let h = scan_cls(s, g + 4, Cls::Space);
    if h == g + 4 {
        return None;
    }
    if !(n - h >= 5 && s[h] == 0x64 && s[h + 1] == 0x65 && s[h + 2] == 0x6c && s[h
        + 3] == 0x61 && s[h + 4] == 0x79) {
        return None;
    }
    let k = scan_cls(s, h + 5, Cls::Space);
    if k == h + 5 {
        return None;
    }
    Some(k)
}

/// The `(master offset, path delay)` values of a line that matches the
/// structural pattern, as mathematical integers; `None` for a line that
/// does not match.
pub open spec fn line_spec(s: Seq<u8>) -> Option<(int, int)> {
    if !ts_ok(s) {
        None
    } else {
        match hdr_end(s, 25) {
            None => None,
            Some(h) => match kw_end(s, h) {
                None => None,
                Some(m) => match num_end(s, m) {
                    None => None,
                    Some(oe) => match mid_end(s, oe) {
                        None => None,
                        Some(k) => match num_end(s, k) {
                            None => None,
                            Some(_de) => Some((num_val(s, m), num_val(s, k))),
                        },
                    },
                },
            },
        }
    }
}

/// What matching one line yields: nothing, a record, or a value that the
/// pattern accepts but a 64-bit integer cannot hold.
#[derive(PartialEq, Eq)]
pub enum LineOutcome {
    /// The line does not match the pattern; it contributes nothing.
    Skip,
    /// The line matches; its offset and delay values.
    Record(i64, i64),
    /// The line matches, but a captured value is out of `i64` range.
    OutOfRange,
}

/// Matches one line against the structural pattern.
pub fn match_line(s: &Vec<u8>) -> (r: LineOutcome)
    ensures
        match line_spec(s@) {
            None => r is Skip,
            Some(p) => match (fit_i64(p.0), fit_i64(p.1)) {
                (Some(o), Some(d)) => r == LineOutcome::Record(o, d),
                _ => r is OutOfRange,
            },
        },
{
    if !ts_check(s) {
        return LineOutcome::Skip;
    }
    let h = match hdr_scan(s, 25) {
        None => {
            return LineOutcome::Skip;
        },
        Some(h) => h,
    };
    let m = match kw_scan(s, h) {
        None => {
            return LineOutcome::Skip;
        },
        Some(m) => m,
    };
    let (oe, ov) = match parse_num(s, m) {
        None => {
            return LineOutcome::Skip;
        },
        Some(p) => p,
    };
    let k = match mid_scan(s, oe) {
        None => {
            return LineOutcome::Skip;
        },
        Some(k) => k,
    };
    let dv2 = match parse_num(s, k) {
        None => {
            return LineOutcome::Skip;
        },
        Some(p) => p.1,
    };
    match (ov, dv2) {
        (Some(o), Some(d)) => LineOutcome::Record(o, d),
        _ => LineOutcome::OutOfRange,
    }
}

/// The `(offset, delay)` pairs of the matching lines, in line order.
pub open spec fn records(lines: Seq<Seq<u8>>) -> Seq<(int, int)>
    decreases lines.len(),
{
    if lines.len() == 0 {
        Seq::empty()
    } else {
        let rest = records(lines.drop_last());
        match line_spec(lines.last()) {
            Some(p) => rest.push(p),
            None => rest,
        }
    }
}

/// The offset values of the matching lines, in line order.
pub open spec fn offsets_of(lines: Seq<Seq<u8>>) -> Seq<int> {
    records(lines).map_values(|p: (int, int)| p.0)
}

/// The delay values of the matching lines, in line order.
pub open spec fn delays_of(lines: Seq<Seq<u8>>) -> Seq<int> {
    records(lines).map_values(|p: (int, int)| p.1)
}

/// True if the line either does not match, or matches with values that
/// fit in an `i64`.
pub open spec fn line_fits(l: Seq<u8>) -> bool {
    match line_spec(l) {
        None => true,
        Some(p) => fit_i64(p.0) is Some && fit_i64(p.1) is Some,
    }
}

/// True if every line of the input fits.
pub open spec fn all_fit(lines: Seq<Seq<u8>>) -> bool {
    forall|i: int| 0 <= i < lines.len() ==> line_fits(lines[i])
}

/// A line that matches with values `(o, d)` appends exactly one record,
/// `o` to the offsets and `d` to the delays, in file order.
pub proof fn lemma_match_appends(lines: Seq<Seq<u8>>, l: Seq<u8>, o: int, d: int)
    requires
        line_spec(l) == Some((o, d)),
    ensures
        records(lines.push(l)) == records(lines).push((o, d)),
        offsets_of(lines.push(l)) == offsets_of(lines).push(o),
        delays_of(lines.push(l)) == delays_of(lines).push(d),
{
    let p = lines.push(l);
    assert(p.drop_last() =~= lines);
    assert(p.last() == l);
    assert(records(p) == records(lines).push((o, d)));
    assert(offsets_of(p) =~= offsets_of(lines).push(o));
    assert(delays_of(p) =~= delays_of(lines).push(d));
}

/// A line that does not match contributes nothing.
pub proof fn lemma_skip_appends(lines: Seq<Seq<u8>>, l: Seq<u8>)
    requires
        line_spec(l) is None,
    ensures
        records(lines.push(l)) == records(lines),
        offsets_of(lines.push(l)) == offsets_of(lines),
        delays_of(lines.push(l)) == delays_of(lines),
{
    let p = lines.push(l);
    assert(p.drop_last() =~= lines);
    assert(p.last() == l);
    assert(records(p) == records(lines));
}

/// After extraction the offset and delay sequences always have the same
/// length.
pub proof fn lemma_parallel_lengths(lines: Seq<Seq<u8>>)
    ensures
        offsets_of(lines).len() == delays_of(lines).len(),
{
}

/// The result of a successful extraction.
pub struct Extraction {
    /// The `master offset` values, in line order.
    pub offsets: Vec<i64>,
    /// The `path delay` values, in line order.
    pub delays: Vec<i64>,
}

/// The one extraction failure: a matching line carries a value outside
/// `i64` range. This is the guarded internal-consistency condition, not
/// a recoverable per-line error.
#[derive(PartialEq, Eq, Structural, Clone, Copy, Debug)]
pub enum ExtractError {
    /// A captured offset or delay does not fit in 64 bits.
    ValueOutOfRange,
}

/// True if `offsets` and `delays` are exactly the sequences that the
/// matching lines of `lines` yield.
pub open spec fn is_extraction_of(offsets: Seq<i64>, delays: Seq<i64>, lines: Seq<Seq<u8>>) -> bool {
    offsets.map_values(|x: i64| x as int) == offsets_of(lines) && delays.map_values(
        |x: i64| x as int,
    ) == delays_of(lines)
}

/// Extraction is a pure function of its input: any two results for the
/// same lines are identical.
pub proof fn lemma_extraction_unique(
    o1: Seq<i64>,
    d1: Seq<i64>,
    o2: Seq<i64>,
    d2: Seq<i64>,
    lines: Seq<Seq<u8>>,
)
    requires
        is_extraction_of(o1, d1, lines),
        is_extraction_of(o2, d2, lines),
    ensures
        o1 == o2,
        d1 == d2,
{
    assert(o1.map_values(|x: i64| x as int).len() == o1.len());
    assert(o2.map_values(|x: i64| x as int).len() == o2.len());
    assert forall|i: int| 0 <= i < o1.len() implies o1[i] == o2[i] by {
        assert(o1.map_values(|x: i64| x as int)[i] == o1[i] as int);
        assert(o2.map_values(|x: i64| x as int)[i] == o2[i] as int);
    }
    assert(o1 =~= o2);
    assert(d1.map_values(|x: i64| x as int).len() == d1.len());
    assert(d2.map_values(|x: i64| x as int).len() == d2.len());
    assert forall|i: int| 0 <= i < d1.len() implies d1[i] == d2[i] by {
        assert(d1.map_values(|x: i64| x as int)[i] == d1[i] as int);
        assert(d2.map_values(|x: i64| x as int)[i] == d2[i] as int);
    }
    assert(d1 =~= d2);
}

/// Runs the extractor over all lines of one file.
///
/// Every line is matched against the structural pattern; matching lines
/// append their offset and delay values to the two parallel output
/// sequences, other lines are skipped silently. The only error is a
/// matching line whose captured value does not fit in an `i64`.
pub fn extract(lines: &Vec<Vec<u8>>) -> (r: Result<Extraction, ExtractError>)
    ensures
        match r {
            Ok(e) => all_fit(lines.deep_view()) && is_extraction_of(
                e.offsets@,
                e.delays@,
                lines.deep_view(),
            ) && e.offsets@.len() == e.delays@.len(),
            Err(er) => er == ExtractError::ValueOutOfRange && !all_fit(lines.deep_view()),
        },
{
    let ghost lv = lines.deep_view();
    let mut offsets: Vec<i64> = Vec::new();
    let mut delays: Vec<i64> = Vec::new();
    proof {
        assert(lv.take(0) =~= Seq::<Seq<u8>>::empty());
        assert(offsets@.map_values(|x: i64| x as int) =~= offsets_of(lv.take(0)));
        assert(delays@.map_values(|x: i64| x as int) =~= delays_of(lv.take(0)));
    }
    let mut i: usize = 0;
    while i < lines.len()
        invariant
            i <= lines@.len(),
            lv == lines.deep_view(),
            lv.len() == lines@.len(),
            forall|k: int| 0 <= k < i ==> line_fits(lv[k]),
            is_extraction_of(offsets@, delays@, lv.take(i as int)),
            offsets@.len() == delays@.len(),
        decreases lines@.len() - i,
    {
        proof {
            assert(lv[i as int] =~= lines@[i as int]@);
        }
        let lr = match_line(&lines[i]);
        proof {
            assert(lv.take(i + 1) =~= lv.take(i as int).push(lv[i as int]));
        }
        match lr {
            LineOutcome::Skip => {
                proof {
                    lemma_skip_appends(lv.take(i as int), lv[i as int]);
                }
            },
            LineOutcome::Record(o, d) => {
                offsets.push(o);
                delays.push(d);
                proof {
                    lemma_match_appends(
                        lv.take(i as int),
                        lv[i as int],
                        line_spec(lv[i as int])->Some_0.0,
                        line_spec(lv[i as int])->Some_0.1,
                    );
                    assert(offsets@.map_values(|x: i64| x as int) =~= offsets_of(
                        lv.take(i + 1),
                    ));
                    assert(delays@.map_values(|x: i64| x as int) =~= delays_of(
                        lv.take(i + 1),
                    ));
                }
            },
            LineOutcome::OutOfRange => {
                proof {
                    assert(!line_fits(lv[i as int]));
                }
                return Err(ExtractError::ValueOutOfRange);
            },
        }
        i = i + 1;
    }
    proof {
        assert(lv.take(lines@.len() as int) =~= lv);
    }
    Ok(Extraction { offsets, delays })
}

} // verus!
