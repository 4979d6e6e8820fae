//! Parsers for the user-facing geometry string `[=]<W>x<H><+|-><X><+|-><Y>`
//! and for integers with an optional radix prefix (`0x`, `0o`, `0b`).
//!
//! Both parsers are specified over the UTF-8 bytes of the input string and
//! reject any trailing or malformed input.

use crate::geometry::Rect;
use vstd::math::min;
use vstd::prelude::*;
use vstd::string::StringSliceAdditionalSpecFns;

verus! {

pub open spec fn is_digit_byte(b: u8) -> bool {
    48 <= b <= 57  // '0' to '9'
}

/// Length of the run of ASCII digits starting at `from`.
pub open spec fn digit_run_len(s: Seq<u8>, from: int) -> nat
    decreases s.len() - from,
{
    if from < 0 || from >= s.len() || !is_digit_byte(s[from]) {
        0
    } else {
        1 + digit_run_len(s, from + 1)
    }
}

/// Value of the decimal digits `s[from..to]`.
pub open spec fn digits_value(s: Seq<u8>, from: int, to: int) -> int
    decreases to - from,
{
    if to <= from {
        0
    } else {
        digits_value(s, from, to - 1) * 10 + (s[to - 1] - 48)
    }
}

/// An unsigned field of the geometry grammar: one to five decimal digits,
/// taken greedily. Yields the value and the position after the field.
pub open spec fn spec_unsigned(s: Seq<u8>, p: int) -> Option<(int, int)> {
    let n = min(digit_run_len(s, p) as int, 5);
    if n <= 0 {
        None
    } else {
        Some((digits_value(s, p, p + n), p + n))
    }
}

/// A signed field: an explicit `+` or `-`, then an unsigned field.
pub open spec fn spec_signed(s: Seq<u8>, p: int) -> Option<(int, int)> {
    if 0 <= p < s.len() && (s[p] == 43 || s[p] == 45) {  // '+' or '-'
        match spec_unsigned(s, p + 1) {
            Some((v, q)) => Some((if s[p] == 45 { -v } else { v }, q)),
            None => None,
        }
    } else {
        None
    }
}

/// The whole geometry string: an optional `=`, width, the separator `x`,
/// height, then two signed offsets, with nothing left over.
pub open spec fn spec_parse_geometry(s: Seq<u8>) -> Option<Rect> {
    let p0: int = if s.len() > 0 && s[0] == 61 {  // '='
        1
    } else {
        0
    };
    match spec_unsigned(s, p0) {
        None => None,
        Some((w, p1)) => {
            if !(p1 < s.len() && s[p1] == 120) {  // 'x'
                None
            } else {
                match spec_unsigned(s, p1 + 1) {
                    None => None,
                    Some((h, p2)) => match spec_signed(s, p2) {
                        None => None,
                        Some((x, p3)) => match spec_signed(s, p3) {
                            None => None,
                            Some((y, p4)) => if p4 == s.len() {
                                Some(Rect { x: x as i32, y: y as i32, w: w as i32, h: h as i32 })
                            } else {
                                None
                            },
                        },
                    },
                }
            }
        },
    }
}

/// Digit runs: counting `n` digits from `p` bounds the run length from below,
/// and hitting the end or a non-digit pins it exactly.
proof fn lemma_digit_run_len(s: Seq<u8>, p: int, n: int)
    requires
        0 <= p,
        0 <= n,
        p + n <= s.len(),
        forall|i: int| p <= i < p + n ==> is_digit_byte(s[i]),
    ensures
        digit_run_len(s, p) >= n,
        (p + n == s.len() || !is_digit_byte(s[p + n])) ==> digit_run_len(s, p) == n,
    decreases n,
{
    if n > 0 {
        assert(is_digit_byte(s[p]));
        lemma_digit_run_len(s, p + 1, n - 1);
    } else {
        if p == s.len() || !is_digit_byte(s[p]) {
        }
    }
}

/// The value of at most five decimal digits stays below 100000.
proof fn lemma_digits_value_bound(s: Seq<u8>, from: int, to: int)
    requires
        from <= to,
        forall|i: int| from <= i < to ==> is_digit_byte(s[i]),
    ensures
        0 <= digits_value(s, from, to),
        to - from <= 1 ==> digits_value(s, from, to) < 10,
        to - from <= 2 ==> digits_value(s, from, to) < 100,
        to - from <= 3 ==> digits_value(s, from, to) < 1000,
        to - from <= 4 ==> digits_value(s, from, to) < 10000,
        to - from <= 5 ==> digits_value(s, from, to) < 100000,
    decreases to - from,
{
    if to > from {
        lemma_digits_value_bound(s, from, to - 1);
    }
}

/// Scan an unsigned geometry field at `p`: up to five decimal digits.
fn scan_unsigned(b: &[u8], p: usize) -> (r: Option<(i32, usize)>)
    requires
        p <= b@.len(),
    ensures
        match r {
            Some(t) => {
                &&& spec_unsigned(b@, p as int) == Some((t.0 as int, t.1 as int))
                &&& 0 <= t.0 < 100000
                &&& p < t.1 <= b@.len()
            },
            None => spec_unsigned(b@, p as int) is None,
        },
{
    let len = b.len();
    let mut n: usize = 0;
    let mut acc: i32 = 0;
    while n < 5 && len - p > n && b[p + n] >= 48 && b[p + n] <= 57
        invariant
            p + n <= len <= b@.len(),
            len == b@.len(),
            n <= 5,
            forall|i: int| p <= i < p + n ==> is_digit_byte(b@[i]),
            acc == digits_value(b@, p as int, p + n),
            0 <= acc < 100000,
        decreases 5 - n,
    {
        proof {
            lemma_digits_value_bound(b@, p as int, p + n);
        }
        acc = acc * 10 + ((b[p + n] - 48) as i32);
        n = n + 1;
        proof {
            lemma_digits_value_bound(b@, p as int, p + n);
        }
    }
    proof {
        lemma_digit_run_len(b@, p as int, n as int);
    }
    if n == 0 {
        None
    } else {
        Some((acc, p + n))
    }
}

/// Scan a signed geometry field at `p`: a mandatory sign, then digits.
fn scan_signed(b: &[u8], p: usize) -> (r: Option<(i32, usize)>)
    requires
        p <= b@.len(),
    ensures
        match r {
            Some(t) => {
                &&& spec_signed(b@, p as int) == Some((t.0 as int, t.1 as int))
                &&& -100000 < t.0 < 100000
                &&& p < t.1 <= b@.len()
            },
            None => spec_signed(b@, p as int) is None,
        },
{
    if p < b.len() && (b[p] == 43 || b[p] == 45) {  // '+' or '-'
        let negative = b[p] == 45;
        match scan_unsigned(b, p + 1) {
            Some((v, q)) => Some(
                (
                    if negative {
                        -v
                    } else {
                        v
                    },
                    q,
                ),
            ),
            None => None,
        }
    } else {
        None
    }
}

/// Parse a geometry string of the form `[=]<W>x<H><+|-><X><+|-><Y>`, where
/// the width and height are one to five decimal digits, the separator is
/// the letter `x`, and the offsets carry an explicit sign. Any malformed
/// field or trailing input yields `None`.
pub fn parse_geometry(g: &str) -> (r: Option<Rect>)
    ensures
        r == spec_parse_geometry(g.spec_bytes()),
{
    let b = g.as_bytes();
    let len = b.len();
    let p0: usize = if len > 0 && b[0] == 61 {  // '='
        1
    } else {
        0
    };
    let (w, p1) = match scan_unsigned(b, p0) {
        Some(t) => t,
        None => {
            return None;
        },
    };
    if !(p1 < len && b[p1] == 120) {  // 'x'
        return None;
    }
    let (h, p2) = match scan_unsigned(b, p1 + 1) {
        Some(t) => t,
        None => {
            return None;
        },
    };
    let (x, p3) = match scan_signed(b, p2) {
        Some(t) => t,
        None => {
            return None;
        },
    };
    let (y, p4) = match scan_signed(b, p3) {
        Some(t) => t,
        None => {
            return None;
        },
    };
    if p4 == len {
        Some(Rect { x, y, w, h })
    } else {
        None
    }
}

/// Value of byte `b` as a digit: `0`-`9`, then letters of either case.
/// Anything else, and any digit at or above the radix, counts as invalid,
/// marked by a value not below `radix`.
pub open spec fn radix_digit(b: u8, radix: int) -> int {
    if 48 <= b <= 57 {  // '0' to '9'
        b - 48
    } else if 97 <= b <= 122 {  // 'a' to 'z'
        b - 87
    } else if 65 <= b <= 90 {  // 'A' to 'Z'
        b - 55
    } else {
        radix
    }
}

pub open spec fn is_radix_digit(b: u8, radix: int) -> bool {
    radix_digit(b, radix) < radix
}

/// Value of the digits `s[from..to]` in base `radix`.
pub open spec fn radix_value(s: Seq<u8>, radix: int, from: int, to: int) -> int
    decreases to - from,
{
    if to <= from {
        0
    } else {
        radix_value(s, radix, from, to - 1) * radix + radix_digit(s[to - 1], radix)
    }
}

/// An integer of base `radix` from `from` to the end of `s`: an optional
/// `+`, then one or more digits, with the value fitting in `u32`. A `-` is
/// rejected outright, as it is when parsing an unsigned type.
pub open spec fn spec_radix_parse(s: Seq<u8>, radix: int, from: int) -> Option<u32> {
    if from < s.len() && s[from] == 45 {  // '-'
        None
    } else {
        let p = if from < s.len() && s[from] == 43 {  // '+'
            from + 1
        } else {
            from
        };
        if p >= s.len() {
            None
        } else if !(forall|i: int| p <= i < s.len() ==> is_radix_digit(s[i], radix)) {
            None
        } else {
            let v = radix_value(s, radix, p, s.len() as int);
            if v <= u32::MAX {
                Some(v as u32)
            } else {
                None
            }
        }
    }
}

/// The radix-prefix dispatch of [`parse_int`]: `0x`/`0X` hexadecimal,
/// `0o`/`0O` octal, `0b`/`0B` binary, decimal otherwise.
pub open spec fn spec_parse_int(s: Seq<u8>) -> Option<u32> {
    if s.len() < 2 {
        spec_radix_parse(s, 10, 0)
    } else if s[0] == 48 && (s[1] == 120 || s[1] == 88) {  // "0x" / "0X"
        spec_radix_parse(s, 16, 2)
    } else if s[0] == 48 && (s[1] == 111 || s[1] == 79) {  // "0o" / "0O"
        spec_radix_parse(s, 8, 2)
    } else if s[0] == 48 && (s[1] == 98 || s[1] == 66) {  // "0b" / "0B"
        spec_radix_parse(s, 2, 2)
    } else {
        spec_radix_parse(s, 10, 0)
    }
}

/// Digit values are never negative.
proof fn lemma_radix_value_nonneg(s: Seq<u8>, radix: int, from: int, to: int)
    requires
        2 <= radix,
        from <= to,
    ensures
        0 <= radix_value(s, radix, from, to),
    decreases to - from,
{
    if to > from {
        lemma_radix_value_nonneg(s, radix, from, to - 1);
        assert(radix_value(s, radix, from, to - 1) * radix >= 0) by (nonlinear_arith)
            requires
                radix_value(s, radix, from, to - 1) >= 0,
                radix >= 2,
        ;
    }
}

/// Reading further digits never decreases the value.
proof fn lemma_radix_value_monotone(s: Seq<u8>, radix: int, from: int, mid: int, to: int)
    requires
        2 <= radix,
        from <= mid <= to,
    ensures
        radix_value(s, radix, from, mid) <= radix_value(s, radix, from, to),
    decreases to - mid,
{
    if to > mid {
        lemma_radix_value_monotone(s, radix, from, mid, to - 1);
        lemma_radix_value_nonneg(s, radix, from, to - 1);
        assert(radix_value(s, radix, from, to - 1) * radix >= radix_value(s, radix, from, to - 1))
            by (nonlinear_arith)
            requires
                radix_value(s, radix, from, to - 1) >= 0,
                radix >= 2,
        ;
    }
}

/// Exec mirror of [`radix_digit`].
fn byte_digit(b: u8, radix: u32) -> (d: u32)
    requires
        2 <= radix <= 16,
    ensures
        d == radix_digit(b, radix as int),
{
    if 48 <= b && b <= 57 {
        (b - 48) as u32
    } else if 97 <= b && b <= 122 {
        (b - 87) as u32
    } else if 65 <= b && b <= 90 {
        (b - 55) as u32
    } else {
        radix
    }
}

/// Parse base-`radix` digits from `from` to the end of `b`, with an
/// optional leading `+`, rejecting empty input, a `-` sign, invalid digits
/// and values that do not fit in `u32`.
fn radix_parse(b: &[u8], from: usize, radix: u32) -> (r: Option<u32>)
    requires
        from <= b@.len(),
        2 <= radix <= 16,
    ensures
        r == spec_radix_parse(b@, radix as int, from as int),
{
    let len = b.len();
    let mut q = from;
    if q < len && b[q] == 45 {  // '-'
        return None;
    }
    if q < len && b[q] == 43 {  // '+'
        q = q + 1;
    }
    if q >= len {
        return None;
    }
    let mut acc: u32 = 0;
    let mut i = q;
    while i < len
        invariant
            q <= i <= len,
            len == b@.len(),
            from <= b@.len(),
            2 <= radix <= 16,
            !(from < b@.len() && b@[from as int] == 45),
            q as int == if from < b@.len() && b@[from as int] == 43 {
                from + 1int
            } else {
                from as int
            },
            forall|j: int| q <= j < i ==> is_radix_digit(b@[j], radix as int),
            acc == radix_value(b@, radix as int, q as int, i as int),
        decreases len - i,
    {
        let d = byte_digit(b[i], radix);
        if d >= radix {
            proof {
                assert(exists|j: int|
                    q <= j < b@.len() && !is_radix_digit(b@[j], radix as int)) by {
                    assert(q <= i < b@.len() && !is_radix_digit(b@[i as int], radix as int));
                }
            }
            return None;
        }
        proof {
            assert((acc as int) * (radix as int) <= 0xFFFF_FFFF * 16) by (nonlinear_arith)
                requires
                    0 <= acc <= 0xFFFF_FFFF,
                    0 <= radix <= 16,
            ;
        }
        let wide: u64 = (acc as u64) * (radix as u64) + (d as u64);
        if wide > u32::MAX as u64 {
            proof {
                lemma_radix_value_monotone(b@, radix as int, q as int, i + 1, len as int);
            }
            return None;
        }
        acc = wide as u32;
        i = i + 1;
    }
    Some(acc)
}

/// Parse an integer the way the window-id option accepts it: decimal by
/// default, or hexadecimal, octal or binary after a `0x`, `0o` or `0b`
/// prefix of either case, with an optional sign before the digits.
pub fn parse_int(string: &str) -> (r: Option<u32>)
    ensures
        r == spec_parse_int(string.spec_bytes()),
{
    let b = string.as_bytes();
    if b.len() < 2 {
        return radix_parse(b, 0, 10);
    }
    if b[0] == 48 && (b[1] == 120 || b[1] == 88) {  // "0x" / "0X"
        radix_parse(b, 2, 16)
    } else if b[0] == 48 && (b[1] == 111 || b[1] == 79) {  // "0o" / "0O"
        radix_parse(b, 2, 8)
    } else if b[0] == 48 && (b[1] == 98 || b[1] == 66) {  // "0b" / "0B"
        radix_parse(b, 2, 2)
    } else {
        radix_parse(b, 0, 10)
    }
}

} // verus!
