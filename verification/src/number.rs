//! Integers written as ASCII numerals.
//!
//! A numeral is an optional sign followed by one or more digits of its radix.
//! Nothing else may stand in it: no blank, no underscore, no prefix. A value
//! outside the range of the type asked for is no numeral of that type.

use vstd::prelude::*;

verus! {

/// The ASCII plus sign.
pub const PLUS: u8 = 0x2b;

/// The ASCII minus sign.
pub const MINUS: u8 = 0x2d;

/// The largest magnitude that the parsers here accumulate.
pub const WIDE_MAX: i128 = 0xffff_ffff_ffff_ffff;

/// The value of one digit in the given radix: `0` to `9`, then the letters in
/// either case from ten on. A byte that is no digit of the radix has none.
pub open spec fn digit_of(b: u8, radix: int) -> Option<int> {
    let v: int = if 0x30 <= b <= 0x39 {
        b - 0x30
    } else if 0x61 <= b <= 0x7a {
        b - 0x61 + 10
    } else if 0x41 <= b <= 0x5a {
        b - 0x41 + 10
    } else {
        36
    };
    if v < radix {
        Some(v)
    } else {
        None
    }
}

/// The number that a string of digits denotes, most significant digit first.
/// The empty string denotes zero; a string with a byte that is no digit
/// denotes nothing.
pub open spec fn digits_value(s: Seq<u8>, radix: int) -> Option<int>
    decreases s.len(),
{
    if s.len() == 0 {
        Some(0)
    } else {
        match (digits_value(s.drop_last(), radix), digit_of(s.last(), radix)) {
            (Some(v), Some(d)) => Some(v * radix + d),
            _ => None,
        }
    }
}

/// The integer that a numeral denotes. A `-` is a sign only where `signed`
/// holds; a sign alone is no numeral, and neither is the empty string.
pub open spec fn numeral(s: Seq<u8>, radix: int, signed: bool) -> Option<int> {
    if s.len() == 0 {
        None
    } else if s[0] == PLUS {
        if s.len() == 1 {
            None
        } else {
            digits_value(s.skip(1), radix)
        }
    } else if s[0] == MINUS && signed {
        if s.len() == 1 {
            None
        } else {
            match digits_value(s.skip(1), radix) {
                Some(v) => Some(-v),
                None => None,
            }
        }
    } else {
        digits_value(s, radix)
    }
}

/// The integer that a numeral denotes, where it lies between `min` and `max`.
pub open spec fn numeral_within(s: Seq<u8>, radix: int, signed: bool, min: int, max: int) -> Option<
    int,
> {
    match numeral(s, radix, signed) {
        Some(v) => if min <= v <= max {
            Some(v)
        } else {
            None
        },
        None => None,
    }
}

/// The `u64` that a decimal numeral denotes.
pub open spec fn u64_numeral(s: Seq<u8>) -> Option<u64> {
    match numeral_within(s, 10, false, 0, u64::MAX as int) {
        Some(v) => Some(v as u64),
        None => None,
    }
}

/// The `usize` that a decimal numeral denotes.
pub open spec fn usize_numeral(s: Seq<u8>) -> Option<usize> {
    match numeral_within(s, 10, false, 0, usize::MAX as int) {
        Some(v) => Some(v as usize),
        None => None,
    }
}

/// The `u8` that a decimal numeral denotes.
pub open spec fn u8_numeral(s: Seq<u8>) -> Option<u8> {
    match numeral_within(s, 10, false, 0, u8::MAX as int) {
        Some(v) => Some(v as u8),
        None => None,
    }
}

/// The `i64` that a decimal numeral denotes.
pub open spec fn i64_numeral(s: Seq<u8>) -> Option<i64> {
    match numeral_within(s, 10, true, i64::MIN as int, i64::MAX as int) {
        Some(v) => Some(v as i64),
        None => None,
    }
}

/// The `i32` that a numeral of the given radix denotes.
pub open spec fn i32_numeral(s: Seq<u8>, radix: int) -> Option<i32> {
    match numeral_within(s, radix, true, i32::MIN as int, i32::MAX as int) {
        Some(v) => Some(v as i32),
        None => None,
    }
}

/// Every prefix of a string of digits is a string of digits, and denotes no
/// more than the whole.
pub proof fn lemma_digits_prefix(s: Seq<u8>, radix: int, k: int)
    requires
        radix >= 1,
        0 <= k <= s.len(),
        digits_value(s, radix) is Some,
    ensures
        digits_value(s.take(k), radix) is Some,
        0 <= digits_value(s.take(k), radix)->0 <= digits_value(s, radix)->0,
    decreases s.len(),
{
    if s.len() == 0 {
        assert(s.take(k) == s);
    } else {
        let init = s.drop_last();
        lemma_digits_prefix(init, radix, init.len() as int);
        assert(init.take(init.len() as int) == init);
        let v = digits_value(init, radix)->0;
        let d = digit_of(s.last(), radix)->0;
        assert(v * radix + d >= v) by (nonlinear_arith)
            requires
                v >= 0,
                radix >= 1,
                d >= 0,
        ;
        if k == s.len() {
            assert(s.take(k) == s);
        } else {
            lemma_digits_prefix(init, radix, k);
            assert(init.take(k) == s.take(k));
        }
    }
}

/// The value of one digit.
fn digit(b: u8, radix: u32) -> (r: Option<u32>)
    requires
        2 <= radix <= 36,
    ensures
        r is Some <==> digit_of(b, radix as int) is Some,
        r is Some ==> r->0 == digit_of(b, radix as int)->0,
{
    let v: u32 = if 0x30 <= b && b <= 0x39 {
        (b - 0x30) as u32
    } else if 0x61 <= b && b <= 0x7a {
        (b - 0x61) as u32 + 10
    } else if 0x41 <= b && b <= 0x5a {
        (b - 0x41) as u32 + 10
    } else {
        36
    };
    if v < radix {
        Some(v)
    } else {
        None
    }
}

/// Reads the digits of `s` from `from` to its end, giving up on a byte that
/// is no digit and on a value above `WIDE_MAX`.
fn parse_digits(s: &[u8], from: usize, radix: u32) -> (r: Option<i128>)
    requires
        2 <= radix <= 36,
        from <= s@.len(),
    ensures
        r == match digits_value(s@.skip(from as int), radix as int) {
            Some(v) => if v <= WIDE_MAX {
                Some(v as i128)
            } else {
                None
            },
            None => None,
        },
{
    let ghost digits = s@.skip(from as int);
    let mut acc: i128 = 0;
    let mut at: usize = from;
    while at < s.len()
        invariant
            2 <= radix <= 36,
            from <= at <= s@.len(),
            digits == s@.skip(from as int),
            digits_value(digits.take(at - from), radix as int) == Some(acc as int),
            0 <= acc <= WIDE_MAX,
        decreases s@.len() - at,
    {
        let ghost prefix = digits.take(at - from + 1);
        proof {
            assert(prefix.drop_last() == digits.take(at - from));
            assert(prefix.last() == s@[at as int]);
        }
        match digit(s[at], radix) {
            None => {
                proof {
                    if digits_value(digits, radix as int) is Some {
                        lemma_digits_prefix(digits, radix as int, at - from + 1);
                    }
                }
                return None;
            },
            Some(d) => {
                assert(acc * radix <= WIDE_MAX * 36) by (nonlinear_arith)
                    requires
                        0 <= acc <= WIDE_MAX,
                        0 <= radix <= 36,
                ;
                let next: i128 = acc * (radix as i128) + (d as i128);
                if next > WIDE_MAX {
                    proof {
                        if digits_value(digits, radix as int) is Some {
                            lemma_digits_prefix(digits, radix as int, at - from + 1);
                        }
                    }
                    return None;
                }
                acc = next;
                at += 1;
            },
        }
    }
    proof {
        assert(digits.take(at - from) == digits);
    }
    Some(acc)
}

/// Reads a numeral whose value lies between `-WIDE_MAX` and `WIDE_MAX`.
fn parse_wide(s: &[u8], radix: u32, signed: bool) -> (r: Option<i128>)
    requires
        2 <= radix <= 36,
    ensures
        r == match numeral_within(s@, radix as int, signed, -WIDE_MAX, WIDE_MAX as int) {
            Some(v) => Some(v as i128),
            None => None,
        },
{
    if s.len() == 0 {
        return None;
    }
    proof {
        assert(s@.skip(0) == s@);
        lemma_digits_nonnegative(s@, radix as int);
        lemma_digits_nonnegative(s@.skip(1), radix as int);
    }
    let first = s[0];
    if first == PLUS || (first == MINUS && signed) {
        if s.len() == 1 {
            return None;
        }
        match parse_digits(s, 1, radix) {
            Some(v) => Some(
                if first == MINUS {
                    -v
                } else {
                    v
                },
            ),
            None => None,
        }
    } else {
        parse_digits(s, 0, radix)
    }
}

/// A string of digits denotes no negative number.
pub proof fn lemma_digits_nonnegative(s: Seq<u8>, radix: int)
    requires
        radix >= 1,
    ensures
        digits_value(s, radix) is Some ==> digits_value(s, radix)->0 >= 0,
{
    if digits_value(s, radix) is Some {
        lemma_digits_prefix(s, radix, 0);
    }
}

/// Reads a decimal numeral as a `u64`.
pub fn parse_u64(s: &[u8]) -> (r: Option<u64>)
    ensures
        r == u64_numeral(s@),
{
    proof {
        lemma_unsigned_nonnegative(s@, 10);
    }
    match parse_wide(s, 10, false) {
        Some(v) => Some(v as u64),
        None => None,
    }
}

/// Reads a decimal numeral as a `usize`.
pub fn parse_usize(s: &[u8]) -> (r: Option<usize>)
    ensures
        r == usize_numeral(s@),
{
    proof {
        lemma_unsigned_nonnegative(s@, 10);
    }
    match parse_wide(s, 10, false) {
        Some(v) => if v <= usize::MAX as i128 {
            Some(v as usize)
        } else {
            None
        },
        None => None,
    }
}

/// Reads a decimal numeral as a `u8`.
pub fn parse_u8(s: &[u8]) -> (r: Option<u8>)
    ensures
        r == u8_numeral(s@),
{
    proof {
        lemma_unsigned_nonnegative(s@, 10);
    }
    match parse_wide(s, 10, false) {
        Some(v) => if v <= u8::MAX as i128 {
            Some(v as u8)
        } else {
            None
        },
        None => None,
    }
}

/// Reads a decimal numeral as an `i64`.
pub fn parse_i64(s: &[u8]) -> (r: Option<i64>)
    ensures
        r == i64_numeral(s@),
{
    match parse_wide(s, 10, true) {
        Some(v) => if i64::MIN as i128 <= v && v <= i64::MAX as i128 {
            Some(v as i64)
        } else {
            None
        },
        None => None,
    }
}

/// Reads a numeral of the given radix as an `i32`.
pub fn parse_i32(s: &[u8], radix: u32) -> (r: Option<i32>)
    requires
        2 <= radix <= 36,
    ensures
        r == i32_numeral(s@, radix as int),
{
    match parse_wide(s, radix, true) {
        Some(v) => if i32::MIN as i128 <= v && v <= i32::MAX as i128 {
            Some(v as i32)
        } else {
            None
        },
        None => None,
    }
}

/// A numeral without a sign of its own denotes no negative number.
pub proof fn lemma_unsigned_nonnegative(s: Seq<u8>, radix: int)
    requires
        radix >= 1,
    ensures
        numeral(s, radix, false) is Some ==> numeral(s, radix, false)->0 >= 0,
{
    lemma_digits_nonnegative(s, radix);
    if s.len() > 0 {
        lemma_digits_nonnegative(s.skip(1), radix);
    }
}

} // verus!
