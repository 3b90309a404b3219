//! Numeric field parsing: hexadecimal and decimal numerals.

use vstd::prelude::*;
use vstd::arithmetic::div_mod::*;
use vstd::arithmetic::mul::*;
use crate::error::ParseError;

verus! {

pub open spec fn is_hex_digit_char(c: char) -> bool {
    ('0' <= c && c <= '9') || ('a' <= c && c <= 'f') || ('A' <= c && c <= 'F')
}

pub open spec fn is_dec_digit_char(c: char) -> bool {
    '0' <= c && c <= '9'
}

/// Numeric value of a digit character: decimal digits and hexadecimal letters.
pub open spec fn digit_val(c: char) -> nat {
    if '0' <= c && c <= '9' {
        (c as u32 - '0' as u32) as nat
    } else if 'a' <= c && c <= 'f' {
        (c as u32 - 'a' as u32 + 10) as nat
    } else if 'A' <= c && c <= 'F' {
        (c as u32 - 'A' as u32 + 10) as nat
    } else {
        0
    }
}

/// Value of `s` read as a base-`radix` numeral, most significant digit first.
pub open spec fn num_value(s: Seq<char>, radix: nat) -> nat
    decreases s.len(),
{
    if s.len() == 0 {
        0
    } else {
        num_value(s.drop_last(), radix) * radix + digit_val(s.last())
    }
}

/// A non-empty run of hexadecimal digits.
pub open spec fn is_hex_numeral(s: Seq<char>) -> bool {
    s.len() > 0 && forall|i: int| 0 <= i < s.len() ==> is_hex_digit_char(#[trigger] s[i])
}

/// A non-empty run of decimal digits.
pub open spec fn is_dec_numeral(s: Seq<char>) -> bool {
    s.len() > 0 && forall|i: int| 0 <= i < s.len() ==> is_dec_digit_char(#[trigger] s[i])
}

/// Appending one digit multiplies the value by the radix and adds the digit.
proof fn lemma_num_value_take_step(s: Seq<char>, k: int, radix: nat)
    requires
        0 <= k < s.len(),
    ensures
        num_value(s.take(k + 1), radix) == num_value(s.take(k), radix) * radix + digit_val(
            s[k],
        ),
{
    assert(s.take(k + 1).drop_last() =~= s.take(k));
    assert(s.take(k + 1).last() == s[k]);
}

/// A numeral's value is at least the value of any of its prefixes.
proof fn lemma_num_value_prefix(s: Seq<char>, k: int, radix: nat)
    requires
        0 <= k <= s.len(),
        radix >= 1,
    ensures
        num_value(s.take(k), radix) <= num_value(s, radix),
    decreases s.len() - k,
{
    if k == s.len() {
        assert(s.take(k) =~= s);
    } else {
        lemma_num_value_take_step(s, k, radix);
        let n = num_value(s.take(k), radix);
        lemma_mul_inequality(1, radix as int, n as int);
        assert(n * radix == radix * n) by (nonlinear_arith);
        lemma_num_value_prefix(s, k + 1, radix);
    }
}

/// Hexadecimal digit classification and value, executably.
pub fn digit_value_hex(c: char) -> (r: Option<u8>)
    ensures
        match r {
            Some(v) => is_hex_digit_char(c) && v == digit_val(c) && v < 16,
            None => !is_hex_digit_char(c),
        },
{
    let u = c as u32;
    if 48 <= u && u <= 57 {
        Some((u - 48) as u8)
    } else if 97 <= u && u <= 102 {
        Some((u - 97 + 10) as u8)
    } else if 65 <= u && u <= 70 {
        Some((u - 65 + 10) as u8)
    } else {
        None
    }
}

/// Decimal digit classification and value, executably.
pub fn digit_value_dec(c: char) -> (r: Option<u8>)
    ensures
        match r {
            Some(v) => is_dec_digit_char(c) && v == digit_val(c) && v < 10,
            None => !is_dec_digit_char(c),
        },
{
    let u = c as u32;
    if 48 <= u && u <= 57 {
        Some((u - 48) as u8)
    } else {
        None
    }
}

/// Executable check matching `is_hex_digit_char`.
pub fn is_hex_digit(c: char) -> (r: bool)
    ensures
        r == is_hex_digit_char(c),
{
    digit_value_hex(c).is_some()
}

/// One step of left-to-right accumulation, guarding against overflow.
fn accum_step(v: u64, d: u8, radix: u64) -> (r: Option<u64>)
    requires
        d < radix,
        radix == 10 || radix == 16,
    ensures
        match r {
            Some(w) => w == v * radix + d,
            None => v * radix + d > u64::MAX,
        },
{
    let limit = (u64::MAX - (d as u64)) / radix;
    proof {
        let m = (u64::MAX - d) as int;
        lemma_fundamental_div_mod(m, radix as int);
        if v <= limit {
            lemma_mul_inequality(v as int, limit as int, radix as int);
            lemma_mod_bound(m, radix as int);
        } else {
            lemma_mul_inequality(limit as int + 1, v as int, radix as int);
            lemma_mod_bound(m, radix as int);
        }
    }
    if v <= limit {
        Some(v * radix + (d as u64))
    } else {
        None
    }
}

/// Parses the characters of `s` in `[from, to)` as a hexadecimal numeral.
/// Fails with `InvalidInt` exactly when the range is empty, holds a
/// non-digit, or names a value above `u64::MAX`.
pub fn parse_u64_hex(s: &str, from: usize, to: usize) -> (r: Result<u64, ParseError>)
    requires
        from <= to <= s@.len(),
    ensures
        ({
            let t = s@.subrange(from as int, to as int);
            match r {
                Ok(v) => is_hex_numeral(t) && num_value(t, 16) <= u64::MAX && v == num_value(
                    t,
                    16,
                ),
                Err(e) => e == ParseError::InvalidInt && !(is_hex_numeral(t) && num_value(t, 16)
                    <= u64::MAX),
            }
        }),
{
    let ghost t = s@.subrange(from as int, to as int);
    if from == to {
        return Err(ParseError::InvalidInt);
    }
    let mut v: u64 = 0;
    let mut i = from;
    while i < to
        invariant
            from <= i <= to <= s@.len(),
            t == s@.subrange(from as int, to as int),
            forall|k: int| 0 <= k < i - from ==> is_hex_digit_char(#[trigger] t[k]),
            v == num_value(t.take(i - from), 16),
        decreases to - i,
    {
        let c = s.get_char(i);
        proof {
            assert(t[i - from] == s@[i as int]);
        }
        let d = match digit_value_hex(c) {
            Some(d) => d,
            None => {
                return Err(ParseError::InvalidInt);
            },
        };
        proof {
            lemma_num_value_take_step(t, i - from, 16);
        }
        match accum_step(v, d, 16) {
            Some(w) => {
                v = w;
            },
            None => {
                proof {
                    lemma_num_value_prefix(t, i - from + 1, 16);
                }
                return Err(ParseError::InvalidInt);
            },
        }
        i = i + 1;
    }
    proof {
        assert(t.take(to - from) =~= t);
    }
    Ok(v)
}

/// Parses the characters of `s` in `[from, to)` as a decimal numeral.
/// Fails with `InvalidInt` exactly when the range is empty, holds a
/// non-digit, or names a value above `u64::MAX`.
pub fn parse_u64_dec(s: &str, from: usize, to: usize) -> (r: Result<u64, ParseError>)
    requires
        from <= to <= s@.len(),
    ensures
        ({
            let t = s@.subrange(from as int, to as int);
            match r {
                Ok(v) => is_dec_numeral(t) && num_value(t, 10) <= u64::MAX && v == num_value(
                    t,
                    10,
                ),
                Err(e) => e == ParseError::InvalidInt && !(is_dec_numeral(t) && num_value(t, 10)
                    <= u64::MAX),
            }
        }),
{
    let ghost t = s@.subrange(from as int, to as int);
    if from == to {
        return Err(ParseError::InvalidInt);
    }
    let mut v: u64 = 0;
    let mut i = from;
    while i < to
        invariant
            from <= i <= to <= s@.len(),
            t == s@.subrange(from as int, to as int),
            forall|k: int| 0 <= k < i - from ==> is_dec_digit_char(#[trigger] t[k]),
            v == num_value(t.take(i - from), 10),
        decreases to - i,
    {
        let c = s.get_char(i);
        proof {
            assert(t[i - from] == s@[i as int]);
        }
        let d = match digit_value_dec(c) {
            Some(d) => d,
            None => {
                return Err(ParseError::InvalidInt);
            },
        };
        proof {
            lemma_num_value_take_step(t, i - from, 10);
        }
        match accum_step(v, d, 10) {
            Some(w) => {
                v = w;
            },
            None => {
                proof {
                    lemma_num_value_prefix(t, i - from + 1, 10);
                }
                return Err(ParseError::InvalidInt);
            },
        }
        i = i + 1;
    }
    proof {
        assert(t.take(to - from) =~= t);
    }
    Ok(v)
}

/// Parses a hexadecimal numeral that must fit in a `u8`.
pub fn parse_u8_hex(s: &str, from: usize, to: usize) -> (r: Result<u8, ParseError>)
    requires
        from <= to <= s@.len(),
    ensures
        ({
            let t = s@.subrange(from as int, to as int);
            match r {
                Ok(v) => is_hex_numeral(t) && num_value(t, 16) <= 255 && v == num_value(t, 16),
                Err(e) => e == ParseError::InvalidInt && !(is_hex_numeral(t) && num_value(t, 16)
                    <= 255),
            }
        }),
{
    match parse_u64_hex(s, from, to) {
        Ok(v) => if v <= 255 {
            Ok(v as u8)
        } else {
            Err(ParseError::InvalidInt)
        },
        Err(e) => Err(e),
    }
}

} // verus!
