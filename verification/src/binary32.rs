//! The binary32 interchange format, read off its bit pattern.
//!
//! A pattern has a sign bit, eight bits of biased exponent and 23 bits of
//! fraction. A finite number has the absolute value
//! `significand * 2^exponent`, both integers. Among patterns that are numbers,
//! a larger magnitude pattern is a larger absolute value.

use vstd::prelude::*;
use vstd::arithmetic::power2::{pow2, lemma_pow2_pos, lemma_pow2_strictly_increases, lemma2_to64};
use vstd::arithmetic::div_mod::lemma_div_is_ordered_by_denominator;
use crate::rounding::{floor_dyadic, pow2_of};

verus! {

/// Magnitude pattern of positive infinity; larger magnitudes are not numbers.
pub const INFINITY_BITS: u32 = 0x7F80_0000;

/// The pattern without its sign bit.
pub open spec fn magnitude(bits: u32) -> u32 {
    (bits % 0x8000_0000) as u32
}

/// Whether the sign bit is set.
pub open spec fn is_negative(bits: u32) -> bool {
    bits >= 0x8000_0000
}

/// Whether the pattern is not a number.
pub open spec fn is_nan(bits: u32) -> bool {
    magnitude(bits) > INFINITY_BITS
}

/// Whether the pattern is one of the two zeros.
pub open spec fn is_zero(bits: u32) -> bool {
    magnitude(bits) == 0
}

/// The exponent field.
pub open spec fn biased_exponent(bits: u32) -> nat {
    (magnitude(bits) / 0x80_0000) as nat
}

/// The fraction field.
pub open spec fn fraction(bits: u32) -> nat {
    (magnitude(bits) % 0x80_0000) as nat
}

/// The significand as an integer: the fraction, with the hidden bit of a
/// normal number in front.
pub open spec fn significand(bits: u32) -> nat {
    if biased_exponent(bits) == 0 {
        fraction(bits)
    } else {
        0x80_0000 + fraction(bits)
    }
}

/// The power of two that the integer significand is multiplied by.
pub open spec fn exponent(bits: u32) -> int {
    if biased_exponent(bits) == 0 {
        -149
    } else {
        biased_exponent(bits) - 150
    }
}

/// Integer part of the absolute value.
pub open spec fn truncated(bits: u32) -> nat {
    floor_dyadic(significand(bits), exponent(bits))
}

/// The 16-bit integer that a number with the given sign and integer part
/// converts to: the value itself where it fits, else the nearest bound.
pub open spec fn saturated(negative: bool, whole: nat) -> i16 {
    if negative {
        if whole >= 0x8000 {
            i16::MIN
        } else {
            (-(whole as int)) as i16
        }
    } else {
        if whole >= 0x7FFF {
            i16::MAX
        } else {
            whole as i16
        }
    }
}

/// The 16-bit integer that a pattern converts to: zero for what is not a
/// number, else the number without its fractional part, or the nearest bound
/// where that does not fit.
pub open spec fn converted(bits: u32) -> i16 {
    if is_nan(bits) {
        0
    } else {
        saturated(is_negative(bits), truncated(bits))
    }
}

/// Among numbers, the order of magnitude patterns is the order of absolute
/// values: of two patterns the one with the smaller magnitude pattern has the
/// smaller exponent, or the same exponent and no larger a significand, and so
/// `significand(a) * 2^exponent(a) <= significand(b) * 2^exponent(b)`.
pub proof fn magnitude_order(a: u32, b: u32)
    requires
        magnitude(a) <= magnitude(b),
    ensures
        exponent(a) <= exponent(b),
        exponent(a) == exponent(b) ==> significand(a) <= significand(b),
        significand(a) <= significand(b) * pow2((exponent(b) - exponent(a)) as nat),
{
    let d = (exponent(b) - exponent(a)) as nat;
    lemma2_to64();
    if d > 0 {
        lemma_pow2_strictly_increases(0, d);
        assert(significand(b) * pow2(d) >= 0x80_0000 * 2) by (nonlinear_arith)
            requires
                significand(b) >= 0x80_0000,
                pow2(d) >= 2,
        ;
    } else {
        assert(significand(b) * pow2(d) == significand(b)) by (nonlinear_arith)
            requires
                pow2(d) == 1,
        ;
    }
}

/// Computes [`magnitude`].
pub fn magnitude_of(bits: u32) -> (m: u32)
    ensures
        m == magnitude(bits),
{
    bits % 0x8000_0000
}

/// Computes [`is_negative`].
pub fn negative(bits: u32) -> (n: bool)
    ensures
        n == is_negative(bits),
{
    bits >= 0x8000_0000
}

/// Computes [`biased_exponent`].
pub fn biased_exponent_of(bits: u32) -> (e: u32)
    ensures
        e == biased_exponent(bits),
        e <= 255,
{
    (bits % 0x8000_0000) / 0x80_0000
}

/// Computes [`significand`].
pub fn significand_of(bits: u32) -> (s: u32)
    ensures
        s == significand(bits),
        s < 0x100_0000,
{
    let m: u32 = bits % 0x8000_0000;
    if m / 0x80_0000 == 0 {
        m % 0x80_0000
    } else {
        0x80_0000 + m % 0x80_0000
    }
}

/// Converts a pattern to a 16-bit integer as [`converted`] says.
pub fn convert(bits: u32) -> (r: i16)
    ensures
        r == converted(bits),
{
    let m: u32 = magnitude_of(bits);
    let e: u32 = biased_exponent_of(bits);
    let s: u32 = significand_of(bits);
    proof {
        lemma2_to64();
    }
    if m > INFINITY_BITS {
        0
    } else if e >= 142 {
        proof {
            if e >= 150 {
                let k = (e - 150) as nat;
                lemma_pow2_pos(k);
                assert(s as nat * pow2(k) >= s as nat) by (nonlinear_arith)
                    requires
                        pow2(k) >= 1,
                ;
            } else {
                let k = (150 - e) as nat;
                if k < 8 {
                    lemma_pow2_strictly_increases(k, 8);
                }
                lemma_pow2_pos(k);
                lemma_div_is_ordered_by_denominator(s as int, pow2(k) as int, 256);
            }
            assert(truncated(bits) >= 0x8000);
        }
        if negative(bits) {
            i16::MIN
        } else {
            i16::MAX
        }
    } else if e < 127 {
        proof {
            let k = (-exponent(bits)) as nat;
            assert(k >= 24);
            lemma_pow2_pos(k);
            if k > 24 {
                lemma_pow2_strictly_increases(24, k);
            }
            assert(s as nat / pow2(k) == 0) by (nonlinear_arith)
                requires
                    (s as nat) < pow2(k),
                    pow2(k) > 0,
            ;
            assert(truncated(bits) == 0);
        }
        0
    } else {
        let p: u64 = pow2_of(150 - e);
        let whole: u64 = (s as u64) / p;
        proof {
            let k = (150 - e) as nat;
            assert(9 <= k <= 23);
            assert(k == (-exponent(bits)) as nat);
            if k > 9 {
                lemma_pow2_strictly_increases(9, k);
            }
            assert(pow2(k) >= 512);
            assert(whole <= (s as nat) / 512) by (nonlinear_arith)
                requires
                    whole == (s as nat) / (p as nat),
                    p >= 512,
            ;
            assert(truncated(bits) == whole);
        }
        if negative(bits) {
            -(whole as i16)
        } else {
            whole as i16
        }
    }
}

} // verus!
