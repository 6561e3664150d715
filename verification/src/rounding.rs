//! Rounding to the grid of binary32 numbers, in integer arithmetic.
//!
//! A non-negative dyadic number is written `w * 2^e` with `w` a natural
//! number and `e` an integer. The binary32 numbers around it form a grid of
//! multiples of `2^g`, where `g` is chosen so that the significand has at
//! most 24 bits, and never falls below the subnormal spacing `2^-149`.

use vstd::prelude::*;
use vstd::arithmetic::power2::{pow2, lemma_pow2_pos, lemma_pow2_unfold, lemma_pow2_adds, lemma_pow2_strictly_increases, lemma2_to64};
use vstd::arithmetic::div_mod::{lemma_fundamental_div_mod, lemma_div_is_ordered_by_denominator};
use vstd::bits::{lemma_u64_shl_is_mul, lemma_u64_pow2_no_overflow};

verus! {

/// Number of binary digits of `n`: the least `l` with `n < 2^l`.
pub open spec fn bit_length(n: nat) -> nat
    decreases n,
{
    if n == 0 {
        0
    } else {
        1 + bit_length(n / 2)
    }
}

/// The integer nearest to `n / d`; of two equally near, the even one.
pub open spec fn nearest_even(n: nat, d: nat) -> nat
    recommends
        d > 0,
{
    let q = n / d;
    let r = n % d;
    if 2 * r < d || (2 * r == d && q % 2 == 0) {
        q
    } else {
        q + 1
    }
}

/// Exponent of the binary32 grid around `w * 2^e`.
pub open spec fn grid_exponent(w: nat, e: int) -> int {
    let g = e + bit_length(w) - 24;
    if g < -149 {
        -149
    } else {
        g
    }
}

/// Significand of the binary32 number nearest to `w * 2^e`, ties to even:
/// that number is `rounded_significand(w, e) * 2^grid_exponent(w, e)`, and
/// stands for infinity once it reaches `2^128`.
pub open spec fn rounded_significand(w: nat, e: int) -> nat {
    let g = grid_exponent(w, e);
    if g <= e {
        w * pow2((e - g) as nat)
    } else {
        nearest_even(w, pow2((g - e) as nat))
    }
}

/// Integer part of `m * 2^e`.
pub open spec fn floor_dyadic(m: nat, e: int) -> nat {
    if e >= 0 {
        m * pow2(e as nat)
    } else {
        m / pow2((-e) as nat)
    }
}

/// Grid exponent for a quotient `n / d` of at least `2^24`, whose nearest
/// binary32 number is a multiple of `2^g` with `g >= 1`.
pub open spec fn quotient_grid(n: nat, d: nat) -> nat
    recommends
        d > 0,
        n / d >= 0x100_0000,
{
    (bit_length(n / d) - 24) as nat
}

/// Significand of the binary32 number nearest to `n / d`, ties to even, for a
/// quotient of at least `2^24`.
pub open spec fn quotient_significand(n: nat, d: nat) -> nat
    recommends
        d > 0,
        n / d >= 0x100_0000,
{
    nearest_even(n, d * pow2(quotient_grid(n, d)))
}

/// `n` has `bit_length(n)` digits: it lies in `[2^(l-1), 2^l)`.
pub proof fn bit_length_bounds(n: nat)
    ensures
        n < pow2(bit_length(n)),
        n > 0 ==> bit_length(n) >= 1 && pow2((bit_length(n) - 1) as nat) <= n,
    decreases n,
{
    lemma2_to64();
    if n > 0 {
        bit_length_bounds(n / 2);
        let h = bit_length(n / 2);
        lemma_pow2_unfold(h + 1);
        if n / 2 > 0 {
            lemma_pow2_unfold(h);
        }
    }
}

/// The only `l` with `2^(l-1) <= n < 2^l` is `bit_length(n)`.
pub proof fn bit_length_unique(n: nat, l: nat)
    requires
        l >= 1,
        pow2((l - 1) as nat) <= n < pow2(l),
    ensures
        bit_length(n) == l,
{
    bit_length_bounds(n);
    lemma_pow2_pos((l - 1) as nat);
    let b = bit_length(n);
    if b < l {
        if b < l - 1 {
            lemma_pow2_strictly_increases(b, (l - 1) as nat);
        }
    } else if b > l {
        if b - 1 > l {
            lemma_pow2_strictly_increases(l, (b - 1) as nat);
        }
    }
}

/// Rounding moves a quotient by less than one: `n / d <= nearest_even(n, d)
/// <= n / d + 1`, and by at most half of `d` in the numerator.
pub proof fn nearest_even_bounds(n: nat, d: nat)
    requires
        d > 0,
    ensures
        n / d <= nearest_even(n, d) <= n / d + 1,
        2 * nearest_even(n, d) * d <= 2 * n + d,
        2 * n <= 2 * nearest_even(n, d) * d + d,
{
    lemma_fundamental_div_mod(n as int, d as int);
    let q = n / d;
    let r = n % d;
    assert(n == d * q + r);
    assert(2 * (q * d) == 2 * q * d) by (nonlinear_arith);
    assert(2 * ((q + 1) * d) == 2 * (q + 1) * d) by (nonlinear_arith);
    assert((q + 1) * d == q * d + d) by (nonlinear_arith);
    assert(d * q == q * d) by (nonlinear_arith);
}

/// `2^k` as a machine integer.
pub fn pow2_of(k: u32) -> (p: u64)
    requires
        k < 64,
    ensures
        p == pow2(k as nat),
        p > 0,
{
    proof {
        lemma_u64_pow2_no_overflow(k as nat);
        lemma_u64_shl_is_mul(1u64, k as u64);
    }
    1u64 << (k as u64)
}

/// Computes [`bit_length`].
pub fn bit_length_of(w: u64) -> (l: u32)
    ensures
        l == bit_length(w as nat),
        l <= 64,
{
    let mut l: u32 = 0;
    let mut rest: u64 = w;
    proof {
        lemma2_to64();
    }
    while rest > 0
        invariant
            l <= 64,
            (rest as nat) < pow2((64 - l) as nat),
            bit_length(w as nat) == l + bit_length(rest as nat),
        decreases rest,
    {
        proof {
            lemma2_to64();
            if l < 64 {
                lemma_pow2_unfold((64 - l) as nat);
            }
        }
        rest = rest / 2;
        l = l + 1;
    }
    l
}

/// Computes [`nearest_even`].
pub fn nearest_even_of(n: u64, d: u64) -> (m: u64)
    requires
        d > 0,
    ensures
        m == nearest_even(n as nat, d as nat),
{
    let q: u64 = n / d;
    let r: u64 = n % d;
    let rest: u64 = d - r;
    if r < rest || (r == rest && q % 2 == 0) {
        q
    } else {
        proof {
            // rounding up leaves a remainder, so the divisor is at least two
            assert(d >= 2);
            lemma_div_is_ordered_by_denominator(n as int, 2, d as int);
        }
        q + 1
    }
}

/// A number below one half has integer part zero however it is rounded.
pub proof fn below_half_truncates_to_zero(w: nat, e: int)
    requires
        e < 0,
        bit_length(w) + e < 0,
    ensures
        floor_dyadic(rounded_significand(w, e), grid_exponent(w, e)) == 0,
{
    let l = bit_length(w);
    let g = grid_exponent(w, e);
    let m = rounded_significand(w, e);
    bit_length_bounds(w);
    assert(g <= -25);
    let top = (-g - 1) as nat;
    let depth = (-e - 1) as nat;
    // w < 2^l <= 2^depth
    if l < depth {
        lemma_pow2_strictly_increases(l, depth);
    }
    assert(w < pow2(depth));
    lemma_pow2_unfold((-g) as nat);
    lemma_pow2_pos(top);
    if g <= e {
        let k = (e - g) as nat;
        lemma_pow2_adds(depth, k);
        lemma_pow2_pos(k);
        assert(w * pow2(k) < pow2(depth) * pow2(k)) by (nonlinear_arith)
            requires
                w < pow2(depth),
                pow2(k) > 0,
        ;
        assert(m < pow2((-g) as nat));
    } else {
        let k = (g - e) as nat;
        lemma_pow2_adds(top, k);
        lemma_pow2_pos(k);
        nearest_even_bounds(w, pow2(k));
        assert(w / pow2(k) < pow2(top)) by (nonlinear_arith)
            requires
                w < pow2(top) * pow2(k),
                pow2(k) > 0,
        ;
        assert(m < pow2((-g) as nat));
    }
    assert(m / pow2((-g) as nat) == 0) by (nonlinear_arith)
        requires
            m < pow2((-g) as nat),
    ;
}

/// What is rounded is a binary32 number nearest to the exact one: its
/// significand has at most 24 bits, a number that lies on the grid is kept as
/// it is, and any other is moved by at most half a grid step.
pub proof fn rounding_is_nearest(w: nat, e: int)
    ensures
        rounded_significand(w, e) <= 0x100_0000,
        grid_exponent(w, e) <= e ==> rounded_significand(w, e) == w * pow2(
            (e - grid_exponent(w, e)) as nat,
        ),
        grid_exponent(w, e) > e ==> 2 * rounded_significand(w, e) * pow2(
            (grid_exponent(w, e) - e) as nat,
        ) <= 2 * w + pow2((grid_exponent(w, e) - e) as nat),
        grid_exponent(w, e) > e ==> 2 * w <= 2 * rounded_significand(w, e) * pow2(
            (grid_exponent(w, e) - e) as nat,
        ) + pow2((grid_exponent(w, e) - e) as nat),
{
    let l = bit_length(w);
    let g = grid_exponent(w, e);
    let m = rounded_significand(w, e);
    bit_length_bounds(w);
    lemma2_to64();
    if g <= e {
        let k = (e - g) as nat;
        // l + k <= 24
        lemma_pow2_adds(l, k);
        lemma_pow2_pos(k);
        if l + k < 24 {
            lemma_pow2_strictly_increases(l + k, 24);
        }
        assert(w * pow2(k) < pow2(l) * pow2(k)) by (nonlinear_arith)
            requires
                w < pow2(l),
                pow2(k) > 0,
        ;
    } else {
        let k = (g - e) as nat;
        // l <= 24 + k
        lemma_pow2_adds(24, k);
        lemma_pow2_pos(k);
        if l < 24 + k {
            lemma_pow2_strictly_increases(l, 24 + k);
        }
        nearest_even_bounds(w, pow2(k));
        assert(w / pow2(k) < 0x100_0000) by (nonlinear_arith)
            requires
                w < 0x100_0000 * pow2(k),
                pow2(k) > 0,
        ;
    }
}

} // verus!
