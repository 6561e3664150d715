//! Bringing the engine's output back into the 16-bit range.
//!
//! The engine's samples are binary32 numbers of any size. One scale factor for
//! the whole buffer, `min(1, 32766 / peak)`, maps the largest of them onto the
//! largest sample that may be delivered; smaller buffers are left as they are.
//! Each product is rounded as a binary32 multiplication rounds it, and its
//! fractional part is dropped.

use vstd::prelude::*;
use vstd::arithmetic::power2::{pow2, lemma_pow2_pos, lemma_pow2_adds, lemma_pow2_strictly_increases, lemma2_to64, lemma2_to64_rest};
use vstd::arithmetic::div_mod::{lemma_div_is_ordered_by_denominator, lemma_div_denominator};
use crate::MAX_SAMPLE_MAGNITUDE;
use crate::binary32::{INFINITY_BITS, magnitude, is_nan, is_negative, is_zero, biased_exponent, significand, exponent, truncated, saturated, converted, magnitude_order, magnitude_of, negative, biased_exponent_of, significand_of, convert};
use crate::rounding::{bit_length, nearest_even, grid_exponent, rounded_significand, floor_dyadic, quotient_grid, quotient_significand, bit_length_bounds, bit_length_unique, nearest_even_bounds, below_half_truncates_to_zero, pow2_of, bit_length_of, nearest_even_of};

verus! {

/// Magnitude pattern of `32766.0`, the largest peak that needs no scaling.
pub const FULL_SCALE_BITS: u32 = 0x46FF_FC00;

/// `32766 * 2^34`: the full-scale magnitude, shifted so that its quotient by
/// any normal significand has 25 or 26 bits.
pub const FULL_SCALE_SHIFTED: u64 = 0x1_FFF8_0000_0000;

/// Magnitude pattern of the largest absolute value among the samples that are
/// numbers; zero if there is none.
pub open spec fn peak(raw: Seq<u32>) -> u32
    decreases raw.len(),
{
    if raw.len() == 0 {
        0
    } else {
        let rest = peak(raw.drop_last());
        let last = raw.last();
        if !is_nan(last) && magnitude(last) > rest {
            magnitude(last)
        } else {
            rest
        }
    }
}

/// Grid exponent of the quotient `32766 * 2^34 / significand(peak)`.
pub open spec fn scale_grid(peak: u32) -> nat {
    quotient_grid(FULL_SCALE_SHIFTED as nat, significand(peak))
}

/// Significand of the scale factor for a finite peak above full scale: the
/// binary32 number nearest to `32766 / peak` is
/// `scale_significand(peak) * 2^scale_exponent(peak)`.
pub open spec fn scale_significand(peak: u32) -> nat {
    quotient_significand(FULL_SCALE_SHIFTED as nat, significand(peak))
}

/// Exponent of the scale factor for a finite peak above full scale.
pub open spec fn scale_exponent(peak: u32) -> int {
    scale_grid(peak) - 34 - exponent(peak)
}

/// Integer part of the binary32 product of the absolute value of `x` and the
/// scale factor for `peak`.
pub open spec fn scaled_magnitude(x: u32, peak: u32) -> nat {
    let w = significand(x) * scale_significand(peak);
    let e = exponent(x) + scale_exponent(peak);
    floor_dyadic(rounded_significand(w, e), grid_exponent(w, e))
}

/// The sample delivered for the engine's sample `x` in a buffer with the
/// given peak.
///
/// What is not a number becomes zero. With the peak at or below full scale
/// the factor is one and `x` only loses its fractional part. With an infinite
/// peak the factor is zero, and so is every sample. Otherwise `x` is
/// multiplied by the binary32 number nearest to `32766 / peak`.
pub open spec fn rescaled_sample(x: u32, peak: u32) -> i16 {
    if is_nan(x) {
        0
    } else if peak <= FULL_SCALE_BITS {
        converted(x)
    } else if peak >= INFINITY_BITS {
        0
    } else {
        saturated(is_negative(x), scaled_magnitude(x, peak))
    }
}

/// The samples delivered for the engine's output `raw`.
pub open spec fn rescaled(raw: Seq<u32>) -> Seq<i16> {
    Seq::new(raw.len(), |i: int| rescaled_sample(raw[i], peak(raw)))
}

/// The peak is a number, and no sample that is a number exceeds it.
pub proof fn peak_bounds(raw: Seq<u32>)
    ensures
        peak(raw) <= INFINITY_BITS,
        forall|i: int| 0 <= i < raw.len() && !is_nan(raw[i]) ==> magnitude(#[trigger] raw[i]) <= peak(raw),
    decreases raw.len(),
{
    if raw.len() > 0 {
        let front = raw.drop_last();
        peak_bounds(front);
        assert forall|i: int| 0 <= i < raw.len() && !is_nan(raw[i]) implies magnitude(
            #[trigger] raw[i],
        ) <= peak(raw) by {
            if i < raw.len() - 1 {
                assert(front[i] == raw[i]);
            }
        }
    }
}

/// The peak is the magnitude of one of the samples, unless it is zero.
pub proof fn peak_attained(raw: Seq<u32>)
    ensures
        peak(raw) == 0 || exists|i: int| 0 <= i < raw.len() && !is_nan(raw[i]) && magnitude(#[trigger] raw[i]) == peak(raw),
    decreases raw.len(),
{
    if raw.len() > 0 {
        let front = raw.drop_last();
        peak_attained(front);
        let last = raw.last();
        if !is_nan(last) && magnitude(last) > peak(front) {
            assert(raw[raw.len() - 1] == last);
        } else if peak(front) != 0 {
            let i = choose|i: int| 0 <= i < front.len() && !is_nan(front[i]) && magnitude(#[trigger] front[i]) == peak(front);
            assert(raw[i] == front[i]);
        }
    }
}

/// Computes [`peak`].
pub fn peak_of(raw: &[u32]) -> (p: u32)
    ensures
        p == peak(raw@),
{
    let mut p: u32 = 0;
    let mut i: usize = 0;
    while i < raw.len()
        invariant
            i <= raw.len(),
            p == peak(raw@.take(i as int)),
        decreases raw.len() - i,
    {
        let m: u32 = magnitude_of(raw[i]);
        proof {
            let next = raw@.take(i + 1);
            assert(next.drop_last() =~= raw@.take(i as int));
            assert(next.last() == raw@[i as int]);
        }
        if m <= INFINITY_BITS && m > p {
            p = m;
        }
        i = i + 1;
    }
    proof {
        assert(raw@.take(raw.len() as int) =~= raw@);
    }
    p
}

/// Shape of the scale factor for a finite peak above full scale: the
/// quotient has 25 or 26 bits, and the factor is a normal number that is at
/// most half a grid step away from `32766 / peak`.
pub proof fn scale_shape(peak: u32)
    requires
        FULL_SCALE_BITS < peak < INFINITY_BITS,
    ensures
        0x80_0000 <= significand(peak) < 0x100_0000,
        1 <= scale_grid(peak) <= 2,
        scale_grid(peak) == 2 <==> FULL_SCALE_SHIFTED as nat / significand(peak) >= 0x200_0000,
        0x80_0000 <= scale_significand(peak) <= 0x100_0000,
        2 * scale_significand(peak) * (significand(peak) * pow2(scale_grid(peak)))
            <= 2 * FULL_SCALE_SHIFTED + significand(peak) * pow2(scale_grid(peak)),
        2 * FULL_SCALE_SHIFTED <= 2 * scale_significand(peak) * (significand(peak) * pow2(
            scale_grid(peak),
        )) + significand(peak) * pow2(scale_grid(peak)),
{
    let d = significand(peak);
    let n = FULL_SCALE_SHIFTED as nat;
    let q = n / d;
    lemma2_to64();
    assert(biased_exponent(peak) >= 141);
    assert(0x80_0000 <= d < 0x100_0000);
    lemma_div_is_ordered_by_denominator(n as int, d as int, 0x100_0000);
    lemma_div_is_ordered_by_denominator(n as int, 0x80_0000, d as int);
    assert(0x1FF_F800 <= q <= 0x3FF_F000);
    let grid: nat = if q >= 0x200_0000 {
        2
    } else {
        1
    };
    bit_length_unique(q, 24 + grid);
    let step = d * pow2(grid);
    assert(step == if grid == 1 {
        d * 2
    } else {
        d * 4
    });
    nearest_even_bounds(n, step);
    lemma_div_denominator(n as int, d as int, pow2(grid) as int);
    assert(n / step == q / pow2(grid));
}

/// Computes the significand and the grid exponent of the scale factor.
fn scale_of(peak: u32) -> (r: (u64, u32))
    requires
        FULL_SCALE_BITS < peak < INFINITY_BITS,
    ensures
        r.0 == scale_significand(peak),
        r.1 == scale_grid(peak),
{
    let d: u64 = significand_of(peak) as u64;
    let q: u64 = FULL_SCALE_SHIFTED / d;
    proof {
        scale_shape(peak);
        lemma2_to64();
    }
    let grid: u32 = if q >= 0x200_0000 {
        2
    } else {
        1
    };
    let sig: u64 = nearest_even_of(FULL_SCALE_SHIFTED, d * pow2_of(grid));
    (sig, grid)
}

/// Converts a non-negative integer part and a sign to a 16-bit integer.
fn saturate(negative: bool, whole: u64) -> (r: i16)
    ensures
        r == saturated(negative, whole as nat),
{
    if negative {
        if whole >= 0x8000 {
            i16::MIN
        } else {
            -(whole as i16)
        }
    } else {
        if whole >= 0x7FFF {
            i16::MAX
        } else {
            whole as i16
        }
    }
}

/// Multiplies a number by the scale factor and drops the fractional part.
fn scaled(x: u32, peak: u32, sig: u64, grid: u32) -> (r: i16)
    requires
        !is_nan(x),
        magnitude(x) <= peak,
        FULL_SCALE_BITS < peak < INFINITY_BITS,
        sig == scale_significand(peak),
        grid == scale_grid(peak),
    ensures
        r == saturated(is_negative(x), scaled_magnitude(x, peak)),
{
    let ex: u32 = biased_exponent_of(x);
    let ep: u32 = biased_exponent_of(peak);
    let lift: u32 = if ex == 0 {
        1
    } else {
        ex
    };
    proof {
        magnitude_order(x, peak);
        scale_shape(peak);
        lemma2_to64();
        lemma2_to64_rest();
        assert(lift <= ep);
    }
    let sx: u64 = significand_of(x) as u64;
    proof {
        assert(sx * sig <= 0xFF_FFFF * 0x100_0000) by (nonlinear_arith)
            requires
                sx <= 0xFF_FFFF,
                sig <= 0x100_0000,
        ;
    }
    let w: u64 = sx * sig;
    let l: u32 = bit_length_of(w);
    let depth: u32 = ep + 34 - grid - lift;
    let ghost e: int = exponent(x) + scale_exponent(peak);
    proof {
        assert(w == significand(x) * scale_significand(peak));
        assert(e == -(depth as int));
        assert(depth >= 32);
        bit_length_bounds(w as nat);
        if l > 48 {
            lemma_pow2_strictly_increases(48, (l - 1) as nat);
        }
        assert(l <= 48);
    }
    if l < depth {
        proof {
            below_half_truncates_to_zero(w as nat, e);
        }
        0
    } else {
        let m: u64 = nearest_even_of(w, pow2_of(l - 24));
        let shift: u32 = depth + 24 - l;
        let whole: u64 = m / pow2_of(shift);
        proof {
            assert(grid_exponent(w as nat, e) == l - 24 - depth);
            assert(rounded_significand(w as nat, e) == m);
            assert(floor_dyadic(m as nat, l - 24 - depth) == whole);
        }
        saturate(negative(x), whole)
    }
}

/// Computes [`rescaled_sample`] for a sample of a buffer with the given peak.
fn sample(x: u32, peak: u32, sig: u64, grid: u32) -> (r: i16)
    requires
        !is_nan(x) ==> magnitude(x) <= peak,
        FULL_SCALE_BITS < peak < INFINITY_BITS ==> sig == scale_significand(peak) && grid
            == scale_grid(peak),
    ensures
        r == rescaled_sample(x, peak),
{
    if magnitude_of(x) > INFINITY_BITS {
        0
    } else if peak <= FULL_SCALE_BITS {
        convert(x)
    } else if peak >= INFINITY_BITS {
        0
    } else {
        scaled(x, peak, sig, grid)
    }
}

/// Maps the engine's output onto 16-bit samples: scales the whole buffer by
/// `min(1, 32766 / peak)` and drops each sample's fractional part. No sample
/// that comes out exceeds full scale.
pub fn rescale(raw: &[u32]) -> (out: Vec<i16>)
    ensures
        out@ == rescaled(raw@),
        out@.len() == raw@.len(),
        forall|i: int|
            0 <= i < out@.len() ==> -MAX_SAMPLE_MAGNITUDE <= #[trigger] out@[i]
                <= MAX_SAMPLE_MAGNITUDE,
{
    let top: u32 = peak_of(raw);
    let (sig, grid) = if FULL_SCALE_BITS < top && top < INFINITY_BITS {
        scale_of(top)
    } else {
        (0, 0)
    };
    let mut out: Vec<i16> = Vec::new();
    let mut i: usize = 0;
    proof {
        peak_bounds(raw@);
    }
    while i < raw.len()
        invariant
            i <= raw.len(),
            top == peak(raw@),
            FULL_SCALE_BITS < top < INFINITY_BITS ==> sig == scale_significand(top) && grid
                == scale_grid(top),
            forall|j: int| 0 <= j < raw.len() && !is_nan(raw@[j]) ==> magnitude(#[trigger] raw@[j]) <= top,
            out@.len() == i,
            forall|j: int| 0 <= j < i ==> #[trigger] out@[j] == rescaled_sample(raw@[j], top),
        decreases raw.len() - i,
    {
        let r: i16 = sample(raw[i], top, sig, grid);
        out.push(r);
        i = i + 1;
    }
    proof {
        assert(out@ =~= rescaled(raw@));
        rescaled_within_full_scale(raw@);
    }
    out
}

/// Scaling never carries a sample past full scale: the rounded product of a
/// sample no larger than the peak and the scale factor for that peak has an
/// integer part of at most 32766.
pub proof fn scaled_magnitude_bound(x: u32, peak: u32)
    requires
        !is_nan(x),
        magnitude(x) <= peak,
        FULL_SCALE_BITS < peak < INFINITY_BITS,
    ensures
        scaled_magnitude(x, peak) <= 32766,
{
    magnitude_order(x, peak);
    scale_shape(peak);
    lemma2_to64();
    lemma2_to64_rest();
    let sx = significand(x);
    let sp = significand(peak);
    let g = scale_grid(peak);
    let ms = scale_significand(peak);
    let n = FULL_SCALE_SHIFTED as nat;
    let dd = (exponent(peak) - exponent(x)) as nat;
    let w = sx * ms;
    let e = exponent(x) + scale_exponent(peak);
    let depth = (-e) as nat;
    let k = (depth - 9) as nat;
    let c: nat = 0xFF_FC01;
    assert(depth == dd + 34 - g);
    assert(k == dd + 25 - g);
    let t = sp * pow2(g);
    assert(t == if g == 1 {
        sp * 2
    } else {
        sp * 4
    });
    lemma_pow2_pos(dd);
    lemma_pow2_pos(k);
    // the factor times the peak is below 32766 + 2^-9
    assert(ms * t < 0x200_0000 * c) by (nonlinear_arith)
        requires
            2 * ms * t <= 2 * n + t,
            t < 0x400_0000,
            n + 0x200_0000 == 0x200_0000 * c,
    ;
    lemma_pow2_adds(k, g);
    lemma_pow2_adds(dd, 25);
    assert(pow2(k) * pow2(g) == pow2(dd) * 0x200_0000);
    assert(w * pow2(g) < c * pow2(k) * pow2(g)) by (nonlinear_arith)
        requires
            w == sx * ms,
            t == sp * pow2(g),
            sx <= sp * pow2(dd),
            ms * t < 0x200_0000 * c,
            pow2(k) * pow2(g) == pow2(dd) * 0x200_0000,
            pow2(dd) > 0,
            pow2(g) > 0,
    ;
    assert(w < c * pow2(k)) by (nonlinear_arith)
        requires
            w * pow2(g) < c * pow2(k) * pow2(g),
            pow2(g) > 0,
    ;
    // so the product has at most 24 + k bits
    let l = bit_length(w);
    bit_length_bounds(w);
    lemma_pow2_adds(24, k);
    assert(w < pow2(24 + k)) by (nonlinear_arith)
        requires
            w < c * pow2(k),
            c < 0x100_0000,
            pow2(24 + k) == 0x100_0000 * pow2(k),
    ;
    if l > 24 + k {
        if l - 1 > 24 + k {
            lemma_pow2_strictly_increases(24 + k, (l - 1) as nat);
        }
        assert(false);
    }
    if l < depth {
        below_half_truncates_to_zero(w, e);
    } else {
        let drop = (l - 24) as nat;
        let shift = (depth + 24 - l) as nat;
        let m = nearest_even(w, pow2(drop));
        assert(grid_exponent(w, e) == -(shift as int));
        assert(rounded_significand(w, e) == m);
        assert(scaled_magnitude(x, peak) == m / pow2(shift));
        lemma_pow2_pos(drop);
        lemma_pow2_pos(shift);
        nearest_even_bounds(w, pow2(drop));
        assert(m <= w / pow2(drop) + 1);
        if l == 24 + k {
            assert(drop == k);
            assert(w / pow2(k) < c) by (nonlinear_arith)
                requires
                    w < c * pow2(k),
                    pow2(k) > 0,
            ;
            assert(shift == 9);
            assert(m <= c);
            assert(m / 512 <= 32766);
        } else {
            lemma_pow2_adds(24, drop);
            assert(pow2(l) == 0x100_0000 * pow2(drop));
            assert(w / pow2(drop) < 0x100_0000) by (nonlinear_arith)
                requires
                    w < 0x100_0000 * pow2(drop),
                    pow2(drop) > 0,
            ;
            assert(m <= 0x100_0000);
            assert(shift >= 10);
            if shift > 10 {
                lemma_pow2_strictly_increases(10, shift);
            }
            lemma_div_is_ordered_by_denominator(m as int, 1024, pow2(shift) as int);
            assert(m / pow2(shift) <= m / 1024);
            assert(m / 1024 <= 16384);
        }
    }
}

/// A number at or below full scale has an integer part of at most 32766.
pub proof fn truncated_bound(x: u32)
    requires
        magnitude(x) <= FULL_SCALE_BITS,
    ensures
        truncated(x) <= 32766,
{
    lemma2_to64();
    let s = significand(x);
    let k = (-exponent(x)) as nat;
    assert(k >= 9);
    if k == 9 {
        assert(s <= 0xFF_FC00);
    } else {
        if k > 10 {
            lemma_pow2_strictly_increases(10, k);
        }
        lemma_div_is_ordered_by_denominator(s as int, 1024, pow2(k) as int);
    }
}

/// Every delivered sample lies within full scale, whatever the engine put
/// out: `-32766 <= sample <= 32766`.
pub proof fn rescaled_sample_within_full_scale(x: u32, peak: u32)
    requires
        !is_nan(x) ==> magnitude(x) <= peak,
    ensures
        -MAX_SAMPLE_MAGNITUDE <= rescaled_sample(x, peak) <= MAX_SAMPLE_MAGNITUDE,
{
    if is_nan(x) {
    } else if peak <= FULL_SCALE_BITS {
        truncated_bound(x);
    } else if peak >= INFINITY_BITS {
    } else {
        scaled_magnitude_bound(x, peak);
    }
}

/// Every sample of a rescaled buffer lies within full scale; none wraps
/// around, however large the engine's output was.
pub proof fn rescaled_within_full_scale(raw: Seq<u32>)
    ensures
        rescaled(raw).len() == raw.len(),
        forall|i: int|
            0 <= i < raw.len() ==> -MAX_SAMPLE_MAGNITUDE <= #[trigger] rescaled(raw)[i]
                <= MAX_SAMPLE_MAGNITUDE,
{
    peak_bounds(raw);
    assert forall|i: int| 0 <= i < raw.len() implies -MAX_SAMPLE_MAGNITUDE
        <= #[trigger] rescaled(raw)[i] <= MAX_SAMPLE_MAGNITUDE by {
        rescaled_sample_within_full_scale(raw[i], peak(raw));
    }
}

/// Silence stays silence: if the engine put out nothing but zeros, of either
/// sign, every delivered sample is zero.
pub proof fn rescaled_silence(raw: Seq<u32>)
    requires
        forall|i: int| 0 <= i < raw.len() ==> is_zero(#[trigger] raw[i]),
    ensures
        rescaled(raw).len() == raw.len(),
        forall|i: int| 0 <= i < raw.len() ==> #[trigger] rescaled(raw)[i] == 0,
{
    peak_attained(raw);
    assert(peak(raw) == 0);
    lemma_pow2_pos(149);
    assert forall|i: int| 0 <= i < raw.len() implies #[trigger] rescaled(raw)[i] == 0 by {
        assert(is_zero(raw[i]));
        assert(significand(raw[i]) == 0);
        assert(exponent(raw[i]) == -149);
        assert(0nat / pow2(149) == 0) by (nonlinear_arith)
            requires
                pow2(149) > 0,
        ;
        assert(truncated(raw[i]) == 0);
    }
}

/// The peak of two buffers joined is the larger of their peaks.
pub proof fn peak_concat(a: Seq<u32>, b: Seq<u32>)
    ensures
        peak(a + b) >= peak(a),
        peak(a + b) >= peak(b),
        peak(a + b) == peak(a) || peak(a + b) == peak(b),
    decreases b.len(),
{
    if b.len() == 0 {
        assert(a + b =~= a);
    } else {
        peak_concat(a, b.drop_last());
        assert((a + b).drop_last() =~= a + b.drop_last());
        assert((a + b).last() == b.last());
    }
}

/// Where the engine's output for two buffers, taken together, stays within
/// full scale, nothing is scaled: what is delivered for the two buffers as
/// one is what is delivered for each of them, joined.
///
/// Above full scale this does not hold: each delivery is scaled by its own
/// peak.
pub proof fn rescaled_concat_unscaled(a: Seq<u32>, b: Seq<u32>)
    requires
        peak(a + b) <= FULL_SCALE_BITS,
    ensures
        rescaled(a + b) == rescaled(a) + rescaled(b),
{
    peak_concat(a, b);
    assert forall|i: int| 0 <= i < (a + b).len() implies rescaled(a + b)[i] == (rescaled(a)
        + rescaled(b))[i] by {
        if i < a.len() {
            assert((a + b)[i] == a[i]);
        } else {
            assert((a + b)[i] == b[i - a.len()]);
        }
    }
    assert(rescaled(a + b) =~= rescaled(a) + rescaled(b));
}

} // verus!
