//! The sampling plan of auto-reframing: how large the analysed frames are and how much
//! the subject track is smoothed.
use vstd::prelude::*;
use vstd::arithmetic::power2::{
    lemma2_to64_rest, lemma_pow2_strictly_increases, lemma_pow2_unfold, pow2,
};

verus! {

/// The longest side, in pixels, of a frame the subject detector looks at.
pub const REFRAME_SAMPLE_SIZE: usize = 320;

/// The most frames one reframe analyses.
pub const MAX_REFRAME_SAMPLES: usize = 120;

/// The smoothing radius for a track of `sample_count` samples: a sixth of them,
/// between 1 and 8.
pub open spec fn spec_smoothing_radius(sample_count: nat) -> nat {
    let r = sample_count / 6;
    if r < 1 {
        1
    } else if r > 8 {
        8
    } else {
        r
    }
}

pub fn smoothing_radius_for(sample_count: usize) -> (radius: usize)
    ensures
        radius == spec_smoothing_radius(sample_count as nat),
{
    let r = sample_count / 6;
    if r < 1 {
        1
    } else if r > 8 {
        8
    } else {
        r
    }
}

/// At least one.
pub open spec fn at_least_one(v: nat) -> nat {
    if v < 1 {
        1
    } else {
        v
    }
}

/// `n / d` rounded to the nearest integer, a tie to the even one.
pub open spec fn round_half_even(n: nat, d: nat) -> nat {
    let q = n / d;
    let r = n % d;
    if 2 * r < d {
        q
    } else if 2 * r > d {
        q + 1
    } else if q % 2 == 0 {
        q
    } else {
        q + 1
    }
}

/// Whether `v` has exactly `k` binary digits below its 53 leading digits (none when
/// `v < 2^53`).
pub open spec fn is_excess_bits(v: nat, k: nat) -> bool {
    &&& v < pow2(53 + k)
    &&& (k == 0 || pow2(52 + k) <= v)
}

/// The double nearest to the whole number `v`, a tie to the one with an even
/// significand: `v` rounded to its 53 leading binary digits.
pub open spec fn nearest_double(v: nat) -> nat {
    let k = choose|k: nat| is_excess_bits(v, k);
    round_half_even(v, pow2(k)) * pow2(k)
}

/// Whether `320 * 2^s / lf` lies in `[2^52, 2^53)`: `2^s` is the scale at which the
/// double nearest to `320 / lf` has a whole significand.
pub open spec fn is_scale_shift(lf: nat, s: nat) -> bool {
    0x10_0000_0000_0000 * lf <= 320 * pow2(s) < 0x20_0000_0000_0000 * lf
}

/// `side` scaled by `320 / longest` as double precision computes it, then rounded to
/// the nearest integer, halves away from zero: `longest` and `side` are converted to
/// the nearest doubles, the scale `320 / longest` is rounded to a double (its
/// significand is `scale`, over `2^s`), and so is the product of the side and the
/// scale (`product`, over `2^s`).
pub open spec fn double_scaled_side(side: nat, longest: nat) -> nat {
    let lf = nearest_double(longest);
    let s = choose|s: nat| is_scale_shift(lf, s);
    let scale = round_half_even(320 * pow2(s), lf);
    let product = nearest_double(nearest_double(side) * scale);
    (2 * product + pow2(s)) / pow2(s + 1)
}

/// The size a frame is analysed at: unchanged when it already fits in 320 pixels,
/// otherwise each side scaled in double precision so the longest becomes 320, rounded,
/// and at least one pixel.
pub open spec fn spec_sample_size(width: nat, height: nat) -> (nat, nat) {
    let longest = if width > height {
        width
    } else {
        height
    };
    if longest == 0 {
        (0, 0)
    } else if longest <= 320 {
        (width, height)
    } else {
        (
            at_least_one(double_scaled_side(width, longest)),
            at_least_one(double_scaled_side(height, longest)),
        )
    }
}

proof fn lemma_excess_bits_unique(v: nat, k1: nat, k2: nat)
    requires
        is_excess_bits(v, k1),
        is_excess_bits(v, k2),
    ensures
        k1 == k2,
{
    if k1 < k2 {
        if 53 + k1 < 52 + k2 {
            lemma_pow2_strictly_increases(53 + k1, 52 + k2);
        }
    } else if k2 < k1 {
        if 53 + k2 < 52 + k1 {
            lemma_pow2_strictly_increases(53 + k2, 52 + k1);
        }
    }
}

proof fn lemma_scale_shift_unique(lf: nat, s1: nat, s2: nat)
    requires
        is_scale_shift(lf, s1),
        is_scale_shift(lf, s2),
    ensures
        s1 == s2,
{
    if s1 < s2 {
        lemma_pow2_unfold(s1 + 1);
        if s1 + 1 < s2 {
            lemma_pow2_strictly_increases(s1 + 1, s2);
        }
    } else if s2 < s1 {
        lemma_pow2_unfold(s2 + 1);
        if s2 + 1 < s1 {
            lemma_pow2_strictly_increases(s2 + 1, s1);
        }
    }
}

fn round_half_even_of(n: u128, d: u128) -> (r: u128)
    requires
        0 < d < 0x4000_0000_0000_0000_0000_0000_0000_0000,
    ensures
        r == round_half_even(n as nat, d as nat),
        n / d <= r <= n / d + 1,
{
    let q = n / d;
    let rem = n % d;
    if 2 * rem < d {
        q
    } else {
        proof {
            assert(d >= 2);
            assert(q * d <= n) by (nonlinear_arith)
                requires
                    q == n / d,
                    d > 0,
            ;
            assert(2 * q <= n) by (nonlinear_arith)
                requires
                    q * d <= n,
                    d >= 2,
                    q >= 0,
            ;
        }
        if 2 * rem > d {
            q + 1
        } else if q % 2 == 0 {
            q
        } else {
            q + 1
        }
    }
}

/// The double nearest to `v`; within a factor of two of `v`.
fn nearest_double_of(v: u128) -> (r: u128)
    requires
        v < 0x100_0000_0000_0000_0000_0000_0000_0000,
    ensures
        r == nearest_double(v as nat),
        r <= 2 * v,
        v <= 2 * r,
{
    let mut p: u128 = 1;
    let mut top: u128 = 0x20_0000_0000_0000;
    let ghost mut k: nat = 0;
    proof {
        lemma2_to64_rest();
        vstd::arithmetic::power2::lemma2_to64();
    }
    while top <= v
        invariant
            p == pow2(k),
            0 < p,
            top == pow2(53 + k),
            top == 0x20_0000_0000_0000 * p,
            k == 0 || top <= 2 * v,
            v < 0x100_0000_0000_0000_0000_0000_0000_0000,
        decreases 0x200_0000_0000_0000_0000_0000_0000_0000 - top,
    {
        proof {
            lemma_pow2_unfold(k + 1);
            lemma_pow2_unfold(53 + k + 1);
        }
        p = p * 2;
        top = top * 2;
        proof {
            k = k + 1;
        }
    }
    proof {
        if k > 0 {
            lemma_pow2_unfold(53 + k);
            assert((52 + k) as nat + 1 == 53 + k);
        }
        assert(is_excess_bits(v as nat, k));
        let kc = choose|j: nat| is_excess_bits(v as nat, j);
        lemma_excess_bits_unique(v as nat, kc, k);
    }
    let m = round_half_even_of(v, p);
    proof {
        let q = v / p;
        assert(q * p <= v && v < q * p + p) by (nonlinear_arith)
            requires
                q == v / p,
                p > 0,
        ;
        assert(q < 0x20_0000_0000_0000) by (nonlinear_arith)
            requires
                q * p <= v,
                v < 0x20_0000_0000_0000 * p,
                p > 0,
        ;
        assert(m * p <= top) by (nonlinear_arith)
            requires
                m <= 0x20_0000_0000_0000,
                top == 0x20_0000_0000_0000 * p,
                p > 0,
        ;
        assert(v <= m * p + p) by (nonlinear_arith)
            requires
                v < q * p + p,
                q <= m,
                p > 0,
        ;
        if k == 0 {
            assert(m == v);
        }
    }
    m * p
}

/// `side` scaled by `320 / longest` in double precision and rounded.
fn double_scaled_side_of(side: usize, longest: usize) -> (r: usize)
    requires
        320 < longest,
        side <= longest,
    ensures
        r == double_scaled_side(side as nat, longest as nat),
{
    let lf = nearest_double_of(longest as u128);
    let mut p: u128 = 1;
    let ghost mut s: nat = 0;
    proof {
        vstd::arithmetic::power2::lemma2_to64();
    }
    while 320 * p < 0x10_0000_0000_0000 * lf
        invariant
            p == pow2(s),
            0 < p,
            320 * p < 0x20_0000_0000_0000 * lf,
            160 < lf <= 2 * longest,
            longest <= usize::MAX,
        decreases 0x20_0000_0000_0000 * lf - 320 * p,
    {
        proof {
            lemma_pow2_unfold(s + 1);
        }
        p = p * 2;
        proof {
            s = s + 1;
        }
    }
    proof {
        assert(is_scale_shift(lf as nat, s));
        let sc = choose|j: nat| is_scale_shift(lf as nat, j);
        lemma_scale_shift_unique(lf as nat, sc, s);
        lemma_pow2_unfold(s + 1);
    }
    let scale = round_half_even_of(320 * p, lf);
    let wf = nearest_double_of(side as u128);
    proof {
        let q0 = (320 * p) as int / lf as int;
        assert(q0 * lf <= 320 * p) by (nonlinear_arith)
            requires
                q0 == (320 * p) as int / lf as int,
                lf > 0,
        ;
        assert(scale * lf <= 320 * p + lf) by (nonlinear_arith)
            requires
                scale <= q0 + 1,
                q0 * lf <= 320 * p,
                lf > 0,
        ;
        assert(q0 < 0x20_0000_0000_0000) by (nonlinear_arith)
            requires
                q0 * lf <= 320 * p,
                320 * p < 0x20_0000_0000_0000 * lf,
                lf > 0,
        ;
        assert(wf * scale <= 0x20_0000_0000_0000 * wf) by (nonlinear_arith)
            requires
                scale <= 0x20_0000_0000_0000,
        ;
    }
    let n = wf * scale;
    let product = nearest_double_of(n);
    let q = (2 * product + p) / (2 * p);
    proof {
        assert(lf <= p);
        assert(wf <= 4 * lf);
        assert(n <= 4 * (scale * lf)) by (nonlinear_arith)
            requires
                n == wf * scale,
                wf <= 4 * lf,
        ;
        assert(q * (2 * p) <= 2 * product + p) by (nonlinear_arith)
            requires
                q == (2 * product + p) / (2 * p),
                p > 0,
        ;
        assert(q <= 2568) by (nonlinear_arith)
            requires
                q * (2 * p) <= 2 * product + p,
                product <= 2 * n,
                n <= 4 * (320 * p + lf),
                lf <= p,
                p > 0,
        ;
    }
    q as usize
}

/// The size a frame of `width` × `height` is analysed at, each scaled side computed
/// as double precision computes `side * (320 / longest)`.
pub fn sample_size_for(width: usize, height: usize) -> (size: (usize, usize))
    ensures
        (size.0 as nat, size.1 as nat) == spec_sample_size(width as nat, height as nat),
{
    let longest = if width > height {
        width
    } else {
        height
    };
    if longest == 0 {
        return (0, 0);
    }
    if longest <= REFRAME_SAMPLE_SIZE {
        return (width, height);
    }
    let w = double_scaled_side_of(width, longest);
    let h = double_scaled_side_of(height, longest);
    (if w < 1 {
        1
    } else {
        w
    }, if h < 1 {
        1
    } else {
        h
    })
}

} // verus!
