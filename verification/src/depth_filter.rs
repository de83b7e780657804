//! Depth post-processing: normalization (per-frame, running-EMA, or global
//! two-pass), bilateral and Gaussian smoothing, and temporal blending.
//!
//! All arithmetic is fixed-point: normalized depth samples live in
//! `0 ..= DEPTH_UNIT`, filter sigmas are given in `SIGMA_UNIT`ths of a pixel
//! (spatial) or of the normalized range (color), and filter weights live in
//! `0 ..= WEIGHT_UNIT`. The weight of a neighbor at squared distance `q` is
//! a fixed-point approximation of the Gaussian `exp(-q / (2 sigma^2))`.
use vstd::prelude::*;
use vstd::arithmetic::div_mod::{
    lemma_div_is_ordered, lemma_div_multiples_vanish, lemma_div_nonincreasing,
    lemma_div_pos_is_pos,
};
use crate::{DEPTH_HALF, DEPTH_UNIT};
use crate::error::{SpatialError, SpatialResult};
use crate::grid::{DepthGrid, NormalizedDepthGrid};
use crate::NormalizeMode;

verus! {

/// Fixed-point scale for filter sigmas: `SIGMA_UNIT` stands for one pixel
/// (spatial sigmas) or for the full normalized depth range (color sigma).
pub const SIGMA_UNIT: u32 = 1000;

/// Largest accepted spatial sigma (100 pixels): bounds kernel radii.
pub const MAX_SPATIAL_SIGMA: u32 = 100000;

/// Largest accepted color sigma (100 normalized ranges).
pub const MAX_COLOR_SIGMA: u32 = 1000000;

/// Fixed-point scale for filter weights: `WEIGHT_UNIT` stands for 1.0.
pub const WEIGHT_UNIT: u64 = 65536;

/// `WEIGHT_UNIT / e`, the decay per whole unit of exponent.
pub const INV_E: u64 = 24109;

/// Quotients are bounded by bounding the dividend: `x <= c * d` gives
/// `x / d <= c`.
pub proof fn lemma_div_bound(x: int, c: int, d: int)
    requires
        0 <= x,
        0 <= c,
        x <= c * d,
        0 < d,
    ensures
        0 <= x / d <= c,
{
    lemma_div_is_ordered(x, c * d, d);
    assert(c * d == d * c) by (nonlinear_arith);
    lemma_div_multiples_vanish(c, d);
    lemma_div_pos_is_pos(x, d);
}

/// Every element of `s` is at most `m`.
pub open spec fn all_le(s: Seq<u32>, m: u32) -> bool {
    forall|i: int| 0 <= i < s.len() ==> s[i] <= m
}

/// Every element of `s` equals `c`.
pub open spec fn all_eq(s: Seq<u32>, c: u32) -> bool {
    forall|i: int| 0 <= i < s.len() ==> s[i] == c
}

/// `mn` and `mx` are the least and greatest element of `s`.
pub open spec fn is_min_max(s: Seq<u32>, mn: u32, mx: u32) -> bool {
    &&& forall|i: int| 0 <= i < s.len() ==> mn <= #[trigger] s[i] <= mx
    &&& exists|i: int| 0 <= i < s.len() && s[i] == mn
    &&& exists|i: int| 0 <= i < s.len() && s[i] == mx
}

/// The sum of the first `i` kernel weights.
pub open spec fn sum_prefix(k: Seq<u64>, i: int) -> int
    decreases i,
{
    if i <= 0 {
        0
    } else {
        sum_prefix(k, i - 1) + k[i - 1]
    }
}

/// A prefix sum of `u64` weights is nonnegative and, with every weight at
/// most `WEIGHT_UNIT`, at most `i * WEIGHT_UNIT`.
pub proof fn lemma_sum_prefix_bounds(k: Seq<u64>, i: int)
    requires
        0 <= i <= k.len(),
        forall|j: int| 0 <= j < k.len() ==> k[j] <= WEIGHT_UNIT,
    ensures
        0 <= sum_prefix(k, i) <= i * WEIGHT_UNIT,
    decreases i,
{
    if i > 0 {
        lemma_sum_prefix_bounds(k, i - 1);
        assert((i - 1) * WEIGHT_UNIT + WEIGHT_UNIT == i * WEIGHT_UNIT) by (nonlinear_arith);
    }
}

/// A prefix sum dominates each of its terms.
pub proof fn lemma_sum_prefix_ge_term(k: Seq<u64>, j: int, i: int)
    requires
        0 <= j < i <= k.len(),
    ensures
        sum_prefix(k, i) >= k[j],
    decreases i,
{
    if j == i - 1 {
        lemma_sum_prefix_nonneg(k, i - 1);
    } else {
        lemma_sum_prefix_ge_term(k, j, i - 1);
    }
}

/// A prefix sum of `u64` terms is nonnegative.
pub proof fn lemma_sum_prefix_nonneg(k: Seq<u64>, i: int)
    requires
        i <= k.len(),
    ensures
        sum_prefix(k, i) >= 0,
    decreases i,
{
    if i > 0 {
        lemma_sum_prefix_nonneg(k, i - 1);
    }
}

/// The quadratic taken on the fractional part of the exponent:
/// `1 - f + f^2/2` in `WEIGHT_UNIT` fixed point, capped at one.
pub open spec fn exp_frac(f: int) -> int {
    let b = WEIGHT_UNIT - f + (f * f / WEIGHT_UNIT as int) / 2;
    if b > WEIGHT_UNIT {
        WEIGHT_UNIT as int
    } else {
        b
    }
}

/// `n` applications of the per-unit decay `r * INV_E / WEIGHT_UNIT`.
pub open spec fn exp_decay(r: int, n: int) -> int
    decreases n,
{
    if n <= 0 {
        r
    } else {
        exp_decay(r * INV_E / WEIGHT_UNIT as int, n - 1)
    }
}

/// What `exp_neg_fixed` computes: the quadratic on the fractional part,
/// decayed once per whole unit, zero from 32 units on.
pub open spec fn exp_neg_spec(x: u64) -> int {
    let n = x / WEIGHT_UNIT;
    let f = (x % WEIGHT_UNIT) as int;
    if n >= 32 {
        0
    } else {
        exp_decay(exp_frac(f), n as int)
    }
}

/// A fixed-point approximation of `exp(-x / WEIGHT_UNIT)`, scaled by
/// `WEIGHT_UNIT`: a quadratic on the fractional part, decayed by `1/e` per
/// whole unit, zero beyond 32 units. Exact at zero, never above one.
pub fn exp_neg_fixed(x: u64) -> (r: u64)
    ensures
        r == exp_neg_spec(x),
        r <= WEIGHT_UNIT,
        x == 0 ==> r == WEIGHT_UNIT,
{
    let n = x / WEIGHT_UNIT;
    let f = x % WEIGHT_UNIT;
    if n >= 32 {
        return 0;
    }
    proof {
        assert(f * f <= WEIGHT_UNIT * WEIGHT_UNIT) by (nonlinear_arith)
            requires f <= WEIGHT_UNIT;
    }
    let f2 = (f * f / WEIGHT_UNIT) / 2;
    let mut r = WEIGHT_UNIT - f + f2;
    if r > WEIGHT_UNIT {
        r = WEIGHT_UNIT;
    }
    let ghost r0 = r;
    proof {
        assert(r0 == exp_frac(f as int));
    }
    let mut i: u64 = 0;
    while i < n
        invariant
            i <= n,
            r <= WEIGHT_UNIT,
            exp_decay(r as int, (n - i) as int) == exp_decay(r0 as int, n as int),
            i == 0 ==> r == r0,
        decreases n - i,
    {
        proof {
            lemma_div_bound((r * INV_E) as int, WEIGHT_UNIT as int, WEIGHT_UNIT as int);
            assert(r * INV_E <= WEIGHT_UNIT * WEIGHT_UNIT) by (nonlinear_arith)
                requires r <= WEIGHT_UNIT, INV_E < WEIGHT_UNIT;
        }
        r = r * INV_E / WEIGHT_UNIT;
        i += 1;
    }
    r
}

/// The radius of the Gaussian blur kernel for `sigma` (in `SIGMA_UNIT`ths
/// of a pixel): three sigma, rounded up.
pub open spec fn gauss_radius(sigma: u32) -> int {
    (3 * sigma + (SIGMA_UNIT - 1)) as int / SIGMA_UNIT as int
}

/// The radius of the bilateral filter window for `sigma_space`: two sigma,
/// rounded up.
pub open spec fn bilateral_radius(sigma: u32) -> int {
    (2 * sigma + (SIGMA_UNIT - 1)) as int / SIGMA_UNIT as int
}

/// The Gaussian exponent argument for a neighbor at squared pixel distance
/// `d2` under `sigma` (in `SIGMA_UNIT`ths): `d2 / (2 sigma^2)` in
/// `WEIGHT_UNIT` fixed point.
pub open spec fn gauss_exponent_spec(d2: int, sigma: int) -> int {
    d2 * 1000000 * WEIGHT_UNIT / (2 * (sigma * sigma))
}

/// Computes the spatial Gaussian exponent argument.
fn gauss_exponent(d2: u64, sigma: u32) -> (x: u64)
    requires
        0 < sigma <= MAX_SPATIAL_SIGMA,
        d2 <= 0x10_0000,
    ensures
        x == gauss_exponent_spec(d2 as int, sigma as int),
        d2 == 0 ==> x == 0,
        x <= 0x10_0000 * 1000000 * WEIGHT_UNIT,
{
    let s = sigma as u64;
    proof {
        assert(d2 * 1000000 * WEIGHT_UNIT <= 0x10_0000 * 1000000 * WEIGHT_UNIT) by (nonlinear_arith)
            requires d2 <= 0x10_0000;
        assert(0 < 2 * s * s <= 2 * 100000 * 100000) by (nonlinear_arith)
            requires 1 <= s <= 100000;
    }
    let num = d2 * 1000000 * WEIGHT_UNIT;
    let den = 2 * s * s;
    proof {
        assert(2 * s * s == 2 * (s * s)) by (nonlinear_arith);
        if d2 == 0 {
            assert(num == 0);
            assert(0int / den as int == 0) by {
                lemma_div_multiples_vanish(0, den as int);
            }
        }
        lemma_div_nonincreasing(num as int, den as int);
    }
    num / den
}

/// The `i`th weight of the Gaussian kernel for `sigma`: the fixed-point
/// exponential of the squared distance to the kernel center.
pub open spec fn gauss_weight(sigma: u32, i: int) -> int {
    let radius = gauss_radius(sigma);
    let d = if i < radius { radius - i } else { i - radius };
    exp_neg_spec(gauss_exponent_spec(d * d, sigma as int) as u64)
}

/// The Gaussian kernel for `sigma` as a sequence.
pub open spec fn gauss_kernel_spec(sigma: u32) -> Seq<u64> {
    Seq::new((2 * gauss_radius(sigma) + 1) as nat, |i: int| gauss_weight(sigma, i) as u64)
}

/// Builds the 1D Gaussian kernel for `sigma` with its total weight.
/// The center weight is exactly `WEIGHT_UNIT`, so the total is positive.
fn gaussian_kernel(sigma: u32) -> (r: (Vec<u64>, u64))
    requires
        0 < sigma <= MAX_SPATIAL_SIGMA,
    ensures
        r.0@.len() == 2 * gauss_radius(sigma) + 1,
        r.0@ == gauss_kernel_spec(sigma),
        forall|i: int| 0 <= i < r.0@.len() ==> r.0@[i] <= WEIGHT_UNIT,
        r.1 == sum_prefix(r.0@, r.0@.len() as int),
        WEIGHT_UNIT <= r.1 <= r.0@.len() * WEIGHT_UNIT,
{
    let radius = (3 * sigma + (SIGMA_UNIT - 1)) / SIGMA_UNIT;
    let size = (2 * radius + 1) as usize;
    let mut kernel: Vec<u64> = Vec::new();
    let mut ksum: u64 = 0;
    let mut i: usize = 0;
    while i < size
        invariant
            i <= size,
            size == 2 * gauss_radius(sigma) + 1,
            radius == gauss_radius(sigma),
            radius <= 301,
            kernel@.len() == i,
            forall|j: int| 0 <= j < i ==> kernel@[j] <= WEIGHT_UNIT,
            forall|j: int| 0 <= j < i ==> #[trigger] kernel@[j] == gauss_weight(sigma, j),
            ksum == sum_prefix(kernel@, i as int),
            ksum <= i * WEIGHT_UNIT,
            i > radius ==> kernel@[radius as int] == WEIGHT_UNIT,
            0 < sigma <= MAX_SPATIAL_SIGMA,
        decreases size - i,
    {
        let d: u64 = if i < radius as usize {
            (radius as usize - i) as u64
        } else {
            (i - radius as usize) as u64
        };
        proof {
            assert(d * d <= 301 * 301) by (nonlinear_arith)
                requires d <= 301;
        }
        let w = exp_neg_fixed(gauss_exponent(d * d, sigma));
        let ghost old_kernel = kernel@;
        kernel.push(w);
        proof {
            assert(sum_prefix(kernel@, i + 1 as int) == sum_prefix(kernel@, i as int) + w);
            assert(sum_prefix(kernel@, i as int) == sum_prefix(old_kernel, i as int)) by {
                lemma_sum_prefix_unchanged(old_kernel, kernel@, i as int);
            }
            assert((i as int) * WEIGHT_UNIT + WEIGHT_UNIT == (i + 1 as int) * WEIGHT_UNIT)
                by (nonlinear_arith);
        }
        proof {
            if i == radius as usize {
                assert(d == 0);
                assert(d * d == 0);
                assert(w == WEIGHT_UNIT);
                assert(kernel@[radius as int] == WEIGHT_UNIT);
            }
        }
        ksum = ksum + w;
        i += 1;
    }
    proof {
        lemma_sum_prefix_ge_term(kernel@, gauss_radius(sigma), kernel@.len() as int);
        assert(kernel@ =~= gauss_kernel_spec(sigma));
    }
    (kernel, ksum)
}

/// A prefix sum only reads the first `i` elements.
pub proof fn lemma_sum_prefix_unchanged(a: Seq<u64>, b: Seq<u64>, i: int)
    requires
        0 <= i <= a.len(),
        i <= b.len(),
        forall|j: int| 0 <= j < i ==> a[j] == b[j],
    ensures
        sum_prefix(a, i) == sum_prefix(b, i),
    decreases i,
{
    if i > 0 {
        lemma_sum_prefix_unchanged(a, b, i - 1);
    }
}

} // verus!

verus! {

/// A prefix sum of nonnegative terms grows with its length.
pub proof fn lemma_sum_prefix_mono(k: Seq<u64>, i: int, j: int)
    requires
        0 <= i <= j <= k.len(),
    ensures
        sum_prefix(k, i) <= sum_prefix(k, j),
    decreases j,
{
    if i < j {
        lemma_sum_prefix_mono(k, i, j - 1);
    }
}

/// The sample index a separable pass reads at kernel offset `i` for output
/// pixel (`y`, `x`): the coordinate shifted by `i - radius`, clamped to the
/// grid (replicate border), along the row or the column.
pub open spec fn pass_index(
    w: int,
    h: int,
    y: int,
    x: int,
    radius: int,
    i: int,
    vertical: bool,
) -> int {
    let lim = if vertical { h } else { w };
    let c = if vertical { y } else { x };
    let pos = c + i;
    let cc = if pos <= radius {
        0
    } else if pos - radius >= lim {
        lim - 1
    } else {
        pos - radius
    };
    if vertical {
        cc * w + x
    } else {
        y * w + cc
    }
}

/// The weighted sum of the first `i` kernel taps at output pixel (`y`, `x`).
pub open spec fn conv_sum(
    data: Seq<u32>,
    kernel: Seq<u64>,
    w: int,
    h: int,
    y: int,
    x: int,
    radius: int,
    i: int,
    vertical: bool,
) -> int
    decreases i,
{
    if i <= 0 {
        0
    } else {
        conv_sum(data, kernel, w, h, y, x, radius, i - 1, vertical)
            + data[pass_index(w, h, y, x, radius, i - 1, vertical)] * kernel[i - 1]
    }
}

/// A whole separable pass: each output sample is its pixel's weighted sum
/// over the full kernel, divided by the kernel total.
pub open spec fn blur_pass_spec(
    data: Seq<u32>,
    kernel: Seq<u64>,
    w: int,
    h: int,
    radius: int,
    vertical: bool,
) -> Seq<u32> {
    let ksum = sum_prefix(kernel, kernel.len() as int);
    Seq::new(
        (w * h) as nat,
        |p: int| (conv_sum(data, kernel, w, h, p / w, p % w, radius, kernel.len() as int, vertical)
            / ksum) as u32,
    )
}

/// One separable blur pass over a row-major grid: horizontal when
/// `vertical` is false, vertical otherwise. Each output sample is the
/// kernel-weighted average of the samples along its row or column, with
/// out-of-bounds samples clamped to the nearest edge (replicate border).
/// The weighted sum is divided by the kernel total, so a uniform input
/// passes through exactly.
fn blur_pass(
    data: &Vec<u32>,
    w: usize,
    h: usize,
    kernel: &Vec<u64>,
    ksum: u64,
    radius: usize,
    vertical: bool,
) -> (out: Vec<u32>)
    requires
        data@.len() == w * h,
        w <= crate::grid::MAX_DIM,
        h <= crate::grid::MAX_DIM,
        all_le(data@, DEPTH_UNIT),
        kernel@.len() == 2 * radius + 1,
        radius <= 301,
        forall|i: int| 0 <= i < kernel@.len() ==> kernel@[i] <= WEIGHT_UNIT,
        ksum == sum_prefix(kernel@, kernel@.len() as int),
        1 <= ksum,
    ensures
        out@.len() == w * h,
        out@ == blur_pass_spec(data@, kernel@, w as int, h as int, radius as int, vertical),
        all_le(out@, DEPTH_UNIT),
        forall|c: u32| all_eq(data@, c) ==> all_eq(out@, c),
{
    let ghost c0: u32 = if data@.len() > 0 { data@[0] } else { 0u32 };
    proof {
        lemma_sum_prefix_bounds(kernel@, kernel@.len() as int);
    }
    let mut out: Vec<u32> = Vec::new();
    let mut y: usize = 0;
    while y < h
        invariant
            y <= h,
            data@.len() == w * h,
            w <= crate::grid::MAX_DIM,
            h <= crate::grid::MAX_DIM,
            all_le(data@, DEPTH_UNIT),
            kernel@.len() == 2 * radius + 1,
            radius <= 301,
            forall|i: int| 0 <= i < kernel@.len() ==> kernel@[i] <= WEIGHT_UNIT,
            ksum == sum_prefix(kernel@, kernel@.len() as int),
            1 <= ksum <= kernel@.len() * WEIGHT_UNIT,
            out@.len() == y * w,
            all_le(out@, DEPTH_UNIT),
            all_eq(data@, c0) ==> all_eq(out@, c0),
            forall|p: int| 0 <= p < out@.len() ==> #[trigger] out@[p]
                == (conv_sum(data@, kernel@, w as int, h as int, p / w as int, p % w as int,
                    radius as int, kernel@.len() as int, vertical)
                    / sum_prefix(kernel@, kernel@.len() as int)) as u32,
        decreases h - y,
    {
        let mut x: usize = 0;
        while x < w
            invariant
                y < h,
                x <= w,
                data@.len() == w * h,
                w <= crate::grid::MAX_DIM,
                h <= crate::grid::MAX_DIM,
                all_le(data@, DEPTH_UNIT),
                kernel@.len() == 2 * radius + 1,
                radius <= 301,
                forall|i: int| 0 <= i < kernel@.len() ==> kernel@[i] <= WEIGHT_UNIT,
                ksum == sum_prefix(kernel@, kernel@.len() as int),
                1 <= ksum <= kernel@.len() * WEIGHT_UNIT,
                out@.len() == y * w + x,
                all_le(out@, DEPTH_UNIT),
                all_eq(data@, c0) ==> all_eq(out@, c0),
                forall|p: int| 0 <= p < out@.len() ==> #[trigger] out@[p]
                    == (conv_sum(data@, kernel@, w as int, h as int, p / w as int, p % w as int,
                        radius as int, kernel@.len() as int, vertical)
                        / sum_prefix(kernel@, kernel@.len() as int)) as u32,
            decreases w - x,
        {
            let ksize = kernel.len();
            let mut sum: u64 = 0;
            let mut ki: usize = 0;
            while ki < ksize
                invariant
                    ki <= ksize,
                    ksize == kernel@.len() == 2 * radius + 1,
                    radius <= 301,
                    y < h,
                    x < w,
                    data@.len() == w * h,
                    w <= crate::grid::MAX_DIM,
                    h <= crate::grid::MAX_DIM,
                    all_le(data@, DEPTH_UNIT),
                    forall|i: int| 0 <= i < kernel@.len() ==> kernel@[i] <= WEIGHT_UNIT,
                    sum as int <= DEPTH_UNIT * sum_prefix(kernel@, ki as int),
                    sum as int == conv_sum(data@, kernel@, w as int, h as int, y as int, x as int,
                        radius as int, ki as int, vertical),
                    all_eq(data@, c0) ==> sum as int == c0 * sum_prefix(kernel@, ki as int),
                decreases ksize - ki,
            {
                let lim = if vertical { h } else { w };
                let c = if vertical { y } else { x };
                let pos = c + ki;
                let cc: usize = if pos <= radius {
                    0
                } else if pos - radius >= lim {
                    lim - 1
                } else {
                    pos - radius
                };
                proof {
                    assert(w * h <= crate::grid::MAX_DIM * crate::grid::MAX_DIM) by (nonlinear_arith)
                        requires w <= crate::grid::MAX_DIM, h <= crate::grid::MAX_DIM;
                }
                let idx = if vertical {
                    proof {
                        crate::grid::lemma_rowmajor_index(w as int, h as int, cc as int, x as int);
                    }
                    cc * w + x
                } else {
                    proof {
                        crate::grid::lemma_rowmajor_index(w as int, h as int, y as int, cc as int);
                    }
                    y * w + cc
                };
                let v = data[idx];
                let kw = kernel[ki];
                proof {
                    assert(idx == pass_index(w as int, h as int, y as int, x as int,
                        radius as int, ki as int, vertical));
                    lemma_sum_prefix_bounds(kernel@, ki as int);
                    lemma_sum_prefix_bounds(kernel@, kernel@.len() as int);
                    lemma_sum_prefix_mono(kernel@, ki as int, kernel@.len() as int);
                    assert(v as int * kw as int <= DEPTH_UNIT * WEIGHT_UNIT) by (nonlinear_arith)
                        requires v <= DEPTH_UNIT, kw <= WEIGHT_UNIT;
                    assert(sum_prefix(kernel@, ki + 1 as int) == sum_prefix(kernel@, ki as int) + kw);
                    assert(DEPTH_UNIT * sum_prefix(kernel@, ki + 1 as int)
                        == DEPTH_UNIT * sum_prefix(kernel@, ki as int) + DEPTH_UNIT * kw)
                        by (nonlinear_arith)
                        requires sum_prefix(kernel@, ki + 1 as int) == sum_prefix(kernel@, ki as int) + kw;
                    assert(DEPTH_UNIT * sum_prefix(kernel@, kernel@.len() as int)
                        <= DEPTH_UNIT as int * (603 * WEIGHT_UNIT)) by (nonlinear_arith)
                        requires
                            sum_prefix(kernel@, kernel@.len() as int) <= kernel@.len() * WEIGHT_UNIT,
                            kernel@.len() <= 603,
                            sum_prefix(kernel@, kernel@.len() as int) >= 0;
                    lemma_sum_prefix_bounds(kernel@, kernel@.len() as int);
                    assert(v as int * kw as int <= DEPTH_UNIT * kw) by (nonlinear_arith)
                        requires v <= DEPTH_UNIT, kw >= 0;
                    if all_eq(data@, c0) {
                        assert(v == c0);
                        assert(c0 as int * sum_prefix(kernel@, ki + 1 as int)
                            == c0 as int * sum_prefix(kernel@, ki as int) + c0 as int * kw)
                            by (nonlinear_arith)
                            requires sum_prefix(kernel@, ki + 1 as int)
                                == sum_prefix(kernel@, ki as int) + kw;
                    }
                }
                sum = sum + v as u64 * kw;
                ki += 1;
            }
            proof {
                lemma_div_bound(sum as int, DEPTH_UNIT as int, ksum as int);
                if all_eq(data@, c0) {
                    assert(sum as int == c0 * ksum as int);
                    assert(c0 * ksum as int == ksum as int * c0) by (nonlinear_arith);
                    lemma_div_multiples_vanish(c0 as int, ksum as int);
                }
            }
            let o = (sum / ksum) as u32;
            out.push(o);
            proof {
                vstd::arithmetic::div_mod::lemma_fundamental_div_mod_converse(
                    (y * w + x) as int, w as int, y as int, x as int);
            }
            x += 1;
        }
        proof {
            assert(y * w + w == (y + 1) * w) by (nonlinear_arith);
        }
        y += 1;
    }
    proof {
        assert(out@.len() == h * w);
        assert(h * w == w * h) by (nonlinear_arith);
        assert(out@ =~= blur_pass_spec(data@, kernel@, w as int, h as int, radius as int, vertical));
        assert forall|c: u32| all_eq(data@, c) implies all_eq(out@, c) by {
            if data@.len() > 0 {
                assert(data@[0] == c);
                assert(c == c0);
            } else {
                assert(out@.len() == 0);
            }
        }
    }
    out
}

/// Gaussian blur: a separable fixed-point convolution, horizontal then
/// vertical, kernel radius three sigma, replicate-border sampling. A
/// uniform grid passes through unchanged.
pub fn gaussian_blur(depth: &NormalizedDepthGrid, sigma: u32) -> (r: NormalizedDepthGrid)
    requires
        depth.wf(),
        0 < sigma <= MAX_SPATIAL_SIGMA,
    ensures
        r.wf(),
        r.width == depth.width,
        r.height == depth.height,
        r.data@ == blur_pass_spec(
            blur_pass_spec(depth.data@, gauss_kernel_spec(sigma), depth.width as int,
                depth.height as int, gauss_radius(sigma), false),
            gauss_kernel_spec(sigma), depth.width as int, depth.height as int,
            gauss_radius(sigma), true),
        forall|c: u32| depth.is_uniform(c) ==> r.is_uniform(c),
{
    let (kernel, ksum) = gaussian_kernel(sigma);
    let radius = ((3 * sigma + (SIGMA_UNIT - 1)) / SIGMA_UNIT) as usize;
    proof {
        assert(all_le(depth.data@, DEPTH_UNIT));
    }
    let tmp = blur_pass(&depth.data, depth.width, depth.height, &kernel, ksum, radius, false);
    let out = blur_pass(&tmp, depth.width, depth.height, &kernel, ksum, radius, true);
    let r = NormalizedDepthGrid { width: depth.width, height: depth.height, data: out };
    proof {
        assert(forall|c: u32| depth.is_uniform(c) ==> all_eq(depth.data@, c));
        assert(forall|c: u32| all_eq(r.data@, c) ==> r.is_uniform(c));
    }
    r
}

} // verus!

verus! {

/// The Gaussian exponent argument for a depth difference `cdiff` under the
/// color sigma (in `SIGMA_UNIT`ths of the normalized range):
/// `(cdiff / DEPTH_UNIT)^2 / (2 (sigma / SIGMA_UNIT)^2)` in `WEIGHT_UNIT`
/// fixed point.
pub open spec fn color_exponent_spec(cdiff: int, sigma_color: int) -> int {
    cdiff * cdiff * WEIGHT_UNIT / (200 * (sigma_color * sigma_color))
}

/// Computes the color Gaussian exponent argument.
fn color_exponent(cdiff: u32, sigma_color: u32) -> (x: u64)
    requires
        0 < sigma_color <= MAX_COLOR_SIGMA,
        cdiff <= DEPTH_UNIT,
    ensures
        x == color_exponent_spec(cdiff as int, sigma_color as int),
        cdiff == 0 ==> x == 0,
        x <= 10000 * 10000 * WEIGHT_UNIT,
{
    let c = cdiff as u64;
    let s = sigma_color as u64;
    proof {
        assert(c * c * WEIGHT_UNIT <= 10000 * 10000 * WEIGHT_UNIT) by (nonlinear_arith)
            requires c <= 10000;
        assert(0 < 200 * (s * s) <= 200 * (1000000 * 1000000)) by (nonlinear_arith)
            requires 1 <= s <= 1000000;
    }
    let num = c * c * WEIGHT_UNIT;
    let den = 200 * (s * s);
    proof {
        assert(c * c * WEIGHT_UNIT == cdiff as int * cdiff as int * WEIGHT_UNIT)
            by (nonlinear_arith)
            requires c == cdiff;
        if cdiff == 0 {
            assert(c * c * WEIGHT_UNIT == 0) by (nonlinear_arith)
                requires c == 0;
            assert(0int / den as int == 0) by {
                lemma_div_multiples_vanish(0, den as int);
            }
        }
        lemma_div_nonincreasing(num as int, den as int);
    }
    num / den
}

/// The fixed-point bilateral weight of neighbor (`ny`, `nx`) for center
/// (`y`, `x`): the Gaussian exponential of the squared pixel distance plus
/// the squared depth difference, each under its sigma. A zero color sigma
/// admits only exactly matching neighbors.
pub open spec fn bilateral_weight(
    data: Seq<u32>,
    w: int,
    y: int,
    x: int,
    ny: int,
    nx: int,
    sigma_space: u32,
    sigma_color: u32,
) -> int {
    let center = data[y * w + x];
    let v = data[ny * w + nx];
    let cdiff = if v >= center { v - center } else { center - v };
    let dy = if ny >= y { ny - y } else { y - ny };
    let dx = if nx >= x { nx - x } else { x - nx };
    let xs = gauss_exponent_spec(dy * dy + dx * dx, sigma_space as int);
    if sigma_color == 0 {
        if cdiff == 0 {
            exp_neg_spec(xs as u64)
        } else {
            0
        }
    } else {
        exp_neg_spec((xs + color_exponent_spec(cdiff as int, sigma_color as int)) as u64)
    }
}

/// The weighted sum of the first `i` neighbors in window row `ny`
/// (columns `x0 ..`), for center (`y`, `x`).
pub open spec fn bil_row_sum(
    data: Seq<u32>,
    w: int,
    y: int,
    x: int,
    ny: int,
    x0: int,
    i: int,
    sigma_space: u32,
    sigma_color: u32,
) -> int
    decreases i,
{
    if i <= 0 {
        0
    } else {
        bil_row_sum(data, w, y, x, ny, x0, i - 1, sigma_space, sigma_color)
            + data[ny * w + (x0 + i - 1)]
                * bilateral_weight(data, w, y, x, ny, x0 + i - 1, sigma_space, sigma_color)
    }
}

/// The weight total of the first `i` neighbors in window row `ny`.
pub open spec fn bil_row_wsum(
    data: Seq<u32>,
    w: int,
    y: int,
    x: int,
    ny: int,
    x0: int,
    i: int,
    sigma_space: u32,
    sigma_color: u32,
) -> int
    decreases i,
{
    if i <= 0 {
        0
    } else {
        bil_row_wsum(data, w, y, x, ny, x0, i - 1, sigma_space, sigma_color)
            + bilateral_weight(data, w, y, x, ny, x0 + i - 1, sigma_space, sigma_color)
    }
}

/// The weighted sum over the first `j` window rows (`y0 ..`), each spanning
/// columns `x0 ..= x1`.
pub open spec fn bil_sum(
    data: Seq<u32>,
    w: int,
    y: int,
    x: int,
    y0: int,
    x0: int,
    x1: int,
    j: int,
    sigma_space: u32,
    sigma_color: u32,
) -> int
    decreases j,
{
    if j <= 0 {
        0
    } else {
        bil_sum(data, w, y, x, y0, x0, x1, j - 1, sigma_space, sigma_color)
            + bil_row_sum(data, w, y, x, y0 + j - 1, x0, x1 + 1 - x0, sigma_space, sigma_color)
    }
}

/// The weight total over the first `j` window rows.
pub open spec fn bil_wsum(
    data: Seq<u32>,
    w: int,
    y: int,
    x: int,
    y0: int,
    x0: int,
    x1: int,
    j: int,
    sigma_space: u32,
    sigma_color: u32,
) -> int
    decreases j,
{
    if j <= 0 {
        0
    } else {
        bil_wsum(data, w, y, x, y0, x0, x1, j - 1, sigma_space, sigma_color)
            + bil_row_wsum(data, w, y, x, y0 + j - 1, x0, x1 + 1 - x0, sigma_space, sigma_color)
    }
}

/// One bilateral output sample: the weighted average over the square window
/// of radius two sigma around (`y`, `x`), clamped to the grid; the center
/// value if the weight total were zero.
pub open spec fn bilateral_value(
    data: Seq<u32>,
    w: int,
    h: int,
    y: int,
    x: int,
    sigma_space: u32,
    sigma_color: u32,
) -> u32 {
    let radius = bilateral_radius(sigma_space);
    let y0 = if y > radius { y - radius } else { 0 };
    let y1 = if y + radius < h { y + radius } else { h - 1 };
    let x0 = if x > radius { x - radius } else { 0 };
    let x1 = if x + radius < w { x + radius } else { w - 1 };
    let sum = bil_sum(data, w, y, x, y0, x0, x1, y1 + 1 - y0, sigma_space, sigma_color);
    let wsum = bil_wsum(data, w, y, x, y0, x0, x1, y1 + 1 - y0, sigma_space, sigma_color);
    if wsum > 0 {
        (sum / wsum) as u32
    } else {
        data[y * w + x]
    }
}

/// Bilateral filter: each output sample is the average of its square
/// neighborhood (radius two sigma), weighted by a fixed-point Gaussian in
/// both pixel distance and depth difference. A zero color sigma admits only
/// exactly-matching neighbors. The weighted sum is divided by the weight
/// total, which includes the center's full weight, so a uniform grid passes
/// through exactly; if the total were zero the center value would be kept.
pub fn bilateral_filter(depth: &NormalizedDepthGrid, sigma_space: u32, sigma_color: u32) -> (r: NormalizedDepthGrid)
    requires
        depth.wf(),
        0 < sigma_space <= MAX_SPATIAL_SIGMA,
        sigma_color <= MAX_COLOR_SIGMA,
    ensures
        r.wf(),
        r.width == depth.width,
        r.height == depth.height,
        forall|p: int| 0 <= p < r.data@.len() ==> #[trigger] r.data@[p]
            == bilateral_value(depth.data@, depth.width as int, depth.height as int,
                p / depth.width as int, p % depth.width as int, sigma_space, sigma_color),
        forall|c: u32| depth.is_uniform(c) ==> r.is_uniform(c),
{
    let w = depth.width;
    let h = depth.height;
    let data = &depth.data;
    let ghost c0: u32 = if data@.len() > 0 { data@[0] } else { 0u32 };
    let radius = ((2 * sigma_space + (SIGMA_UNIT - 1)) / SIGMA_UNIT) as usize;
    let mut out: Vec<u32> = Vec::new();
    let mut y: usize = 0;
    while y < h
        invariant
            y <= h,
            data@.len() == w * h,
            w <= crate::grid::MAX_DIM,
            h <= crate::grid::MAX_DIM,
            all_le(data@, DEPTH_UNIT),
            radius <= 201,
            radius == bilateral_radius(sigma_space),
            0 < sigma_space <= MAX_SPATIAL_SIGMA,
            sigma_color <= MAX_COLOR_SIGMA,
            out@.len() == y * w,
            all_le(out@, DEPTH_UNIT),
            all_eq(data@, c0) ==> all_eq(out@, c0),
            forall|p: int| 0 <= p < out@.len() ==> #[trigger] out@[p]
                == bilateral_value(data@, w as int, h as int, p / w as int, p % w as int,
                    sigma_space, sigma_color),
        decreases h - y,
    {
        let mut x: usize = 0;
        while x < w
            invariant
                y < h,
                x <= w,
                data@.len() == w * h,
                w <= crate::grid::MAX_DIM,
                h <= crate::grid::MAX_DIM,
                all_le(data@, DEPTH_UNIT),
                radius <= 201,
                radius == bilateral_radius(sigma_space),
                0 < sigma_space <= MAX_SPATIAL_SIGMA,
                sigma_color <= MAX_COLOR_SIGMA,
                out@.len() == y * w + x,
                all_le(out@, DEPTH_UNIT),
                all_eq(data@, c0) ==> all_eq(out@, c0),
                forall|p: int| 0 <= p < out@.len() ==> #[trigger] out@[p]
                    == bilateral_value(data@, w as int, h as int, p / w as int, p % w as int,
                        sigma_space, sigma_color),
            decreases w - x,
        {
            proof {
                assert(w * h <= crate::grid::MAX_DIM * crate::grid::MAX_DIM) by (nonlinear_arith)
                    requires w <= crate::grid::MAX_DIM, h <= crate::grid::MAX_DIM;
                crate::grid::lemma_rowmajor_index(w as int, h as int, y as int, x as int);
            }
            let center = data[y * w + x];
            let y0 = if y > radius { y - radius } else { 0 };
            let y1 = if y + radius < h { y + radius } else { h - 1 };
            let x0 = if x > radius { x - radius } else { 0 };
            let x1 = if x + radius < w { x + radius } else { w - 1 };
            let mut sum: u64 = 0;
            let mut wsum: u64 = 0;
            let mut ny: usize = y0;
            while ny <= y1
                invariant
                    y0 <= ny <= y1 + 1,
                    y0 <= y <= y1 < h,
                    x0 <= x <= x1 < w,
                    y1 - y0 <= 402,
                    x1 - x0 <= 402,
                    y1 - y <= radius,
                    y - y0 <= radius,
                    x1 - x <= radius,
                    x - x0 <= radius,
                    data@.len() == w * h,
                    w <= crate::grid::MAX_DIM,
                    h <= crate::grid::MAX_DIM,
                    all_le(data@, DEPTH_UNIT),
                    radius <= 201,
                    0 < sigma_space <= MAX_SPATIAL_SIGMA,
                    sigma_color <= MAX_COLOR_SIGMA,
                    center == data@[y * w + x],
                    center <= DEPTH_UNIT,
                    radius == bilateral_radius(sigma_space),
                    y0 == (if y > radius { y - radius as int } else { 0 }),
                    y1 == (if y + radius < h { y + radius as int } else { h - 1 }),
                    x0 == (if x > radius { x - radius as int } else { 0 }),
                    x1 == (if x + radius < w { x + radius as int } else { w - 1 }),
                    wsum as int <= (ny - y0) * 403 * WEIGHT_UNIT,
                    sum as int <= DEPTH_UNIT * wsum,
                    sum as int == bil_sum(data@, w as int, y as int, x as int, y0 as int,
                        x0 as int, x1 as int, ny - y0, sigma_space, sigma_color),
                    wsum as int == bil_wsum(data@, w as int, y as int, x as int, y0 as int,
                        x0 as int, x1 as int, ny - y0, sigma_space, sigma_color),
                    all_eq(data@, c0) ==> sum as int == c0 * wsum,
                    ny > y ==> wsum >= WEIGHT_UNIT,
                decreases y1 + 1 - ny,
            {
                let mut nx: usize = x0;
                while nx <= x1
                    invariant
                        x0 <= nx <= x1 + 1,
                        y0 <= ny <= y1,
                        y0 <= y <= y1 < h,
                        x0 <= x <= x1 < w,
                        y1 - y0 <= 402,
                        x1 - x0 <= 402,
                        y1 - y <= radius,
                        y - y0 <= radius,
                        x1 - x <= radius,
                        x - x0 <= radius,
                        data@.len() == w * h,
                        w <= crate::grid::MAX_DIM,
                        h <= crate::grid::MAX_DIM,
                        all_le(data@, DEPTH_UNIT),
                        radius <= 201,
                        0 < sigma_space <= MAX_SPATIAL_SIGMA,
                        sigma_color <= MAX_COLOR_SIGMA,
                        center == data@[y * w + x],
                        center <= DEPTH_UNIT,
                        radius == bilateral_radius(sigma_space),
                        wsum as int <= ((ny - y0) * 403 + (nx - x0)) * WEIGHT_UNIT,
                        sum as int <= DEPTH_UNIT * wsum,
                        sum as int == bil_sum(data@, w as int, y as int, x as int, y0 as int,
                            x0 as int, x1 as int, ny - y0, sigma_space, sigma_color)
                            + bil_row_sum(data@, w as int, y as int, x as int, ny as int,
                                x0 as int, nx - x0, sigma_space, sigma_color),
                        wsum as int == bil_wsum(data@, w as int, y as int, x as int, y0 as int,
                            x0 as int, x1 as int, ny - y0, sigma_space, sigma_color)
                            + bil_row_wsum(data@, w as int, y as int, x as int, ny as int,
                                x0 as int, nx - x0, sigma_space, sigma_color),
                        all_eq(data@, c0) ==> sum as int == c0 * wsum,
                        (ny > y || (ny == y && nx > x)) ==> wsum >= WEIGHT_UNIT,
                    decreases x1 + 1 - nx,
                {
                    let dy: usize = if ny >= y { ny - y } else { y - ny };
                    let dx: usize = if nx >= x { nx - x } else { x - nx };
                    proof {
                        assert(dy * dy + dx * dx <= 201 * 201 + 201 * 201) by (nonlinear_arith)
                            requires dy <= 201, dx <= 201;
                        assert(w * h <= crate::grid::MAX_DIM * crate::grid::MAX_DIM) by (nonlinear_arith)
                            requires w <= crate::grid::MAX_DIM, h <= crate::grid::MAX_DIM;
                        crate::grid::lemma_rowmajor_index(w as int, h as int, ny as int, nx as int);
                    }
                    let sdist = (dy * dy + dx * dx) as u64;
                    let v = data[ny * w + nx];
                    let cdiff = if v >= center { v - center } else { center - v };
                    let xs = gauss_exponent(sdist, sigma_space);
                    let wt: u64 = if sigma_color == 0 {
                        if cdiff == 0 {
                            exp_neg_fixed(xs)
                        } else {
                            0
                        }
                    } else {
                        let xc = color_exponent(cdiff, sigma_color);
                        exp_neg_fixed(xs + xc)
                    };
                    proof {
                        assert(wt == bilateral_weight(data@, w as int, y as int, x as int,
                            ny as int, nx as int, sigma_space, sigma_color));
                        if ny == y && nx == x {
                            assert(v == center);
                            assert(cdiff == 0);
                            assert(dy == 0 && dx == 0);
                            assert(dy * dy + dx * dx == 0) by (nonlinear_arith)
                                requires dy == 0, dx == 0;
                            assert(sdist == 0);
                            assert(wt == WEIGHT_UNIT);
                        }
                        // weight and sum stay within their coarse bounds
                        assert(((ny - y0) * 403 + (nx - x0)) * WEIGHT_UNIT + WEIGHT_UNIT
                            == ((ny - y0) * 403 + (nx - x0) + 1) * WEIGHT_UNIT) by (nonlinear_arith);
                        assert(((ny - y0) * 403 + (nx - x0) + 1) <= 403 * 403) by (nonlinear_arith)
                            requires 0 <= ny - y0 <= 402, 0 <= nx - x0 <= 402;
                        assert(((ny - y0) * 403 + (nx - x0)) >= 0) by (nonlinear_arith)
                            requires ny >= y0, nx >= x0;
                        assert(((ny - y0) * 403 + (nx - x0) + 1) * WEIGHT_UNIT
                            <= (403 * 403) * WEIGHT_UNIT) by (nonlinear_arith)
                            requires ((ny - y0) * 403 + (nx - x0) + 1) <= 403 * 403,
                                ((ny - y0) * 403 + (nx - x0) + 1) >= 0;
                        assert(v as int * wt as int <= DEPTH_UNIT * wt) by (nonlinear_arith)
                            requires v <= DEPTH_UNIT, wt >= 0;
                        assert(DEPTH_UNIT * (wsum as int + wt) == DEPTH_UNIT * wsum + DEPTH_UNIT * wt)
                            by (nonlinear_arith);
                        assert(DEPTH_UNIT * (wsum as int + wt) <= DEPTH_UNIT as int * ((403 * 403) * WEIGHT_UNIT))
                            by (nonlinear_arith)
                            requires wsum as int + wt <= (403 * 403) * WEIGHT_UNIT;
                        if all_eq(data@, c0) {
                            assert(v == c0);
                            assert(c0 as int * (wsum as int + wt) == c0 as int * wsum + c0 as int * wt)
                                by (nonlinear_arith);
                        }
                    }
                    sum = sum + v as u64 * wt;
                    wsum = wsum + wt;
                    nx += 1;
                }
                proof {
                    assert(((ny - y0) * 403 + (x1 + 1 - x0)) * WEIGHT_UNIT
                        <= ((ny + 1 - y0) * 403) * WEIGHT_UNIT) by (nonlinear_arith)
                        requires 0 <= x1 + 1 - x0 <= 403, ny >= y0;
                    assert(sum as int == bil_sum(data@, w as int, y as int, x as int, y0 as int,
                        x0 as int, x1 as int, ny + 1 - y0, sigma_space, sigma_color));
                    assert(wsum as int == bil_wsum(data@, w as int, y as int, x as int, y0 as int,
                        x0 as int, x1 as int, ny + 1 - y0, sigma_space, sigma_color));
                }
                ny += 1;
            }
            let o = if wsum > 0 {
                proof {
                    lemma_div_bound(sum as int, DEPTH_UNIT as int, wsum as int);
                    if all_eq(data@, c0) {
                        assert(sum as int == c0 * wsum as int);
                        assert(c0 * wsum as int == wsum as int * c0) by (nonlinear_arith);
                        lemma_div_multiples_vanish(c0 as int, wsum as int);
                    }
                }
                (sum / wsum) as u32
            } else {
                center
            };
            proof {
                // the center neighbor was visited, so the total is positive
                assert(wsum >= WEIGHT_UNIT);
                if all_eq(data@, c0) {
                    assert(center == c0);
                }
                assert(o == bilateral_value(data@, w as int, h as int, y as int, x as int,
                    sigma_space, sigma_color));
            }
            out.push(o);
            proof {
                vstd::arithmetic::div_mod::lemma_fundamental_div_mod_converse(
                    (y * w + x) as int, w as int, y as int, x as int);
            }
            x += 1;
        }
        proof {
            assert(y * w + w == (y + 1) * w) by (nonlinear_arith);
        }
        y += 1;
    }
    proof {
        assert(out@.len() == h * w);
        assert(h * w == w * h) by (nonlinear_arith);
    }
    let r = NormalizedDepthGrid { width: w, height: h, data: out };
    proof {
        assert forall|c: u32| depth.is_uniform(c) implies r.is_uniform(c) by {
            if data@.len() > 0 {
                assert(data@[0] == c);
                assert(c == c0);
                assert(all_eq(out@, c0));
            } else {
                assert(out@.len() == 0);
            }
        }
    }
    r
}

} // verus!

verus! {

/// The fixed-point blend `(alpha*current + (1-alpha)*previous) / 1`, on
/// samples in `0 ..= DEPTH_UNIT` with `alpha` in the same scale.
pub open spec fn blend_value(c: u32, p: u32, alpha: u32) -> u32 {
    (((alpha * c) + (DEPTH_UNIT - alpha) * p) as int / DEPTH_UNIT as int) as u32
}

/// Temporal blend of a current frame against the previous one:
/// `alpha*current + (1-alpha)*previous` per sample. At `alpha = DEPTH_UNIT`
/// it returns the current frame exactly; at `alpha = 0`, the previous one.
pub fn temporal_blend(
    current: &NormalizedDepthGrid,
    previous: &NormalizedDepthGrid,
    alpha: u32,
) -> (r: NormalizedDepthGrid)
    requires
        current.wf(),
        previous.wf(),
        current.width == previous.width,
        current.height == previous.height,
        alpha <= DEPTH_UNIT,
    ensures
        r.wf(),
        r.width == current.width,
        r.height == current.height,
        forall|i: int| 0 <= i < r.data@.len()
            ==> r.data@[i] == blend_value(current.data@[i], previous.data@[i], alpha),
        alpha == DEPTH_UNIT ==> r.data@ == current.data@,
        alpha == 0 ==> r.data@ == previous.data@,
{
    let n = current.data.len();
    let mut out: Vec<u32> = Vec::new();
    let mut i: usize = 0;
    while i < n
        invariant
            i <= n,
            n == current.data@.len() == previous.data@.len(),
            all_le(current.data@, DEPTH_UNIT),
            all_le(previous.data@, DEPTH_UNIT),
            alpha <= DEPTH_UNIT,
            out@.len() == i,
            forall|j: int| 0 <= j < i
                ==> out@[j] == blend_value(current.data@[j], previous.data@[j], alpha),
            all_le(out@, DEPTH_UNIT),
        decreases n - i,
    {
        let c = current.data[i] as u64;
        let p = previous.data[i] as u64;
        let a = alpha as u64;
        proof {
            assert(a * c + (DEPTH_UNIT - a) * p <= DEPTH_UNIT as u64 * DEPTH_UNIT) by (nonlinear_arith)
                requires
                    a <= DEPTH_UNIT,
                    c <= DEPTH_UNIT,
                    p <= DEPTH_UNIT;
            lemma_div_bound(
                (a * c + (DEPTH_UNIT - a) * p) as int,
                DEPTH_UNIT as int,
                DEPTH_UNIT as int,
            );
        }
        let v = ((a * c + (DEPTH_UNIT as u64 - a) * p) / DEPTH_UNIT as u64) as u32;
        out.push(v);
        i += 1;
    }
    let r = NormalizedDepthGrid { width: current.width, height: current.height, data: out };
    proof {
        if alpha == DEPTH_UNIT {
            assert forall|j: int| 0 <= j < r.data@.len()
                implies r.data@[j] == current.data@[j] by {
                let c = current.data@[j] as int;
                assert((DEPTH_UNIT * c + 0 * previous.data@[j]) == DEPTH_UNIT * c) by (nonlinear_arith);
                assert(DEPTH_UNIT * c == c * DEPTH_UNIT) by (nonlinear_arith);
                lemma_div_multiples_vanish(c, DEPTH_UNIT as int);
            }
            assert(r.data@ =~= current.data@);
        }
        if alpha == 0 {
            assert forall|j: int| 0 <= j < r.data@.len()
                implies r.data@[j] == previous.data@[j] by {
                let p = previous.data@[j] as int;
                assert((0 * current.data@[j] + DEPTH_UNIT * p) == DEPTH_UNIT * p) by (nonlinear_arith);
                assert(DEPTH_UNIT * p == p * DEPTH_UNIT) by (nonlinear_arith);
                lemma_div_multiples_vanish(p, DEPTH_UNIT as int);
            }
            assert(r.data@ =~= previous.data@);
        }
    }
    r
}

/// The clamped affine rescale of a raw sample against a range: 0 at or
/// below the minimum, `DEPTH_UNIT` at or above the maximum, linear in
/// between; `DEPTH_HALF` everywhere when the range is degenerate.
pub open spec fn normalize_value(v: u32, mn: u32, mx: u32) -> u32 {
    if mx <= mn {
        DEPTH_HALF
    } else if v <= mn {
        0
    } else if v >= mx {
        DEPTH_UNIT
    } else {
        (((v - mn) * DEPTH_UNIT) / (mx - mn)) as u32
    }
}

/// Rescales every sample against the range `mn ..= mx`.
fn normalize_with_range(data: &Vec<u32>, mn: u32, mx: u32) -> (out: Vec<u32>)
    ensures
        out@.len() == data@.len(),
        forall|i: int| 0 <= i < out@.len()
            ==> out@[i] == normalize_value(data@[i], mn, mx),
        all_le(out@, DEPTH_UNIT),
{
    let n = data.len();
    let mut out: Vec<u32> = Vec::new();
    let mut i: usize = 0;
    while i < n
        invariant
            i <= n,
            n == data@.len(),
            out@.len() == i,
            forall|j: int| 0 <= j < i ==> out@[j] == normalize_value(data@[j], mn, mx),
            all_le(out@, DEPTH_UNIT),
        decreases n - i,
    {
        let v = data[i];
        let o: u32 = if mx <= mn {
            DEPTH_HALF
        } else if v <= mn {
            0
        } else if v >= mx {
            DEPTH_UNIT
        } else {
            let diff = v - mn;
            let rng = mx - mn;
            let num = diff as u64 * DEPTH_UNIT as u64;
            proof {
                assert(diff as int * DEPTH_UNIT as int <= DEPTH_UNIT as int * rng as int)
                    by (nonlinear_arith)
                    requires 0 <= diff as int <= rng as int;
                lemma_div_bound(num as int, DEPTH_UNIT as int, rng as int);
            }
            (num / rng as u64) as u32
        };
        out.push(o);
        i += 1;
    }
    out
}

/// One running-average step: the estimate moves one twentieth (0.05) of the
/// way toward the new observation, in integer arithmetic.
pub open spec fn ema_step(e: u32, x: u32) -> u32 {
    if x >= e {
        (e + (x - e) / 20) as u32
    } else {
        (e - (e - x) / 20) as u32
    }
}

/// Executes one running-average step.
fn ema_step_exec(e: u32, x: u32) -> (r: u32)
    ensures
        r == ema_step(e, x),
{
    if x >= e {
        proof {
            lemma_div_nonincreasing((x - e) as int, 20);
            lemma_div_pos_is_pos((x - e) as int, 20);
        }
        e + (x - e) / 20
    } else {
        proof {
            lemma_div_nonincreasing((e - x) as int, 20);
            lemma_div_pos_is_pos((e - x) as int, 20);
        }
        e - (e - x) / 20
    }
}

} // verus!

verus! {

/// Per-stream depth post-processing state: the previous blended frame, the
/// running-average extrema, the two-pass global extrema, the filter
/// configuration, and a frame counter.
pub struct DepthProcessor {
    /// The previous output frame, kept while temporal blending is active.
    pub prev_depth: Option<NormalizedDepthGrid>,
    /// Running-average minimum, seeded from the first frame.
    pub ema_min: u32,
    /// Running-average maximum, seeded from the first frame.
    pub ema_max: u32,
    /// Least raw sample seen by `update_global_range`, `u32::MAX` before any.
    pub global_min: u32,
    /// Greatest raw sample seen by `update_global_range`, 0 before any.
    pub global_max: u32,
    /// Temporal blend factor in `0 ..= DEPTH_UNIT`; 0 disables blending.
    pub temporal_alpha: u32,
    /// Bilateral spatial sigma in `SIGMA_UNIT`ths of a pixel; 0 disables.
    pub bilateral_sigma_space: u32,
    /// Bilateral color sigma in `SIGMA_UNIT`ths of the normalized range.
    pub bilateral_sigma_color: u32,
    /// Gaussian blur sigma in `SIGMA_UNIT`ths of a pixel; 0 disables.
    pub depth_blur_sigma: u32,
    pub normalize_mode: NormalizeMode,
    /// Frames processed so far.
    pub frame_index: u32,
}

/// Whether `process` will blend this frame against the stored previous one.
pub open spec fn blend_applies(s: &DepthProcessor, w: int, h: int) -> bool {
    &&& 0 < s.temporal_alpha < DEPTH_UNIT
    &&& s.prev_depth matches Some(p) && p.width == w && p.height == h
}

impl DepthProcessor {
    /// Configuration and state invariant.
    pub open spec fn wf(&self) -> bool {
        &&& self.temporal_alpha <= DEPTH_UNIT
        &&& self.bilateral_sigma_space <= MAX_SPATIAL_SIGMA
        &&& self.bilateral_sigma_color <= MAX_COLOR_SIGMA
        &&& self.depth_blur_sigma <= MAX_SPATIAL_SIGMA
        &&& (self.prev_depth matches Some(p) ==> p.wf())
    }

    /// Builds a processor, rejecting out-of-range parameters: a blend factor
    /// above one, or a sigma beyond the supported maximum.
    pub fn new(
        temporal_alpha: u32,
        bilateral_sigma_space: u32,
        bilateral_sigma_color: u32,
        depth_blur_sigma: u32,
        normalize_mode: NormalizeMode,
    ) -> (r: SpatialResult<Self>)
        ensures
            r is Ok <==> (temporal_alpha <= DEPTH_UNIT
                && bilateral_sigma_space <= MAX_SPATIAL_SIGMA
                && bilateral_sigma_color <= MAX_COLOR_SIGMA
                && depth_blur_sigma <= MAX_SPATIAL_SIGMA),
            r matches Ok(p) ==> {
                &&& p.wf()
                &&& p.prev_depth is None
                &&& p.ema_min == 0 && p.ema_max == 0
                &&& p.global_min == u32::MAX && p.global_max == 0
                &&& p.temporal_alpha == temporal_alpha
                &&& p.bilateral_sigma_space == bilateral_sigma_space
                &&& p.bilateral_sigma_color == bilateral_sigma_color
                &&& p.depth_blur_sigma == depth_blur_sigma
                &&& p.normalize_mode == normalize_mode
                &&& p.frame_index == 0
            },
            r matches Err(e) ==> e is ConfigError,
    {
        if temporal_alpha > DEPTH_UNIT {
            return Err(SpatialError::ConfigError("temporal blend factor must lie in [0, 1]".to_owned()));
        }
        if bilateral_sigma_space > MAX_SPATIAL_SIGMA || depth_blur_sigma > MAX_SPATIAL_SIGMA {
            return Err(SpatialError::ConfigError("spatial sigma too large".to_owned()));
        }
        if bilateral_sigma_color > MAX_COLOR_SIGMA {
            return Err(SpatialError::ConfigError("color sigma too large".to_owned()));
        }
        Ok(DepthProcessor {
            prev_depth: None,
            ema_min: 0,
            ema_max: 0,
            global_min: u32::MAX,
            global_max: 0,
            temporal_alpha,
            bilateral_sigma_space,
            bilateral_sigma_color,
            depth_blur_sigma,
            normalize_mode,
            frame_index: 0,
        })
    }

    /// Fixes the global normalization range directly (the alternative to a
    /// first accumulation pass).
    pub fn set_global_range(&mut self, min: u32, max: u32)
        ensures
            final(self).global_min == min,
            final(self).global_max == max,
            final(self).prev_depth == old(self).prev_depth,
            final(self).ema_min == old(self).ema_min,
            final(self).ema_max == old(self).ema_max,
            final(self).temporal_alpha == old(self).temporal_alpha,
            final(self).bilateral_sigma_space == old(self).bilateral_sigma_space,
            final(self).bilateral_sigma_color == old(self).bilateral_sigma_color,
            final(self).depth_blur_sigma == old(self).depth_blur_sigma,
            final(self).normalize_mode == old(self).normalize_mode,
            final(self).frame_index == old(self).frame_index,
    {
        self.global_min = min;
        self.global_max = max;
    }

    /// First-pass accumulation for `Global` mode: widens the stored global
    /// range by this frame's extrema. An empty grid changes nothing.
    pub fn update_global_range(&mut self, raw_depth: &DepthGrid)
        requires
            raw_depth.wf(),
        ensures
            raw_depth.data@.len() == 0 ==> *final(self) == *old(self),
            raw_depth.data@.len() > 0 ==> exists|mn: u32, mx: u32|
                is_min_max(raw_depth.data@, mn, mx)
                && final(self).global_min == (if mn < old(self).global_min { mn } else { old(self).global_min })
                && final(self).global_max == (if mx > old(self).global_max { mx } else { old(self).global_max }),
            final(self).prev_depth == old(self).prev_depth,
            final(self).ema_min == old(self).ema_min,
            final(self).ema_max == old(self).ema_max,
            final(self).temporal_alpha == old(self).temporal_alpha,
            final(self).bilateral_sigma_space == old(self).bilateral_sigma_space,
            final(self).bilateral_sigma_color == old(self).bilateral_sigma_color,
            final(self).depth_blur_sigma == old(self).depth_blur_sigma,
            final(self).normalize_mode == old(self).normalize_mode,
            final(self).frame_index == old(self).frame_index,
    {
        if raw_depth.data.len() == 0 {
            return;
        }
        let (mn, mx) = raw_depth.min_max();
        if mn < self.global_min {
            self.global_min = mn;
        }
        if mx > self.global_max {
            self.global_max = mx;
        }
        proof {
            assert(exists|a: u32, b: u32|
                is_min_max(raw_depth.data@, a, b)
                && self.global_min == (if a < old(self).global_min { a } else { old(self).global_min })
                && self.global_max == (if b > old(self).global_max { b } else { old(self).global_max }))
            by {
                assert(is_min_max(raw_depth.data@, mn, mx)
                    && self.global_min == (if mn < old(self).global_min { mn } else { old(self).global_min })
                    && self.global_max == (if mx > old(self).global_max { mx } else { old(self).global_max }));
            }
        }
    }

    /// Processes one raw depth grid: normalize by the configured mode, then
    /// the optional bilateral filter, then the optional Gaussian blur, then
    /// the optional temporal blend against the stored previous frame (a
    /// dimension mismatch skips the blend); the result is stored as the new
    /// previous frame while blending is active, and the frame counter
    /// advances.
    ///
    /// Every output sample lies in `0 ..= DEPTH_UNIT`. A constant grid in
    /// `PerFrame` mode — or in `RunningEMA` mode on the first frame — comes
    /// out as a uniform `DEPTH_HALF` grid when no previous frame is stored.
    pub fn process(&mut self, raw_depth: DepthGrid) -> (out: NormalizedDepthGrid)
        requires
            old(self).wf(),
            raw_depth.wf(),
            old(self).frame_index < u32::MAX,
        ensures
            final(self).wf(),
            out.wf(),
            out.width == raw_depth.width,
            out.height == raw_depth.height,
            final(self).frame_index == old(self).frame_index + 1,
            final(self).global_min == old(self).global_min,
            final(self).global_max == old(self).global_max,
            final(self).temporal_alpha == old(self).temporal_alpha,
            final(self).bilateral_sigma_space == old(self).bilateral_sigma_space,
            final(self).bilateral_sigma_color == old(self).bilateral_sigma_color,
            final(self).depth_blur_sigma == old(self).depth_blur_sigma,
            final(self).normalize_mode == old(self).normalize_mode,
            // the previous-frame store
            (0 < old(self).temporal_alpha < DEPTH_UNIT) ==> (final(self).prev_depth matches Some(p)
                && p.width == out.width && p.height == out.height && p.data@ == out.data@),
            !(0 < old(self).temporal_alpha < DEPTH_UNIT)
                ==> final(self).prev_depth == old(self).prev_depth,
            // the running-average state
            (old(self).normalize_mode != NormalizeMode::RunningEMA || raw_depth.data@.len() == 0)
                ==> final(self).ema_min == old(self).ema_min
                    && final(self).ema_max == old(self).ema_max,
            (old(self).normalize_mode == NormalizeMode::RunningEMA && raw_depth.data@.len() > 0)
                ==> exists|mn: u32, mx: u32| is_min_max(raw_depth.data@, mn, mx)
                    && final(self).ema_min == (if old(self).frame_index == 0 { mn } else {
                        ema_step(old(self).ema_min, mn)
                    })
                    && final(self).ema_max == (if old(self).frame_index == 0 { mx } else {
                        ema_step(old(self).ema_max, mx)
                    }),
            // exact output when no smoothing or blending applies
            (old(self).bilateral_sigma_space == 0 && old(self).depth_blur_sigma == 0
                && !blend_applies(&*old(self), raw_depth.width as int, raw_depth.height as int))
                ==> match old(self).normalize_mode {
                    NormalizeMode::PerFrame => raw_depth.data@.len() == 0
                        || exists|mn: u32, mx: u32| is_min_max(raw_depth.data@, mn, mx)
                            && forall|i: int| 0 <= i < out.data@.len()
                                ==> out.data@[i] == normalize_value(raw_depth.data@[i], mn, mx),
                    NormalizeMode::RunningEMA => forall|i: int| 0 <= i < out.data@.len()
                        ==> out.data@[i] == normalize_value(
                            raw_depth.data@[i], final(self).ema_min, final(self).ema_max),
                    NormalizeMode::Global => forall|i: int| 0 <= i < out.data@.len()
                        ==> out.data@[i] == normalize_value(
                            raw_depth.data@[i], old(self).global_min, old(self).global_max),
                },
            // exact output when only blending applies
            (old(self).bilateral_sigma_space == 0 && old(self).depth_blur_sigma == 0
                && blend_applies(&*old(self), raw_depth.width as int, raw_depth.height as int))
                ==> (old(self).prev_depth matches Some(prev) && match old(self).normalize_mode {
                    NormalizeMode::PerFrame => raw_depth.data@.len() == 0
                        || exists|mn: u32, mx: u32| is_min_max(raw_depth.data@, mn, mx)
                            && forall|i: int| 0 <= i < out.data@.len()
                                ==> out.data@[i] == blend_value(
                                    normalize_value(raw_depth.data@[i], mn, mx),
                                    prev.data@[i], old(self).temporal_alpha),
                    NormalizeMode::RunningEMA => forall|i: int| 0 <= i < out.data@.len()
                        ==> out.data@[i] == blend_value(
                            normalize_value(raw_depth.data@[i], final(self).ema_min,
                                final(self).ema_max),
                            prev.data@[i], old(self).temporal_alpha),
                    NormalizeMode::Global => forall|i: int| 0 <= i < out.data@.len()
                        ==> out.data@[i] == blend_value(
                            normalize_value(raw_depth.data@[i], old(self).global_min,
                                old(self).global_max),
                            prev.data@[i], old(self).temporal_alpha),
                }),
            // a degenerate (constant) grid normalizes to uniform one-half
            forall|c: u32| (old(self).normalize_mode == NormalizeMode::PerFrame
                    || (old(self).normalize_mode == NormalizeMode::RunningEMA
                        && old(self).frame_index == 0))
                && raw_depth.is_uniform(c)
                && raw_depth.data@.len() > 0
                && old(self).prev_depth is None
                ==> out.is_uniform(DEPTH_HALF),
    {
        let w = raw_depth.width;
        let h = raw_depth.height;
        let ghost uniform_c: u32 = if raw_depth.data@.len() > 0 { raw_depth.data@[0] } else { 0u32 };
        let ghost mut gmn: u32 = 0;
        let ghost mut gmx: u32 = 0;

        // normalize by the configured mode
        let normalized: Vec<u32> = match self.normalize_mode {
            NormalizeMode::PerFrame => {
                if raw_depth.data.len() == 0 {
                    Vec::new()
                } else {
                    let (mn, mx) = raw_depth.min_max();
                    proof {
                        gmn = mn;
                        gmx = mx;
                        assert(is_min_max(raw_depth.data@, mn, mx));
                        if raw_depth.is_uniform(uniform_c) {
                            assert(mn == mx);
                        }
                    }
                    normalize_with_range(&raw_depth.data, mn, mx)
                }
            },
            NormalizeMode::RunningEMA => {
                if raw_depth.data.len() == 0 {
                    Vec::new()
                } else {
                    let (mn, mx) = raw_depth.min_max();
                    if self.frame_index == 0 {
                        self.ema_min = mn;
                        self.ema_max = mx;
                    } else {
                        self.ema_min = ema_step_exec(self.ema_min, mn);
                        self.ema_max = ema_step_exec(self.ema_max, mx);
                    }
                    proof {
                        gmn = mn;
                        gmx = mx;
                        assert(is_min_max(raw_depth.data@, mn, mx));
                        if raw_depth.is_uniform(uniform_c) {
                            assert(mn == mx);
                        }
                    }
                    normalize_with_range(&raw_depth.data, self.ema_min, self.ema_max)
                }
            },
            NormalizeMode::Global => {
                normalize_with_range(&raw_depth.data, self.global_min, self.global_max)
            },
        };
        let mut d = NormalizedDepthGrid { width: w, height: h, data: normalized };
        proof {
            assert(d.wf());
        }
        let ghost d_norm = d;

        // optional spatial smoothing, on normalized values
        if self.bilateral_sigma_space > 0 {
            d = bilateral_filter(&d, self.bilateral_sigma_space, self.bilateral_sigma_color);
        }
        if self.depth_blur_sigma > 0 {
            d = gaussian_blur(&d, self.depth_blur_sigma);
        }
        let ghost d_smooth = d;

        // optional temporal blend, last, against the stored previous frame
        if self.temporal_alpha > 0 && self.temporal_alpha < DEPTH_UNIT {
            match &self.prev_depth {
                Some(prev) => {
                    if prev.width == d.width && prev.height == d.height {
                        d = temporal_blend(&d, prev, self.temporal_alpha);
                    }
                },
                None => {},
            }
            self.prev_depth = Some(d.duplicate());
        }

        self.frame_index = self.frame_index + 1;
        proof {
            if old(self).normalize_mode == NormalizeMode::RunningEMA && raw_depth.data@.len() > 0 {
                assert(exists|a: u32, b: u32| is_min_max(raw_depth.data@, a, b)
                    && self.ema_min == (if old(self).frame_index == 0 { a } else {
                        ema_step(old(self).ema_min, a)
                    })
                    && self.ema_max == (if old(self).frame_index == 0 { b } else {
                        ema_step(old(self).ema_max, b)
                    }))
                by {
                    assert(is_min_max(raw_depth.data@, gmn, gmx)
                        && self.ema_min == (if old(self).frame_index == 0 { gmn } else {
                            ema_step(old(self).ema_min, gmn)
                        })
                        && self.ema_max == (if old(self).frame_index == 0 { gmx } else {
                            ema_step(old(self).ema_max, gmx)
                        }));
                }
            }
            if old(self).bilateral_sigma_space == 0 && old(self).depth_blur_sigma == 0
                && blend_applies(&*old(self), raw_depth.width as int, raw_depth.height as int) {
                assert(d_smooth == d_norm);
                if old(self).normalize_mode == NormalizeMode::PerFrame
                    && raw_depth.data@.len() > 0 {
                    let prev = old(self).prev_depth->0;
                    assert(exists|a: u32, b: u32| is_min_max(raw_depth.data@, a, b)
                        && forall|i: int| 0 <= i < d.data@.len()
                            ==> d.data@[i] == blend_value(
                                normalize_value(raw_depth.data@[i], a, b),
                                prev.data@[i], old(self).temporal_alpha))
                    by {
                        assert(is_min_max(raw_depth.data@, gmn, gmx)
                            && forall|i: int| 0 <= i < d.data@.len()
                                ==> d.data@[i] == blend_value(
                                    normalize_value(raw_depth.data@[i], gmn, gmx),
                                    prev.data@[i], old(self).temporal_alpha));
                    }
                }
            }
            if old(self).bilateral_sigma_space == 0 && old(self).depth_blur_sigma == 0
                && !blend_applies(&*old(self), raw_depth.width as int, raw_depth.height as int) {
                assert(d == d_norm);
                if old(self).normalize_mode == NormalizeMode::PerFrame
                    && raw_depth.data@.len() > 0 {
                    assert(exists|a: u32, b: u32| is_min_max(raw_depth.data@, a, b)
                        && forall|i: int| 0 <= i < d.data@.len()
                            ==> d.data@[i] == normalize_value(raw_depth.data@[i], a, b))
                    by {
                        assert(is_min_max(raw_depth.data@, gmn, gmx)
                            && forall|i: int| 0 <= i < d.data@.len()
                                ==> d.data@[i] == normalize_value(raw_depth.data@[i], gmn, gmx));
                    }
                }
            }
            // a constant grid normalizes to uniform one-half
            assert forall|c: u32| (old(self).normalize_mode == NormalizeMode::PerFrame
                    || (old(self).normalize_mode == NormalizeMode::RunningEMA
                        && old(self).frame_index == 0))
                && raw_depth.is_uniform(c)
                && raw_depth.data@.len() > 0
                && old(self).prev_depth is None
                implies d.is_uniform(DEPTH_HALF) by {
                assert(raw_depth.data@[0] == c);
                assert(c == uniform_c);
                assert(gmn == gmx);
                assert(all_eq(d_norm.data@, DEPTH_HALF)) by {
                    assert(forall|i: int| 0 <= i < d_norm.data@.len()
                        ==> d_norm.data@[i] == normalize_value(raw_depth.data@[i], gmn, gmx));
                }
                assert(d_norm.is_uniform(DEPTH_HALF));
                assert(d_smooth.is_uniform(DEPTH_HALF));
                assert(d == d_smooth);
            }
        }
        d
    }
}

} // verus!
