//! Generic 3x3 convolution over a clamp-sampled neighborhood, and the two
//! blur kernels derived from it.

use vstd::prelude::*;

verus! {

use crate::grid::{
    buf_wf, clamp255, sample, lemma_pix_in_bounds, lemma_flat_decomp, lemma_dims_bounded,
    lemma_div_bound,
};

/// A 3x3 kernel of nonnegative integer weights `k0..k8` (row-major, top-left
/// to bottom-right) together with a normalization divisor `d`: the convolved
/// channel is the weighted neighborhood sum divided by `d` and clamped.
pub struct Kernel3 {
    pub k0: u32,
    pub k1: u32,
    pub k2: u32,
    pub k3: u32,
    pub k4: u32,
    pub k5: u32,
    pub k6: u32,
    pub k7: u32,
    pub k8: u32,
    pub d: u32,
}

/// Weights small enough that a weighted neighborhood sum stays far from
/// overflow, and a positive divisor.
pub open spec fn kernel_wf(k: Kernel3) -> bool {
    k.d >= 1 && k.k0 <= 16 && k.k1 <= 16 && k.k2 <= 16 && k.k3 <= 16 && k.k4 <= 16 && k.k5 <= 16
        && k.k6 <= 16 && k.k7 <= 16 && k.k8 <= 16
}

/// The box kernel: all nine weights 1, divisor 9.
pub open spec fn box_kernel_spec() -> Kernel3 {
    Kernel3 { k0: 1, k1: 1, k2: 1, k3: 1, k4: 1, k5: 1, k6: 1, k7: 1, k8: 1, d: 9 }
}

/// The discrete Gaussian approximation: weights 1,2,1,2,4,2,1,2,1, divisor 16.
pub open spec fn gauss_kernel_spec() -> Kernel3 {
    Kernel3 { k0: 1, k1: 2, k2: 1, k3: 2, k4: 4, k5: 2, k6: 1, k7: 2, k8: 1, d: 16 }
}

/// Weighted sum of channel `c` over the clamp-sampled 3x3 neighborhood of
/// `(x, y)`.
pub open spec fn conv_sum(s: Seq<u8>, w: int, h: int, x: int, y: int, c: int, k: Kernel3) -> int {
    k.k0 * sample(s, w, h, x - 1, y - 1, c) + k.k1 * sample(s, w, h, x, y - 1, c) + k.k2 * sample(
        s, w, h, x + 1, y - 1, c,
    ) + k.k3 * sample(s, w, h, x - 1, y, c) + k.k4 * sample(s, w, h, x, y, c) + k.k5 * sample(
        s, w, h, x + 1, y, c,
    ) + k.k6 * sample(s, w, h, x - 1, y + 1, c) + k.k7 * sample(s, w, h, x, y + 1, c) + k.k8
        * sample(s, w, h, x + 1, y + 1, c)
}

/// Output byte of the convolution at flat index `i`.
pub open spec fn conv_at(s: Seq<u8>, w: int, h: int, k: Kernel3, i: int) -> u8 {
    let p = i / 4;
    let c = i % 4;
    let x = p % w;
    let y = p / w;
    clamp255(conv_sum(s, w, h, x, y, c, k) / (k.d as int)) as u8
}

/// The convolved image: every channel, alpha included, is the
/// normalization-scaled weighted neighborhood sum, clamped to `[0, 255]`.
pub open spec fn conv_spec(s: Seq<u8>, w: int, h: int, k: Kernel3) -> Seq<u8> {
    Seq::new((w * h * 4) as nat, |i: int| conv_at(s, w, h, k, i))
}

/// One kernel weight times one sampled channel value.
fn wmul(k: u32, v: u8) -> (r: u32)
    requires
        k <= 16,
    ensures
        r as int == k * v,
        r <= 4080,
{
    proof {
        assert((k as int) * (v as int) <= 4080) by (nonlinear_arith)
            requires
                k as int <= 16,
                0 <= v as int <= 255,
        ;
    }
    k * (v as u32)
}

/// Divide a nonnegative sum by `d` and clamp the quotient to `[0, 255]`.
pub(crate) fn clamp_div(sum: u32, d: u32) -> (v: u8)
    requires
        d >= 1,
    ensures
        v as int == clamp255(sum as int / d as int),
{
    let q = sum / d;
    if q > 255 {
        255
    } else {
        q as u8
    }
}

/// Generic 3x3 convolution: each output channel is the kernel-weighted sum
/// of the corresponding input channel over the clamp-sampled neighborhood,
/// divided by the kernel's divisor and clamped to `[0, 255]`.
#[verifier::loop_isolation(false)]
#[verifier::rlimit(60)]
pub fn convolve_3x3(src: &Vec<u8>, w: usize, h: usize, ker: &Kernel3) -> (dst: Vec<u8>)
    requires
        buf_wf(src@, w as int, h as int),
        kernel_wf(*ker),
    ensures
        dst@ == conv_spec(src@, w as int, h as int, *ker),
{
    let n: usize = src.len();
    proof {
        lemma_dims_bounded(src@, w as int, h as int);
    }
    let mut dst: Vec<u8> = Vec::new();
    let mut y: usize = 0;
    while y < h
        invariant
            buf_wf(src@, w as int, h as int),
            kernel_wf(*ker),
            n == src@.len(),
            y <= h,
            dst@.len() == y * w * 4,
            forall|j: int|
                0 <= j < dst@.len() ==> dst@[j] == conv_at(src@, w as int, h as int, *ker, j),
        decreases h - y,
    {
        let mut x: usize = 0;
        while x < w
            invariant
                buf_wf(src@, w as int, h as int),
                kernel_wf(*ker),
                n == src@.len(),
                x <= w,
                y < h,
                dst@.len() == (y * w + x) * 4,
                forall|j: int|
                    0 <= j < dst@.len() ==> dst@[j] == conv_at(src@, w as int, h as int, *ker, j),
            decreases w - x,
        {
            proof {
                lemma_pix_in_bounds(w as int, h as int, x as int, y as int);
                lemma_dims_bounded(src@, w as int, h as int);
                assert((w as int) * (h as int) <= src@.len());
                assert(x as int <= i64::MAX as int && y as int <= i64::MAX as int);
            }
            let xi = x as i64;
            let yi = y as i64;
            let p00 = crate::grid::get_pixel(src, w, h, xi - 1, yi - 1);
            let p01 = crate::grid::get_pixel(src, w, h, xi, yi - 1);
            let p02 = crate::grid::get_pixel(src, w, h, xi + 1, yi - 1);
            let p10 = crate::grid::get_pixel(src, w, h, xi - 1, yi);
            let p11 = crate::grid::get_pixel(src, w, h, xi, yi);
            let p12 = crate::grid::get_pixel(src, w, h, xi + 1, yi);
            let p20 = crate::grid::get_pixel(src, w, h, xi - 1, yi + 1);
            let p21 = crate::grid::get_pixel(src, w, h, xi, yi + 1);
            let p22 = crate::grid::get_pixel(src, w, h, xi + 1, yi + 1);
            let sr: u32 = wmul(ker.k0, p00.0) + wmul(ker.k1, p01.0) + wmul(ker.k2, p02.0)
                + wmul(ker.k3, p10.0) + wmul(ker.k4, p11.0) + wmul(ker.k5, p12.0) + wmul(
                ker.k6,
                p20.0,
            ) + wmul(ker.k7, p21.0) + wmul(ker.k8, p22.0);
            let sg: u32 = wmul(ker.k0, p00.1) + wmul(ker.k1, p01.1) + wmul(ker.k2, p02.1)
                + wmul(ker.k3, p10.1) + wmul(ker.k4, p11.1) + wmul(ker.k5, p12.1) + wmul(
                ker.k6,
                p20.1,
            ) + wmul(ker.k7, p21.1) + wmul(ker.k8, p22.1);
            let sb: u32 = wmul(ker.k0, p00.2) + wmul(ker.k1, p01.2) + wmul(ker.k2, p02.2)
                + wmul(ker.k3, p10.2) + wmul(ker.k4, p11.2) + wmul(ker.k5, p12.2) + wmul(
                ker.k6,
                p20.2,
            ) + wmul(ker.k7, p21.2) + wmul(ker.k8, p22.2);
            let sa: u32 = wmul(ker.k0, p00.3) + wmul(ker.k1, p01.3) + wmul(ker.k2, p02.3)
                + wmul(ker.k3, p10.3) + wmul(ker.k4, p11.3) + wmul(ker.k5, p12.3) + wmul(
                ker.k6,
                p20.3,
            ) + wmul(ker.k7, p21.3) + wmul(ker.k8, p22.3);
            dst.push(clamp_div(sr, ker.d));
            dst.push(clamp_div(sg, ker.d));
            dst.push(clamp_div(sb, ker.d));
            dst.push(clamp_div(sa, ker.d));
            proof {
                lemma_flat_decomp(w as int, x as int, y as int, 0);
                lemma_flat_decomp(w as int, x as int, y as int, 1);
                lemma_flat_decomp(w as int, x as int, y as int, 2);
                lemma_flat_decomp(w as int, x as int, y as int, 3);
                assert(sr as int == conv_sum(src@, w as int, h as int, x as int, y as int, 0, *ker));
                assert(sg as int == conv_sum(src@, w as int, h as int, x as int, y as int, 1, *ker));
                assert(sb as int == conv_sum(src@, w as int, h as int, x as int, y as int, 2, *ker));
                assert(sa as int == conv_sum(src@, w as int, h as int, x as int, y as int, 3, *ker));
            }
            x += 1;
        }
        proof {
            crate::grid::lemma_mul_succ(y as int, w as int);
        }
        y += 1;
    }
    proof {
        vstd::arithmetic::mul::lemma_mul_is_commutative(h as int, w as int);
        assert(dst@.len() == (w as int) * (h as int) * 4);
        assert(dst@ =~= conv_spec(src@, w as int, h as int, *ker));
    }
    dst
}

/// The R, G, B or A of an RGBA quadruple, selected by channel index.
pub open spec fn channel_value(c: int, r: u8, g: u8, b: u8, a: u8) -> u8 {
    if c == 0 {
        r
    } else if c == 1 {
        g
    } else if c == 2 {
        b
    } else {
        a
    }
}

/// Every pixel of `s` carries the same color `(r, g, b, a)`.
pub open spec fn uniform_image(s: Seq<u8>, r: u8, g: u8, b: u8, a: u8) -> bool {
    forall|i: int| 0 <= i < s.len() ==> #[trigger] s[i] == channel_value(i % 4, r, g, b, a)
}

/// On a uniform image every clamped sample of channel `c` is the first
/// pixel's channel `c`.
proof fn lemma_sample_uniform(
    s: Seq<u8>, w: int, h: int, sx: int, sy: int, c: int, r: u8, g: u8, b: u8, a: u8,
)
    requires
        buf_wf(s, w, h),
        uniform_image(s, r, g, b, a),
        0 <= c < 4,
    ensures
        sample(s, w, h, sx, sy, c) == channel_value(c, r, g, b, a),
{
    let cx = crate::grid::clampi(sx, 0, w - 1);
    let cy = crate::grid::clampi(sy, 0, h - 1);
    lemma_pix_in_bounds(w, h, cx, cy);
    let q = cy * w + cx;
    crate::grid::lemma_flat4(q, c);
    assert(sample(s, w, h, sx, sy, c) == s[4 * q + c]);
    assert(s[4 * q + c] == channel_value((4 * q + c) % 4, r, g, b, a));
}

/// Convolving a uniform image with the box kernel returns it unchanged:
/// with every neighborhood constant, each weighted sum is nine times the
/// channel value, and the division by nine undoes it exactly, so even the
/// clamped edges introduce no artifact.
#[verifier::rlimit(100)]
pub proof fn lemma_box_blur_uniform(s: Seq<u8>, w: int, h: int, r: u8, g: u8, b: u8, a: u8)
    requires
        buf_wf(s, w, h),
        uniform_image(s, r, g, b, a),
    ensures
        conv_spec(s, w, h, box_kernel_spec()) == s,
{
    let k = box_kernel_spec();
    assert forall|i: int| 0 <= i < s.len() implies conv_spec(s, w, h, k)[i] == s[i] by {
        let p = i / 4;
        let c = i % 4;
        lemma_div_bound(i, 4, w * h);
        let x = p % w;
        let y = p / w;
        lemma_div_bound(p, w, h);
        vstd::arithmetic::div_mod::lemma_fundamental_div_mod(i, 4);
        vstd::arithmetic::div_mod::lemma_fundamental_div_mod(p, w);
        assert(0 <= x < w && 0 <= y < h);
        lemma_sample_uniform(s, w, h, x - 1, y - 1, c, r, g, b, a);
        lemma_sample_uniform(s, w, h, x, y - 1, c, r, g, b, a);
        lemma_sample_uniform(s, w, h, x + 1, y - 1, c, r, g, b, a);
        lemma_sample_uniform(s, w, h, x - 1, y, c, r, g, b, a);
        lemma_sample_uniform(s, w, h, x, y, c, r, g, b, a);
        lemma_sample_uniform(s, w, h, x + 1, y, c, r, g, b, a);
        lemma_sample_uniform(s, w, h, x - 1, y + 1, c, r, g, b, a);
        lemma_sample_uniform(s, w, h, x, y + 1, c, r, g, b, a);
        lemma_sample_uniform(s, w, h, x + 1, y + 1, c, r, g, b, a);
        let v = channel_value(c, r, g, b, a);
        assert(conv_sum(s, w, h, x, y, c, k) == 9 * v);
        vstd::arithmetic::div_mod::lemma_div_multiples_vanish(v as int, 9);
        assert(s[i] == channel_value(i % 4, r, g, b, a));
        assert(conv_spec(s, w, h, k)[i] == s[i]);
    }
    assert(conv_spec(s, w, h, k) =~= s);
}

/// Box blur: uniform weights, divisor 9.
pub fn box_blur(src: &Vec<u8>, w: usize, h: usize) -> (dst: Vec<u8>)
    requires
        buf_wf(src@, w as int, h as int),
    ensures
        dst@ == conv_spec(src@, w as int, h as int, box_kernel_spec()),
{
    let ker = Kernel3 { k0: 1, k1: 1, k2: 1, k3: 1, k4: 1, k5: 1, k6: 1, k7: 1, k8: 1, d: 9 };
    convolve_3x3(src, w, h, &ker)
}

/// Gaussian blur: the 1-2-1 / 2-4-2 / 1-2-1 kernel, divisor 16.
pub fn gaussian_blur(src: &Vec<u8>, w: usize, h: usize) -> (dst: Vec<u8>)
    requires
        buf_wf(src@, w as int, h as int),
    ensures
        dst@ == conv_spec(src@, w as int, h as int, gauss_kernel_spec()),
{
    let ker = Kernel3 { k0: 1, k1: 2, k2: 1, k3: 2, k4: 4, k5: 2, k6: 1, k7: 2, k8: 1, d: 16 };
    convolve_3x3(src, w, h, &ker)
}

} // verus!
