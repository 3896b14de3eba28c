//! The flat RGBA grid model: well-formedness of a buffer, row-major pixel
//! addressing, clamp-to-edge sampling, and the shared luma formula.

use vstd::prelude::*;

verus! {

use vstd::arithmetic::div_mod::{
    lemma_fundamental_div_mod_converse,
    lemma_multiply_divide_lt,
    lemma_div_pos_is_pos,
};

/// A buffer is well formed for dimensions `w` x `h` when it holds exactly
/// four bytes (R, G, B, A) for each of the `w * h` pixels.
pub open spec fn buf_wf(s: Seq<u8>, w: int, h: int) -> bool {
    w >= 1 && h >= 1 && s.len() == w * h * 4
}

/// Clamp `v` into the inclusive range `[lo, hi]`.
pub open spec fn clampi(v: int, lo: int, hi: int) -> int {
    if v < lo {
        lo
    } else if v > hi {
        hi
    } else {
        v
    }
}

/// Clamp an intermediate channel value into the storable range `[0, 255]`.
pub open spec fn clamp255(v: int) -> int {
    clampi(v, 0, 255)
}

/// Flat index of the first byte of the pixel at column `x`, row `y`.
pub open spec fn pix(w: int, x: int, y: int) -> int {
    (y * w + x) * 4
}

/// Clamp-to-edge sampling: channel `c` of the pixel nearest to `(x, y)`
/// after clamping each axis independently into the valid range.
pub open spec fn sample(s: Seq<u8>, w: int, h: int, x: int, y: int, c: int) -> u8 {
    s[pix(w, clampi(x, 0, w - 1), clampi(y, 0, h - 1)) + c]
}

/// Integer luma of an RGB triple: the real formula
/// `0.299 R + 0.587 G + 0.114 B` scaled by 1000 and truncated.
pub open spec fn luma_val(r: u8, g: u8, b: u8) -> int {
    (299 * r + 587 * g + 114 * b) / 1000
}

/// Luma of the clamp-sampled pixel at `(x, y)`.
pub open spec fn lum_at(s: Seq<u8>, w: int, h: int, x: int, y: int) -> int {
    luma_val(
        sample(s, w, h, x, y, 0),
        sample(s, w, h, x, y, 1),
        sample(s, w, h, x, y, 2),
    )
}

/// The four bytes of an in-range pixel lie within the buffer.
pub proof fn lemma_pix_in_bounds(w: int, h: int, x: int, y: int)
    requires
        0 <= x < w,
        0 <= y < h,
    ensures
        0 <= y * w,
        0 <= y * w + x < w * h,
        0 <= pix(w, x, y),
        pix(w, x, y) + 4 <= w * h * 4,
{
    assert(0 <= y * w && 0 <= y * w + x < w * h && 0 <= (y * w + x) * 4 && (y * w + x) * 4 + 4
        <= w * h * 4) by (nonlinear_arith)
        requires
            0 <= x < w,
            0 <= y < h,
    ;
}

/// Recover row, column and channel from the flat index `(y * w + x) * 4 + c`.
pub proof fn lemma_flat_decomp(w: int, x: int, y: int, c: int)
    requires
        w >= 1,
        0 <= x < w,
        0 <= y,
        0 <= c < 4,
    ensures
        ((y * w + x) * 4 + c) / 4 == y * w + x,
        ((y * w + x) * 4 + c) % 4 == c,
        (y * w + x) / w == y,
        (y * w + x) % w == x,
{
    assert(y * w + x >= 0) by (nonlinear_arith)
        requires
            0 <= x,
            0 <= y,
            w >= 1,
    ;
    let p = y * w + x;
    lemma_fundamental_div_mod_converse(4 * p + c, 4, p, c);
    assert((y * w + x) * 4 + c == 4 * p + c);
    lemma_fundamental_div_mod_converse(w * y + x, w, y, x);
    assert(y * w + x == w * y + x);
}

/// Dimensions of a well-formed buffer fit comfortably in the address space.
pub proof fn lemma_dims_bounded(s: Seq<u8>, w: int, h: int)
    requires
        buf_wf(s, w, h),
    ensures
        w * 4 <= s.len(),
        h * 4 <= s.len(),
        w * h <= s.len(),
{
    assert(w * 4 <= w * h * 4 && h * 4 <= w * h * 4 && w * h <= w * h * 4) by (nonlinear_arith)
        requires
            w >= 1,
            h >= 1,
    ;
}

/// Recover pixel and channel from the flat index `4 * p + c`.
pub proof fn lemma_flat4(p: int, c: int)
    requires
        0 <= p,
        0 <= c < 4,
    ensures
        (4 * p + c) / 4 == p,
        (4 * p + c) % 4 == c,
{
    lemma_fundamental_div_mod_converse(4 * p + c, 4, p, c);
}

/// One more full row of `b` items advances a row-major index by `b`.
pub proof fn lemma_mul_succ(a: int, b: int)
    ensures
        (a + 1) * b == a * b + b,
{
    assert((a + 1) * b == a * b + b) by (nonlinear_arith);
}

/// Division of a nonnegative value bounded by `b * c` yields a quotient
/// below `c`.
pub proof fn lemma_div_bound(a: int, b: int, c: int)
    requires
        b >= 1,
        0 <= a,
        a < b * c,
    ensures
        0 <= a / b < c,
{
    lemma_div_pos_is_pos(a, b);
    lemma_multiply_divide_lt(a, b, c);
}

/// Clamp-to-edge pixel read: returns the four channels of the pixel at the
/// coordinate nearest to `(x, y)` inside the grid.
pub fn get_pixel(src: &Vec<u8>, w: usize, h: usize, x: i64, y: i64) -> (p: (u8, u8, u8, u8))
    requires
        buf_wf(src@, w as int, h as int),
    ensures
        p.0 == sample(src@, w as int, h as int, x as int, y as int, 0),
        p.1 == sample(src@, w as int, h as int, x as int, y as int, 1),
        p.2 == sample(src@, w as int, h as int, x as int, y as int, 2),
        p.3 == sample(src@, w as int, h as int, x as int, y as int, 3),
{
    let n: usize = src.len();
    proof {
        lemma_dims_bounded(src@, w as int, h as int);
        assert(4 * (w as int) <= n as int && 4 * (h as int) <= n as int);
        assert(w as int <= i64::MAX as int && h as int <= i64::MAX as int);
    }
    let wi = w as i64;
    let hi = h as i64;
    let xx: usize = if x < 0 {
        0
    } else if x >= wi {
        w - 1
    } else {
        x as usize
    };
    let yy: usize = if y < 0 {
        0
    } else if y >= hi {
        h - 1
    } else {
        y as usize
    };
    proof {
        lemma_pix_in_bounds(w as int, h as int, xx as int, yy as int);
        assert((w as int) * (h as int) <= (w as int) * (h as int) * 4);
        assert((yy as int) * (w as int) + (xx as int) < (w as int) * (h as int));
        assert(((yy as int) * (w as int) + (xx as int)) * 4 + 4 <= src@.len());
    }
    let idx = (yy * w + xx) * 4;
    (src[idx], src[idx + 1], src[idx + 2], src[idx + 3])
}

/// Integer luma of an RGB triple, truncated as the real formula is.
pub fn luma_byte(r: u8, g: u8, b: u8) -> (l: u8)
    ensures
        l as int == luma_val(r, g, b),
{
    let v: u32 = (299 * (r as u32) + 587 * (g as u32) + 114 * (b as u32)) / 1000;
    assert(v <= 255) by {
        assert(299 * (r as int) + 587 * (g as int) + 114 * (b as int) <= 255000);
        lemma_div_bound(299 * (r as int) + 587 * (g as int) + 114 * (b as int), 1000, 256);
    };
    v as u8
}

} // verus!
