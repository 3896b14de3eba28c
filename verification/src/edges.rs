//! Edge passes: Sobel gradient magnitude and the saturating nonlinear
//! remap applied to it.

use vstd::prelude::*;

verus! {

use crate::grid::{
    buf_wf, clamp255, lum_at, lemma_pix_in_bounds, lemma_flat_decomp, lemma_dims_bounded,
    lemma_flat4, lemma_mul_succ,
};

/// Floor of the square root, defined by counting up.
pub open spec fn isqrt_spec(n: int) -> int
    decreases n,
{
    if n <= 0 {
        0
    } else {
        let r = isqrt_spec(n - 1);
        if (r + 1) * (r + 1) <= n {
            r + 1
        } else {
            r
        }
    }
}

/// `isqrt_spec(n)` is the unique integer whose square brackets `n`.
pub proof fn lemma_isqrt_bounds(n: int)
    requires
        n >= 0,
    ensures
        isqrt_spec(n) >= 0,
        isqrt_spec(n) * isqrt_spec(n) <= n,
        n < (isqrt_spec(n) + 1) * (isqrt_spec(n) + 1),
    decreases n,
{
    if n == 0 {
    } else {
        lemma_isqrt_bounds(n - 1);
        let r = isqrt_spec(n - 1);
        if (r + 1) * (r + 1) <= n {
            assert(n - 1 < (r + 1) * (r + 1));
            assert(n < (r + 2) * (r + 2)) by (nonlinear_arith)
                requires
                    r >= 0,
                    n <= (r + 1) * (r + 1),
            ;
        } else {
        }
    }
}

/// Any integer whose square brackets `n` is `isqrt_spec(n)`.
pub proof fn lemma_isqrt_unique(n: int, r: int)
    requires
        n >= 0,
        r >= 0,
        r * r <= n,
        n < (r + 1) * (r + 1),
    ensures
        r == isqrt_spec(n),
{
    lemma_isqrt_bounds(n);
    let q = isqrt_spec(n);
    assert(r == q) by (nonlinear_arith)
        requires
            r >= 0,
            q >= 0,
            r * r <= n,
            n < (r + 1) * (r + 1),
            q * q <= n,
            n < (q + 1) * (q + 1),
    ;
}

/// Floor of the square root, by the obvious ascending search.
pub fn isqrt(n: u64) -> (r: u64)
    requires
        n <= 0xFFFF_FFFF,
    ensures
        r as int == isqrt_spec(n as int),
        r * r <= n,
{
    let mut r: u64 = 0;
    loop
        invariant
            n <= 0xFFFF_FFFF,
            r <= 0xFFFF,
            (r as int) * (r as int) <= n as int,
        ensures
            (r as int) * (r as int) <= n as int,
            (n as int) < (r as int + 1) * (r as int + 1),
        decreases n as int - (r as int) * (r as int) + 1,
    {
        proof {
            assert((r as int + 1) * (r as int + 1) <= 0xFFFF_FFFF_FFFF) by (nonlinear_arith)
                requires
                    0 <= r as int <= 0xFFFF,
            ;
        }
        let q = (r + 1) * (r + 1);
        if q <= n {
            proof {
                assert((r as int + 1) <= 0xFFFF) by (nonlinear_arith)
                    requires
                        0 <= r as int,
                        (r as int + 1) * (r as int + 1) <= 0xFFFF_FFFF,
                ;
                assert((r as int) * (r as int) < (r as int + 1) * (r as int + 1))
                    by (nonlinear_arith)
                    requires
                        0 <= r as int,
                ;
            }
            r = r + 1;
        } else {
            break;
        }
    }
    proof {
        lemma_isqrt_unique(n as int, r as int);
    }
    r
}

/// Horizontal Sobel gradient of the luma at `(x, y)`: the standard
/// -1 0 1 / -2 0 2 / -1 0 1 kernel over the clamp-sampled neighborhood.
pub open spec fn sobel_gx(s: Seq<u8>, w: int, h: int, x: int, y: int) -> int {
    -lum_at(s, w, h, x - 1, y - 1) + lum_at(s, w, h, x + 1, y - 1) - 2 * lum_at(s, w, h, x - 1, y)
        + 2 * lum_at(s, w, h, x + 1, y) - lum_at(s, w, h, x - 1, y + 1) + lum_at(
        s, w, h, x + 1, y + 1,
    )
}

/// Vertical Sobel gradient of the luma at `(x, y)`: the standard
/// -1 -2 -1 / 0 0 0 / 1 2 1 kernel over the clamp-sampled neighborhood.
pub open spec fn sobel_gy(s: Seq<u8>, w: int, h: int, x: int, y: int) -> int {
    -lum_at(s, w, h, x - 1, y - 1) - 2 * lum_at(s, w, h, x, y - 1) - lum_at(s, w, h, x + 1, y - 1)
        + lum_at(s, w, h, x - 1, y + 1) + 2 * lum_at(s, w, h, x, y + 1) + lum_at(
        s, w, h, x + 1, y + 1,
    )
}

/// Output byte of the Sobel pass at flat index `i`: all three color
/// channels carry `min(isqrt(gx^2 + gy^2), 255)`; alpha is forced to 255.
pub open spec fn sobel_at(s: Seq<u8>, w: int, h: int, i: int) -> u8 {
    let p = i / 4;
    let c = i % 4;
    let x = p % w;
    let y = p / w;
    if c == 3 {
        255
    } else {
        let gx = sobel_gx(s, w, h, x, y);
        let gy = sobel_gy(s, w, h, x, y);
        clamp255(isqrt_spec(gx * gx + gy * gy)) as u8
    }
}

/// The edge-magnitude image.
pub open spec fn sobel_spec(s: Seq<u8>, w: int, h: int) -> Seq<u8> {
    Seq::new((w * h * 4) as nat, |i: int| sobel_at(s, w, h, i))
}

/// The saturating per-pixel edge remap: the recurrence
/// `acc <- sqrt(0.85 acc + |sin(12 acc)|)`, started at `v / 255`, clamped
/// to 1 and run eight times, fixes 0 and drives every nonzero start to the
/// clamp, so the stored byte is 0 for 0 and 255 otherwise.
pub open spec fn edge_sat(v: u8) -> u8 {
    if v == 0 {
        0
    } else {
        255
    }
}

/// Output byte of the nonlinear edge remap at flat index `i`: the three
/// color channels take the saturated value of the pixel's red channel;
/// alpha is untouched.
pub open spec fn nonlinear_at(s: Seq<u8>, i: int) -> u8 {
    if i % 4 == 3 {
        s[i]
    } else {
        edge_sat(s[4 * (i / 4)])
    }
}

/// The nonlinearly remapped edge image.
pub open spec fn nonlinear_spec(s: Seq<u8>) -> Seq<u8> {
    Seq::new(s.len(), |i: int| nonlinear_at(s, i))
}

/// Sobel edge magnitude: every pixel's color channels become
/// `min(isqrt(gx^2 + gy^2), 255)` of the luma gradients over the clamped
/// neighborhood, and alpha becomes 255.
#[verifier::loop_isolation(false)]
#[verifier::rlimit(100)]
pub fn sobel_edges(src: &Vec<u8>, w: usize, h: usize) -> (dst: Vec<u8>)
    requires
        buf_wf(src@, w as int, h as int),
    ensures
        dst@ == sobel_spec(src@, w as int, h as int),
{
    let n: usize = src.len();
    proof {
        assert(n as int == src@.len());
        lemma_dims_bounded(src@, w as int, h as int);
    }
    let mut dst: Vec<u8> = Vec::new();
    let mut y: usize = 0;
    while y < h
        invariant
            y <= h,
            dst@.len() == y * w * 4,
            forall|j: int|
                0 <= j < dst@.len() ==> dst@[j] == sobel_at(src@, w as int, h as int, j),
        decreases h - y,
    {
        let mut x: usize = 0;
        while x < w
            invariant
                x <= w,
                y < h,
                dst@.len() == (y * w + x) * 4,
                forall|j: int|
                    0 <= j < dst@.len() ==> dst@[j] == sobel_at(src@, w as int, h as int, j),
            decreases w - x,
        {
            proof {
                lemma_pix_in_bounds(w as int, h as int, x as int, y as int);
                lemma_dims_bounded(src@, w as int, h as int);
                assert(x as int <= i64::MAX as int - 1 && y as int <= i64::MAX as int - 1);
            }
            let xi = x as i64;
            let yi = y as i64;
            let p00 = crate::grid::get_pixel(src, w, h, xi - 1, yi - 1);
            let p01 = crate::grid::get_pixel(src, w, h, xi, yi - 1);
            let p02 = crate::grid::get_pixel(src, w, h, xi + 1, yi - 1);
            let p10 = crate::grid::get_pixel(src, w, h, xi - 1, yi);
            let p12 = crate::grid::get_pixel(src, w, h, xi + 1, yi);
            let p20 = crate::grid::get_pixel(src, w, h, xi - 1, yi + 1);
            let p21 = crate::grid::get_pixel(src, w, h, xi, yi + 1);
            let p22 = crate::grid::get_pixel(src, w, h, xi + 1, yi + 1);
            let l00 = crate::grid::luma_byte(p00.0, p00.1, p00.2) as i64;
            let l01 = crate::grid::luma_byte(p01.0, p01.1, p01.2) as i64;
            let l02 = crate::grid::luma_byte(p02.0, p02.1, p02.2) as i64;
            let l10 = crate::grid::luma_byte(p10.0, p10.1, p10.2) as i64;
            let l12 = crate::grid::luma_byte(p12.0, p12.1, p12.2) as i64;
            let l20 = crate::grid::luma_byte(p20.0, p20.1, p20.2) as i64;
            let l21 = crate::grid::luma_byte(p21.0, p21.1, p21.2) as i64;
            let l22 = crate::grid::luma_byte(p22.0, p22.1, p22.2) as i64;
            let gx: i64 = -l00 + l02 - 2 * l10 + 2 * l12 - l20 + l22;
            let gy: i64 = -l00 - 2 * l01 - l02 + l20 + 2 * l21 + l22;
            proof {
                assert(0 <= (gx as int) * (gx as int) && (gx as int) * (gx as int) <= 1040400
                    && 0 <= (gy as int) * (gy as int) && (gy as int) * (gy as int) <= 1040400)
                    by (nonlinear_arith)
                    requires
                        -1020 <= gx as int <= 1020,
                        -1020 <= gy as int <= 1020,
                ;
            }
            let m: u64 = (gx * gx + gy * gy) as u64;
            let mag = isqrt(m);
            let v: u8 = if mag > 255 {
                255
            } else {
                mag as u8
            };
            dst.push(v);
            dst.push(v);
            dst.push(v);
            dst.push(255);
            proof {
                lemma_flat_decomp(w as int, x as int, y as int, 0);
                lemma_flat_decomp(w as int, x as int, y as int, 1);
                lemma_flat_decomp(w as int, x as int, y as int, 2);
                lemma_flat_decomp(w as int, x as int, y as int, 3);
                assert(gx as int == sobel_gx(src@, w as int, h as int, x as int, y as int));
                assert(gy as int == sobel_gy(src@, w as int, h as int, x as int, y as int));
                lemma_isqrt_bounds(m as int);
            }
            x += 1;
        }
        proof {
            lemma_mul_succ(y as int, w as int);
        }
        y += 1;
    }
    proof {
        vstd::arithmetic::mul::lemma_mul_is_commutative(h as int, w as int);
        assert(dst@ =~= sobel_spec(src@, w as int, h as int));
    }
    dst
}

/// Nonlinear edge remap: each pixel's color channels take the saturated
/// value of its red channel — 0 stays 0 and anything nonzero becomes 255 —
/// and alpha is untouched. This is the exact value of the iterated map
/// `acc <- sqrt(0.85 acc + |sin(12 acc)|)` clamped to 1, started at
/// `red / 255`, run eight times and scaled back to a byte: 0 is a fixed
/// point, and every nonzero start reaches the clamp within eight steps.
#[verifier::loop_isolation(false)]
pub fn nonlinear_edges(src: &Vec<u8>) -> (dst: Vec<u8>)
    requires
        src@.len() % 4 == 0,
    ensures
        dst@ == nonlinear_spec(src@),
{
    proof {
        vstd::arithmetic::div_mod::lemma_fundamental_div_mod(src@.len() as int, 4);
    }
    let n = src.len() / 4;
    let mut dst: Vec<u8> = Vec::new();
    let mut p: usize = 0;
    while p < n
        invariant
            p <= n,
            n == src@.len() / 4,
            src@.len() == 4 * n,
            dst@.len() == 4 * p,
            forall|j: int| 0 <= j < dst@.len() ==> dst@[j] == nonlinear_at(src@, j),
        decreases n - p,
    {
        let i = 4 * p;
        let r = src[i];
        let v: u8 = if r == 0 {
            0
        } else {
            255
        };
        dst.push(v);
        dst.push(v);
        dst.push(v);
        dst.push(src[i + 3]);
        proof {
            lemma_flat4(p as int, 0);
            lemma_flat4(p as int, 1);
            lemma_flat4(p as int, 2);
            lemma_flat4(p as int, 3);
        }
        p += 1;
    }
    proof {
        assert(dst@ =~= nonlinear_spec(src@));
    }
    dst
}

} // verus!
