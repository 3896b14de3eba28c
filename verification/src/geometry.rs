//! Geometric passes: nearest-neighbor resampling and the horizontal wave
//! warp.
//!
//! The warp shifts each row by `trunc(10 sin(2 pi y / 80))`. That value is
//! periodic in the row index with period 80, so it is tabulated once as
//! exact integers; rows 40..79 are the negated mirror of rows 0..39.

use vstd::prelude::*;

verus! {

use crate::grid::{
    buf_wf, sample, lemma_pix_in_bounds, lemma_flat_decomp, lemma_dims_bounded, lemma_div_bound,
    lemma_mul_succ,
};

/// Wave shift for phases 0..39: `trunc(10 sin(2 pi m / 80))`.
pub open spec fn wave_half(m: int) -> int {
    if m == 0 {
        0
    } else if m == 1 {
        0
    } else if m == 2 {
        1
    } else if m == 3 {
        2
    } else if m == 4 {
        3
    } else if m == 5 {
        3
    } else if m == 6 {
        4
    } else if m == 7 {
        5
    } else if m == 8 {
        5
    } else if m == 9 {
        6
    } else if m == 10 {
        7
    } else if m == 11 {
        7
    } else if m == 12 {
        8
    } else if m == 13 {
        8
    } else if m == 14 {
        8
    } else if m == 15 {
        9
    } else if m == 16 {
        9
    } else if m == 17 {
        9
    } else if m == 18 {
        9
    } else if m == 19 {
        9
    } else if m == 20 {
        10
    } else if m == 21 {
        9
    } else if m == 22 {
        9
    } else if m == 23 {
        9
    } else if m == 24 {
        9
    } else if m == 25 {
        9
    } else if m == 26 {
        8
    } else if m == 27 {
        8
    } else if m == 28 {
        8
    } else if m == 29 {
        7
    } else if m == 30 {
        7
    } else if m == 31 {
        6
    } else if m == 32 {
        5
    } else if m == 33 {
        5
    } else if m == 34 {
        4
    } else if m == 35 {
        3
    } else if m == 36 {
        3
    } else if m == 37 {
        2
    } else if m == 38 {
        1
    } else {
        0
    }
}

/// Wave shift of row `y`: `trunc(10 sin(2 pi y / 80))`, exactly periodic
/// with period 80, odd about the half period.
pub open spec fn wave_off(y: int) -> int {
    let m = y % 80;
    if m < 40 {
        wave_half(m)
    } else {
        -wave_half(m - 40)
    }
}

/// Output byte of the wave warp at flat index `i`: row `y` is shifted
/// horizontally by `wave_off(y)` and read with clamp-to-edge sampling.
pub open spec fn wave_at(s: Seq<u8>, w: int, h: int, i: int) -> u8 {
    let p = i / 4;
    let c = i % 4;
    let x = p % w;
    let y = p / w;
    sample(s, w, h, x + wave_off(y), y, c)
}

/// The wave-warped image.
pub open spec fn wave_spec(s: Seq<u8>, w: int, h: int) -> Seq<u8> {
    Seq::new((w * h * 4) as nat, |i: int| wave_at(s, w, h, i))
}

/// Source column or row picked by the nearest-neighbor map: `(v * n_in) /
/// n_out` with floor division.
pub open spec fn src_coord(v: int, n_in: int, n_out: int) -> int {
    (v * n_in) / n_out
}

/// Output byte of the resample at flat index `i` of the `wo` x `ho` grid:
/// a verbatim copy of the source pixel at the floor-scaled coordinates.
pub open spec fn resize_at(s: Seq<u8>, wi: int, hi: int, wo: int, ho: int, i: int) -> u8 {
    let p = i / 4;
    let c = i % 4;
    let x = p % wo;
    let y = p / wo;
    s[(src_coord(y, hi, ho) * wi + src_coord(x, wi, wo)) * 4 + c]
}

/// The resampled image.
pub open spec fn resize_spec(s: Seq<u8>, wi: int, hi: int, wo: int, ho: int) -> Seq<u8> {
    Seq::new((wo * ho * 4) as nat, |i: int| resize_at(s, wi, hi, wo, ho, i))
}

/// The four bytes of the pixel at `(x, y)` of a `w`-wide grid.
pub open spec fn pixel_at(s: Seq<u8>, w: int, x: int, y: int) -> Seq<u8> {
    s.subrange(crate::grid::pix(w, x, y), crate::grid::pix(w, x, y) + 4)
}

/// A nearest-neighbor resample draws only from the source palette: every
/// output pixel is a verbatim copy of the source pixel at the
/// floor-scaled coordinates, which always lie inside the source grid, so
/// no new pixel values can appear.
pub proof fn lemma_resize_palette(s: Seq<u8>, wi: int, hi: int, wo: int, ho: int)
    requires
        buf_wf(s, wi, hi),
        wo >= 1,
        ho >= 1,
    ensures
        forall|v: int| 0 <= v < wo ==> 0 <= #[trigger] src_coord(v, wi, wo) < wi,
        forall|v: int| 0 <= v < ho ==> 0 <= #[trigger] src_coord(v, hi, ho) < hi,
        forall|x: int, y: int|
            0 <= x < wo && 0 <= y < ho ==> #[trigger] pixel_at(
                resize_spec(s, wi, hi, wo, ho), wo, x, y,
            ) == pixel_at(s, wi, src_coord(x, wi, wo), src_coord(y, hi, ho)),
{
    assert forall|v: int| 0 <= v < wo implies 0 <= #[trigger] src_coord(v, wi, wo) < wi by {
        lemma_coord_in_range(v, wi, wo);
    }
    assert forall|v: int| 0 <= v < ho implies 0 <= #[trigger] src_coord(v, hi, ho) < hi by {
        lemma_coord_in_range(v, hi, ho);
    }
    assert forall|x: int, y: int| 0 <= x < wo && 0 <= y < ho implies #[trigger] pixel_at(
        resize_spec(s, wi, hi, wo, ho), wo, x, y,
    ) == pixel_at(s, wi, src_coord(x, wi, wo), src_coord(y, hi, ho)) by {
        let out = resize_spec(s, wi, hi, wo, ho);
        let sx = src_coord(x, wi, wo);
        let sy = src_coord(y, hi, ho);
        lemma_coord_in_range(x, wi, wo);
        lemma_coord_in_range(y, hi, ho);
        lemma_pix_in_bounds(wo, ho, x, y);
        lemma_pix_in_bounds(wi, hi, sx, sy);
        lemma_flat_decomp(wo, x, y, 0);
        lemma_flat_decomp(wo, x, y, 1);
        lemma_flat_decomp(wo, x, y, 2);
        lemma_flat_decomp(wo, x, y, 3);
        assert(out[(y * wo + x) * 4 + 0] == s[(sy * wi + sx) * 4 + 0]);
        assert(out[(y * wo + x) * 4 + 1] == s[(sy * wi + sx) * 4 + 1]);
        assert(out[(y * wo + x) * 4 + 2] == s[(sy * wi + sx) * 4 + 2]);
        assert(out[(y * wo + x) * 4 + 3] == s[(sy * wi + sx) * 4 + 3]);
        assert(pixel_at(out, wo, x, y) =~= pixel_at(s, wi, sx, sy));
    }
}

/// The floor-scaled coordinate lies inside the source extent.
proof fn lemma_coord_in_range(v: int, n_in: int, n_out: int)
    requires
        0 <= v,
        v < n_out,
        n_in >= 1,
        n_out >= 1,
    ensures
        0 <= src_coord(v, n_in, n_out) < n_in,
{
    assert(v * n_in < n_out * n_in) by (nonlinear_arith)
        requires
            0 <= v,
            v < n_out,
            1 <= n_in,
    ;
    assert(0 <= v * n_in) by (nonlinear_arith)
        requires
            0 <= v,
            0 <= n_in,
    ;
    vstd::arithmetic::mul::lemma_mul_is_commutative(n_out, n_in);
    lemma_div_bound(v * n_in, n_out, n_in);
}

/// The nearest-neighbor source coordinate, computed without overflow; it
/// always lands inside the source extent.
fn scale_coord(v: usize, n_in: usize, n_out: usize) -> (r: usize)
    requires
        n_in >= 1,
        n_out >= 1,
        v < n_out,
    ensures
        r as int == src_coord(v as int, n_in as int, n_out as int),
        r < n_in,
{
    proof {
        assert((v as int) * (n_in as int) < (n_out as int) * (n_in as int)) by (nonlinear_arith)
            requires
                0 <= v as int,
                (v as int) < n_out as int,
                1 <= n_in as int,
        ;
        assert(0 <= (v as int) * (n_in as int)) by (nonlinear_arith)
            requires
                0 <= v as int,
                0 <= n_in as int,
        ;
        assert((n_out as int) * (n_in as int) <= u64::MAX as int * u64::MAX as int)
            by (nonlinear_arith)
            requires
                0 <= n_out as int <= u64::MAX as int,
                0 <= n_in as int <= u64::MAX as int,
        ;
        vstd::arithmetic::mul::lemma_mul_is_commutative(n_out as int, n_in as int);
        lemma_div_bound((v as int) * (n_in as int), n_out as int, n_in as int);
    }
    let q = ((v as u128) * (n_in as u128)) / (n_out as u128);
    q as usize
}

/// Nearest-neighbor resample from a `w_in` x `h_in` grid to a `w_out` x
/// `h_out` grid: every output pixel is a verbatim copy of the source pixel
/// at `((x * w_in) / w_out, (y * h_in) / h_out)`; no new values appear.
#[verifier::loop_isolation(false)]
pub fn resize_nearest(src: &Vec<u8>, w_in: usize, h_in: usize, w_out: usize, h_out: usize) -> (dst:
    Vec<u8>)
    requires
        buf_wf(src@, w_in as int, h_in as int),
        w_out >= 1,
        h_out >= 1,
        (w_out as int) * (h_out as int) * 4 <= usize::MAX as int,
    ensures
        dst@ == resize_spec(src@, w_in as int, h_in as int, w_out as int, h_out as int),
{
    let n: usize = src.len();
    proof {
        assert(n as int == src@.len());
        lemma_dims_bounded(src@, w_in as int, h_in as int);
    }
    let mut dst: Vec<u8> = Vec::new();
    let mut y: usize = 0;
    while y < h_out
        invariant
            y <= h_out,
            dst@.len() == y * w_out * 4,
            forall|j: int|
                0 <= j < dst@.len() ==> dst@[j] == resize_at(
                    src@, w_in as int, h_in as int, w_out as int, h_out as int, j,
                ),
        decreases h_out - y,
    {
        let sy = scale_coord(y, h_in, h_out);
        let mut x: usize = 0;
        while x < w_out
            invariant
                x <= w_out,
                y < h_out,
                sy as int == src_coord(y as int, h_in as int, h_out as int),
                sy < h_in,
                dst@.len() == (y * w_out + x) * 4,
                forall|j: int|
                    0 <= j < dst@.len() ==> dst@[j] == resize_at(
                        src@, w_in as int, h_in as int, w_out as int, h_out as int, j,
                    ),
            decreases w_out - x,
        {
            let sx = scale_coord(x, w_in, w_out);
            proof {
                lemma_pix_in_bounds(w_in as int, h_in as int, sx as int, sy as int);
                assert((w_in as int) * (h_in as int) <= src@.len());
                lemma_pix_in_bounds(w_out as int, h_out as int, x as int, y as int);
                assert((y as int) * (w_out as int) + (x as int) < (w_out as int) * (h_out as int));
                assert((w_out as int) * (h_out as int) <= (w_out as int) * (h_out as int) * 4);
            }
            let si = (sy * w_in + sx) * 4;
            dst.push(src[si]);
            dst.push(src[si + 1]);
            dst.push(src[si + 2]);
            dst.push(src[si + 3]);
            proof {
                lemma_flat_decomp(w_out as int, x as int, y as int, 0);
                lemma_flat_decomp(w_out as int, x as int, y as int, 1);
                lemma_flat_decomp(w_out as int, x as int, y as int, 2);
                lemma_flat_decomp(w_out as int, x as int, y as int, 3);
            }
            x += 1;
        }
        proof {
            lemma_mul_succ(y as int, w_out as int);
        }
        y += 1;
    }
    proof {
        vstd::arithmetic::mul::lemma_mul_is_commutative(h_out as int, w_out as int);
        assert(dst@ =~= resize_spec(src@, w_in as int, h_in as int, w_out as int, h_out as int));
    }
    dst
}

/// Wave shift for one phase of the first half period.
fn wave_half_shift(m: usize) -> (r: i64)
    requires
        m < 40,
    ensures
        r as int == wave_half(m as int),
        0 <= r <= 10,
{
    if m == 0 {
        0
    } else if m == 1 {
        0
    } else if m == 2 {
        1
    } else if m == 3 {
        2
    } else if m == 4 {
        3
    } else if m == 5 {
        3
    } else if m == 6 {
        4
    } else if m == 7 {
        5
    } else if m == 8 {
        5
    } else if m == 9 {
        6
    } else if m == 10 {
        7
    } else if m == 11 {
        7
    } else if m == 12 {
        8
    } else if m == 13 {
        8
    } else if m == 14 {
        8
    } else if m == 15 {
        9
    } else if m == 16 {
        9
    } else if m == 17 {
        9
    } else if m == 18 {
        9
    } else if m == 19 {
        9
    } else if m == 20 {
        10
    } else if m == 21 {
        9
    } else if m == 22 {
        9
    } else if m == 23 {
        9
    } else if m == 24 {
        9
    } else if m == 25 {
        9
    } else if m == 26 {
        8
    } else if m == 27 {
        8
    } else if m == 28 {
        8
    } else if m == 29 {
        7
    } else if m == 30 {
        7
    } else if m == 31 {
        6
    } else if m == 32 {
        5
    } else if m == 33 {
        5
    } else if m == 34 {
        4
    } else if m == 35 {
        3
    } else if m == 36 {
        3
    } else if m == 37 {
        2
    } else if m == 38 {
        1
    } else {
        0
    }
}

/// Wave shift of row `y`: the tabulated `trunc(10 sin(2 pi y / 80))`.
pub fn wave_offset(y: usize) -> (r: i64)
    ensures
        r as int == wave_off(y as int),
        -10 <= r <= 10,
{
    let m = y % 80;
    if m < 40 {
        wave_half_shift(m)
    } else {
        -wave_half_shift(m - 40)
    }
}

/// Wave distortion: output pixel `(x, y)` copies the clamp-sampled source
/// pixel at `(x + trunc(10 sin(2 pi y / 80)), y)` — a horizontal sinusoidal
/// shear keyed on the row index.
#[verifier::loop_isolation(false)]
pub fn wave_distortion(src: &Vec<u8>, w: usize, h: usize) -> (dst: Vec<u8>)
    requires
        buf_wf(src@, w as int, h as int),
    ensures
        dst@ == wave_spec(src@, w as int, h as int),
{
    let n: usize = src.len();
    proof {
        assert(n as int == src@.len());
        lemma_dims_bounded(src@, w as int, h as int);
    }
    let mut dst: Vec<u8> = Vec::new();
    let mut y: usize = 0;
    while y < h
        invariant
            y <= h,
            dst@.len() == y * w * 4,
            forall|j: int|
                0 <= j < dst@.len() ==> dst@[j] == wave_at(src@, w as int, h as int, j),
        decreases h - y,
    {
        let off = wave_offset(y);
        let mut x: usize = 0;
        while x < w
            invariant
                x <= w,
                y < h,
                off as int == wave_off(y as int),
                -10 <= off <= 10,
                dst@.len() == (y * w + x) * 4,
                forall|j: int|
                    0 <= j < dst@.len() ==> dst@[j] == wave_at(src@, w as int, h as int, j),
            decreases w - x,
        {
            proof {
                lemma_pix_in_bounds(w as int, h as int, x as int, y as int);
                lemma_dims_bounded(src@, w as int, h as int);
                assert(x as int <= i64::MAX as int - 10 && y as int <= i64::MAX as int);
            }
            let p = crate::grid::get_pixel(src, w, h, x as i64 + off, y as i64);
            dst.push(p.0);
            dst.push(p.1);
            dst.push(p.2);
            dst.push(p.3);
            proof {
                lemma_flat_decomp(w as int, x as int, y as int, 0);
                lemma_flat_decomp(w as int, x as int, y as int, 1);
                lemma_flat_decomp(w as int, x as int, y as int, 2);
                lemma_flat_decomp(w as int, x as int, y as int, 3);
            }
            x += 1;
        }
        proof {
            lemma_mul_succ(y as int, w as int);
        }
        y += 1;
    }
    proof {
        vstd::arithmetic::mul::lemma_mul_is_commutative(h as int, w as int);
        assert(dst@ =~= wave_spec(src@, w as int, h as int));
    }
    dst
}

} // verus!
