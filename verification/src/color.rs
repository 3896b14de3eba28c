//! Per-pixel color passes: grayscale conversion and the two weighted blends.
//!
//! Each pass maps a buffer (or a pair of equally sized buffers) pixel by
//! pixel; the weights are the exact rational coefficients of the real
//! formulas, applied in integer arithmetic and truncated.

use vstd::prelude::*;

verus! {

use crate::grid::{clamp255, luma_val, lemma_flat4};
use vstd::arithmetic::div_mod::lemma_fundamental_div_mod;

/// Output byte of the grayscale pass at flat index `i`: the three color
/// channels all become the pixel's luma; alpha is untouched.
pub open spec fn gray_at(s: Seq<u8>, i: int) -> u8 {
    let p = i / 4;
    if i % 4 == 3 {
        s[i]
    } else {
        luma_val(s[4 * p], s[4 * p + 1], s[4 * p + 2]) as u8
    }
}

/// The grayscale image.
pub open spec fn grayscale_spec(s: Seq<u8>) -> Seq<u8> {
    Seq::new(s.len(), |i: int| gray_at(s, i))
}

/// Output byte of the edge blend at flat index `i`: color channels become
/// `clamp(0.7 base + 0.8 edges)` in exact tenths; alpha keeps the base's.
pub open spec fn blend_edges_at(b: Seq<u8>, e: Seq<u8>, i: int) -> u8 {
    if i % 4 == 3 {
        b[i]
    } else {
        clamp255((7 * b[i] + 8 * e[i]) / 10) as u8
    }
}

/// The edge-blended image.
pub open spec fn blend_edges_spec(b: Seq<u8>, e: Seq<u8>) -> Seq<u8> {
    Seq::new(b.len(), |i: int| blend_edges_at(b, e, i))
}

/// Output byte of the final cross-fade at flat index `i`: color channels
/// become `clamp(0.6 snapshot + 0.4 current)` in exact tenths; alpha keeps
/// the current image's.
pub open spec fn final_blend_at(b: Seq<u8>, p: Seq<u8>, i: int) -> u8 {
    if i % 4 == 3 {
        p[i]
    } else {
        clamp255((6 * b[i] + 4 * p[i]) / 10) as u8
    }
}

/// The cross-faded image.
pub open spec fn final_blend_spec(b: Seq<u8>, p: Seq<u8>) -> Seq<u8> {
    Seq::new(p.len(), |i: int| final_blend_at(b, p, i))
}

/// A buffer of whole pixels splits as `len == 4 * (len / 4)`.
proof fn lemma_whole_pixels(s: Seq<u8>)
    requires
        s.len() % 4 == 0,
    ensures
        s.len() == 4 * (s.len() / 4),
{
    lemma_fundamental_div_mod(s.len() as int, 4);
}

/// Grayscale conversion: every pixel's R, G and B become its luma
/// `(299 R + 587 G + 114 B) / 1000`, truncated; alpha is unchanged.
#[verifier::loop_isolation(false)]
pub fn grayscale(src: &Vec<u8>) -> (dst: Vec<u8>)
    requires
        src@.len() % 4 == 0,
    ensures
        dst@ == grayscale_spec(src@),
{
    proof {
        lemma_whole_pixels(src@);
    }
    let n = src.len() / 4;
    let mut dst: Vec<u8> = Vec::new();
    let mut p: usize = 0;
    while p < n
        invariant
            p <= n,
            n == src@.len() / 4,
            src@.len() == 4 * n,
            dst@.len() == 4 * p,
            forall|j: int| 0 <= j < dst@.len() ==> dst@[j] == gray_at(src@, j),
        decreases n - p,
    {
        let base = 4 * p;
        let l = crate::grid::luma_byte(src[base], src[base + 1], src[base + 2]);
        let a = src[base + 3];
        dst.push(l);
        dst.push(l);
        dst.push(l);
        dst.push(a);
        proof {
            lemma_flat4(p as int, 0);
            lemma_flat4(p as int, 1);
            lemma_flat4(p as int, 2);
            lemma_flat4(p as int, 3);
        }
        p += 1;
    }
    proof {
        assert(dst@ =~= grayscale_spec(src@));
    }
    dst
}

/// Blend freshly enhanced edges into the working image:
/// `clamp((7 base + 8 edges) / 10)` per color channel, alpha from `base`.
/// The weights deliberately sum to more than one.
#[verifier::loop_isolation(false)]
pub fn blend_edges(base: &Vec<u8>, edges: &Vec<u8>) -> (dst: Vec<u8>)
    requires
        base@.len() % 4 == 0,
        edges@.len() == base@.len(),
    ensures
        dst@ == blend_edges_spec(base@, edges@),
{
    proof {
        lemma_whole_pixels(base@);
    }
    let n = base.len() / 4;
    let mut dst: Vec<u8> = Vec::new();
    let mut p: usize = 0;
    while p < n
        invariant
            p <= n,
            n == base@.len() / 4,
            base@.len() == 4 * n,
            dst@.len() == 4 * p,
            forall|j: int| 0 <= j < dst@.len() ==> dst@[j] == blend_edges_at(base@, edges@, j),
        decreases n - p,
    {
        let i = 4 * p;
        dst.push(crate::convolve::clamp_div(7 * (base[i] as u32) + 8 * (edges[i] as u32), 10));
        dst.push(
            crate::convolve::clamp_div(7 * (base[i + 1] as u32) + 8 * (edges[i + 1] as u32), 10),
        );
        dst.push(
            crate::convolve::clamp_div(7 * (base[i + 2] as u32) + 8 * (edges[i + 2] as u32), 10),
        );
        dst.push(base[i + 3]);
        proof {
            lemma_flat4(p as int, 0);
            lemma_flat4(p as int, 1);
            lemma_flat4(p as int, 2);
            lemma_flat4(p as int, 3);
        }
        p += 1;
    }
    proof {
        assert(dst@ =~= blend_edges_spec(base@, edges@));
    }
    dst
}

/// Final cross-fade of the post-warp snapshot against the processed image:
/// `clamp((6 snapshot + 4 current) / 10)` per color channel, alpha from the
/// current image.
#[verifier::loop_isolation(false)]
pub fn final_blend_with_base(img: &Vec<u8>, base: &Vec<u8>) -> (dst: Vec<u8>)
    requires
        img@.len() % 4 == 0,
        base@.len() == img@.len(),
    ensures
        dst@ == final_blend_spec(base@, img@),
{
    proof {
        lemma_whole_pixels(img@);
    }
    let n = img.len() / 4;
    let mut dst: Vec<u8> = Vec::new();
    let mut p: usize = 0;
    while p < n
        invariant
            p <= n,
            n == img@.len() / 4,
            img@.len() == 4 * n,
            dst@.len() == 4 * p,
            forall|j: int| 0 <= j < dst@.len() ==> dst@[j] == final_blend_at(base@, img@, j),
        decreases n - p,
    {
        let i = 4 * p;
        dst.push(crate::convolve::clamp_div(6 * (base[i] as u32) + 4 * (img[i] as u32), 10));
        dst.push(
            crate::convolve::clamp_div(6 * (base[i + 1] as u32) + 4 * (img[i + 1] as u32), 10),
        );
        dst.push(
            crate::convolve::clamp_div(6 * (base[i + 2] as u32) + 4 * (img[i + 2] as u32), 10),
        );
        dst.push(img[i + 3]);
        proof {
            lemma_flat4(p as int, 0);
            lemma_flat4(p as int, 1);
            lemma_flat4(p as int, 2);
            lemma_flat4(p as int, 3);
        }
        p += 1;
    }
    proof {
        assert(dst@ =~= final_blend_spec(base@, img@));
    }
    dst
}

} // verus!
