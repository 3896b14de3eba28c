//! The pipeline orchestrator: a fixed ten-stage sequence threading one
//! working buffer, with a snapshot taken after the warp for the final
//! cross-fade.

use vstd::prelude::*;

verus! {

use crate::grid::buf_wf;
use crate::convolve::{conv_spec, box_kernel_spec, gauss_kernel_spec};
use crate::color::{grayscale_spec, blend_edges_spec, final_blend_spec};
use crate::geometry::{resize_spec, wave_spec};
use crate::edges::{sobel_spec, nonlinear_spec};
use crate::tone::tone_spec;
use vstd::arithmetic::div_mod::lemma_mod_multiples_basic;

/// Half a dimension, floored, but never below one.
pub open spec fn down_dim(v: int) -> int {
    if v / 2 >= 1 {
        v / 2
    } else {
        1
    }
}

/// One round of edge enhancement: Sobel magnitudes of the current image,
/// saturated by the nonlinear remap, blended back into the image.
pub open spec fn enhance_once(s: Seq<u8>, w: int, h: int) -> Seq<u8> {
    blend_edges_spec(s, nonlinear_spec(sobel_spec(s, w, h)))
}

/// `n` compounding rounds of edge enhancement.
pub open spec fn enhance_iter(s: Seq<u8>, w: int, h: int, n: nat) -> Seq<u8>
    decreases n,
{
    if n == 0 {
        s
    } else {
        enhance_once(enhance_iter(s, w, h, (n - 1) as nat), w, h)
    }
}

/// The whole pipeline on a well-formed buffer: box blur, gaussian blur,
/// grayscale, resample down to half size and back up, wave warp (whose
/// output is also the snapshot), four rounds of edge enhancement, tone
/// remap, and the final cross-fade against the snapshot.
pub open spec fn process_spec(s: Seq<u8>, w: int, h: int) -> Seq<u8> {
    let blurred = conv_spec(conv_spec(s, w, h, box_kernel_spec()), w, h, gauss_kernel_spec());
    let gray = grayscale_spec(blurred);
    let dw = down_dim(w);
    let dh = down_dim(h);
    let up = resize_spec(resize_spec(gray, w, h, dw, dh), dw, dh, w, h);
    let base = wave_spec(up, w, h);
    let enhanced = enhance_iter(base, w, h, 4);
    let toned = tone_spec(enhanced);
    final_blend_spec(base, toned)
}

/// Run the fixed pipeline over an interleaved RGBA8 buffer.
///
/// A buffer whose length is not `width * height * 4` is handed back
/// untouched — a silent no-op, not an error. A well-formed buffer yields
/// `process_spec` of it, a buffer of exactly the same length.
#[verifier::loop_isolation(false)]
pub fn process(width: u32, height: u32, pixels: Vec<u8>) -> (out: Vec<u8>)
    requires
        pixels@.len() == (width as int) * (height as int) * 4 ==> width >= 1 && height >= 1,
    ensures
        out@.len() == pixels@.len(),
        pixels@.len() != (width as int) * (height as int) * 4 ==> out@ == pixels@,
        pixels@.len() == (width as int) * (height as int) * 4 ==> out@ == process_spec(
            pixels@, width as int, height as int,
        ),
{
    let len: usize = pixels.len();
    proof {
        assert(0 <= (width as int) * (height as int) * 4 <= 0xFFFF_FFFF * 0xFFFF_FFFF * 4)
            by (nonlinear_arith)
            requires
                0 <= width as int <= 0xFFFF_FFFF,
                0 <= height as int <= 0xFFFF_FFFF,
        ;
    }
    let total: u128 = (width as u128) * (height as u128) * 4;
    if (len as u128) != total {
        return pixels;
    }
    let w = width as usize;
    let h = height as usize;
    proof {
        lemma_mod_multiples_basic((w as int) * (h as int), 4);
        assert(buf_wf(pixels@, w as int, h as int));
    }

    let blurred_once = crate::convolve::box_blur(&pixels, w, h);
    let blurred = crate::convolve::gaussian_blur(&blurred_once, w, h);
    let gray = crate::color::grayscale(&blurred);

    let dw = if w / 2 >= 1 {
        w / 2
    } else {
        1
    };
    let dh = if h / 2 >= 1 {
        h / 2
    } else {
        1
    };
    proof {
        assert((dw as int) * (dh as int) * 4 <= (w as int) * (h as int) * 4) by (nonlinear_arith)
            requires
                1 <= dw as int <= w as int,
                1 <= dh as int <= h as int,
        ;
    }
    let down = crate::geometry::resize_nearest(&gray, w, h, dw, dh);
    let up = crate::geometry::resize_nearest(&down, dw, dh, w, h);

    let base = crate::geometry::wave_distortion(&up, w, h);
    let mut img = base.clone();
    proof {
        assert(img@ =~= base@);
    }

    let mut round: usize = 0;
    while round < 4
        invariant
            round <= 4,
            img@ == enhance_iter(base@, w as int, h as int, round as nat),
            img@.len() == (w as int) * (h as int) * 4,
        decreases 4 - round,
    {
        let edges = crate::edges::sobel_edges(&img, w, h);
        let saturated = crate::edges::nonlinear_edges(&edges);
        img = crate::color::blend_edges(&img, &saturated);
        round += 1;
    }

    let toned = crate::tone::intensity_hash_pass(&img);
    let out = crate::color::final_blend_with_base(&toned, &base);
    out
}

} // verus!
