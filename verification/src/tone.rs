//! Hash-based tone remap: a deterministic, content-dependent brightness
//! rescale. Each pixel's color picks a bucket, the bucket seeds a small
//! multiplicative hash, and the hashed byte sets the pixel's gain.

use vstd::prelude::*;

verus! {

use crate::grid::{clamp255, lemma_flat4};
use vstd::arithmetic::div_mod::lemma_fundamental_div_mod;

/// Accumulator of the multiplicative hash after `i` rounds on `seed`:
/// starts at `(seed + 1) mod P` and each round `j` (from 1) multiplies by
/// `(j + seed mod P) mod P` and adds `17 j`, reducing mod `P = 1_000_000_007`.
pub open spec fn hash_acc(seed: int, i: int) -> int
    decreases i,
{
    if i <= 0 {
        (seed + 1) % 1_000_000_007
    } else {
        (hash_acc(seed, i - 1) * ((i + seed % 1_000_000_007) % 1_000_000_007) + 17 * i)
            % 1_000_000_007
    }
}

/// The mix byte: the low eight bits of the accumulator after 64 rounds.
pub open spec fn hash_mix(seed: int) -> int {
    hash_acc(seed, 64) % 256
}

/// Per-pixel gain: `128 + mix` of the bucket picked by the pixel whose
/// first byte sits at `base` (bucket `(R + 256 G + 65536 B) mod 1000`).
pub open spec fn tone_scale(s: Seq<u8>, base: int) -> int {
    128 + hash_mix((s[base] + 256 * s[base + 1] + 65536 * s[base + 2]) % 1000)
}

/// Output byte of the tone remap at flat index `i`: each color channel `v`
/// becomes `min(v * scale / 255, 255)`; alpha is unchanged.
pub open spec fn tone_at(s: Seq<u8>, i: int) -> u8 {
    if i % 4 == 3 {
        s[i]
    } else {
        clamp255((s[i] * tone_scale(s, 4 * (i / 4))) / 255) as u8
    }
}

/// The tone-remapped image.
pub open spec fn tone_spec(s: Seq<u8>) -> Seq<u8> {
    Seq::new(s.len(), |i: int| tone_at(s, i))
}

/// The deterministic hash behind the remap: 64 rounds of
/// `acc <- (acc * ((j + seed mod P) mod P) + 17 j) mod P` over
/// `P = 1_000_000_007`, started at `(seed + 1) mod P`; the result is the
/// low byte of the final accumulator. A pure function of `seed` alone.
pub fn pixel_hash_mix(seed: u32) -> (m: u8)
    ensures
        m as int == hash_mix(seed as int),
{
    let mut acc: u64 = (seed as u64 + 1) % 1_000_000_007;
    let s: u64 = seed as u64 % 1_000_000_007;
    let mut j: u64 = 1;
    while j <= 64
        invariant
            1 <= j <= 65,
            s == (seed as int) % 1_000_000_007,
            s < 1_000_000_007,
            acc < 1_000_000_007,
            acc as int == hash_acc(seed as int, j as int - 1),
        decreases 65 - j,
    {
        let factor = (j + s) % 1_000_000_007;
        proof {
            assert((acc as int) * (factor as int) <= 1_000_000_006 * 1_000_000_006)
                by (nonlinear_arith)
                requires
                    0 <= acc as int <= 1_000_000_006,
                    0 <= factor as int <= 1_000_000_006,
            ;
        }
        acc = (acc * factor + j * 17) % 1_000_000_007;
        j += 1;
    }
    (acc % 256) as u8
}

/// One color channel scaled by the pixel's gain and saturated at 255.
fn scale_channel(v: u8, scale: u32) -> (r: u8)
    requires
        scale <= 383,
    ensures
        r as int == clamp255((v * scale) / 255),
{
    proof {
        assert(0 <= (v as int) * (scale as int) <= 97665) by (nonlinear_arith)
            requires
                0 <= v as int <= 255,
                0 <= scale as int <= 383,
        ;
    }
    let q = ((v as u32) * scale) / 255;
    if q > 255 {
        255
    } else {
        q as u8
    }
}

/// Tone remap: each pixel's color picks the bucket
/// `(R + 256 G + 65536 B) mod 1000`, the bucket's hash byte `m` sets the
/// gain `128 + m`, and every color channel `v` becomes
/// `min(v * (128 + m) / 255, 255)`; alpha is unchanged.
#[verifier::loop_isolation(false)]
pub fn intensity_hash_pass(src: &Vec<u8>) -> (dst: Vec<u8>)
    requires
        src@.len() % 4 == 0,
    ensures
        dst@ == tone_spec(src@),
{
    proof {
        lemma_fundamental_div_mod(src@.len() as int, 4);
    }
    let n = src.len() / 4;
    let mut dst: Vec<u8> = Vec::new();
    let mut p: usize = 0;
    while p < n
        invariant
            p <= n,
            n == src@.len() / 4,
            src@.len() == 4 * n,
            dst@.len() == 4 * p,
            forall|j: int| 0 <= j < dst@.len() ==> dst@[j] == tone_at(src@, j),
        decreases n - p,
    {
        let i = 4 * p;
        let r = src[i];
        let g = src[i + 1];
        let b = src[i + 2];
        let seed = ((r as u32) + 256 * (g as u32) + 65536 * (b as u32)) % 1000;
        let m = pixel_hash_mix(seed);
        let scale: u32 = 128 + (m as u32);
        dst.push(scale_channel(r, scale));
        dst.push(scale_channel(g, scale));
        dst.push(scale_channel(b, scale));
        dst.push(src[i + 3]);
        proof {
            lemma_flat4(p as int, 0);
            lemma_flat4(p as int, 1);
            lemma_flat4(p as int, 2);
            lemma_flat4(p as int, 3);
            assert(scale as int == tone_scale(src@, 4 * (p as int)));
        }
        p += 1;
    }
    proof {
        assert(dst@ =~= tone_spec(src@));
    }
    dst
}

} // verus!
