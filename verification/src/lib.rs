//! A fixed-sequence pixel-processing pipeline over flat RGBA byte buffers.
//!
//! A buffer of `width * height * 4` bytes is threaded through a chain of
//! image-space transforms: two blurs, a grayscale pass, a lossy resample
//! round trip, a horizontal wave warp, an iterated edge enhancement, a
//! deterministic tone remap, and a final cross-fade. Every stage is written
//! in exact integer arithmetic and carries a contract pinning each output
//! byte to a closed-form function of the input bytes.

pub mod color;
pub mod convolve;
pub mod edges;
pub mod geometry;
pub mod grid;
pub mod numeric;
pub mod pipeline;
pub mod tone;
