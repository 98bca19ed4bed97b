//! Palette-indexed image packing: median-cut quantization, a bit-packed
//! container format, chunked index/pixel pipelines and reversible transforms.

pub mod codec;
pub mod color;
pub mod container;
pub mod pipeline;
pub mod progress;
pub mod quantize;
pub mod transform;
