//! Cross-stitch pattern synthesis: palette quantization, colour usage and
//! symbol assignment, segmentation, tile rendering and legend layout over
//! plain RGBA bitmaps.

pub mod color;
pub mod bitmap;
pub mod math;
pub mod constants;
pub mod mapping;
pub mod quantize;
pub mod segment;
pub mod pattern;
pub mod symbols;
pub mod text;
pub mod labels;
pub mod legend;
pub mod sheets;
pub mod preview;
pub mod util;
pub mod search;
