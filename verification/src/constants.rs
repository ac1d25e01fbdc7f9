//! The fixed measures of a pattern sheet.

use vstd::prelude::*;
use crate::color::PixelRGBA;

verus! {

/// The side of one pattern cell, in pixels.
pub const TILE_SIZE: i32 = 16;

/// How many colours one legend block lists.
pub const LEGEND_BLOCK_ENTRY_COUNT: usize = 5;

/// The most blocks that stand side by side in a row of the legend.
pub const LEGEND_COLUMN_CAP: usize = 4;

/// The width of one printable segment, in cells.
pub const SPLIT_SEGMENT_WIDTH: i32 = 60;

/// The height of one printable segment, in cells.
pub const SPLIT_SEGMENT_HEIGHT: i32 = 80;

/// The colour of the thin line on every cell boundary.
pub open spec fn spec_color_grid_thin() -> PixelRGBA {
    PixelRGBA { r: 128, g: 128, b: 128, a: 255 }
}

/// The colour of the thick line on every tenth cell boundary.
pub open spec fn spec_color_grid_thick() -> PixelRGBA {
    PixelRGBA { r: 64, g: 64, b: 64, a: 255 }
}

/// Opaque white.
pub open spec fn spec_white() -> PixelRGBA {
    PixelRGBA { r: 255, g: 255, b: 255, a: 255 }
}

/// Opaque black.
pub open spec fn spec_black() -> PixelRGBA {
    PixelRGBA { r: 0, g: 0, b: 0, a: 255 }
}

#[verifier::when_used_as_spec(spec_color_grid_thin)]
pub fn color_grid_thin() -> (color: PixelRGBA)
    ensures
        color == spec_color_grid_thin(),
{
    PixelRGBA::new(128, 128, 128, 255)
}

#[verifier::when_used_as_spec(spec_color_grid_thick)]
pub fn color_grid_thick() -> (color: PixelRGBA)
    ensures
        color == spec_color_grid_thick(),
{
    PixelRGBA::new(64, 64, 64, 255)
}

} // verus!
