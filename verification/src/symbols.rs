//! The alphanumeric symbols of paint-by-numbers sheets.

use vstd::prelude::*;
use crate::bitmap::outside;
use crate::bitmap::Bitmap;
use crate::bitmap::Image;
use crate::color::PixelRGBA;
use crate::constants::spec_white;
use crate::constants::TILE_SIZE;
use crate::math::block_centered_in_block;
use crate::math::Vec2i;
use crate::pattern::blit_symbol;

verus! {

/// The characters that serve as alphanumeric symbols, in the order in which colours
/// get them: the digits from one to nine, then the capital letters.
pub fn alphanumeric_symbol_characters() -> (characters: &'static str)
    ensures
        characters@ == "123456789ABCDEFGHIJKLMNOPQRSTUVWXYZ"@,
{
    "123456789ABCDEFGHIJKLMNOPQRSTUVWXYZ"
}

/// The symbol made from the glyph of a character: a transparent cell with the glyph's
/// visible pixels in white, the glyph centred in the cell.
pub open spec fn alphanumeric_symbol_image(glyph: Image) -> Image {
    Image::filled(TILE_SIZE as int, TILE_SIZE as int, outside()).stamp(
        glyph,
        (TILE_SIZE - glyph.width) / 2,
        (TILE_SIZE - glyph.height) / 2,
        outside(),
        spec_white(),
    )
}

/// Makes the symbol of one character from the character's glyph, which is no larger
/// than a cell.
pub fn create_alphanumeric_symbol(glyph_bitmap: &Bitmap) -> (symbol: Bitmap)
    requires
        glyph_bitmap.wf(),
        glyph_bitmap.width <= TILE_SIZE,
        glyph_bitmap.height <= TILE_SIZE,
    ensures
        symbol.wf(),
        symbol.width == TILE_SIZE,
        symbol.height == TILE_SIZE,
        symbol@ == alphanumeric_symbol_image(glyph_bitmap@),
{
    let mut bitmap = Bitmap::new_filled(TILE_SIZE, TILE_SIZE, PixelRGBA::transparent());
    let pos = Vec2i::new(
        block_centered_in_block(glyph_bitmap.width, TILE_SIZE),
        block_centered_in_block(glyph_bitmap.height, TILE_SIZE),
    );
    // A transparent ground counts as dark, so the glyph is drawn in white.
    blit_symbol(glyph_bitmap, &mut bitmap, pos, PixelRGBA::transparent(), false);
    bitmap
}

/// Makes the alphanumeric symbols from the glyphs of their characters, in their order.
pub fn create_alphanumeric_symbols(glyphs: &[Bitmap]) -> (symbols: Vec<Bitmap>)
    requires
        forall|i: int|
            0 <= i < glyphs@.len() ==> (#[trigger] glyphs@[i]).wf() && glyphs@[i].width
                <= TILE_SIZE && glyphs@[i].height <= TILE_SIZE,
    ensures
        symbols@.len() == glyphs@.len(),
        forall|i: int|
            0 <= i < symbols@.len() ==> {
                &&& (#[trigger] symbols@[i]).wf()
                &&& symbols@[i].width == TILE_SIZE
                &&& symbols@[i].height == TILE_SIZE
                &&& symbols@[i]@ == alphanumeric_symbol_image(glyphs@[i]@)
            },
{
    let mut symbols: Vec<Bitmap> = Vec::new();
    let mut i: usize = 0;
    while i < glyphs.len()
        invariant
            i <= glyphs.len(),
            symbols@.len() == i,
            forall|k: int|
                0 <= k < glyphs@.len() ==> (#[trigger] glyphs@[k]).wf() && glyphs@[k].width
                    <= TILE_SIZE && glyphs@[k].height <= TILE_SIZE,
            forall|k: int|
                0 <= k < i ==> {
                    &&& (#[trigger] symbols@[k]).wf()
                    &&& symbols@[k].width == TILE_SIZE
                    &&& symbols@[k].height == TILE_SIZE
                    &&& symbols@[k]@ == alphanumeric_symbol_image(glyphs@[k]@)
                },
        decreases glyphs.len() - i,
    {
        symbols.push(create_alphanumeric_symbol(&glyphs[i]));
        i += 1;
    }
    symbols
}

} // verus!
