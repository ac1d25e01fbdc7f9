//! The preview of the stitched fabric: the fabric behind the stitches, and where each
//! stitch goes.

use vstd::prelude::*;
use vstd::arithmetic::div_mod::lemma_fundamental_div_mod;
use vstd::arithmetic::div_mod::lemma_fundamental_div_mod_converse;
use vstd::arithmetic::div_mod::lemma_mod_bound;
use crate::bitmap::lemma_image_equal;
use crate::bitmap::outside;
use crate::bitmap::Bitmap;
use crate::bitmap::Image;
use crate::color::PixelRGBA;
use crate::mapping::has_color;
use crate::mapping::position_of;
use crate::mapping::visible_count;
use crate::mapping::ColorInfo;
use crate::mapping::ColorMapping;
use crate::math::Vec2i;
use crate::pattern::is_storable;
use crate::pattern::storable;

verus! {

/// How many cells of margin the preview has on every side of the pattern.
pub const PREVIEW_MARGIN: i32 = 10;

/// How many cells the image of the fabric spans in each direction.
pub const FABRIC_CELLS: i32 = 8;

/// The coordinate `p` folded into a stretch of length `extent` that repeats.
pub open spec fn wrapped(p: int, extent: int) -> int {
    p % extent
}

/// The width of one cell of the preview where the image of the fabric is `extent`
/// pixels wide: an eighth of it.
pub open spec fn preview_cell(extent: int) -> int {
    extent / (FABRIC_CELLS as int)
}

/// The fabric behind the stitches of a preview of `columns` by `rows` cells: the image
/// of the fabric, repeated from the top-left corner.
pub open spec fn preview_background_image(columns: int, rows: int, fabric: Image) -> Image {
    let width = preview_cell(fabric.width) * columns;
    let height = preview_cell(fabric.height) * rows;
    Image {
        width,
        height,
        pixels: |px: int, py: int|
            if 0 <= px < width && 0 <= py < height {
                fabric.pixel(wrapped(px, fabric.width), wrapped(py, fabric.height))
            } else {
                outside()
            },
    }
}

/// `preview_background_image` as far as it has come when the rows above `done_y` are
/// laid, and of the rows from there to `next_y` the columns left of `done_x`.
spec fn background_upto(
    columns: int,
    rows: int,
    fabric: Image,
    done_y: int,
    next_y: int,
    done_x: int,
) -> Image {
    let width = preview_cell(fabric.width) * columns;
    let height = preview_cell(fabric.height) * rows;
    Image {
        width,
        height,
        pixels: |px: int, py: int|
            if 0 <= px < width && 0 <= py < height && (py < done_y || (py < next_y && px < done_x)) {
                fabric.pixel(wrapped(px, fabric.width), wrapped(py, fabric.height))
            } else {
                outside()
            },
    }
}

/// A coordinate inside the copy of a stretch that starts at a multiple of the
/// stretch's length folds to its distance from that start.
proof fn lemma_wrapped(p: int, extent: int, copy: int)
    requires
        0 < extent,
        copy * extent <= p < copy * extent + extent,
    ensures
        wrapped(p, extent) == p - copy * extent,
{
    lemma_fundamental_div_mod_converse(p, extent, copy, p - copy * extent);
}

/// The copies of the fabric that are laid reach past the end of the preview.
proof fn lemma_copies_cover(extent: int, cells: int)
    requires
        0 <= extent,
        0 <= cells,
    ensures
        preview_cell(extent) * cells <= extent * (cells / (FABRIC_CELLS as int) + 1),
        0 <= preview_cell(extent) * cells,
        0 <= extent * (cells / (FABRIC_CELLS as int) + 1) <= extent * cells + extent,
{
    let cell = extent / 8;
    let copies = cells / 8;
    assert(cell * cells <= extent * (copies + 1) && 0 <= cell * cells && 0 <= extent * (copies
        + 1) <= extent * cells + extent) by (nonlinear_arith)
        requires
            0 <= extent,
            0 <= cells,
            cell == extent / 8,
            copies == cells / 8,
            8 * cell <= extent,
            cells < 8 * copies + 8,
            0 <= copies <= cells,
    ;
}

/// Lays the fabric behind a preview of `columns` by `rows` cells.
pub fn create_preview_background(columns: i32, rows: i32, fabric: &Bitmap) -> (layer: Bitmap)
    requires
        fabric.wf(),
        0 <= columns,
        0 <= rows,
        storable(
            preview_cell(fabric.width as int) * columns,
            preview_cell(fabric.height as int) * rows,
        ),
    ensures
        layer.wf(),
        layer@ == preview_background_image(columns as int, rows as int, fabric@),
{
    let ghost source = fabric@;
    proof {
        lemma_copies_cover(fabric.width as int, columns as int);
        lemma_copies_cover(fabric.height as int, rows as int);
    }
    let tile_width: i32 = fabric.width / FABRIC_CELLS;
    let tile_height: i32 = fabric.height / FABRIC_CELLS;
    let mut layer = Bitmap::new(tile_width * columns, tile_height * rows);
    let width: i64 = layer.width as i64;
    let height: i64 = layer.height as i64;
    if width == 0 || height == 0 {
        proof {
            lemma_image_equal(
                layer@,
                preview_background_image(columns as int, rows as int, source),
            );
        }
        return layer;
    }
    let full_width: i64 = fabric.width as i64;
    let full_height: i64 = fabric.height as i64;
    let copies_x: i64 = (columns / FABRIC_CELLS) as i64 + 1;
    let copies_y: i64 = (rows / FABRIC_CELLS) as i64 + 1;
    assert(0 < full_width && 0 < full_height) by (nonlinear_arith)
        requires
            width == (full_width / 8) * columns,
            height == (full_height / 8) * rows,
            width != 0,
            height != 0,
            0 <= full_width,
            0 <= full_height,
    ;
    let mut y: i64 = 0;
    proof {
        assert(0 * full_height == 0) by (nonlinear_arith);
        lemma_image_equal(
            layer@,
            background_upto(columns as int, rows as int, source, 0, full_height as int, 0),
        );
    }
    while y < copies_y
        invariant
            0 <= y <= copies_y,
            fabric.wf(),
            source == fabric@,
            source.width == full_width,
            source.height == full_height,
            0 < full_width <= i32::MAX,
            0 < full_height <= i32::MAX,
            full_width == fabric.width,
            full_height == fabric.height,
            0 <= columns,
            0 <= rows,
            copies_x == columns / FABRIC_CELLS + 1,
            copies_y == rows / FABRIC_CELLS + 1,
            copies_x <= 0x1000_0001,
            copies_y <= 0x1000_0001,
            width <= full_width * copies_x,
            height <= full_height * copies_y,
            layer.wf(),
            layer.width == width,
            layer.height == height,
            width == preview_cell(full_width as int) * columns,
            height == preview_cell(full_height as int) * rows,
            0 < width,
            0 < height,
            layer@ == background_upto(
                columns as int,
                rows as int,
                source,
                y * full_height,
                y * full_height + full_height,
                0,
            ),
        decreases copies_y - y,
    {
        proof {
            assert(0 <= y * full_height <= copies_y * full_height) by (nonlinear_arith)
                requires
                    0 <= y <= copies_y,
                    0 < full_height,
            ;
            assert(copies_y * full_height <= 0x1000_0001 * 0x8000_0000) by (nonlinear_arith)
                requires
                    0 <= copies_y <= 0x1000_0001,
                    0 < full_height <= 0x8000_0000,
            ;
        }
        let top: i64 = y * full_height;
        let mut x: i64 = 0;
        proof {
            assert(0 * full_width == 0) by (nonlinear_arith);
        }
        while x < copies_x
            invariant
                0 <= x <= copies_x,
                0 <= y < copies_y,
                top == y * full_height,
                0 <= top,
                fabric.wf(),
                source == fabric@,
                source.width == full_width,
                source.height == full_height,
                0 < full_width <= i32::MAX,
                0 < full_height <= i32::MAX,
                full_width == fabric.width,
                full_height == fabric.height,
                copies_x == columns / FABRIC_CELLS + 1,
                copies_x <= 0x1000_0001,
                0 <= columns,
                width <= full_width * copies_x,
                layer.wf(),
                layer.width == width,
                layer.height == height,
                width == preview_cell(full_width as int) * columns,
                height == preview_cell(full_height as int) * rows,
                0 < width <= i32::MAX,
                0 < height <= i32::MAX,
                layer@ == background_upto(
                    columns as int,
                    rows as int,
                    source,
                    top as int,
                    top + full_height,
                    x * full_width,
                ),
            decreases copies_x - x,
        {
            proof {
                assert(0 <= x * full_width <= copies_x * full_width) by (nonlinear_arith)
                    requires
                        0 <= x <= copies_x,
                        0 < full_width,
                ;
                assert(copies_x * full_width <= 0x1000_0001 * 0x8000_0000) by (nonlinear_arith)
                    requires
                        0 <= copies_x <= 0x1000_0001,
                        0 < full_width <= 0x8000_0000,
                ;
                assert((x + 1) * full_width == x * full_width + full_width) by (nonlinear_arith);
            }
            let left: i64 = x * full_width;
            if left < width && top < height {
                fabric.blit_to(&mut layer, left as i32, top as i32);
            }
            x += 1;
            proof {
                let after = background_upto(
                    columns as int,
                    rows as int,
                    source,
                    top as int,
                    top + full_height,
                    left + full_width,
                );
                assert forall|px: int, py: int| #[trigger]
                    layer@.pixel(px, py) == after.pixel(px, py) by {
                    if 0 <= px < width && 0 <= py < height && top <= py < top + full_height && left
                        <= px < left + full_width {
                        lemma_wrapped(px, full_width as int, x - 1);
                        lemma_wrapped(py, full_height as int, y as int);
                    }
                }
                lemma_image_equal(layer@, after);
            }
        }
        y += 1;
        proof {
            assert(y * full_height == top + full_height) by (nonlinear_arith)
                requires
                    top == (y - 1) * full_height,
            ;
            assert(x * full_width == full_width * copies_x) by (nonlinear_arith)
                requires
                    x == copies_x,
            ;
            lemma_image_equal(
                layer@,
                background_upto(
                    columns as int,
                    rows as int,
                    source,
                    y * full_height,
                    y * full_height + full_height,
                    0,
                ),
            );
        }
    }
    proof {
        assert(y * full_height == full_height * copies_y) by (nonlinear_arith)
            requires
                y == copies_y,
        ;
        lemma_image_equal(layer@, preview_background_image(columns as int, rows as int, source));
    }
    layer
}

/// One stitch of the preview: which colour it has, which of the colour's stitch images
/// shows it, and where the top-left corner of that image goes.
#[derive(Debug, Clone, Copy, PartialEq, Eq, Structural)]
pub struct StitchPlacement {
    pub entry: usize,
    pub variant: usize,
    pub position: Vec2i,
}

/// Where the stitch image of the cell in the given column and row goes: its centre
/// lies half a cell's width right of and below the cell's top-left corner, the cell
/// counted from the margin of the preview.
pub open spec fn stitch_position(
    column: int,
    row: int,
    tile_width: int,
    tile_height: int,
    stitch_width: int,
    stitch_height: int,
) -> Vec2i {
    Vec2i {
        x: (tile_width * (column + PREVIEW_MARGIN) + tile_width / 2 - stitch_width / 2) as i32,
        y: (tile_height * (row + PREVIEW_MARGIN) + tile_width / 2 - stitch_height / 2) as i32,
    }
}

/// The stitch of a pixel of the given colour: of the stitch images of its colour the
/// one that the random number picks.
pub open spec fn stitch_placement(
    entries: Seq<ColorInfo>,
    color: PixelRGBA,
    column: int,
    row: int,
    tile_width: int,
    tile_height: int,
    random: u32,
) -> StitchPlacement {
    let entry = position_of(entries, color);
    let stitches = entries[entry].stitches_premultiplied@;
    let variant = (random as int) % (stitches.len() as int);
    StitchPlacement {
        entry: entry as usize,
        variant: variant as usize,
        position: stitch_position(
            column,
            row,
            tile_width,
            tile_height,
            stitches[variant].width as int,
            stitches[variant].height as int,
        ),
    }
}

/// The stitches of the first `count` pixels of an image of the given width, row by
/// row: one for each visible pixel, the n-th of them picked by the n-th random number.
pub open spec fn stitch_placements(
    pixels: Seq<PixelRGBA>,
    width: int,
    entries: Seq<ColorInfo>,
    tile_width: int,
    tile_height: int,
    randoms: Seq<u32>,
    count: int,
) -> Seq<StitchPlacement>
    decreases count,
{
    if count <= 0 {
        Seq::empty()
    } else {
        let rest = stitch_placements(
            pixels,
            width,
            entries,
            tile_width,
            tile_height,
            randoms,
            count - 1,
        );
        let pixel = pixels[count - 1];
        if pixel.a != 0 {
            rest.push(
                stitch_placement(
                    entries,
                    pixel,
                    (count - 1) % width,
                    (count - 1) / width,
                    tile_width,
                    tile_height,
                    randoms[visible_count(pixels.take(count - 1)) as int],
                ),
            )
        } else {
            rest
        }
    }
}

/// Among the first pixels there are at most as many visible ones as among all.
pub proof fn lemma_visible_count_monotonic(pixels: Seq<PixelRGBA>, count: int)
    requires
        0 <= count <= pixels.len(),
    ensures
        visible_count(pixels.take(count)) <= visible_count(pixels),
        visible_count(pixels.take(count)) <= count,
    decreases pixels.len() - count,
{
    if count == pixels.len() {
        assert(pixels.take(count) =~= pixels);
        lemma_visible_count_bound(pixels);
    } else {
        lemma_visible_count_monotonic(pixels, count + 1);
        assert(pixels.take(count + 1).drop_last() =~= pixels.take(count));
        lemma_visible_count_bound(pixels.take(count));
    }
}

/// There are at most as many visible pixels as pixels.
pub proof fn lemma_visible_count_bound(pixels: Seq<PixelRGBA>)
    ensures
        visible_count(pixels) <= pixels.len(),
    decreases pixels.len(),
{
    if pixels.len() > 0 {
        lemma_visible_count_bound(pixels.drop_last());
    }
}

/// A place in a buffer that is stored row by row names a column and a row.
proof fn lemma_place_in_grid(index: int, width: int, height: int)
    requires
        0 <= index < width * height,
        0 <= width,
        0 <= height,
    ensures
        0 < width,
        0 <= index % width < width,
        0 <= index / width < height,
{
    assert(width > 0) by (nonlinear_arith)
        requires
            0 <= index < width * height,
            0 <= width,
    ;
    lemma_fundamental_div_mod(index, width);
    lemma_mod_bound(index, width);
    let q = index / width;
    assert(0 <= q < height) by (nonlinear_arith)
        requires
            index == width * q + index % width,
            0 <= index % width < width,
            0 <= index < width * height,
            0 < width,
    ;
}

/// Says where the stitches of a preview go: one stitch for each visible pixel, row by
/// row. Each stitch shows one of the stitch images of its colour; which one, the
/// random numbers decide, one number for each stitch in their order.
pub fn plan_preview_stitches(
    bitmap: &Bitmap,
    color_mappings: &ColorMapping,
    tile_width: i32,
    tile_height: i32,
    random_values: &[u32],
) -> (placements: Vec<StitchPlacement>)
    requires
        bitmap.wf(),
        color_mappings.wf(),
        forall|i: int|
            0 <= i < bitmap.data@.len() && (#[trigger] bitmap.data@[i]).a != 0 ==> has_color(
                color_mappings@,
                bitmap.data@[i],
            ),
        forall|i: int|
            0 <= i < color_mappings@.len() ==> (
            #[trigger] color_mappings@[i]).stitches_premultiplied@.len() >= 1,
        0 <= tile_width,
        0 <= tile_height,
        tile_width * (bitmap.width + 2 * PREVIEW_MARGIN) + tile_width / 2 <= i32::MAX,
        tile_height * (bitmap.height + 2 * PREVIEW_MARGIN) + tile_width / 2 <= i32::MAX,
        random_values@.len() >= visible_count(bitmap.data@),
    ensures
        placements@ == stitch_placements(
            bitmap.data@,
            bitmap.width as int,
            color_mappings@,
            tile_width as int,
            tile_height as int,
            random_values@,
            bitmap.data@.len() as int,
        ),
        placements@.len() == visible_count(bitmap.data@),
{
    let ghost pixels = bitmap.data@;
    let ghost entries = color_mappings@;
    proof {
        color_mappings.lemma_wf();
    }
    let mut placements: Vec<StitchPlacement> = Vec::new();
    let mut ordinal: usize = 0;
    let mut i: usize = 0;
    while i < bitmap.data.len()
        invariant
            i <= bitmap.data.len(),
            bitmap.wf(),
            color_mappings.wf(),
            pixels == bitmap.data@,
            entries == color_mappings@,
            forall|k: int|
                0 <= k < pixels.len() && (#[trigger] pixels[k]).a != 0 ==> has_color(
                    entries,
                    pixels[k],
                ),
            forall|k: int|
                0 <= k < entries.len() ==> (#[trigger] entries[k]).stitches_premultiplied@.len()
                    >= 1 && entries[k].wf(),
            0 <= tile_width,
            0 <= tile_height,
            tile_width * (bitmap.width + 2 * PREVIEW_MARGIN) + tile_width / 2 <= i32::MAX,
            tile_height * (bitmap.height + 2 * PREVIEW_MARGIN) + tile_width / 2 <= i32::MAX,
            random_values@.len() >= visible_count(pixels),
            ordinal == visible_count(pixels.take(i as int)),
            placements@.len() == ordinal,
            placements@ == stitch_placements(
                pixels,
                bitmap.width as int,
                entries,
                tile_width as int,
                tile_height as int,
                random_values@,
                i as int,
            ),
        decreases bitmap.data.len() - i,
    {
        let pixel = bitmap.data[i];
        proof {
            assert(pixels.take(i + 1).drop_last() =~= pixels.take(i as int));
            lemma_visible_count_monotonic(pixels, i + 1);
            lemma_place_in_grid(i as int, bitmap.width as int, bitmap.height as int);
        }
        if pixel.a != 0 {
            let width = bitmap.width as usize;
            let column: i64 = (i % width) as i64;
            let row: i64 = (i / width) as i64;
            let entry = color_mappings.index_of(&pixel).unwrap();
            let info = color_mappings.get_index(entry);
            let stitches_count = info.stitches_premultiplied.len();
            let variant: usize = (random_values[ordinal] as usize) % stitches_count;
            let stitch = &info.stitches_premultiplied[variant];
            proof {
                assert(entries[entry as int].wf());
                assert(stitch.wf());
                assert(0 <= tile_width * (column + PREVIEW_MARGIN) <= tile_width * (bitmap.width + 2
                    * PREVIEW_MARGIN)) by (nonlinear_arith)
                    requires
                        0 <= tile_width,
                        0 <= column < bitmap.width,
                        PREVIEW_MARGIN == 10,
                ;
                assert(0 <= tile_height * (row + PREVIEW_MARGIN) <= tile_height * (bitmap.height + 2
                    * PREVIEW_MARGIN)) by (nonlinear_arith)
                    requires
                        0 <= tile_height,
                        0 <= row < bitmap.height,
                        PREVIEW_MARGIN == 10,
                ;
            }
            let half: i64 = (tile_width / 2) as i64;
            let x: i64 = (tile_width as i64) * (column + PREVIEW_MARGIN as i64) + half - (
            stitch.width / 2) as i64;
            let y: i64 = (tile_height as i64) * (row + PREVIEW_MARGIN as i64) + half - (
            stitch.height / 2) as i64;
            placements.push(
                StitchPlacement { entry, variant, position: Vec2i::new(x as i32, y as i32) },
            );
            ordinal += 1;
        }
        i += 1;
    }
    proof {
        assert(pixels.take(pixels.len() as int) =~= pixels);
    }
    placements
}

/// Lays the fabric behind a preview, or returns `None` where the number of columns
/// or rows is negative or the background is too large to be held.
pub fn try_create_preview_background(columns: i32, rows: i32, fabric: &Bitmap) -> (result: Option<
    Bitmap,
>)
    requires
        fabric.wf(),
    ensures
        result.is_some() == (0 <= columns && 0 <= rows && storable(
            preview_cell(fabric.width as int) * columns,
            preview_cell(fabric.height as int) * rows,
        )),
        result matches Some(layer) ==> layer.wf() && layer@ == preview_background_image(
            columns as int,
            rows as int,
            fabric@,
        ),
{
    if columns < 0 || rows < 0 {
        return None;
    }
    let tile_width: i64 = (fabric.width / FABRIC_CELLS) as i64;
    let tile_height: i64 = (fabric.height / FABRIC_CELLS) as i64;
    assert(0 <= tile_width * columns <= 0x1000_0000 * 0x8000_0000 && 0 <= tile_height * rows
        <= 0x1000_0000 * 0x8000_0000) by (nonlinear_arith)
        requires
            0 <= tile_width <= 0x1000_0000,
            0 <= tile_height <= 0x1000_0000,
            0 <= columns <= 0x8000_0000,
            0 <= rows <= 0x8000_0000,
    ;
    if !is_storable(tile_width * columns as i64, tile_height * rows as i64) {
        return None;
    }
    Some(create_preview_background(columns, rows, fabric))
}

/// Whether the stitches of a preview can be placed: every visible pixel has an entry,
/// every entry has a stitch image, there is a random number for every stitch, and no
/// stitch lies too far out to be addressed.
pub open spec fn preview_plannable(
    bitmap: Bitmap,
    entries: Seq<ColorInfo>,
    tile_width: int,
    tile_height: int,
    randoms: int,
) -> bool {
    &&& forall|i: int|
        0 <= i < bitmap.data@.len() && (#[trigger] bitmap.data@[i]).a != 0 ==> has_color(
            entries,
            bitmap.data@[i],
        )
    &&& forall|i: int|
        0 <= i < entries.len() ==> (#[trigger] entries[i]).stitches_premultiplied@.len() >= 1
    &&& 0 <= tile_width
    &&& 0 <= tile_height
    &&& tile_width * (bitmap.width + 2 * PREVIEW_MARGIN) + tile_width / 2 <= i32::MAX
    &&& tile_height * (bitmap.height + 2 * PREVIEW_MARGIN) + tile_width / 2 <= i32::MAX
    &&& randoms >= visible_count(bitmap.data@)
}

/// How many pixels of a buffer are visible.
fn count_visible(pixels: &Vec<PixelRGBA>) -> (count: usize)
    ensures
        count == visible_count(pixels@),
{
    let mut count: usize = 0;
    let mut i: usize = 0;
    while i < pixels.len()
        invariant
            i <= pixels.len(),
            count == visible_count(pixels@.take(i as int)),
            count <= i,
        decreases pixels.len() - i,
    {
        proof {
            assert(pixels@.take(i + 1).drop_last() =~= pixels@.take(i as int));
        }
        if pixels[i].a != 0 {
            count += 1;
        }
        i += 1;
    }
    proof {
        assert(pixels@.take(pixels@.len() as int) =~= pixels@);
    }
    count
}

/// Says where the stitches of a preview go, or returns `None` where they cannot be
/// placed.
pub fn try_plan_preview_stitches(
    bitmap: &Bitmap,
    color_mappings: &ColorMapping,
    tile_width: i32,
    tile_height: i32,
    random_values: &[u32],
) -> (result: Option<Vec<StitchPlacement>>)
    requires
        bitmap.wf(),
        color_mappings.wf(),
    ensures
        result.is_some() == preview_plannable(
            *bitmap,
            color_mappings@,
            tile_width as int,
            tile_height as int,
            random_values@.len() as int,
        ),
        result matches Some(placements) ==> placements@ == stitch_placements(
            bitmap.data@,
            bitmap.width as int,
            color_mappings@,
            tile_width as int,
            tile_height as int,
            random_values@,
            bitmap.data@.len() as int,
        ),
{
    if tile_width < 0 || tile_height < 0 {
        return None;
    }
    let half: i64 = (tile_width / 2) as i64;
    let columns: i64 = bitmap.width as i64 + 2 * (PREVIEW_MARGIN as i64);
    let rows: i64 = bitmap.height as i64 + 2 * (PREVIEW_MARGIN as i64);
    assert(0 <= tile_width * columns <= 0x7fff_ffff * 0x8000_0014 && 0 <= tile_height * rows
        <= 0x7fff_ffff * 0x8000_0014) by (nonlinear_arith)
        requires
            0 <= tile_width <= 0x7fff_ffff,
            0 <= tile_height <= 0x7fff_ffff,
            0 <= columns <= 0x8000_0014,
            0 <= rows <= 0x8000_0014,
    ;
    if (tile_width as i64) * columns + half > i32::MAX as i64 || (tile_height as i64) * rows + half
        > i32::MAX as i64 {
        return None;
    }
    if random_values.len() < count_visible(&bitmap.data) {
        return None;
    }
    let entries = color_mappings.entries();
    let mut k: usize = 0;
    while k < entries.len()
        invariant
            k <= entries.len(),
            entries@ == color_mappings@,
            forall|i: int| 0 <= i < k ==> (#[trigger] entries@[i]).stitches_premultiplied@.len() >= 1,
        decreases entries.len() - k,
    {
        if entries[k].stitches_premultiplied.len() == 0 {
            return None;
        }
        k += 1;
    }
    let mut i: usize = 0;
    while i < bitmap.data.len()
        invariant
            i <= bitmap.data.len(),
            color_mappings.wf(),
            forall|j: int|
                0 <= j < i && (#[trigger] bitmap.data@[j]).a != 0 ==> has_color(
                    color_mappings@,
                    bitmap.data@[j],
                ),
        decreases bitmap.data.len() - i,
    {
        let pixel = bitmap.data[i];
        if pixel.a != 0 && color_mappings.index_of(&pixel).is_none() {
            return None;
        }
        i += 1;
    }
    Some(plan_preview_stitches(bitmap, color_mappings, tile_width, tile_height, random_values))
}

} // verus!
