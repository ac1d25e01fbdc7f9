//! The legend layout engine: the sheet that lists every colour of a pattern with
//! its swatch, symbol, count and thread, and shows how the pages lie.

use vstd::prelude::*;
use vstd::arithmetic::div_mod::lemma_fundamental_div_mod_converse;
use vstd::slice::slice_subrange;
use crate::bitmap::all_within;
use crate::bitmap::glued_together;
use crate::bitmap::lemma_area_fits;
use crate::bitmap::lemma_glued_together_bounds;
use crate::bitmap::lemma_glued_together_fits;
use crate::bitmap::spec_max;
use crate::bitmap::glued_together_storable;
use crate::bitmap::images_of;
use crate::bitmap::Bitmap;
use crate::bitmap::GluePosition;
use crate::bitmap::Image;
use crate::color::PixelRGBA;
use crate::constants::spec_black;
use crate::constants::spec_white;
use crate::constants::LEGEND_BLOCK_ENTRY_COUNT;
use crate::constants::LEGEND_COLUMN_CAP;
use crate::constants::TILE_SIZE;
use crate::mapping::total_count;
use crate::mapping::ColorInfo;
use crate::mapping::ColorMapping;
use crate::quantize::Palette;
use crate::text::legend_entry_text;
use crate::text::legend_stats_text;
use crate::text::spec_legend_entry_text;
use crate::text::spec_legend_stats_text;
use crate::labels::GridLabel;
use crate::math::Vec2i;
use crate::pattern::blit_symbol;
use crate::pattern::is_storable;
use crate::pattern::storable;

verus! {

/// The swatch of a legend entry: a cell filled with the colour, and beside it a white
/// cell with the colour's symbol in black, each with a black outline.
pub open spec fn swatch_image(info: ColorInfo) -> Image {
    Image::filled(2 * TILE_SIZE, TILE_SIZE as int, spec_white()).fill_rect(
        0,
        0,
        TILE_SIZE as int,
        TILE_SIZE as int,
        info.color,
    ).stroke_rect(0, 0, TILE_SIZE as int, TILE_SIZE as int, spec_black()).stamp(
        info.symbol@,
        TILE_SIZE as int,
        0,
        spec_white(),
        spec_black(),
    ).stroke_rect(TILE_SIZE as int, 0, TILE_SIZE as int, TILE_SIZE as int, spec_black())
}

/// A legend entry: the swatch, and to its right, centred on it, the entry's text.
pub open spec fn legend_entry_image(info: ColorInfo, text: Image) -> Image {
    text.glued_to(swatch_image(info), GluePosition::RightCenter, 0, spec_white())
}

/// Draws the swatch of a legend entry.
fn create_swatch(info: &ColorInfo) -> (swatch: Bitmap)
    requires
        info.drawable(),
    ensures
        swatch.wf(),
        swatch.width == 2 * TILE_SIZE,
        swatch.height == TILE_SIZE,
        swatch@ == swatch_image(*info),
{
    let mut color_symbol_map = Bitmap::new_filled(2 * TILE_SIZE, TILE_SIZE, PixelRGBA::white());
    color_symbol_map.draw_rect_filled(0, 0, TILE_SIZE, TILE_SIZE, info.color);
    color_symbol_map.draw_rect(0, 0, TILE_SIZE, TILE_SIZE, PixelRGBA::black());
    blit_symbol(
        &info.symbol,
        &mut color_symbol_map,
        Vec2i::new(TILE_SIZE, 0),
        PixelRGBA::white(),
        true,
    );
    color_symbol_map.draw_rect(TILE_SIZE, 0, TILE_SIZE, TILE_SIZE, PixelRGBA::black());
    color_symbol_map
}

/// Makes the legend entry of one colour from the colour's entry and the rendered
/// text that goes with it.
pub fn create_legend_entry(info: &ColorInfo, stitches_info: &Bitmap) -> (entry: Bitmap)
    requires
        info.drawable(),
        stitches_info.wf(),
        legend_entry_image(*info, stitches_info@).storable(),
    ensures
        entry.wf(),
        entry@ == legend_entry_image(*info, stitches_info@),
{
    let color_symbol_map = create_swatch(info);
    stitches_info.glued_to(&color_symbol_map, GluePosition::RightCenter, 0, PixelRGBA::white())
}

/// The entries of the given colours, each with the text of the same place.
pub open spec fn legend_entry_images(infos: Seq<ColorInfo>, texts: Seq<Image>) -> Seq<Image> {
    Seq::new(infos.len(), |i: int| legend_entry_image(infos[i], texts[i]))
}

/// A legend block: the entries of the given colours, one below the other.
pub open spec fn legend_block_image(infos: Seq<ColorInfo>, texts: Seq<Image>) -> Image {
    glued_together(
        legend_entry_images(infos, texts),
        GluePosition::BottomLeft,
        TILE_SIZE as int,
        spec_white(),
    )
}

/// Whether every image that arises while a legend block is made can be held by a bitmap.
pub open spec fn legend_block_storable(infos: Seq<ColorInfo>, texts: Seq<Image>) -> bool {
    &&& forall|i: int|
        0 <= i < infos.len() ==> (#[trigger] legend_entry_images(infos, texts)[i]).storable()
    &&& glued_together_storable(
        legend_entry_images(infos, texts),
        GluePosition::BottomLeft,
        TILE_SIZE as int,
    )
}

/// Makes a legend block from the entries of some colours and their rendered texts.
pub fn create_legend_block(infos: &[ColorInfo], texts: &[Bitmap]) -> (block: Bitmap)
    requires
        infos@.len() == texts@.len(),
        forall|i: int| 0 <= i < infos@.len() ==> (#[trigger] infos@[i]).drawable(),
        forall|i: int| 0 <= i < texts@.len() ==> (#[trigger] texts@[i]).wf(),
        legend_block_storable(infos@, images_of(texts@)),
    ensures
        block.wf(),
        block@ == legend_block_image(infos@, images_of(texts@)),
{
    let ghost expected = legend_entry_images(infos@, images_of(texts@));
    let mut entries: Vec<Bitmap> = Vec::new();
    let mut i: usize = 0;
    while i < infos.len()
        invariant
            i <= infos.len(),
            infos@.len() == texts@.len(),
            forall|k: int| 0 <= k < infos@.len() ==> (#[trigger] infos@[k]).drawable(),
            forall|k: int| 0 <= k < texts@.len() ==> (#[trigger] texts@[k]).wf(),
            expected == legend_entry_images(infos@, images_of(texts@)),
            forall|k: int| 0 <= k < infos@.len() ==> (#[trigger] expected[k]).storable(),
            entries.len() == i,
            forall|k: int| 0 <= k < i ==> (#[trigger] entries[k]).wf() && entries[k]@ == expected[k],
        decreases infos.len() - i,
    {
        proof {
            assert(expected[i as int].storable());
            assert(images_of(texts@)[i as int] == texts@[i as int]@);
        }
        let entry = create_legend_entry(&infos[i], &texts[i]);
        entries.push(entry);
        i += 1;
    }
    proof {
        assert(images_of(entries@) =~= expected);
    }
    Bitmap::glue_together_multiple(
        entries.as_slice(),
        GluePosition::BottomLeft,
        TILE_SIZE,
        PixelRGBA::white(),
    )
}

/// How many chunks of `size` items a list of `len` items is cut into.
pub open spec fn chunk_count(len: int, size: int) -> int {
    (len + size - 1) / size
}

/// Where the chunk with the given index ends: `size` items after its start, or at the
/// end of the list where that comes first.
pub open spec fn chunk_end(len: int, chunk: int, size: int) -> int {
    if chunk * size + size < len {
        chunk * size + size
    } else {
        len
    }
}

/// The legend blocks: the entries in chunks of `LEGEND_BLOCK_ENTRY_COUNT`, each chunk a block.
pub open spec fn legend_block_images(infos: Seq<ColorInfo>, texts: Seq<Image>) -> Seq<Image> {
    let size = LEGEND_BLOCK_ENTRY_COUNT as int;
    Seq::new(
        chunk_count(infos.len() as int, size) as nat,
        |block: int|
            legend_block_image(
                infos.subrange(block * size, chunk_end(infos.len() as int, block, size)),
                texts.subrange(block * size, chunk_end(infos.len() as int, block, size)),
            ),
    )
}

/// The blocks of the row with the given index: the blocks in chunks of
/// `LEGEND_COLUMN_CAP`, each chunk a row.
pub open spec fn legend_row_blocks(blocks: Seq<Image>, row: int) -> Seq<Image> {
    let cap = LEGEND_COLUMN_CAP as int;
    blocks.subrange(row * cap, chunk_end(blocks.len() as int, row, cap))
}

/// The rows of the legend: at most `LEGEND_COLUMN_CAP` blocks side by side in each,
/// the blocks in their order.
pub open spec fn legend_row_images(blocks: Seq<Image>) -> Seq<Image> {
    Seq::new(
        chunk_count(blocks.len() as int, LEGEND_COLUMN_CAP as int) as nat,
        |row: int|
            glued_together(
                legend_row_blocks(blocks, row),
                GluePosition::RightTop,
                TILE_SIZE as int,
                spec_white(),
            ),
    )
}

/// The part of the legend that lists the colours: the rows one below the other, and a
/// white margin of one and a half cells below them.
pub open spec fn legend_colors_image(infos: Seq<ColorInfo>, texts: Seq<Image>) -> Image {
    glued_together(
        legend_row_images(legend_block_images(infos, texts)),
        GluePosition::BottomLeft,
        TILE_SIZE as int,
        spec_white(),
    ).extended(0, 0, 0, TILE_SIZE + TILE_SIZE / 2, spec_white())
}

/// The legend before its outer margin: the statistics above the colours and, where
/// the pattern has several pages, the page layout below them under a black rule.
pub open spec fn legend_body_image(
    infos: Seq<ColorInfo>,
    texts: Seq<Image>,
    stats: Image,
    page_layout: Option<Image>,
) -> Image {
    let colors = stats.glued_to(
        legend_colors_image(infos, texts),
        GluePosition::TopLeft,
        0,
        spec_white(),
    );
    match page_layout {
        Some(layout) => {
            let both = colors.glued_to(layout, GluePosition::TopLeft, 0, spec_white());
            both.fill_rect(0, both.height - layout.height, both.width, 1, spec_black())
        },
        None => colors,
    }
}

/// The legend sheet: the body with a white margin of one cell on every side.
pub open spec fn legend_image(
    infos: Seq<ColorInfo>,
    texts: Seq<Image>,
    stats: Image,
    page_layout: Option<Image>,
) -> Image {
    legend_body_image(infos, texts, stats, page_layout).extended(
        TILE_SIZE as int,
        TILE_SIZE as int,
        TILE_SIZE as int,
        TILE_SIZE as int,
        spec_white(),
    )
}

/// Whether every image that arises while the legend is made can be held by a bitmap.
pub open spec fn legend_storable(
    infos: Seq<ColorInfo>,
    texts: Seq<Image>,
    stats: Image,
    page_layout: Option<Image>,
) -> bool {
    let size = LEGEND_BLOCK_ENTRY_COUNT as int;
    let blocks = legend_block_images(infos, texts);
    let rows = legend_row_images(blocks);
    let colors = stats.glued_to(
        legend_colors_image(infos, texts),
        GluePosition::TopLeft,
        0,
        spec_white(),
    );
    &&& forall|block: int|
        0 <= block < chunk_count(infos.len() as int, size) ==> #[trigger] legend_block_storable(
            infos.subrange(block * size, chunk_end(infos.len() as int, block, size)),
            texts.subrange(block * size, chunk_end(infos.len() as int, block, size)),
        )
    &&& forall|row: int|
        0 <= row < chunk_count(blocks.len() as int, LEGEND_COLUMN_CAP as int)
            ==> glued_together_storable(
            #[trigger] legend_row_blocks(blocks, row),
            GluePosition::RightTop,
            TILE_SIZE as int,
        )
    &&& glued_together_storable(rows, GluePosition::BottomLeft, TILE_SIZE as int)
    &&& legend_colors_image(infos, texts).storable()
    &&& colors.storable()
    &&& legend_body_image(infos, texts, stats, page_layout).storable()
    &&& legend_image(infos, texts, stats, page_layout).storable()
}

/// Makes the legend blocks of all colours.
fn create_legend_blocks(infos: &[ColorInfo], texts: &[Bitmap]) -> (blocks: Vec<Bitmap>)
    requires
        infos@.len() == texts@.len(),
        forall|i: int| 0 <= i < infos@.len() ==> (#[trigger] infos@[i]).drawable(),
        forall|i: int| 0 <= i < texts@.len() ==> (#[trigger] texts@[i]).wf(),
        forall|block: int|
            0 <= block < chunk_count(infos@.len() as int, LEGEND_BLOCK_ENTRY_COUNT as int)
                ==> #[trigger] legend_block_storable(
                infos@.subrange(
                    block * LEGEND_BLOCK_ENTRY_COUNT as int,
                    chunk_end(infos@.len() as int, block, LEGEND_BLOCK_ENTRY_COUNT as int),
                ),
                images_of(texts@).subrange(
                    block * LEGEND_BLOCK_ENTRY_COUNT as int,
                    chunk_end(infos@.len() as int, block, LEGEND_BLOCK_ENTRY_COUNT as int),
                ),
            ),
    ensures
        images_of(blocks@) == legend_block_images(infos@, images_of(texts@)),
        forall|i: int| 0 <= i < blocks@.len() ==> (#[trigger] blocks@[i]).wf(),
{
    let ghost expected = legend_block_images(infos@, images_of(texts@));
    let ghost len = infos@.len() as int;
    let mut blocks: Vec<Bitmap> = Vec::new();
    let mut start: usize = 0;
    while start < infos.len()
        invariant
            start <= infos.len(),
            len == infos@.len(),
            infos@.len() == texts@.len(),
            start == blocks.len() * LEGEND_BLOCK_ENTRY_COUNT || start == len,
            blocks.len() <= chunk_count(len, LEGEND_BLOCK_ENTRY_COUNT as int),
            start == len ==> blocks.len() == chunk_count(len, LEGEND_BLOCK_ENTRY_COUNT as int),
            expected == legend_block_images(infos@, images_of(texts@)),
            forall|i: int| 0 <= i < infos@.len() ==> (#[trigger] infos@[i]).drawable(),
            forall|i: int| 0 <= i < texts@.len() ==> (#[trigger] texts@[i]).wf(),
            forall|block: int|
                0 <= block < chunk_count(len, LEGEND_BLOCK_ENTRY_COUNT as int)
                    ==> #[trigger] legend_block_storable(
                    infos@.subrange(
                        block * LEGEND_BLOCK_ENTRY_COUNT as int,
                        chunk_end(len, block, LEGEND_BLOCK_ENTRY_COUNT as int),
                    ),
                    images_of(texts@).subrange(
                        block * LEGEND_BLOCK_ENTRY_COUNT as int,
                        chunk_end(len, block, LEGEND_BLOCK_ENTRY_COUNT as int),
                    ),
                ),
            forall|k: int|
                0 <= k < blocks.len() ==> (#[trigger] blocks[k]).wf() && blocks[k]@ == expected[k],
        decreases infos.len() - start,
    {
        let ghost block = blocks.len() as int;
        let end: usize = if infos.len() - start > LEGEND_BLOCK_ENTRY_COUNT {
            start + LEGEND_BLOCK_ENTRY_COUNT
        } else {
            infos.len()
        };
        proof {
            assert(end == chunk_end(len, block, LEGEND_BLOCK_ENTRY_COUNT as int));
            assert(block < chunk_count(len, LEGEND_BLOCK_ENTRY_COUNT as int));
            assert(legend_block_storable(
                infos@.subrange(
                    block * LEGEND_BLOCK_ENTRY_COUNT as int,
                    chunk_end(len, block, LEGEND_BLOCK_ENTRY_COUNT as int),
                ),
                images_of(texts@).subrange(
                    block * LEGEND_BLOCK_ENTRY_COUNT as int,
                    chunk_end(len, block, LEGEND_BLOCK_ENTRY_COUNT as int),
                ),
            ));
        }
        let info_chunk = slice_subrange(infos, start, end);
        let text_chunk = slice_subrange(texts, start, end);
        proof {
            assert(images_of(text_chunk@) =~= images_of(texts@).subrange(
                start as int,
                end as int,
            ));
        }
        let block_bitmap = create_legend_block(info_chunk, text_chunk);
        blocks.push(block_bitmap);
        start = end;
    }
    proof {
        assert(images_of(blocks@) =~= expected);
    }
    blocks
}

/// Lays the blocks out in rows of at most `LEGEND_COLUMN_CAP` blocks.
fn create_legend_rows(blocks: &[Bitmap]) -> (rows: Vec<Bitmap>)
    requires
        forall|i: int| 0 <= i < blocks@.len() ==> (#[trigger] blocks@[i]).wf(),
        forall|row: int|
            0 <= row < chunk_count(blocks@.len() as int, LEGEND_COLUMN_CAP as int)
                ==> glued_together_storable(
                #[trigger] legend_row_blocks(images_of(blocks@), row),
                GluePosition::RightTop,
                TILE_SIZE as int,
            ),
    ensures
        images_of(rows@) == legend_row_images(images_of(blocks@)),
        forall|i: int| 0 <= i < rows@.len() ==> (#[trigger] rows@[i]).wf(),
{
    let ghost images = images_of(blocks@);
    let ghost expected = legend_row_images(images);
    let ghost len = blocks@.len() as int;
    let mut rows: Vec<Bitmap> = Vec::new();
    let mut start: usize = 0;
    while start < blocks.len()
        invariant
            start <= blocks.len(),
            len == blocks@.len(),
            images == images_of(blocks@),
            expected == legend_row_images(images),
            start == rows.len() * LEGEND_COLUMN_CAP || start == len,
            rows.len() <= chunk_count(len, LEGEND_COLUMN_CAP as int),
            start == len ==> rows.len() == chunk_count(len, LEGEND_COLUMN_CAP as int),
            forall|i: int| 0 <= i < blocks@.len() ==> (#[trigger] blocks@[i]).wf(),
            forall|row: int|
                0 <= row < chunk_count(len, LEGEND_COLUMN_CAP as int) ==> glued_together_storable(
                    #[trigger] legend_row_blocks(images, row),
                    GluePosition::RightTop,
                    TILE_SIZE as int,
                ),
            forall|k: int|
                0 <= k < rows.len() ==> (#[trigger] rows[k]).wf() && rows[k]@ == expected[k],
        decreases blocks.len() - start,
    {
        let ghost row = rows.len() as int;
        let end: usize = if blocks.len() - start > LEGEND_COLUMN_CAP {
            start + LEGEND_COLUMN_CAP
        } else {
            blocks.len()
        };
        let chunk = slice_subrange(blocks, start, end);
        proof {
            assert(end == chunk_end(len, row, LEGEND_COLUMN_CAP as int));
            assert(row < chunk_count(len, LEGEND_COLUMN_CAP as int));
            assert(images_of(chunk@) =~= legend_row_blocks(images, row));
            assert(glued_together_storable(
                legend_row_blocks(images, row),
                GluePosition::RightTop,
                TILE_SIZE as int,
            ));
        }
        let row_bitmap = Bitmap::glue_together_multiple(
            chunk,
            GluePosition::RightTop,
            TILE_SIZE,
            PixelRGBA::white(),
        );
        rows.push(row_bitmap);
        start = end;
    }
    proof {
        assert(images_of(rows@) =~= expected);
    }
    rows
}

/// Makes the legend sheet.
///
/// At the top stand the statistics. Below them every colour has an entry: its swatch,
/// its symbol and its text. The entries are packed in blocks of
/// `LEGEND_BLOCK_ENTRY_COUNT`, at most `LEGEND_COLUMN_CAP` blocks side by side in a
/// row, the rows one below the other. Where a page layout is given, it follows under a black
/// rule. `entry_texts` holds the rendered text of each colour, in the order of `infos`.
pub fn create_cross_stitch_legend(
    infos: &[ColorInfo],
    entry_texts: &[Bitmap],
    stats_bitmap: &Bitmap,
    page_layout_image: Option<&Bitmap>,
) -> (legend: Bitmap)
    requires
        infos@.len() == entry_texts@.len(),
        forall|i: int| 0 <= i < infos@.len() ==> (#[trigger] infos@[i]).drawable(),
        forall|i: int| 0 <= i < entry_texts@.len() ==> (#[trigger] entry_texts@[i]).wf(),
        stats_bitmap.wf(),
        page_layout_image matches Some(layout) ==> layout.wf(),
        legend_storable(
            infos@,
            images_of(entry_texts@),
            stats_bitmap@,
            match page_layout_image {
                Some(layout) => Some(layout@),
                None => None,
            },
        ),
    ensures
        legend.wf(),
        legend@ == legend_image(
            infos@,
            images_of(entry_texts@),
            stats_bitmap@,
            match page_layout_image {
                Some(layout) => Some(layout@),
                None => None,
            },
        ),
{
    let block_bitmaps = create_legend_blocks(infos, entry_texts);
    let block_rows = create_legend_rows(block_bitmaps.as_slice());
    let stacked = Bitmap::glue_together_multiple(
        block_rows.as_slice(),
        GluePosition::BottomLeft,
        TILE_SIZE,
        PixelRGBA::white(),
    );
    proof {
        let colors = legend_colors_image(infos@, images_of(entry_texts@));
        assert(stacked@.width * (stacked@.height + (TILE_SIZE + TILE_SIZE / 2)) == colors.width
            * colors.height);
    }
    let blocks = stacked.extended(0, 0, 0, TILE_SIZE + TILE_SIZE / 2, PixelRGBA::white());
    let mut legend = Bitmap::glue_a_to_b(
        stats_bitmap,
        &blocks,
        GluePosition::TopLeft,
        0,
        PixelRGBA::white(),
    );
    match page_layout_image {
        Some(layout) => {
            let glued = legend.glued_to(layout, GluePosition::TopLeft, 0, PixelRGBA::white());
            legend = glued;
            let width = legend.width;
            let y = legend.height - layout.height;
            legend.draw_rect_filled_safely(0, y, width, 1, PixelRGBA::black());
        },
        None => {},
    }
    proof {
        let body = legend_body_image(
            infos@,
            images_of(entry_texts@),
            stats_bitmap@,
            match page_layout_image {
                Some(layout) => Some(layout@),
                None => None,
            },
        );
        assert(legend@ == body);
        let whole = body.extended(
            TILE_SIZE as int,
            TILE_SIZE as int,
            TILE_SIZE as int,
            TILE_SIZE as int,
            spec_white(),
        );
        assert((legend.width + TILE_SIZE + TILE_SIZE) * (legend.height + TILE_SIZE + TILE_SIZE)
            == whole.width * whole.height);
    }
    legend.extended(TILE_SIZE, TILE_SIZE, TILE_SIZE, TILE_SIZE, PixelRGBA::white())
}

/// The largest column among the grid coordinates, and at least zero.
pub open spec fn last_column(indices: Seq<Vec2i>) -> int
    decreases indices.len(),
{
    if indices.len() == 0 {
        0
    } else if indices.last().x > last_column(indices.drop_last()) {
        indices.last().x as int
    } else {
        last_column(indices.drop_last())
    }
}

/// The largest row among the grid coordinates, and at least zero.
pub open spec fn last_row(indices: Seq<Vec2i>) -> int
    decreases indices.len(),
{
    if indices.len() == 0 {
        0
    } else if indices.last().y > last_row(indices.drop_last()) {
        indices.last().y as int
    } else {
        last_row(indices.drop_last())
    }
}

/// The width of the box of one page: the width of the widest page number and a gap of
/// one pixel.
pub open spec fn page_tile_width(page_number_width: int) -> int {
    1 + page_number_width
}

/// The height of the box of one page: one and a half times its width and a gap of one pixel.
pub open spec fn page_tile_height(page_number_width: int) -> int {
    1 + (3 * page_tile_width(page_number_width)) / 2
}

/// The page layout with the boxes of the first `count` pages: a white ground for all
/// columns and rows, and for each page the black outline of its box at its place in
/// the grid.
pub open spec fn page_layout_upto(indices: Seq<Vec2i>, page_number_width: int, count: int) -> Image
    decreases count,
{
    let tile_width = page_tile_width(page_number_width);
    let tile_height = page_tile_height(page_number_width);
    if count <= 0 {
        Image::filled(
            (1 + last_column(indices)) * tile_width,
            (1 + last_row(indices)) * tile_height,
            spec_white(),
        )
    } else {
        page_layout_upto(indices, page_number_width, count - 1).stroke_rect(
            indices[count - 1].x * tile_width,
            indices[count - 1].y * tile_height,
            tile_width - 1,
            tile_height - 1,
            spec_black(),
        )
    }
}

/// The page layout: the boxes of all pages.
pub open spec fn page_layout_image(indices: Seq<Vec2i>, page_number_width: int) -> Image {
    page_layout_upto(indices, page_number_width, indices.len() as int)
}

/// The page numbers of the layout: the pages are numbered from one in their order,
/// and each number is centred in its page's box.
pub open spec fn page_layout_labels(indices: Seq<Vec2i>, page_number_width: int) -> Seq<GridLabel> {
    let tile_width = page_tile_width(page_number_width);
    let tile_height = page_tile_height(page_number_width);
    Seq::new(
        indices.len(),
        |i: int|
            GridLabel {
                value: (i + 1) as i64,
                position: Vec2i {
                    x: (indices[i].x * tile_width + tile_width / 2) as i32,
                    y: (indices[i].y * tile_height + tile_height / 2) as i32,
                },
            },
    )
}

/// Every coordinate is at most the last column and the last row.
proof fn lemma_last_column_row(indices: Seq<Vec2i>, i: int)
    requires
        0 <= i < indices.len(),
    ensures
        indices[i].x <= last_column(indices),
        indices[i].y <= last_row(indices),
        0 <= last_column(indices) <= i32::MAX,
        0 <= last_row(indices) <= i32::MAX,
    decreases indices.len(),
{
    if i < indices.len() - 1 {
        lemma_last_column_row(indices.drop_last(), i);
    } else if indices.len() > 1 {
        lemma_last_column_row(indices.drop_last(), 0);
    }
}

/// The layout keeps its size while boxes are drawn.
proof fn lemma_page_layout_size(indices: Seq<Vec2i>, page_number_width: int, count: int)
    ensures
        page_layout_upto(indices, page_number_width, count).width == (1 + last_column(indices))
            * page_tile_width(page_number_width),
        page_layout_upto(indices, page_number_width, count).height == (1 + last_row(indices))
            * page_tile_height(page_number_width),
    decreases count,
{
    if count > 0 {
        lemma_page_layout_size(indices, page_number_width, count - 1);
    }
}

/// The largest column and row among the grid coordinates.
fn last_column_and_row(layout_indices: &[Vec2i]) -> (last: (i32, i32))
    ensures
        last.0 == last_column(layout_indices@),
        last.1 == last_row(layout_indices@),
        0 <= last.0,
        0 <= last.1,
{
    let mut column: i32 = 0;
    let mut row: i32 = 0;
    let mut i: usize = 0;
    while i < layout_indices.len()
        invariant
            i <= layout_indices.len(),
            column == last_column(layout_indices@.take(i as int)),
            row == last_row(layout_indices@.take(i as int)),
            0 <= column,
            0 <= row,
        decreases layout_indices.len() - i,
    {
        proof {
            assert(layout_indices@.take(i + 1).drop_last() =~= layout_indices@.take(i as int));
        }
        if layout_indices[i].x > column {
            column = layout_indices[i].x;
        }
        if layout_indices[i].y > row {
            row = layout_indices[i].y;
        }
        i += 1;
    }
    proof {
        assert(layout_indices@.take(layout_indices@.len() as int) =~= layout_indices@);
    }
    (column, row)
}

/// Draws the page layout: one box for each page at its place in the grid of segments,
/// and says where the page numbers go. `page_number_width` is the width that the
/// widest page number takes when rendered.
pub fn create_pattern_page_layout(page_number_width: i32, layout_indices: &[Vec2i]) -> (result: (
    Bitmap,
    Vec<GridLabel>,
))
    requires
        0 <= page_number_width,
        layout_indices@.len() < i64::MAX,
        forall|i: int|
            0 <= i < layout_indices@.len() ==> 0 <= (#[trigger] layout_indices@[i]).x && 0
                <= layout_indices@[i].y,
        page_layout_image(layout_indices@, page_number_width as int).storable(),
    ensures
        result.0.wf(),
        result.0@ == page_layout_image(layout_indices@, page_number_width as int),
        result.1@ == page_layout_labels(layout_indices@, page_number_width as int),
{
    let ghost indices = layout_indices@;
    let ghost number_width = page_number_width as int;
    let last = last_column_and_row(layout_indices);
    let num_columns: i64 = 1 + last.0 as i64;
    let num_rows: i64 = 1 + last.1 as i64;
    let tile_width: i64 = 1 + page_number_width as i64;
    let tile_height: i64 = 1 + (3 * tile_width) / 2;
    proof {
        lemma_page_layout_size(indices, number_width, indices.len() as int);
        assert(0 <= num_columns * tile_width <= 0x8000_0000 * 0x8000_0000) by (nonlinear_arith)
            requires
                0 <= num_columns <= 0x8000_0000,
                0 <= tile_width <= 0x8000_0000,
        ;
        assert(0 <= num_rows * tile_height <= 0x8000_0000 * 0x1_8000_0001) by (nonlinear_arith)
            requires
                0 <= num_rows <= 0x8000_0000,
                0 <= tile_height <= 0x1_8000_0001,
        ;
    }
    let image_width: i64 = num_columns * tile_width;
    let image_height: i64 = num_rows * tile_height;
    let mut image = Bitmap::new_filled(image_width as i32, image_height as i32, PixelRGBA::white());
    let mut labels: Vec<GridLabel> = Vec::new();
    let ghost expected_labels = page_layout_labels(indices, number_width);
    let mut i: usize = 0;
    while i < layout_indices.len()
        invariant
            i <= layout_indices.len(),
            layout_indices@.len() < i64::MAX,
            indices == layout_indices@,
            number_width == page_number_width,
            tile_width == page_tile_width(number_width),
            tile_height == page_tile_height(number_width),
            1 <= tile_width <= 0x8000_0000,
            1 <= tile_height <= 0x1_8000_0001,
            num_columns == 1 + last_column(indices),
            num_rows == 1 + last_row(indices),
            image_width == num_columns * tile_width,
            image_height == num_rows * tile_height,
            0 <= image_width <= i32::MAX,
            0 <= image_height <= i32::MAX,
            forall|k: int|
                0 <= k < indices.len() ==> 0 <= (#[trigger] indices[k]).x && 0 <= indices[k].y,
            image.wf(),
            image.width == image_width,
            image.height == image_height,
            image@ == page_layout_upto(indices, number_width, i as int),
            expected_labels == page_layout_labels(indices, number_width),
            labels@ == expected_labels.take(i as int),
        decreases layout_indices.len() - i,
    {
        let column = layout_indices[i].x as i64;
        let row = layout_indices[i].y as i64;
        proof {
            lemma_last_column_row(indices, i as int);
            assert(0 <= column * tile_width && column * tile_width + tile_width <= num_columns
                * tile_width) by (nonlinear_arith)
                requires
                    0 <= column < num_columns,
                    0 <= tile_width,
            ;
            assert(0 <= row * tile_height && row * tile_height + tile_height <= num_rows
                * tile_height) by (nonlinear_arith)
                requires
                    0 <= row < num_rows,
                    0 <= tile_height,
            ;
        }
        let x: i64 = column * tile_width;
        let y: i64 = row * tile_height;
        image.draw_rect(
            x as i32,
            y as i32,
            (tile_width - 1) as i32,
            (tile_height - 1) as i32,
            PixelRGBA::black(),
        );
        labels.push(
            GridLabel {
                value: i as i64 + 1,
                position: Vec2i::new((x + tile_width / 2) as i32, (y + tile_height / 2) as i32),
            },
        );
        i += 1;
        proof {
            assert(labels@ =~= expected_labels.take(i as int));
        }
    }
    proof {
        assert(expected_labels.take(layout_indices@.len() as int) =~= expected_labels);
    }
    (image, labels)
}

/// How many blocks the legend of so many colours has.
pub open spec fn legend_block_count(colors: int) -> int {
    chunk_count(colors, LEGEND_BLOCK_ENTRY_COUNT as int)
}

/// How many blocks stand side by side in the widest row of the legend of so many
/// colours: all of them, and `LEGEND_COLUMN_CAP` at the most.
pub open spec fn legend_column_count(colors: int) -> int {
    if legend_block_count(colors) < LEGEND_COLUMN_CAP {
        legend_block_count(colors)
    } else {
        LEGEND_COLUMN_CAP as int
    }
}

/// How many rows the legend of so many colours has.
pub open spec fn legend_row_count(colors: int) -> int {
    chunk_count(legend_block_count(colors), LEGEND_COLUMN_CAP as int)
}

/// A width that the legend does not exceed where no text is wider than `text_width`:
/// the blocks of the widest row side by side, or the statistics, or the page layout,
/// whichever is widest, and the outer margin.
pub open spec fn legend_width_estimate(
    colors: int,
    text_width: int,
    stats_width: int,
    layout_width: int,
) -> int {
    let row = legend_column_count(colors) * (text_width + 3 * TILE_SIZE);
    spec_max(spec_max(stats_width, row), layout_width) + 2 * TILE_SIZE
}

/// A height that the legend does not exceed where no text is higher than
/// `text_height`: the statistics, full blocks for every row, the margin below the
/// blocks, the page layout, and the outer margin.
pub open spec fn legend_height_estimate(
    colors: int,
    text_height: int,
    stats_height: int,
    layout_height: int,
) -> int {
    let entry = spec_max(text_height, TILE_SIZE as int);
    let row = LEGEND_BLOCK_ENTRY_COUNT * (entry + TILE_SIZE) + TILE_SIZE;
    stats_height + legend_row_count(colors) * row + (TILE_SIZE + TILE_SIZE / 2) + layout_height
        + 2 * TILE_SIZE
}

/// The width of the page layout, or zero where there is none.
pub open spec fn layout_width(page_layout: Option<Image>) -> int {
    match page_layout {
        Some(layout) => layout.width,
        None => 0,
    }
}

/// The height of the page layout, or zero where there is none.
pub open spec fn layout_height(page_layout: Option<Image>) -> int {
    match page_layout {
        Some(layout) => layout.height,
        None => 0,
    }
}

/// The entries of some colours are no larger than the widest and the highest text allow.
proof fn lemma_entries_within(
    infos: Seq<ColorInfo>,
    texts: Seq<Image>,
    text_width: int,
    text_height: int,
)
    requires
        infos.len() == texts.len(),
        all_within(texts, text_width, text_height),
    ensures
        all_within(
            legend_entry_images(infos, texts),
            text_width + 2 * TILE_SIZE,
            spec_max(text_height, TILE_SIZE as int),
        ),
{
    let entries = legend_entry_images(infos, texts);
    assert forall|i: int| 0 <= i < entries.len() implies 0 <= (#[trigger] entries[i]).width
        <= text_width + 2 * TILE_SIZE && 0 <= entries[i].height <= spec_max(
        text_height,
        TILE_SIZE as int,
    ) by {
        assert(0 <= texts[i].width <= text_width);
        assert(swatch_image(infos[i]).width == 2 * TILE_SIZE);
        assert(swatch_image(infos[i]).height == TILE_SIZE);
    }
}

/// A block of at most `LEGEND_BLOCK_ENTRY_COUNT` colours can be made where a full
/// block of entries of the largest size can be held, and is no larger than that.
proof fn lemma_block_fits(
    infos: Seq<ColorInfo>,
    texts: Seq<Image>,
    text_width: int,
    text_height: int,
    max_width: int,
    max_height: int,
)
    requires
        infos.len() == texts.len(),
        infos.len() <= LEGEND_BLOCK_ENTRY_COUNT,
        all_within(texts, text_width, text_height),
        0 <= text_width,
        0 <= text_height,
        text_width + 2 * TILE_SIZE <= max_width,
        LEGEND_BLOCK_ENTRY_COUNT * (spec_max(text_height, TILE_SIZE as int) + TILE_SIZE)
            <= max_height,
        storable(max_width, max_height),
    ensures
        legend_block_storable(infos, texts),
        0 <= legend_block_image(infos, texts).width <= text_width + 2 * TILE_SIZE,
        0 <= legend_block_image(infos, texts).height <= LEGEND_BLOCK_ENTRY_COUNT * (spec_max(
            text_height,
            TILE_SIZE as int,
        ) + TILE_SIZE),
{
    let entries = legend_entry_images(infos, texts);
    let entry_width = text_width + 2 * TILE_SIZE;
    let entry_height = spec_max(text_height, TILE_SIZE as int);
    lemma_entries_within(infos, texts, text_width, text_height);
    assert(entries.len() * (entry_height + TILE_SIZE) <= LEGEND_BLOCK_ENTRY_COUNT * (entry_height
        + TILE_SIZE)) by (nonlinear_arith)
        requires
            0 <= entries.len() <= LEGEND_BLOCK_ENTRY_COUNT,
            0 <= entry_height + TILE_SIZE,
    ;
    assert forall|i: int| 0 <= i < infos.len() implies (#[trigger] entries[i]).storable() by {
        lemma_area_fits(entries[i].width, entries[i].height, max_width, max_height);
    }
    lemma_glued_together_fits(
        entries,
        GluePosition::BottomLeft,
        TILE_SIZE as int,
        entry_width,
        entry_height,
        max_width,
        max_height,
    );
    lemma_glued_together_bounds(
        entries,
        GluePosition::BottomLeft,
        TILE_SIZE as int,
        spec_white(),
        entry_width,
        entry_height,
    );
}

/// Where the size that the estimates give can be held, every image that arises while
/// the legend is made can be held.
pub proof fn lemma_legend_fits(
    infos: Seq<ColorInfo>,
    texts: Seq<Image>,
    stats: Image,
    page_layout: Option<Image>,
    text_width: int,
    text_height: int,
)
    requires
        infos.len() == texts.len(),
        all_within(texts, text_width, text_height),
        0 <= text_width,
        0 <= text_height,
        0 <= stats.width,
        0 <= stats.height,
        0 <= layout_width(page_layout),
        0 <= layout_height(page_layout),
        storable(
            legend_width_estimate(
                infos.len() as int,
                text_width,
                stats.width,
                layout_width(page_layout),
            ),
            legend_height_estimate(
                infos.len() as int,
                text_height,
                stats.height,
                layout_height(page_layout),
            ),
        ),
    ensures
        legend_storable(infos, texts, stats, page_layout),
{
    let size = LEGEND_BLOCK_ENTRY_COUNT as int;
    let cap = LEGEND_COLUMN_CAP as int;
    let len = infos.len() as int;
    let max_width = legend_width_estimate(len, text_width, stats.width, layout_width(page_layout));
    let max_height = legend_height_estimate(
        len,
        text_height,
        stats.height,
        layout_height(page_layout),
    );
    let entry_width = text_width + 2 * TILE_SIZE;
    let entry_height = spec_max(text_height, TILE_SIZE as int);
    let block_height = size * (entry_height + TILE_SIZE);
    let block_count = legend_block_count(len);
    let columns = legend_column_count(len);
    let row_count = legend_row_count(len);
    let row_width = columns * (entry_width + TILE_SIZE);
    let rows_height = row_count * (block_height + TILE_SIZE);
    let blocks = legend_block_images(infos, texts);
    assert(0 <= block_count);
    assert(0 <= columns <= cap);
    assert(0 <= row_count);
    assert(block_count >= 1 ==> columns >= 1 && row_count >= 1);
    assert(0 <= row_width && (columns >= 1 ==> entry_width + TILE_SIZE <= row_width))
        by (nonlinear_arith)
        requires
            0 <= columns,
            0 <= entry_width + TILE_SIZE,
            row_width == columns * (entry_width + TILE_SIZE),
    ;
    assert(0 <= rows_height && (row_count >= 1 ==> block_height + TILE_SIZE <= rows_height))
        by (nonlinear_arith)
        requires
            0 <= row_count,
            0 <= block_height + TILE_SIZE,
            rows_height == row_count * (block_height + TILE_SIZE),
    ;

    // The blocks.
    assert forall|block: int| 0 <= block < block_count implies #[trigger] legend_block_storable(
        infos.subrange(block * size, chunk_end(len, block, size)),
        texts.subrange(block * size, chunk_end(len, block, size)),
    ) && 0 <= legend_block_image(
        infos.subrange(block * size, chunk_end(len, block, size)),
        texts.subrange(block * size, chunk_end(len, block, size)),
    ).width <= entry_width && 0 <= legend_block_image(
        infos.subrange(block * size, chunk_end(len, block, size)),
        texts.subrange(block * size, chunk_end(len, block, size)),
    ).height <= block_height by {
        let some_infos = infos.subrange(block * size, chunk_end(len, block, size));
        let some_texts = texts.subrange(block * size, chunk_end(len, block, size));
        assert(all_within(some_texts, text_width, text_height)) by {
            assert forall|i: int| 0 <= i < some_texts.len() implies 0 <= (
            #[trigger] some_texts[i]).width <= text_width && 0 <= some_texts[i].height
                <= text_height by {
                assert(some_texts[i] == texts[block * size + i]);
            }
        }
        lemma_block_fits(some_infos, some_texts, text_width, text_height, max_width, max_height);
    }
    assert(all_within(blocks, entry_width, block_height)) by {
        assert forall|block: int| 0 <= block < blocks.len() implies 0 <= (
        #[trigger] blocks[block]).width <= entry_width && 0 <= blocks[block].height
            <= block_height by {
            assert(legend_block_storable(
                infos.subrange(block * size, chunk_end(len, block, size)),
                texts.subrange(block * size, chunk_end(len, block, size)),
            ));
        }
    }

    // The rows.
    let rows = legend_row_images(blocks);
    assert(rows.len() == row_count);
    assert forall|row: int| 0 <= row < row_count implies glued_together_storable(
        #[trigger] legend_row_blocks(blocks, row),
        GluePosition::RightTop,
        TILE_SIZE as int,
    ) && 0 <= glued_together(
        legend_row_blocks(blocks, row),
        GluePosition::RightTop,
        TILE_SIZE as int,
        spec_white(),
    ).width <= row_width && 0 <= glued_together(
        legend_row_blocks(blocks, row),
        GluePosition::RightTop,
        TILE_SIZE as int,
        spec_white(),
    ).height <= block_height by {
        let some_blocks = legend_row_blocks(blocks, row);
        assert(all_within(some_blocks, entry_width, block_height)) by {
            assert forall|i: int| 0 <= i < some_blocks.len() implies 0 <= (
            #[trigger] some_blocks[i]).width <= entry_width && 0 <= some_blocks[i].height
                <= block_height by {
                assert(some_blocks[i] == blocks[row * cap + i]);
            }
        }
        assert(some_blocks.len() <= columns);
        assert(some_blocks.len() * (entry_width + TILE_SIZE) <= row_width) by (nonlinear_arith)
            requires
                0 <= some_blocks.len() <= columns,
                0 <= entry_width + TILE_SIZE,
                row_width == columns * (entry_width + TILE_SIZE),
        ;
        lemma_glued_together_fits(
            some_blocks,
            GluePosition::RightTop,
            TILE_SIZE as int,
            entry_width,
            block_height,
            max_width,
            max_height,
        );
        lemma_glued_together_bounds(
            some_blocks,
            GluePosition::RightTop,
            TILE_SIZE as int,
            spec_white(),
            entry_width,
            block_height,
        );
    }
    assert(all_within(rows, row_width, block_height)) by {
        assert forall|row: int| 0 <= row < rows.len() implies 0 <= (#[trigger] rows[row]).width
            <= row_width && 0 <= rows[row].height <= block_height by {
            assert(glued_together_storable(
                legend_row_blocks(blocks, row),
                GluePosition::RightTop,
                TILE_SIZE as int,
            ));
        }
    }
    lemma_glued_together_fits(
        rows,
        GluePosition::BottomLeft,
        TILE_SIZE as int,
        row_width,
        block_height,
        max_width,
        max_height,
    );
    lemma_glued_together_bounds(
        rows,
        GluePosition::BottomLeft,
        TILE_SIZE as int,
        spec_white(),
        row_width,
        block_height,
    );
    let stacked = glued_together(rows, GluePosition::BottomLeft, TILE_SIZE as int, spec_white());
    assert(0 <= stacked.width <= row_width && 0 <= stacked.height <= rows_height);

    // The colours, the statistics, the page layout and the margin.
    let colors = legend_colors_image(infos, texts);
    assert(colors.width == stacked.width && colors.height == stacked.height + (TILE_SIZE
        + TILE_SIZE / 2));
    lemma_area_fits(colors.width, colors.height, max_width, max_height);
    let with_stats = stats.glued_to(colors, GluePosition::TopLeft, 0, spec_white());
    lemma_area_fits(with_stats.width, with_stats.height, max_width, max_height);
    let body = legend_body_image(infos, texts, stats, page_layout);
    lemma_area_fits(body.width, body.height, max_width, max_height);
    let whole = legend_image(infos, texts, stats, page_layout);
    lemma_area_fits(whole.width, whole.height, max_width, max_height);
}

/// The width of the widest of the images, and zero where there is none.
pub open spec fn widest(images: Seq<Image>) -> int
    decreases images.len(),
{
    if images.len() == 0 {
        0
    } else {
        spec_max(widest(images.drop_last()), images.last().width)
    }
}

/// The height of the highest of the images, and zero where there is none.
pub open spec fn highest(images: Seq<Image>) -> int
    decreases images.len(),
{
    if images.len() == 0 {
        0
    } else {
        spec_max(highest(images.drop_last()), images.last().height)
    }
}

/// No image is wider than the widest or higher than the highest.
proof fn lemma_widest_highest(images: Seq<Image>)
    requires
        forall|i: int|
            0 <= i < images.len() ==> 0 <= (#[trigger] images[i]).width && 0 <= images[i].height,
    ensures
        all_within(images, widest(images), highest(images)),
        0 <= widest(images),
        0 <= highest(images),
    decreases images.len(),
{
    if images.len() > 0 {
        let rest = images.drop_last();
        assert forall|i: int| 0 <= i < rest.len() implies 0 <= (#[trigger] rest[i]).width && 0
            <= rest[i].height by {
            assert(rest[i] == images[i]);
        }
        lemma_widest_highest(rest);
        assert forall|i: int| 0 <= i < images.len() implies 0 <= (#[trigger] images[i]).width
            <= widest(images) && 0 <= images[i].height <= highest(images) by {
            if i < rest.len() {
                assert(rest[i] == images[i]);
            }
        }
    }
}

/// The width of the widest and the height of the highest of some bitmaps.
fn largest_size(bitmaps: &[Bitmap]) -> (size: (i32, i32))
    requires
        forall|i: int| 0 <= i < bitmaps@.len() ==> (#[trigger] bitmaps@[i]).wf(),
    ensures
        size.0 == widest(images_of(bitmaps@)),
        size.1 == highest(images_of(bitmaps@)),
        0 <= size.0,
        0 <= size.1,
{
    let ghost images = images_of(bitmaps@);
    let mut width: i32 = 0;
    let mut height: i32 = 0;
    let mut i: usize = 0;
    while i < bitmaps.len()
        invariant
            i <= bitmaps.len(),
            images == images_of(bitmaps@),
            forall|k: int| 0 <= k < bitmaps@.len() ==> (#[trigger] bitmaps@[k]).wf(),
            width == widest(images.take(i as int)),
            height == highest(images.take(i as int)),
            0 <= width,
            0 <= height,
        decreases bitmaps.len() - i,
    {
        proof {
            assert(images.take(i + 1).drop_last() =~= images.take(i as int));
            assert(images.take(i + 1).last() == bitmaps@[i as int]@);
        }
        if bitmaps[i].width > width {
            width = bitmaps[i].width;
        }
        if bitmaps[i].height > height {
            height = bitmaps[i].height;
        }
        i += 1;
    }
    proof {
        assert(images.take(bitmaps@.len() as int) =~= images);
    }
    (width, height)
}

/// Makes the legend sheet, or returns `None` where a symbol is larger than a cell or
/// the legend may be too large to be held: where the size that the estimates give for
/// it, from the number of colours, the widest and the highest text, the statistics and
/// the page layout, cannot be held.
pub fn try_create_cross_stitch_legend(
    infos: &[ColorInfo],
    entry_texts: &[Bitmap],
    stats_bitmap: &Bitmap,
    page_layout_image: Option<&Bitmap>,
) -> (result: Option<Bitmap>)
    requires
        infos@.len() == entry_texts@.len(),
        forall|i: int| 0 <= i < infos@.len() ==> (#[trigger] infos@[i]).wf(),
        forall|i: int| 0 <= i < entry_texts@.len() ==> (#[trigger] entry_texts@[i]).wf(),
        stats_bitmap.wf(),
        page_layout_image matches Some(layout) ==> layout.wf(),
    ensures
        result.is_some() == ((forall|i: int|
            0 <= i < infos@.len() ==> (#[trigger] infos@[i]).symbol_fits_cell()) && storable(
            legend_width_estimate(
                infos@.len() as int,
                widest(images_of(entry_texts@)),
                stats_bitmap.width as int,
                layout_width(
                    match page_layout_image {
                        Some(layout) => Some(layout@),
                        None => None,
                    },
                ),
            ),
            legend_height_estimate(
                infos@.len() as int,
                highest(images_of(entry_texts@)),
                stats_bitmap.height as int,
                layout_height(
                    match page_layout_image {
                        Some(layout) => Some(layout@),
                        None => None,
                    },
                ),
            ),
        )),
        result matches Some(legend) ==> legend.wf() && legend@ == legend_image(
            infos@,
            images_of(entry_texts@),
            stats_bitmap@,
            match page_layout_image {
                Some(layout) => Some(layout@),
                None => None,
            },
        ),
{
    let mut checked: usize = 0;
    while checked < infos.len()
        invariant
            checked <= infos.len(),
            forall|i: int| 0 <= i < checked ==> (#[trigger] infos@[i]).symbol_fits_cell(),
        decreases infos.len() - checked,
    {
        if infos[checked].symbol.width > TILE_SIZE || infos[checked].symbol.height > TILE_SIZE {
            return None;
        }
        checked += 1;
    }
    let ghost texts = images_of(entry_texts@);
    let ghost layout = match page_layout_image {
        Some(layout) => Some(layout@),
        None => None,
    };
    let size = largest_size(entry_texts);
    let text_width: i64 = size.0 as i64;
    let text_height: i64 = size.1 as i64;
    let layout_size: (i64, i64) = match page_layout_image {
        Some(layout) => (layout.width as i64, layout.height as i64),
        None => (0, 0),
    };
    let blocks: usize = infos.len() / LEGEND_BLOCK_ENTRY_COUNT + (if infos.len()
        % LEGEND_BLOCK_ENTRY_COUNT == 0 {
        0usize
    } else {
        1usize
    });
    assert(blocks == legend_block_count(infos@.len() as int));
    let columns: usize = if blocks < LEGEND_COLUMN_CAP {
        blocks
    } else {
        LEGEND_COLUMN_CAP
    };
    let rows: usize = blocks / LEGEND_COLUMN_CAP + (if blocks % LEGEND_COLUMN_CAP == 0 {
        0usize
    } else {
        1usize
    });
    assert(rows == legend_row_count(infos@.len() as int));
    let ghost width_estimate = legend_width_estimate(
        infos@.len() as int,
        text_width as int,
        stats_bitmap.width as int,
        layout_width(layout),
    );
    let ghost height_estimate = legend_height_estimate(
        infos@.len() as int,
        text_height as int,
        stats_bitmap.height as int,
        layout_height(layout),
    );
    let entry_height: i64 = if text_height > TILE_SIZE as i64 {
        text_height
    } else {
        TILE_SIZE as i64
    };
    let row_height: i64 = (LEGEND_BLOCK_ENTRY_COUNT as i64) * (entry_height + TILE_SIZE as i64)
        + TILE_SIZE as i64;
    let most_rows: i64 = 0x7fff_ffff / row_height;
    if rows as u64 > most_rows as u64 {
        proof {
            assert(rows * row_height > 0x7fff_ffff) by (nonlinear_arith)
                requires
                    rows >= most_rows + 1,
                    most_rows == 0x7fff_ffffint / (row_height as int),
                    row_height >= 1,
            ;
        }
        return None;
    }
    assert(0 <= rows * row_height <= 0x7fff_ffff) by (nonlinear_arith)
        requires
            0 <= rows <= most_rows,
            most_rows == 0x7fff_ffffint / (row_height as int),
            row_height >= 1,
    ;
    assert(0 <= columns * (text_width + 3 * TILE_SIZE) <= 4 * 0x8000_0030) by (nonlinear_arith)
        requires
            0 <= columns <= 4,
            0 <= text_width <= 0x7fff_ffff,
            TILE_SIZE == 16,
    ;
    let row: i64 = (columns as i64) * (text_width + 3 * (TILE_SIZE as i64));
    let mut width: i64 = stats_bitmap.width as i64;
    if row > width {
        width = row;
    }
    if layout_size.0 > width {
        width = layout_size.0;
    }
    width = width + 2 * (TILE_SIZE as i64);
    let height: i64 = stats_bitmap.height as i64 + (rows as i64) * row_height + (TILE_SIZE
        + TILE_SIZE / 2) as i64 + layout_size.1 + 2 * (TILE_SIZE as i64);
    assert(width == width_estimate);
    assert(height == height_estimate);
    if !is_storable(width, height) {
        return None;
    }
    proof {
        assert forall|i: int| 0 <= i < texts.len() implies 0 <= (#[trigger] texts[i]).width && 0
            <= texts[i].height by {
            assert(entry_texts@[i].wf());
        }
        lemma_widest_highest(texts);
        lemma_legend_fits(
            infos@,
            texts,
            stats_bitmap@,
            layout,
            text_width as int,
            text_height as int,
        );
    }
    Some(create_cross_stitch_legend(infos, entry_texts, stats_bitmap, page_layout_image))
}

/// Whether no grid coordinate has a negative column or row.
fn all_in_grid(layout_indices: &[Vec2i]) -> (in_grid: bool)
    ensures
        in_grid == (forall|i: int|
            0 <= i < layout_indices@.len() ==> 0 <= (#[trigger] layout_indices@[i]).x && 0
                <= layout_indices@[i].y),
{
    let mut i: usize = 0;
    while i < layout_indices.len()
        invariant
            i <= layout_indices.len(),
            forall|k: int|
                0 <= k < i ==> 0 <= (#[trigger] layout_indices@[k]).x && 0 <= layout_indices@[k].y,
        decreases layout_indices.len() - i,
    {
        if layout_indices[i].x < 0 || layout_indices[i].y < 0 {
            return false;
        }
        i += 1;
    }
    true
}

/// Draws the page layout, or returns `None` where it cannot be drawn: where the width
/// of the page numbers or a coordinate is negative, or where the layout is too large
/// to be held.
pub fn try_create_pattern_page_layout(page_number_width: i32, layout_indices: &[Vec2i]) -> (result:
    Option<(Bitmap, Vec<GridLabel>)>)
    ensures
        result.is_some() == (0 <= page_number_width && layout_indices@.len() < i64::MAX && (forall|
            i: int,
        |
            0 <= i < layout_indices@.len() ==> 0 <= (#[trigger] layout_indices@[i]).x && 0
                <= layout_indices@[i].y) && page_layout_image(
            layout_indices@,
            page_number_width as int,
        ).storable()),
        result matches Some(layout) ==> {
            &&& layout.0.wf()
            &&& layout.0@ == page_layout_image(layout_indices@, page_number_width as int)
            &&& layout.1@ == page_layout_labels(layout_indices@, page_number_width as int)
        },
{
    if page_number_width < 0 || layout_indices.len() as u64 >= 0x7fff_ffff_ffff_ffff {
        return None;
    }
    if !all_in_grid(layout_indices) {
        return None;
    }
    let last = last_column_and_row(layout_indices);
    let tile_width: i64 = 1 + page_number_width as i64;
    let tile_height: i64 = 1 + (3 * tile_width) / 2;
    proof {
        lemma_page_layout_size(
            layout_indices@,
            page_number_width as int,
            layout_indices@.len() as int,
        );
        assert(0 <= (1 + last.0) * tile_width <= 0x8000_0000 * 0x8000_0000) by (nonlinear_arith)
            requires
                0 <= last.0 <= 0x7fff_ffff,
                0 <= tile_width <= 0x8000_0000,
        ;
        assert(0 <= (1 + last.1) * tile_height <= 0x8000_0000 * 0xc000_0001) by (nonlinear_arith)
            requires
                0 <= last.1 <= 0x7fff_ffff,
                0 <= tile_height <= 0xc000_0001,
        ;
    }
    let width: i64 = (1 + last.0 as i64) * tile_width;
    let height: i64 = (1 + last.1 as i64) * tile_height;
    if !is_storable(width, height) {
        return None;
    }
    Some(create_pattern_page_layout(page_number_width, layout_indices))
}

/// The header of the legend of an image: the size of the image in cells, the number
/// of its colours, and the number of its stitches, which is the sum of the counts of
/// all colours. `None` where that sum is too large for `usize`.
pub fn legend_header_text(image_dimensions: Vec2i, color_mappings: &ColorMapping) -> (text: Option<
    String,
>)
    ensures
        text.is_some() == (total_count(color_mappings@) <= usize::MAX),
        text matches Some(header) ==> header@ == spec_legend_stats_text(
            image_dimensions.x as int,
            image_dimensions.y as int,
            color_mappings@.len(),
            total_count(color_mappings@),
        ),
{
    match color_mappings.total_count() {
        Some(stitch_count) => Some(
            legend_stats_text(
                image_dimensions.x,
                image_dimensions.y,
                color_mappings.len(),
                stitch_count,
            ),
        ),
        None => None,
    }
}

/// The texts of the entries of a legend, in the order of the mapping: for each colour
/// its count and the identifier of its thread in the palette.
pub fn legend_entry_texts(color_mappings: &ColorMapping, palette: &Palette) -> (texts: Vec<String>)
    ensures
        texts@.len() == color_mappings@.len(),
        forall|i: int|
            0 <= i < texts@.len() ==> (#[trigger] texts@[i])@ == spec_legend_entry_text(
                color_mappings@[i].count as nat,
                palette.spec_thread_id(color_mappings@[i].color),
            ),
{
    let entries = color_mappings.entries();
    let mut texts: Vec<String> = Vec::new();
    let mut i: usize = 0;
    while i < entries.len()
        invariant
            i <= entries.len(),
            entries@ == color_mappings@,
            texts@.len() == i,
            forall|k: int|
                0 <= k < i ==> (#[trigger] texts@[k])@ == spec_legend_entry_text(
                    entries@[k].count as nat,
                    palette.spec_thread_id(entries@[k].color),
                ),
        decreases entries.len() - i,
    {
        let text = legend_entry_text(entries[i].count, palette.thread_id(&entries[i].color));
        texts.push(text);
        i += 1;
    }
    texts
}

/// A legend owes a page layout exactly where the pattern has more than one segment.
pub open spec fn page_layout_owed(segments: int) -> bool {
    segments > 1
}

/// Whether the legend of a pattern with these segments owes a page layout.
pub fn needs_page_layout(segment_layout_indices: &[Vec2i]) -> (owed: bool)
    ensures
        owed == page_layout_owed(segment_layout_indices@.len() as int),
{
    segment_layout_indices.len() > 1
}

/// The page layout that goes into the legend of a pattern with so many segments: the
/// one that is given where one is owed, else none.
pub open spec fn legend_page_layout(segments: int, page_layout: Option<Image>) -> Option<Image> {
    if page_layout_owed(segments) {
        page_layout
    } else {
        None
    }
}

/// Makes the legend sheet of a pattern with the given segments. The page layout goes
/// into it exactly where the pattern has more than one segment. Returns `None` where a
/// page layout is owed and none is given, where a symbol is larger than a cell, or
/// where the legend may be too large to be held.
pub fn try_create_legend_sheet(
    infos: &[ColorInfo],
    entry_texts: &[Bitmap],
    stats_bitmap: &Bitmap,
    segment_layout_indices: &[Vec2i],
    page_layout_image: Option<&Bitmap>,
) -> (result: Option<Bitmap>)
    requires
        infos@.len() == entry_texts@.len(),
        forall|i: int| 0 <= i < infos@.len() ==> (#[trigger] infos@[i]).wf(),
        forall|i: int| 0 <= i < entry_texts@.len() ==> (#[trigger] entry_texts@[i]).wf(),
        stats_bitmap.wf(),
        page_layout_image matches Some(layout) ==> layout.wf(),
    ensures
        ({
            let layout = legend_page_layout(
                segment_layout_indices@.len() as int,
                match page_layout_image {
                    Some(layout) => Some(layout@),
                    None => None,
                },
            );
            &&& result.is_some() == ((page_layout_owed(segment_layout_indices@.len() as int)
                ==> page_layout_image.is_some()) && (forall|i: int|
                0 <= i < infos@.len() ==> (#[trigger] infos@[i]).symbol_fits_cell()) && storable(
                legend_width_estimate(
                    infos@.len() as int,
                    widest(images_of(entry_texts@)),
                    stats_bitmap.width as int,
                    layout_width(layout),
                ),
                legend_height_estimate(
                    infos@.len() as int,
                    highest(images_of(entry_texts@)),
                    stats_bitmap.height as int,
                    layout_height(layout),
                ),
            ))
            &&& result matches Some(legend) ==> legend.wf() && legend@ == legend_image(
                infos@,
                images_of(entry_texts@),
                stats_bitmap@,
                layout,
            )
        }),
{
    if needs_page_layout(segment_layout_indices) {
        match page_layout_image {
            Some(layout) => try_create_cross_stitch_legend(
                infos,
                entry_texts,
                stats_bitmap,
                Some(layout),
            ),
            None => None,
        }
    } else {
        try_create_cross_stitch_legend(infos, entry_texts, stats_bitmap, None)
    }
}

} // verus!
