//! The tile renderer: one pattern sheet from a quantized image.

use vstd::prelude::*;
use crate::bitmap::lemma_image_equal;
use crate::bitmap::outside;
use crate::bitmap::Bitmap;
use crate::bitmap::Image;
use crate::color::PixelRGBA;
use crate::constants::color_grid_thick;
use crate::constants::color_grid_thin;
use crate::constants::spec_black;
use crate::constants::spec_color_grid_thick;
use crate::constants::spec_color_grid_thin;
use crate::constants::spec_white;
use crate::constants::TILE_SIZE;
use crate::mapping::has_color;
use crate::mapping::position_of;
use crate::mapping::ColorInfo;
use crate::mapping::ColorMapping;
use crate::math::is_multiple_of;
use crate::math::Vec2i;

verus! {

/// The variants of a pattern sheet.
#[derive(Debug, Clone, Copy, PartialEq, Eq, Hash, Structural)]
pub enum PatternType {
    /// White cells with symbols.
    BlackAndWhite,
    /// Coloured cells with symbols.
    Colorized,
    /// Coloured cells without symbols.
    ColorizedNoSymbols,
    /// White cells with alphanumeric symbols.
    PaintByNumbers,
}

impl PatternType {
    /// Whether cells are filled with their colour.
    pub open spec fn spec_colorizes(self) -> bool {
        self == PatternType::Colorized || self == PatternType::ColorizedNoSymbols
    }

    /// Whether cells carry a symbol.
    pub open spec fn spec_draws_symbols(self) -> bool {
        self != PatternType::ColorizedNoSymbols
    }

    /// Whether the symbol is the alphanumeric one.
    pub open spec fn spec_uses_alphanum(self) -> bool {
        self == PatternType::PaintByNumbers
    }

    #[verifier::when_used_as_spec(spec_colorizes)]
    pub fn colorizes(self) -> (b: bool)
        ensures
            b == self.spec_colorizes(),
    {
        match self {
            PatternType::Colorized | PatternType::ColorizedNoSymbols => true,
            _ => false,
        }
    }

    #[verifier::when_used_as_spec(spec_draws_symbols)]
    pub fn draws_symbols(self) -> (b: bool)
        ensures
            b == self.spec_draws_symbols(),
    {
        match self {
            PatternType::ColorizedNoSymbols => false,
            _ => true,
        }
    }

    #[verifier::when_used_as_spec(spec_uses_alphanum)]
    pub fn uses_alphanum(self) -> (b: bool)
        ensures
            b == self.spec_uses_alphanum(),
    {
        match self {
            PatternType::PaintByNumbers => true,
            _ => false,
        }
    }
}

/// The colour in which a symbol is drawn: black on a light background, white on a dark one.
pub open spec fn spec_symbol_ink(background_is_light: bool) -> PixelRGBA {
    if background_is_light {
        spec_black()
    } else {
        spec_white()
    }
}

#[verifier::when_used_as_spec(spec_symbol_ink)]
pub fn symbol_ink(background_is_light: bool) -> (ink: PixelRGBA)
    ensures
        ink == spec_symbol_ink(background_is_light),
{
    if background_is_light {
        PixelRGBA::black()
    } else {
        PixelRGBA::white()
    }
}

/// Stamps a symbol on an image: every pixel of the symbol that is not of the mask
/// colour is painted in black where the background is light, else in white.
pub fn blit_symbol(
    symbol_bitmap: &Bitmap,
    image: &mut Bitmap,
    pos: Vec2i,
    mask_color: PixelRGBA,
    background_is_light: bool,
)
    requires
        symbol_bitmap.wf(),
        old(image).wf(),
        old(image)@.contains_rect(
            pos.x as int,
            pos.y as int,
            symbol_bitmap.width as int,
            symbol_bitmap.height as int,
        ),
    ensures
        final(image).wf(),
        final(image).width == old(image).width,
        final(image).height == old(image).height,
        final(image)@ == old(image)@.stamp(
            symbol_bitmap@,
            pos.x as int,
            pos.y as int,
            mask_color,
            spec_symbol_ink(background_is_light),
        ),
{
    let ghost before = image@;
    let ghost symbol = symbol_bitmap@;
    let blit_color = symbol_ink(background_is_light);
    proof {
        lemma_image_equal(
            image@,
            before.stamp_upto(symbol, pos.x as int, pos.y as int, mask_color, blit_color, 0, 0),
        );
    }
    let mut y: i32 = 0;
    while y < symbol_bitmap.height
        invariant
            0 <= y <= symbol_bitmap.height,
            symbol_bitmap.wf(),
            image.wf(),
            image.width == old(image).width,
            image.height == old(image).height,
            symbol == symbol_bitmap@,
            symbol.width == symbol_bitmap.width,
            symbol.height == symbol_bitmap.height,
            before.width == image.width,
            before.height == image.height,
            before.contains_rect(pos.x as int, pos.y as int, symbol.width, symbol.height),
            image@ == before.stamp_upto(
                symbol,
                pos.x as int,
                pos.y as int,
                mask_color,
                blit_color,
                y as int,
                0,
            ),
        decreases symbol_bitmap.height - y,
    {
        let mut x: i32 = 0;
        while x < symbol_bitmap.width
            invariant
                0 <= x <= symbol_bitmap.width,
                0 <= y < symbol_bitmap.height,
                symbol_bitmap.wf(),
                image.wf(),
                image.width == old(image).width,
                image.height == old(image).height,
                symbol == symbol_bitmap@,
                symbol.width == symbol_bitmap.width,
                symbol.height == symbol_bitmap.height,
                before.width == image.width,
                before.height == image.height,
                before.contains_rect(pos.x as int, pos.y as int, symbol.width, symbol.height),
                image@ == before.stamp_upto(
                    symbol,
                    pos.x as int,
                    pos.y as int,
                    mask_color,
                    blit_color,
                    y as int,
                    x as int,
                ),
            decreases symbol_bitmap.width - x,
        {
            let symbol_pixel_color = symbol_bitmap.get(x, y);
            if symbol_pixel_color != mask_color {
                image.set(pos.x + x, pos.y + y, blit_color);
            }
            x += 1;
            proof {
                lemma_image_equal(
                    image@,
                    before.stamp_upto(
                        symbol,
                        pos.x as int,
                        pos.y as int,
                        mask_color,
                        blit_color,
                        y as int,
                        x as int,
                    ),
                );
            }
        }
        y += 1;
        proof {
            lemma_image_equal(
                image@,
                before.stamp_upto(
                    symbol,
                    pos.x as int,
                    pos.y as int,
                    mask_color,
                    blit_color,
                    y as int,
                    0,
                ),
            );
        }
    }
    proof {
        lemma_image_equal(
            image@,
            before.stamp(symbol, pos.x as int, pos.y as int, mask_color, blit_color),
        );
    }
}

/// The colour a cell is filled with: its own where the variant colours cells and the
/// source pixel is visible, else white.
pub open spec fn cell_fill(color: PixelRGBA, pattern_type: PatternType) -> PixelRGBA {
    if pattern_type.colorizes() && color.a != 0 {
        color
    } else {
        spec_white()
    }
}

/// Whether the fill of a cell of the given colour counts as light.
pub open spec fn cell_is_light(info: ColorInfo, pattern_type: PatternType) -> bool {
    !pattern_type.colorizes() || info.is_light
}

/// The symbol that a cell of the given colour carries.
pub open spec fn cell_symbol(info: ColorInfo, pattern_type: PatternType) -> Image {
    if pattern_type.uses_alphanum() {
        info.symbol_alphanum@
    } else {
        info.symbol@
    }
}

/// The cell, along one axis, that the pixel coordinate `p` lies in.
pub open spec fn cell_of(p: int) -> int {
    p / (TILE_SIZE as int)
}

/// How far, along one axis, the pixel coordinate `p` lies inside its cell.
pub open spec fn within_cell(p: int) -> int {
    p % (TILE_SIZE as int)
}

/// The colour of the pixel `(px, py)` of the sheet before any line is drawn: the fill
/// of its cell, or the symbol's ink where the cell's symbol covers the pixel.
pub open spec fn cell_pixel(
    source: Image,
    entries: Seq<ColorInfo>,
    pattern_type: PatternType,
    mask_color: PixelRGBA,
    px: int,
    py: int,
) -> PixelRGBA {
    let color = source.pixel(cell_of(px), cell_of(py));
    let fill = cell_fill(color, pattern_type);
    if pattern_type.draws_symbols() && color.a != 0 {
        let info = entries[position_of(entries, color)];
        let symbol = cell_symbol(info, pattern_type);
        if symbol.contains(within_cell(px), within_cell(py)) && symbol.pixel(
            within_cell(px),
            within_cell(py),
        ) != mask_color {
            spec_symbol_ink(cell_is_light(info, pattern_type))
        } else {
            fill
        }
    } else {
        fill
    }
}

/// The sheet before any line is drawn: every source pixel as a cell of `TILE_SIZE`
/// by `TILE_SIZE` pixels.
pub open spec fn cells_image(
    source: Image,
    entries: Seq<ColorInfo>,
    pattern_type: PatternType,
    mask_color: PixelRGBA,
) -> Image {
    Image {
        width: TILE_SIZE * source.width,
        height: TILE_SIZE * source.height,
        pixels: |px: int, py: int|
            if 0 <= px < TILE_SIZE * source.width && 0 <= py < TILE_SIZE * source.height {
                cell_pixel(source, entries, pattern_type, mask_color, px, py)
            } else {
                outside()
            },
    }
}

/// `cells_image` as far as it has come when the rows of cells above `row`, and the
/// cells of row `row` left of `col`, are drawn; the rest is still transparent.
spec fn cells_upto(
    source: Image,
    entries: Seq<ColorInfo>,
    pattern_type: PatternType,
    mask_color: PixelRGBA,
    row: int,
    col: int,
) -> Image {
    Image {
        width: TILE_SIZE * source.width,
        height: TILE_SIZE * source.height,
        pixels: |px: int, py: int|
            if 0 <= px < TILE_SIZE * source.width && 0 <= py < TILE_SIZE * source.height && (
            cell_of(py) < row || (cell_of(py) == row && cell_of(px) < col)) {
                cell_pixel(source, entries, pattern_type, mask_color, px, py)
            } else {
                outside()
            },
    }
}

/// Every visible pixel of the image has an entry in the list.
pub open spec fn covers(entries: Seq<ColorInfo>, source: Image) -> bool {
    forall|x: int, y: int|
        source.contains(x, y) && (#[trigger] source.pixel(x, y)).a != 0 ==> has_color(
            entries,
            source.pixel(x, y),
        )
}

/// The symbol that the variant stamps fits a cell, for every entry.
pub open spec fn symbols_fit(entries: Seq<ColorInfo>, pattern_type: PatternType) -> bool {
    forall|i: int|
        0 <= i < entries.len() ==> cell_symbol(#[trigger] entries[i], pattern_type).width
            <= TILE_SIZE && cell_symbol(entries[i], pattern_type).height <= TILE_SIZE
}

/// Whether a bitmap of `width` by `height` pixels can be held.
pub open spec fn storable(width: int, height: int) -> bool {
    0 <= width <= i32::MAX && 0 <= height <= i32::MAX && width * height <= usize::MAX
}

/// Whether a bitmap of the given size can be held.
pub fn is_storable(width: i64, height: i64) -> (storable_size: bool)
    ensures
        storable_size == storable(width as int, height as int),
{
    if width < 0 || height < 0 || width > i32::MAX as i64 || height > i32::MAX as i64 {
        return false;
    }
    assert(0 <= width * height <= 0x7fff_ffff * 0x7fff_ffff) by (nonlinear_arith)
        requires
            0 <= width <= 0x7fff_ffff,
            0 <= height <= 0x7fff_ffff,
    ;
    let area: u64 = (width as u64) * (height as u64);
    area <= usize::MAX as u64
}

/// Draws the cells of a sheet: the fill of every cell and, where the variant has
/// symbols, the symbol of every visible pixel's colour.
fn render_cells(
    bitmap: &Bitmap,
    color_mappings: &ColorMapping,
    pattern_type: PatternType,
    symbol_mask_color: PixelRGBA,
) -> (scaled: Bitmap)
    requires
        bitmap.wf(),
        color_mappings.wf(),
        storable(TILE_SIZE * bitmap.width, TILE_SIZE * bitmap.height),
        pattern_type.draws_symbols() ==> covers(color_mappings@, bitmap@) && symbols_fit(
            color_mappings@,
            pattern_type,
        ),
    ensures
        scaled.wf(),
        scaled.width == TILE_SIZE * bitmap.width,
        scaled.height == TILE_SIZE * bitmap.height,
        scaled@ == cells_image(bitmap@, color_mappings@, pattern_type, symbol_mask_color),
{
    let ghost source = bitmap@;
    let ghost entries = color_mappings@;
    proof {
        color_mappings.lemma_wf();
    }
    let colorize = pattern_type.colorizes();
    let add_symbol = pattern_type.draws_symbols();
    let use_alphanum = pattern_type.uses_alphanum();
    let mut scaled = Bitmap::new(TILE_SIZE * bitmap.width, TILE_SIZE * bitmap.height);
    proof {
        lemma_image_equal(
            scaled@,
            cells_upto(source, entries, pattern_type, symbol_mask_color, 0, 0),
        );
    }
    let mut y: i32 = 0;
    while y < bitmap.height
        invariant
            0 <= y <= bitmap.height,
            bitmap.wf(),
            color_mappings.wf(),
            source == bitmap@,
            entries == color_mappings@,
            source.width == bitmap.width,
            source.height == bitmap.height,
            colorize == pattern_type.colorizes(),
            add_symbol == pattern_type.draws_symbols(),
            use_alphanum == pattern_type.uses_alphanum(),
            pattern_type.draws_symbols() ==> covers(entries, source) && symbols_fit(
                entries,
                pattern_type,
            ),
            forall|i: int| 0 <= i < entries.len() ==> (#[trigger] entries[i]).wf(),
            scaled.wf(),
            scaled.width == TILE_SIZE * bitmap.width,
            scaled.height == TILE_SIZE * bitmap.height,
            scaled@ == cells_upto(source, entries, pattern_type, symbol_mask_color, y as int, 0),
        decreases bitmap.height - y,
    {
        let mut x: i32 = 0;
        while x < bitmap.width
            invariant
                0 <= x <= bitmap.width,
                0 <= y < bitmap.height,
                bitmap.wf(),
                color_mappings.wf(),
                source == bitmap@,
                entries == color_mappings@,
                source.width == bitmap.width,
                source.height == bitmap.height,
                colorize == pattern_type.colorizes(),
                add_symbol == pattern_type.draws_symbols(),
                use_alphanum == pattern_type.uses_alphanum(),
                pattern_type.draws_symbols() ==> covers(entries, source) && symbols_fit(
                entries,
                pattern_type,
            ),
                forall|i: int| 0 <= i < entries.len() ==> (#[trigger] entries[i]).wf(),
                scaled.wf(),
                scaled.width == TILE_SIZE * bitmap.width,
                scaled.height == TILE_SIZE * bitmap.height,
                scaled@ == cells_upto(
                    source,
                    entries,
                    pattern_type,
                    symbol_mask_color,
                    y as int,
                    x as int,
                ),
            decreases bitmap.width - x,
        {
            let color = bitmap.get(x, y);
            let fill = if colorize && color.a != 0 {
                color
            } else {
                PixelRGBA::white()
            };
            scaled.draw_rect_filled(TILE_SIZE * x, TILE_SIZE * y, TILE_SIZE, TILE_SIZE, fill);
            if add_symbol && color.a != 0 {
                assert(has_color(entries, source.pixel(x as int, y as int)));
                let info = color_mappings.get(&color).unwrap();
                let symbol = if use_alphanum {
                    &info.symbol_alphanum
                } else {
                    &info.symbol
                };
                let light = !colorize || info.is_light;
                proof {
                    assert(entries[position_of(entries, color)].wf());
                    assert(cell_symbol(entries[position_of(entries, color)], pattern_type).width
                        <= TILE_SIZE);
                }
                blit_symbol(
                    symbol,
                    &mut scaled,
                    Vec2i::new(TILE_SIZE * x, TILE_SIZE * y),
                    symbol_mask_color,
                    light,
                );
            }
            x += 1;
            proof {
                lemma_image_equal(
                    scaled@,
                    cells_upto(
                        source,
                        entries,
                        pattern_type,
                        symbol_mask_color,
                        y as int,
                        x as int,
                    ),
                );
            }
        }
        y += 1;
        proof {
            lemma_image_equal(
                scaled@,
                cells_upto(source, entries, pattern_type, symbol_mask_color, y as int, 0),
            );
        }
    }
    proof {
        lemma_image_equal(
            scaled@,
            cells_image(source, entries, pattern_type, symbol_mask_color),
        );
    }
    scaled
}

/// Whether the pixel coordinate `p` lies on a cell boundary of an axis of `extent`
/// pixels: on the first pixel of a cell, or on the last pixel of the axis.
pub open spec fn on_cell_boundary(p: int, extent: int) -> bool {
    within_cell(p) == 0 || p == extent - 1
}

/// The image with a thin line on every cell boundary.
pub open spec fn with_thin_grid(image: Image) -> Image {
    Image {
        width: image.width,
        height: image.height,
        pixels: |px: int, py: int|
            if image.contains(px, py) && (on_cell_boundary(px, image.width) || on_cell_boundary(
                py,
                image.height,
            )) {
                spec_color_grid_thin()
            } else {
                image.pixel(px, py)
            },
    }
}

/// `with_thin_grid` as far as it has come when the lines of the first `columns`
/// columns and of the first `rows` rows are drawn, and the closing lines as said.
spec fn thin_grid_upto(image: Image, columns: int, rows: int, right: bool, bottom: bool) -> Image {
    Image {
        width: image.width,
        height: image.height,
        pixels: |px: int, py: int|
            if image.contains(px, py) && ((within_cell(px) == 0 && cell_of(px) < columns) || (
            within_cell(py) == 0 && cell_of(py) < rows) || (right && px == image.width - 1) || (
            bottom && py == image.height - 1)) {
                spec_color_grid_thin()
            } else {
                image.pixel(px, py)
            },
    }
}

/// Draws a one-pixel line on every cell boundary and closes the grid on the right and
/// at the bottom.
fn draw_thin_grid(scaled: &mut Bitmap, columns: i32, rows: i32)
    requires
        old(scaled).wf(),
        1 <= columns,
        1 <= rows,
        old(scaled).width == TILE_SIZE * columns,
        old(scaled).height == TILE_SIZE * rows,
    ensures
        final(scaled).wf(),
        final(scaled).width == old(scaled).width,
        final(scaled).height == old(scaled).height,
        final(scaled)@ == with_thin_grid(old(scaled)@),
{
    let ghost before = scaled@;
    let width = scaled.width;
    let height = scaled.height;
    proof {
        lemma_image_equal(scaled@, thin_grid_upto(before, 0, 0, false, false));
    }
    let mut x: i32 = 0;
    while x < columns
        invariant
            0 <= x <= columns,
            1 <= rows,
            scaled.wf(),
            scaled.width == width,
            scaled.height == height,
            width == TILE_SIZE * columns,
            height == TILE_SIZE * rows,
            before.width == width,
            before.height == height,
            scaled@ == thin_grid_upto(before, x as int, 0, false, false),
        decreases columns - x,
    {
        scaled.draw_rect_filled(TILE_SIZE * x, 0, 1, height, color_grid_thin());
        x += 1;
        proof {
            lemma_image_equal(scaled@, thin_grid_upto(before, x as int, 0, false, false));
        }
    }
    let mut y: i32 = 0;
    while y < rows
        invariant
            0 <= y <= rows,
            1 <= columns,
            scaled.wf(),
            scaled.width == width,
            scaled.height == height,
            width == TILE_SIZE * columns,
            height == TILE_SIZE * rows,
            before.width == width,
            before.height == height,
            scaled@ == thin_grid_upto(before, columns as int, y as int, false, false),
        decreases rows - y,
    {
        scaled.draw_rect_filled(0, TILE_SIZE * y, width, 1, color_grid_thin());
        y += 1;
        proof {
            lemma_image_equal(scaled@, thin_grid_upto(before, columns as int, y as int, false, false));
        }
    }
    scaled.draw_rect_filled(width - 1, 0, 1, height, color_grid_thin());
    proof {
        lemma_image_equal(scaled@, thin_grid_upto(before, columns as int, rows as int, true, false));
    }
    scaled.draw_rect_filled(0, height - 1, width, 1, color_grid_thin());
    proof {
        lemma_image_equal(scaled@, with_thin_grid(before));
    }
}

/// Whether the cell boundary `cells` cells from the start of an axis carries a thick
/// line, the axis starting at the logical coordinate `first`.
pub open spec fn is_ten_line(first: int, cells: int) -> bool {
    (first + cells) % 10 == 0
}

/// Whether the pixel coordinate `p` of an axis of `extent` pixels lies on a thick line:
/// on the first two pixels of a cell whose logical coordinate is a multiple of ten, or
/// on the last two pixels of the axis where the coordinate after the last cell is one.
pub open spec fn on_ten_line(p: int, extent: int, first: int) -> bool {
    (within_cell(p) < 2 && is_ten_line(first, cell_of(p))) || (p >= extent - 2 && is_ten_line(
        first,
        cell_of(extent),
    ))
}

/// The image with a thick line on every tenth cell boundary.
pub open spec fn with_thick_grid(image: Image, first_x: int, first_y: int) -> Image {
    Image {
        width: image.width,
        height: image.height,
        pixels: |px: int, py: int|
            if image.contains(px, py) && (on_ten_line(px, image.width, first_x) || on_ten_line(
                py,
                image.height,
                first_y,
            )) {
                spec_color_grid_thick()
            } else {
                image.pixel(px, py)
            },
    }
}

/// `with_thick_grid` as far as it has come when the lines of the first `columns`
/// columns and of the first `rows` rows are drawn, and the closing lines as said.
spec fn thick_grid_upto(
    image: Image,
    first_x: int,
    first_y: int,
    columns: int,
    rows: int,
    right: bool,
    bottom: bool,
) -> Image {
    Image {
        width: image.width,
        height: image.height,
        pixels: |px: int, py: int|
            if image.contains(px, py) && ((within_cell(px) < 2 && is_ten_line(first_x, cell_of(px))
                && cell_of(px) < columns) || (within_cell(py) < 2 && is_ten_line(
                first_y,
                cell_of(py),
            ) && cell_of(py) < rows) || (right && px >= image.width - 2 && is_ten_line(
                first_x,
                cell_of(image.width),
            )) || (bottom && py >= image.height - 2 && is_ten_line(
                first_y,
                cell_of(image.height),
            ))) {
                spec_color_grid_thick()
            } else {
                image.pixel(px, py)
            },
    }
}

/// Draws a two-pixel line wherever the logical coordinate is a multiple of ten.
fn draw_thick_grid(scaled: &mut Bitmap, columns: i32, rows: i32, first_x: i32, first_y: i32)
    requires
        old(scaled).wf(),
        1 <= columns,
        1 <= rows,
        old(scaled).width == TILE_SIZE * columns,
        old(scaled).height == TILE_SIZE * rows,
    ensures
        final(scaled).wf(),
        final(scaled).width == old(scaled).width,
        final(scaled).height == old(scaled).height,
        final(scaled)@ == with_thick_grid(old(scaled)@, first_x as int, first_y as int),
{
    let ghost before = scaled@;
    let ghost fx = first_x as int;
    let ghost fy = first_y as int;
    let width = scaled.width;
    let height = scaled.height;
    proof {
        lemma_image_equal(scaled@, thick_grid_upto(before, fx, fy, 0, 0, false, false));
    }
    let mut x: i32 = 0;
    while x < columns
        invariant
            0 <= x <= columns,
            1 <= rows,
            scaled.wf(),
            scaled.width == width,
            scaled.height == height,
            width == TILE_SIZE * columns,
            height == TILE_SIZE * rows,
            before.width == width,
            before.height == height,
            fx == first_x,
            fy == first_y,
            scaled@ == thick_grid_upto(before, fx, fy, x as int, 0, false, false),
        decreases columns - x,
    {
        if is_multiple_of(first_x as i64 + x as i64, 10) {
            scaled.draw_rect_filled(TILE_SIZE * x, 0, 2, height, color_grid_thick());
        }
        x += 1;
        proof {
            lemma_image_equal(scaled@, thick_grid_upto(before, fx, fy, x as int, 0, false, false));
        }
    }
    let mut y: i32 = 0;
    while y < rows
        invariant
            0 <= y <= rows,
            1 <= columns,
            scaled.wf(),
            scaled.width == width,
            scaled.height == height,
            width == TILE_SIZE * columns,
            height == TILE_SIZE * rows,
            before.width == width,
            before.height == height,
            fx == first_x,
            fy == first_y,
            scaled@ == thick_grid_upto(before, fx, fy, columns as int, y as int, false, false),
        decreases rows - y,
    {
        if is_multiple_of(first_y as i64 + y as i64, 10) {
            scaled.draw_rect_filled(0, TILE_SIZE * y, width, 2, color_grid_thick());
        }
        y += 1;
        proof {
            lemma_image_equal(
                scaled@,
                thick_grid_upto(before, fx, fy, columns as int, y as int, false, false),
            );
        }
    }
    if is_multiple_of(first_x as i64 + columns as i64, 10) {
        scaled.draw_rect_filled(width - 2, 0, 2, height, color_grid_thick());
    }
    proof {
        lemma_image_equal(
            scaled@,
            thick_grid_upto(before, fx, fy, columns as int, rows as int, true, false),
        );
    }
    if is_multiple_of(first_y as i64 + rows as i64, 10) {
        scaled.draw_rect_filled(0, height - 2, width, 2, color_grid_thick());
    }
    proof {
        lemma_image_equal(scaled@, with_thick_grid(before, fx, fy));
    }
}

/// The image with a vertical origin marker centred on the pixel column `pos_x`: four
/// pixels of black with two pixels of white inside.
pub open spec fn with_origin_line_vertical(image: Image, pos_x: int) -> Image {
    image.fill_rect(pos_x - 2, 0, 4, image.height, spec_black()).fill_rect(
        pos_x - 1,
        0,
        2,
        image.height,
        spec_white(),
    )
}

/// The image with a horizontal origin marker centred on the pixel row `pos_y`.
pub open spec fn with_origin_line_horizontal(image: Image, pos_y: int) -> Image {
    image.fill_rect(0, pos_y - 2, image.width, 4, spec_black()).fill_rect(
        0,
        pos_y - 1,
        image.width,
        2,
        spec_white(),
    )
}

/// Draws a vertical origin marker.
pub fn draw_origin_line_vertical(bitmap: &mut Bitmap, pos_x: i32)
    requires
        old(bitmap).wf(),
        i32::MIN + 2 <= pos_x,
    ensures
        final(bitmap).wf(),
        final(bitmap).width == old(bitmap).width,
        final(bitmap).height == old(bitmap).height,
        final(bitmap)@ == with_origin_line_vertical(old(bitmap)@, pos_x as int),
{
    let height = bitmap.height;
    bitmap.draw_rect_filled_safely(pos_x - 2, 0, 4, height, PixelRGBA::black());
    bitmap.draw_rect_filled_safely(pos_x - 1, 0, 2, height, PixelRGBA::white());
}

/// Draws a horizontal origin marker.
pub fn draw_origin_line_horizontal(bitmap: &mut Bitmap, pos_y: i32)
    requires
        old(bitmap).wf(),
        i32::MIN + 2 <= pos_y,
    ensures
        final(bitmap).wf(),
        final(bitmap).width == old(bitmap).width,
        final(bitmap).height == old(bitmap).height,
        final(bitmap)@ == with_origin_line_horizontal(old(bitmap)@, pos_y as int),
{
    let width = bitmap.width;
    bitmap.draw_rect_filled_safely(0, pos_y - 2, width, 4, PixelRGBA::black());
    bitmap.draw_rect_filled_safely(0, pos_y - 1, width, 2, PixelRGBA::white());
}

/// The image with the origin markers of a sheet of `columns` by `rows` cells whose
/// first cell has the logical coordinates `(first_x, first_y)`. Where an axis crosses
/// the sheet strictly inside, its marker is drawn there. Where it runs along an edge,
/// the image gets a margin of two white pixels on that side and the marker is drawn
/// on the edge.
pub open spec fn with_origin_bars(image: Image, first_x: int, first_y: int, columns: int, rows: int)
    -> Image {
    let inner_x = if 0 < -first_x < columns {
        with_origin_line_vertical(image, TILE_SIZE * (-first_x))
    } else {
        image
    };
    let inner = if 0 < -first_y < rows {
        with_origin_line_horizontal(inner_x, TILE_SIZE * (-first_y))
    } else {
        inner_x
    };
    let left: int = if first_x == 0 { 2 } else { 0 };
    let top: int = if first_y == 0 { 2 } else { 0 };
    let right: int = if first_x + columns == 0 { 2 } else { 0 };
    let bottom: int = if first_y + rows == 0 { 2 } else { 0 };
    let padded = inner.extended(left, top, right, bottom, spec_white());
    let with_left = if first_x == 0 {
        with_origin_line_vertical(padded, 2)
    } else {
        padded
    };
    let with_right = if first_x + columns == 0 {
        with_origin_line_vertical(with_left, image.width)
    } else {
        with_left
    };
    let with_top = if first_y == 0 {
        with_origin_line_horizontal(with_right, 2)
    } else {
        with_right
    };
    if first_y + rows == 0 {
        with_origin_line_horizontal(with_top, image.height)
    } else {
        with_top
    }
}

/// Draws the origin markers of a sheet, widening the image where an axis runs along
/// an edge.
fn draw_origin_bars(scaled: &mut Bitmap, columns: i32, rows: i32, first_x: i32, first_y: i32)
    requires
        old(scaled).wf(),
        1 <= columns,
        1 <= rows,
        old(scaled).width == TILE_SIZE * columns,
        old(scaled).height == TILE_SIZE * rows,
        storable(old(scaled).width + 2, old(scaled).height + 2),
    ensures
        final(scaled).wf(),
        final(scaled)@ == with_origin_bars(
            old(scaled)@,
            first_x as int,
            first_y as int,
            columns as int,
            rows as int,
        ),
        final(scaled).width == old(scaled).width + (if first_x == 0 || first_x + columns == 0 {
            2int
        } else {
            0int
        }),
        final(scaled).height == old(scaled).height + (if first_y == 0 || first_y + rows == 0 {
            2int
        } else {
            0int
        }),
{
    let scaled_bitmap_width = scaled.width;
    let scaled_bitmap_height = scaled.height;
    let origin_bitmap_coord_x: i64 = -(first_x as i64);
    if 0 < origin_bitmap_coord_x && origin_bitmap_coord_x < columns as i64 {
        draw_origin_line_vertical(scaled, (TILE_SIZE as i64 * origin_bitmap_coord_x) as i32);
    }
    let origin_bitmap_coord_y: i64 = -(first_y as i64);
    if 0 < origin_bitmap_coord_y && origin_bitmap_coord_y < rows as i64 {
        draw_origin_line_horizontal(scaled, (TILE_SIZE as i64 * origin_bitmap_coord_y) as i32);
    }
    let needs_grid_left = first_x == 0;
    let needs_grid_top = first_y == 0;
    let needs_grid_right = first_x as i64 + columns as i64 == 0;
    let needs_grid_bottom = first_y as i64 + rows as i64 == 0;
    let padding_left: i32 = if needs_grid_left { 2 } else { 0 };
    let padding_top: i32 = if needs_grid_top { 2 } else { 0 };
    let padding_right: i32 = if needs_grid_right { 2 } else { 0 };
    let padding_bottom: i32 = if needs_grid_bottom { 2 } else { 0 };
    proof {
        assert((scaled.width + padding_left + padding_right) * (scaled.height + padding_top
            + padding_bottom) <= (scaled.width + 2) * (scaled.height + 2)) by (nonlinear_arith)
            requires
                0 <= scaled.width,
                0 <= scaled.height,
                0 <= padding_left + padding_right <= 2,
                0 <= padding_top + padding_bottom <= 2,
        ;
    }
    scaled.extend(padding_left, padding_top, padding_right, padding_bottom, PixelRGBA::white());
    if needs_grid_left {
        draw_origin_line_vertical(scaled, 2);
    }
    if needs_grid_right {
        draw_origin_line_vertical(scaled, scaled_bitmap_width);
    }
    if needs_grid_top {
        draw_origin_line_horizontal(scaled, 2);
    }
    if needs_grid_bottom {
        draw_origin_line_horizontal(scaled, scaled_bitmap_height);
    }
}

/// A pattern sheet before its labels: the cells, the thin grid, the thick grid where
/// it is asked for, and the origin markers where they are asked for.
pub open spec fn pattern_image(
    source: Image,
    entries: Seq<ColorInfo>,
    first_x: int,
    first_y: int,
    pattern_type: PatternType,
    add_thick_ten_grid: bool,
    add_origin_grid_bars: bool,
    mask_color: PixelRGBA,
) -> Image {
    let cells = cells_image(source, entries, pattern_type, mask_color);
    let thin = with_thin_grid(cells);
    let thick = if add_thick_ten_grid {
        with_thick_grid(thin, first_x, first_y)
    } else {
        thin
    };
    if add_origin_grid_bars {
        with_origin_bars(thick, first_x, first_y, source.width, source.height)
    } else {
        thick
    }
}

/// Renders one pattern sheet, without labels, from a quantized image.
///
/// Every source pixel becomes a cell of `TILE_SIZE` by `TILE_SIZE` pixels, filled with
/// its colour or with white and stamped with its colour's symbol, as the variant says;
/// transparent pixels become white cells without a symbol. Over the cells lie the thin
/// grid, the thick grid on every tenth logical coordinate, and the origin markers.
pub fn create_cross_stitch_pattern(
    bitmap: &Bitmap,
    color_mappings: &ColorMapping,
    logical_first_coordinate_x: i32,
    logical_first_coordinate_y: i32,
    pattern_type: PatternType,
    add_thick_ten_grid: bool,
    add_origin_grid_bars: bool,
    symbol_mask_color: PixelRGBA,
) -> (scaled_bitmap: Bitmap)
    requires
        bitmap.wf(),
        1 <= bitmap.width,
        1 <= bitmap.height,
        color_mappings.wf(),
        storable(TILE_SIZE * bitmap.width + 2, TILE_SIZE * bitmap.height + 2),
        pattern_type.draws_symbols() ==> covers(color_mappings@, bitmap@) && symbols_fit(
            color_mappings@,
            pattern_type,
        ),
    ensures
        scaled_bitmap.wf(),
        scaled_bitmap@ == pattern_image(
            bitmap@,
            color_mappings@,
            logical_first_coordinate_x as int,
            logical_first_coordinate_y as int,
            pattern_type,
            add_thick_ten_grid,
            add_origin_grid_bars,
            symbol_mask_color,
        ),
        TILE_SIZE * bitmap.width <= scaled_bitmap.width <= TILE_SIZE * bitmap.width + 2,
        TILE_SIZE * bitmap.height <= scaled_bitmap.height <= TILE_SIZE * bitmap.height + 2,
{
    proof {
        assert((TILE_SIZE * bitmap.width) * (TILE_SIZE * bitmap.height) <= (TILE_SIZE
            * bitmap.width + 2) * (TILE_SIZE * bitmap.height + 2)) by (nonlinear_arith)
            requires
                0 <= bitmap.width,
                0 <= bitmap.height,
        ;
    }
    let mut scaled_bitmap = render_cells(bitmap, color_mappings, pattern_type, symbol_mask_color);
    draw_thin_grid(&mut scaled_bitmap, bitmap.width, bitmap.height);
    if add_thick_ten_grid {
        draw_thick_grid(
            &mut scaled_bitmap,
            bitmap.width,
            bitmap.height,
            logical_first_coordinate_x,
            logical_first_coordinate_y,
        );
    }
    if add_origin_grid_bars {
        draw_origin_bars(
            &mut scaled_bitmap,
            bitmap.width,
            bitmap.height,
            logical_first_coordinate_x,
            logical_first_coordinate_y,
        );
    }
    scaled_bitmap
}

/// How many pixels the origin markers add to an axis of `cells` cells that starts at
/// the logical coordinate `first`: two where the axis of the other direction runs
/// along one of its ends, else none.
pub open spec fn origin_padding(first: int, cells: int, add_origin_grid_bars: bool) -> int {
    if add_origin_grid_bars && (first == 0 || first + cells == 0) {
        2
    } else {
        0
    }
}

/// The size of a pattern sheet: the cells, and the margin that origin markers on an
/// edge add.
pub proof fn lemma_pattern_size(
    source: Image,
    entries: Seq<ColorInfo>,
    first_x: int,
    first_y: int,
    pattern_type: PatternType,
    add_thick_ten_grid: bool,
    add_origin_grid_bars: bool,
    mask_color: PixelRGBA,
)
    requires
        1 <= source.width,
        1 <= source.height,
    ensures
        pattern_image(
            source,
            entries,
            first_x,
            first_y,
            pattern_type,
            add_thick_ten_grid,
            add_origin_grid_bars,
            mask_color,
        ).width == TILE_SIZE * source.width + origin_padding(
            first_x,
            source.width,
            add_origin_grid_bars,
        ),
        pattern_image(
            source,
            entries,
            first_x,
            first_y,
            pattern_type,
            add_thick_ten_grid,
            add_origin_grid_bars,
            mask_color,
        ).height == TILE_SIZE * source.height + origin_padding(
            first_y,
            source.height,
            add_origin_grid_bars,
        ),
{
}

/// Whether the mapping has an entry for every visible pixel of the bitmap.
pub fn has_entry_for_every_pixel(bitmap: &Bitmap, color_mappings: &ColorMapping) -> (covered: bool)
    requires
        bitmap.wf(),
        color_mappings.wf(),
    ensures
        covered == covers(color_mappings@, bitmap@),
{
    let mut y: i32 = 0;
    while y < bitmap.height
        invariant
            0 <= y <= bitmap.height,
            bitmap.wf(),
            color_mappings.wf(),
            bitmap@.width == bitmap.width,
            bitmap@.height == bitmap.height,
            forall|px: int, py: int|
                bitmap@.contains(px, py) && py < y && (#[trigger] bitmap@.pixel(px, py)).a != 0
                    ==> has_color(color_mappings@, bitmap@.pixel(px, py)),
        decreases bitmap.height - y,
    {
        let mut x: i32 = 0;
        while x < bitmap.width
            invariant
                0 <= x <= bitmap.width,
                0 <= y < bitmap.height,
                bitmap.wf(),
                color_mappings.wf(),
                bitmap@.width == bitmap.width,
                bitmap@.height == bitmap.height,
                forall|px: int, py: int|
                    bitmap@.contains(px, py) && (py < y || (py == y && px < x)) && (
                    #[trigger] bitmap@.pixel(px, py)).a != 0 ==> has_color(
                        color_mappings@,
                        bitmap@.pixel(px, py),
                    ),
            decreases bitmap.width - x,
        {
            let color = bitmap.get(x, y);
            if color.a != 0 {
                if color_mappings.index_of(&color).is_none() {
                    return false;
                }
            }
            x += 1;
        }
        y += 1;
    }
    true
}

/// Whether the symbol that the variant stamps fits a cell, for every entry.
pub fn symbols_fit_cells(color_mappings: &ColorMapping, pattern_type: PatternType) -> (fit: bool)
    ensures
        fit == symbols_fit(color_mappings@, pattern_type),
{
    let entries = color_mappings.entries();
    let use_alphanum = pattern_type.uses_alphanum();
    let mut i: usize = 0;
    while i < entries.len()
        invariant
            i <= entries.len(),
            entries@ == color_mappings@,
            use_alphanum == pattern_type.uses_alphanum(),
            forall|k: int|
                0 <= k < i ==> cell_symbol(#[trigger] entries@[k], pattern_type).width <= TILE_SIZE
                    && cell_symbol(entries@[k], pattern_type).height <= TILE_SIZE,
        decreases entries.len() - i,
    {
        let symbol = if use_alphanum {
            &entries[i].symbol_alphanum
        } else {
            &entries[i].symbol
        };
        if symbol.width > TILE_SIZE || symbol.height > TILE_SIZE {
            return false;
        }
        i += 1;
    }
    true
}

} // verus!
