//! Which sheets a pattern consists of, and what each of them shows.

use vstd::prelude::*;
use crate::bitmap::lemma_buffer_index;
use crate::bitmap::Bitmap;
use crate::bitmap::GluePosition;
use crate::bitmap::Image;
use crate::color::PixelRGBA;
use crate::constants::spec_white;
use crate::constants::SPLIT_SEGMENT_HEIGHT;
use crate::constants::SPLIT_SEGMENT_WIDTH;
use crate::constants::TILE_SIZE;
use crate::labels::grid_labels;
use crate::labels::label_padding;
use crate::labels::max_len;
use crate::labels::place_grid_labels_in_pattern;
use crate::labels::GridLabel;
use crate::mapping::create_color_mappings_from_image;
use crate::mapping::has_color;
use crate::mapping::sorted_by_hue_lightness_saturation;
use crate::mapping::ties_in_order_met;
use crate::mapping::total_count;
use crate::mapping::visible_colors;
use crate::mapping::visible_count;
use crate::mapping::MappingError;
use crate::quantize::convert_image;
use crate::quantize::quantized;
use crate::quantize::Palette;
use crate::mapping::is_usage_of;
use crate::mapping::ColorInfo;
use crate::mapping::ColorMapping;
use crate::math::Vec2i;
use crate::text::decimal_len;
use crate::text::pattern_part_text;
use crate::text::spec_pattern_part_text;
use crate::pattern::covers;
use crate::pattern::has_entry_for_every_pixel;
use crate::pattern::is_storable;
use crate::pattern::lemma_pattern_size;
use crate::pattern::create_cross_stitch_pattern;
use crate::pattern::pattern_image;
use crate::pattern::storable;
use crate::pattern::symbols_fit;
use crate::pattern::symbols_fit_cells;
use crate::pattern::PatternType;
use crate::segment::image_center;
use crate::segment::lemma_segment_count;
use crate::segment::lemma_segment_pixels;
use crate::segment::segment_count;
use crate::segment::segment_image;
use crate::segment::segment_origin;
use crate::segment::spec_image_center;
use crate::segment::spec_segment_origin;
use crate::segment::to_segments;
use crate::segment::CoordinateOrigin;

verus! {

/// How one sheet of a set is rendered.
#[derive(Debug, Clone, Copy, PartialEq, Eq, Structural)]
pub struct PatternVariant {
    pub pattern_type: PatternType,
    pub add_thick_ten_grid: bool,
    pub add_origin_grid_bars: bool,
    pub symbol_mask_color: PixelRGBA,
}

impl PatternType {
    /// The part of a sheet's file name that tells the variant.
    pub fn file_kind(self) -> (kind: &'static str)
        ensures
            kind@ == match self {
                PatternType::BlackAndWhite => "cross_stitch_"@,
                PatternType::Colorized => "cross_stitch_colorized_"@,
                PatternType::ColorizedNoSymbols => "cross_stitch_colorized_no_symbols_"@,
                PatternType::PaintByNumbers => "paint_by_numbers_"@,
            },
    {
        match self {
            PatternType::BlackAndWhite => "cross_stitch_",
            PatternType::Colorized => "cross_stitch_colorized_",
            PatternType::ColorizedNoSymbols => "cross_stitch_colorized_no_symbols_",
            PatternType::PaintByNumbers => "paint_by_numbers_",
        }
    }
}

/// The variants of one set of sheets: colourized, black and white, and colourized
/// without symbols, each with the thick grid and with origin markers as asked; then,
/// where it is asked for, paint by numbers, without either, whose symbols are masked
/// by the transparent colour.
pub open spec fn spec_pattern_set_variants(
    create_paint_by_number_set: bool,
    add_origin_grid_bars: bool,
) -> Seq<PatternVariant> {
    let gridded = seq![
        PatternVariant {
            pattern_type: PatternType::Colorized,
            add_thick_ten_grid: true,
            add_origin_grid_bars,
            symbol_mask_color: spec_white(),
        },
        PatternVariant {
            pattern_type: PatternType::BlackAndWhite,
            add_thick_ten_grid: true,
            add_origin_grid_bars,
            symbol_mask_color: spec_white(),
        },
        PatternVariant {
            pattern_type: PatternType::ColorizedNoSymbols,
            add_thick_ten_grid: true,
            add_origin_grid_bars,
            symbol_mask_color: spec_white(),
        },
    ];
    if create_paint_by_number_set {
        gridded.push(
            PatternVariant {
                pattern_type: PatternType::PaintByNumbers,
                add_thick_ten_grid: false,
                add_origin_grid_bars: false,
                symbol_mask_color: PixelRGBA { r: 0, g: 0, b: 0, a: 0 },
            },
        )
    } else {
        gridded
    }
}

/// The variants of one set of sheets.
pub fn pattern_set_variants(create_paint_by_number_set: bool, add_origin_grid_bars: bool) -> (variants:
    Vec<PatternVariant>)
    ensures
        variants@ == spec_pattern_set_variants(create_paint_by_number_set, add_origin_grid_bars),
{
    let mut variants: Vec<PatternVariant> = Vec::new();
    variants.push(
        PatternVariant {
            pattern_type: PatternType::Colorized,
            add_thick_ten_grid: true,
            add_origin_grid_bars,
            symbol_mask_color: PixelRGBA::white(),
        },
    );
    variants.push(
        PatternVariant {
            pattern_type: PatternType::BlackAndWhite,
            add_thick_ten_grid: true,
            add_origin_grid_bars,
            symbol_mask_color: PixelRGBA::white(),
        },
    );
    variants.push(
        PatternVariant {
            pattern_type: PatternType::ColorizedNoSymbols,
            add_thick_ten_grid: true,
            add_origin_grid_bars,
            symbol_mask_color: PixelRGBA::white(),
        },
    );
    if create_paint_by_number_set {
        variants.push(
            PatternVariant {
                pattern_type: PatternType::PaintByNumbers,
                add_thick_ten_grid: false,
                add_origin_grid_bars: false,
                symbol_mask_color: PixelRGBA::transparent(),
            },
        );
    }
    assert(variants@ =~= spec_pattern_set_variants(create_paint_by_number_set, add_origin_grid_bars));
    variants
}

/// One rendered sheet: its image, still without text, and the labels to print on it.
pub struct PatternSheet {
    pub pattern_type: PatternType,
    pub image: Bitmap,
    pub labels: Vec<GridLabel>,
}

/// The sheet of a variant before it gets its margin.
pub open spec fn sheet_pattern(
    source: Image,
    entries: Seq<ColorInfo>,
    first_x: int,
    first_y: int,
    variant: PatternVariant,
) -> Image {
    pattern_image(
        source,
        entries,
        first_x,
        first_y,
        variant.pattern_type,
        variant.add_thick_ten_grid,
        variant.add_origin_grid_bars,
        variant.symbol_mask_color,
    )
}

/// The width of the label margin of a sheet; none where the variant has no thick grid.
pub open spec fn sheet_padding(
    source: Image,
    entries: Seq<ColorInfo>,
    horizontal_advance_max: int,
    first_x: int,
    first_y: int,
    variant: PatternVariant,
) -> int {
    let pattern = sheet_pattern(source, entries, first_x, first_y, variant);
    if variant.add_thick_ten_grid {
        label_padding(
            horizontal_advance_max,
            first_x,
            first_y,
            pattern.width / (TILE_SIZE as int),
            pattern.height / (TILE_SIZE as int),
        )
    } else {
        0
    }
}

/// The image of a sheet: the pattern, and round it, where the variant has a thick
/// grid, the white margin that holds the labels.
pub open spec fn sheet_image(
    source: Image,
    entries: Seq<ColorInfo>,
    horizontal_advance_max: int,
    first_x: int,
    first_y: int,
    variant: PatternVariant,
) -> Image {
    let pattern = sheet_pattern(source, entries, first_x, first_y, variant);
    if variant.add_thick_ten_grid {
        let padding = sheet_padding(
            source,
            entries,
            horizontal_advance_max,
            first_x,
            first_y,
            variant,
        );
        pattern.extended(padding, padding, padding, padding, spec_white())
    } else {
        pattern
    }
}

/// The labels of a sheet; none where the variant has no thick grid.
pub open spec fn sheet_labels(
    source: Image,
    entries: Seq<ColorInfo>,
    horizontal_advance_max: int,
    first_x: int,
    first_y: int,
    variant: PatternVariant,
) -> Seq<GridLabel> {
    let pattern = sheet_pattern(source, entries, first_x, first_y, variant);
    if variant.add_thick_ten_grid {
        grid_labels(
            pattern.width,
            pattern.height,
            TILE_SIZE as int,
            horizontal_advance_max,
            first_x,
            first_y,
        )
    } else {
        Seq::empty()
    }
}

/// Whether a sheet of the variant can be rendered from the image: the image is not
/// empty, every colour that needs a symbol has an entry, and the sheet with its
/// margin can be held by a bitmap.
pub open spec fn sheet_renderable(
    source: Image,
    entries: Seq<ColorInfo>,
    horizontal_advance_max: int,
    first_x: int,
    first_y: int,
    variant: PatternVariant,
) -> bool {
    &&& 1 <= source.width
    &&& 1 <= source.height
    &&& storable(TILE_SIZE * source.width + 2, TILE_SIZE * source.height + 2)
    &&& variant.pattern_type.draws_symbols() ==> covers(entries, source) && symbols_fit(
        entries,
        variant.pattern_type,
    )
    &&& {
        let pattern = sheet_pattern(source, entries, first_x, first_y, variant);
        let padding = sheet_padding(
            source,
            entries,
            horizontal_advance_max,
            first_x,
            first_y,
            variant,
        );
        storable(pattern.width + 2 * padding, pattern.height + 2 * padding)
    }
}

/// Renders the sheet of one variant.
pub fn create_pattern_sheet(
    bitmap: &Bitmap,
    color_mappings: &ColorMapping,
    horizontal_advance_max: i32,
    logical_first_coordinate_x: i32,
    logical_first_coordinate_y: i32,
    variant: &PatternVariant,
) -> (sheet: PatternSheet)
    requires
        bitmap.wf(),
        color_mappings.wf(),
        0 <= horizontal_advance_max,
        sheet_renderable(
            bitmap@,
            color_mappings@,
            horizontal_advance_max as int,
            logical_first_coordinate_x as int,
            logical_first_coordinate_y as int,
            *variant,
        ),
    ensures
        sheet.pattern_type == variant.pattern_type,
        sheet.image.wf(),
        sheet.image@ == sheet_image(
            bitmap@,
            color_mappings@,
            horizontal_advance_max as int,
            logical_first_coordinate_x as int,
            logical_first_coordinate_y as int,
            *variant,
        ),
        sheet.labels@ == sheet_labels(
            bitmap@,
            color_mappings@,
            horizontal_advance_max as int,
            logical_first_coordinate_x as int,
            logical_first_coordinate_y as int,
            *variant,
        ),
{
    let scaled_bitmap = create_cross_stitch_pattern(
        bitmap,
        color_mappings,
        logical_first_coordinate_x,
        logical_first_coordinate_y,
        variant.pattern_type,
        variant.add_thick_ten_grid,
        variant.add_origin_grid_bars,
        variant.symbol_mask_color,
    );
    if variant.add_thick_ten_grid {
        let result = place_grid_labels_in_pattern(
            &scaled_bitmap,
            TILE_SIZE,
            horizontal_advance_max,
            logical_first_coordinate_x,
            logical_first_coordinate_y,
        );
        PatternSheet { pattern_type: variant.pattern_type, image: result.0, labels: result.1 }
    } else {
        PatternSheet { pattern_type: variant.pattern_type, image: scaled_bitmap, labels: Vec::new() }
    }
}

/// Whether a sheet of the variant can be rendered from the image.
pub fn sheet_is_renderable(
    bitmap: &Bitmap,
    color_mappings: &ColorMapping,
    horizontal_advance_max: i32,
    logical_first_coordinate_x: i32,
    logical_first_coordinate_y: i32,
    variant: &PatternVariant,
) -> (renderable: bool)
    requires
        bitmap.wf(),
        color_mappings.wf(),
        0 <= horizontal_advance_max,
    ensures
        renderable == sheet_renderable(
            bitmap@,
            color_mappings@,
            horizontal_advance_max as int,
            logical_first_coordinate_x as int,
            logical_first_coordinate_y as int,
            *variant,
        ),
{
    if bitmap.width < 1 || bitmap.height < 1 {
        return false;
    }
    let ghost source = bitmap@;
    let ghost entries = color_mappings@;
    let first_x: i64 = logical_first_coordinate_x as i64;
    let first_y: i64 = logical_first_coordinate_y as i64;
    let columns: i64 = bitmap.width as i64;
    let rows: i64 = bitmap.height as i64;
    let tile: i64 = TILE_SIZE as i64;
    assert(tile == 16);
    let cells_width: i64 = tile * columns;
    let cells_height: i64 = tile * rows;
    if !is_storable(cells_width + 2, cells_height + 2) {
        return false;
    }
    if variant.pattern_type.draws_symbols() && !(has_entry_for_every_pixel(bitmap, color_mappings)
        && symbols_fit_cells(color_mappings, variant.pattern_type)) {
        return false;
    }
    let extra_x: i64 = if variant.add_origin_grid_bars && (first_x == 0 || first_x + columns == 0) {
        2
    } else {
        0
    };
    let extra_y: i64 = if variant.add_origin_grid_bars && (first_y == 0 || first_y + rows == 0) {
        2
    } else {
        0
    };
    let width: i64 = cells_width + extra_x;
    let height: i64 = cells_height + extra_y;
    proof {
        lemma_pattern_size(
            source,
            entries,
            first_x as int,
            first_y as int,
            variant.pattern_type,
            variant.add_thick_ten_grid,
            variant.add_origin_grid_bars,
            variant.symbol_mask_color,
        );
        assert(width == sheet_pattern(source, entries, first_x as int, first_y as int, *variant).width);
        assert(height == sheet_pattern(
            source,
            entries,
            first_x as int,
            first_y as int,
            *variant,
        ).height);
    }
    if !variant.add_thick_ten_grid {
        return is_storable(width, height);
    }
    let grid_width: i64 = width / tile;
    let grid_height: i64 = height / tile;
    let longest = larger(
        larger(decimal_len(first_x), decimal_len(first_y)),
        larger(decimal_len(first_x + grid_width), decimal_len(first_y + grid_height)),
    );
    assert(0 <= horizontal_advance_max * (longest + 4) <= 0x7fff_ffff * 24) by (nonlinear_arith)
        requires
            0 <= horizontal_advance_max <= 0x7fff_ffff,
            0 <= longest + 4 <= 24,
    ;
    let padding: i64 = (horizontal_advance_max as i64) * (longest as i64 + 4);
    is_storable(width + 2 * padding, height + 2 * padding)
}

/// The larger of two lengths.
fn larger(a: usize, b: usize) -> (m: usize)
    ensures
        m == max_len(a as nat, b as nat),
{
    if a >= b {
        a
    } else {
        b
    }
}

/// Renders the sheet of one variant, or returns `None` where it cannot be rendered:
/// where the image is empty, where a colour that needs a symbol has no entry, or where
/// the sheet would be too large to be held.
pub fn try_create_pattern_sheet(
    bitmap: &Bitmap,
    color_mappings: &ColorMapping,
    horizontal_advance_max: i32,
    logical_first_coordinate_x: i32,
    logical_first_coordinate_y: i32,
    variant: &PatternVariant,
) -> (result: Option<PatternSheet>)
    requires
        bitmap.wf(),
        color_mappings.wf(),
    ensures
        result.is_some() == (0 <= horizontal_advance_max && sheet_renderable(
            bitmap@,
            color_mappings@,
            horizontal_advance_max as int,
            logical_first_coordinate_x as int,
            logical_first_coordinate_y as int,
            *variant,
        )),
        result matches Some(sheet) ==> {
            &&& sheet.pattern_type == variant.pattern_type
            &&& sheet.image.wf()
            &&& sheet.image@ == sheet_image(
                bitmap@,
                color_mappings@,
                horizontal_advance_max as int,
                logical_first_coordinate_x as int,
                logical_first_coordinate_y as int,
                *variant,
            )
            &&& sheet.labels@ == sheet_labels(
                bitmap@,
                color_mappings@,
                horizontal_advance_max as int,
                logical_first_coordinate_x as int,
                logical_first_coordinate_y as int,
                *variant,
            )
        },
{
    if horizontal_advance_max < 0 {
        return None;
    }
    if !sheet_is_renderable(
        bitmap,
        color_mappings,
        horizontal_advance_max,
        logical_first_coordinate_x,
        logical_first_coordinate_y,
        variant,
    ) {
        return None;
    }
    Some(
        create_pattern_sheet(
            bitmap,
            color_mappings,
            horizontal_advance_max,
            logical_first_coordinate_x,
            logical_first_coordinate_y,
            variant,
        ),
    )
}

/// Renders one set of sheets: one sheet for each of its variants, in their order.
pub fn create_cross_stitch_pattern_set(
    image: &Bitmap,
    color_mappings: &ColorMapping,
    horizontal_advance_max: i32,
    logical_first_coordinate_x: i32,
    logical_first_coordinate_y: i32,
    create_paint_by_number_set: bool,
    add_origin_grid_bars: bool,
) -> (sheets: Vec<PatternSheet>)
    requires
        image.wf(),
        color_mappings.wf(),
        0 <= horizontal_advance_max,
        forall|i: int|
            0 <= i < spec_pattern_set_variants(
                create_paint_by_number_set,
                add_origin_grid_bars,
            ).len() ==> sheet_renderable(
                image@,
                color_mappings@,
                horizontal_advance_max as int,
                logical_first_coordinate_x as int,
                logical_first_coordinate_y as int,
                #[trigger] spec_pattern_set_variants(
                    create_paint_by_number_set,
                    add_origin_grid_bars,
                )[i],
            ),
    ensures
        sheets.len() == spec_pattern_set_variants(
            create_paint_by_number_set,
            add_origin_grid_bars,
        ).len(),
        forall|i: int|
            0 <= i < sheets.len() ==> {
                let variant = spec_pattern_set_variants(
                    create_paint_by_number_set,
                    add_origin_grid_bars,
                )[i];
                &&& (#[trigger] sheets[i]).pattern_type == variant.pattern_type
                &&& sheets[i].image.wf()
                &&& sheets[i].image@ == sheet_image(
                    image@,
                    color_mappings@,
                    horizontal_advance_max as int,
                    logical_first_coordinate_x as int,
                    logical_first_coordinate_y as int,
                    variant,
                )
                &&& sheets[i].labels@ == sheet_labels(
                    image@,
                    color_mappings@,
                    horizontal_advance_max as int,
                    logical_first_coordinate_x as int,
                    logical_first_coordinate_y as int,
                    variant,
                )
            },
{
    let variants = pattern_set_variants(create_paint_by_number_set, add_origin_grid_bars);
    let mut sheets: Vec<PatternSheet> = Vec::new();
    let mut i: usize = 0;
    while i < variants.len()
        invariant
            i <= variants.len(),
            image.wf(),
            color_mappings.wf(),
            0 <= horizontal_advance_max,
            variants@ == spec_pattern_set_variants(create_paint_by_number_set, add_origin_grid_bars),
            forall|k: int|
                0 <= k < variants@.len() ==> sheet_renderable(
                    image@,
                    color_mappings@,
                    horizontal_advance_max as int,
                    logical_first_coordinate_x as int,
                    logical_first_coordinate_y as int,
                    #[trigger] variants@[k],
                ),
            sheets.len() == i,
            forall|k: int|
                0 <= k < i ==> {
                    &&& (#[trigger] sheets[k]).pattern_type == variants@[k].pattern_type
                    &&& sheets[k].image.wf()
                    &&& sheets[k].image@ == sheet_image(
                        image@,
                        color_mappings@,
                        horizontal_advance_max as int,
                        logical_first_coordinate_x as int,
                        logical_first_coordinate_y as int,
                        variants@[k],
                    )
                    &&& sheets[k].labels@ == sheet_labels(
                        image@,
                        color_mappings@,
                        horizontal_advance_max as int,
                        logical_first_coordinate_x as int,
                        logical_first_coordinate_y as int,
                        variants@[k],
                    )
                },
        decreases variants.len() - i,
    {
        let sheet = create_pattern_sheet(
            image,
            color_mappings,
            horizontal_advance_max,
            logical_first_coordinate_x,
            logical_first_coordinate_y,
            &variants[i],
        );
        sheets.push(sheet);
        i += 1;
    }
    sheets
}

/// A list of entries that lists the colours of a bitmap's pixels has an entry for
/// every visible pixel of its image.
pub proof fn lemma_usage_covers(entries: Seq<ColorInfo>, bitmap: &Bitmap)
    requires
        bitmap.wf(),
        is_usage_of(entries, bitmap.data@),
    ensures
        covers(entries, bitmap@),
{
    bitmap.lemma_view();
    assert forall|x: int, y: int|
        bitmap@.contains(x, y) && (#[trigger] bitmap@.pixel(x, y)).a != 0 implies has_color(
        entries,
        bitmap@.pixel(x, y),
    ) by {
        lemma_buffer_index(bitmap.width as int, bitmap.height as int, x, y);
        let index = y * bitmap.width + x;
        assert(bitmap@.pixel(x, y) == bitmap.data@[index]);
    }
}

/// A list of entries that has an entry for every visible pixel of an image has one
/// for every visible pixel of each of its segments.
pub proof fn lemma_segment_covered(
    entries: Seq<ColorInfo>,
    image: Image,
    segment_width: int,
    segment_height: int,
    column: int,
    row: int,
)
    requires
        covers(entries, image),
        0 < segment_width,
        0 < segment_height,
        0 <= image.width,
        0 <= image.height,
        0 <= column < segment_count(image.width, segment_width),
        0 <= row < segment_count(image.height, segment_height),
    ensures
        covers(entries, segment_image(image, segment_width, segment_height, column, row)),
{
    let segment = segment_image(image, segment_width, segment_height, column, row);
    assert forall|x: int, y: int|
        segment.contains(x, y) && (#[trigger] segment.pixel(x, y)).a != 0 implies has_color(
        entries,
        segment.pixel(x, y),
    ) by {
        lemma_segment_pixels(image, segment_width, segment_height, column, row, x, y);
        assert(image.pixel(x + column * segment_width, y + row * segment_height).a != 0);
    }
}

/// One set of sheets to render: the image or one of its segments, and how its sheets
/// are labelled.
pub struct PatternJob {
    pub image: Bitmap,
    /// The number of the segment, counted from one; `None` for the whole image.
    pub segment_index: Option<usize>,
    pub logical_first_coordinate_x: i32,
    pub logical_first_coordinate_y: i32,
    pub create_paint_by_number_set: bool,
    pub add_origin_grid_bars: bool,
}

/// All sets of sheets of one image, and where its segments lie.
pub struct PatternPlan {
    /// First the whole image; then, where it has more than one, each of its segments.
    pub jobs: Vec<PatternJob>,
    /// The column and row of every segment, in the order of the segments.
    pub segment_coordinates: Vec<Vec2i>,
}

/// The logical coordinate at which the whole image starts along an axis of `extent` cells.
pub open spec fn spec_logical_start(extent: int, origin: CoordinateOrigin) -> int {
    match origin {
        CoordinateOrigin::Absolute => 0,
        CoordinateOrigin::Centered => -spec_image_center(extent),
    }
}

/// Whether `plan` is the plan for `image`: the first job is the whole image, with a
/// paint-by-numbers sheet; where the image is cut into more than one segment, one job
/// follows for each segment, numbered from one, without a paint-by-numbers sheet.
/// Every job starts at its own logical coordinates, and has origin markers exactly
/// where coordinates are centred.
pub open spec fn is_plan_for(plan: PatternPlan, image: Image, origin: CoordinateOrigin) -> bool {
    let columns = segment_count(image.width, SPLIT_SEGMENT_WIDTH as int);
    let rows = segment_count(image.height, SPLIT_SEGMENT_HEIGHT as int);
    let segments = columns * rows;
    &&& plan.segment_coordinates@.len() == segments
    &&& plan.jobs@.len() == (if segments > 1 {
        1 + segments
    } else {
        1
    })
    &&& forall|i: int|
        0 <= i < segments ==> (#[trigger] plan.segment_coordinates@[i]) == (Vec2i {
            x: (i % columns) as i32,
            y: (i / columns) as i32,
        })
    &&& plan.jobs@[0].image.wf()
    &&& plan.jobs@[0].image@ == image
    &&& plan.jobs@[0].segment_index == None::<usize>
    &&& plan.jobs@[0].logical_first_coordinate_x == spec_logical_start(image.width, origin)
    &&& plan.jobs@[0].logical_first_coordinate_y == spec_logical_start(image.height, origin)
    &&& plan.jobs@[0].create_paint_by_number_set
    &&& plan.jobs@[0].add_origin_grid_bars == (origin == CoordinateOrigin::Centered)
    &&& forall|i: int|
        1 <= i < plan.jobs@.len() ==> {
            let job = #[trigger] plan.jobs@[i];
            let column = (i - 1) % columns;
            let row = (i - 1) / columns;
            &&& job.image.wf()
            &&& job.image@ == segment_image(
                image,
                SPLIT_SEGMENT_WIDTH as int,
                SPLIT_SEGMENT_HEIGHT as int,
                column,
                row,
            )
            &&& job.segment_index == Some(i as usize)
            &&& job.logical_first_coordinate_x == spec_segment_origin(
                column,
                SPLIT_SEGMENT_WIDTH as int,
                image.width,
                origin,
            )
            &&& job.logical_first_coordinate_y == spec_segment_origin(
                row,
                SPLIT_SEGMENT_HEIGHT as int,
                image.height,
                origin,
            )
            &&& !job.create_paint_by_number_set
            &&& job.add_origin_grid_bars == (origin == CoordinateOrigin::Centered)
        }
}

/// Plans the sheets of an image for the given origin of the logical coordinates.
pub fn plan_patterns(image: &Bitmap, origin: CoordinateOrigin) -> (plan: PatternPlan)
    requires
        image.wf(),
    ensures
        is_plan_for(plan, image@, origin),
{
    proof {
        lemma_segment_count(image.width as int, SPLIT_SEGMENT_WIDTH as int);
        lemma_segment_count(image.height as int, SPLIT_SEGMENT_HEIGHT as int);
    }
    let centered = match origin {
        CoordinateOrigin::Absolute => false,
        CoordinateOrigin::Centered => true,
    };
    let start_x: i32 = if centered {
        -image_center(image.width)
    } else {
        0
    };
    let start_y: i32 = if centered {
        -image_center(image.height)
    } else {
        0
    };
    let segmented = to_segments(image, SPLIT_SEGMENT_WIDTH, SPLIT_SEGMENT_HEIGHT);
    let segment_images = segmented.0;
    let segment_coordinates = segmented.1;
    let ghost columns = segment_count(image.width as int, SPLIT_SEGMENT_WIDTH as int);
    let ghost rows = segment_count(image.height as int, SPLIT_SEGMENT_HEIGHT as int);
    let mut jobs: Vec<PatternJob> = Vec::new();
    jobs.push(
        PatternJob {
            image: image.copy(),
            segment_index: None,
            logical_first_coordinate_x: start_x,
            logical_first_coordinate_y: start_y,
            create_paint_by_number_set: true,
            add_origin_grid_bars: centered,
        },
    );
    let ghost whole = jobs@[0];
    if segment_images.len() > 1 {
        let mut i: usize = 0;
        while i < segment_images.len()
            invariant
                i <= segment_images.len(),
                image.wf(),
                image@.width == image.width,
                image@.height == image.height,
                centered == (origin == CoordinateOrigin::Centered),
                columns == segment_count(image.width as int, SPLIT_SEGMENT_WIDTH as int),
                rows == segment_count(image.height as int, SPLIT_SEGMENT_HEIGHT as int),
                segment_images.len() == columns * rows,
                segment_coordinates.len() == segment_images.len(),
                0 <= columns <= image.width,
                0 <= rows <= image.height,
                forall|k: int|
                    0 <= k < segment_coordinates.len() ==> {
                        &&& (#[trigger] segment_coordinates[k]).x == k % columns
                        &&& segment_coordinates[k].y == k / columns
                    },
                forall|k: int|
                    0 <= k < segment_images.len() ==> {
                        &&& (#[trigger] segment_images[k]).wf()
                        &&& segment_images[k]@ == segment_image(
                            image@,
                            SPLIT_SEGMENT_WIDTH as int,
                            SPLIT_SEGMENT_HEIGHT as int,
                            k % columns,
                            k / columns,
                        )
                    },
                jobs.len() == 1 + i,
                jobs@[0] == whole,
                forall|k: int|
                    1 <= k < jobs.len() ==> {
                        let job = #[trigger] jobs@[k];
                        let column = (k - 1) % columns;
                        let row = (k - 1) / columns;
                        &&& job.image.wf()
                        &&& job.image@ == segment_image(
                            image@,
                            SPLIT_SEGMENT_WIDTH as int,
                            SPLIT_SEGMENT_HEIGHT as int,
                            column,
                            row,
                        )
                        &&& job.segment_index == Some(k as usize)
                        &&& job.logical_first_coordinate_x == spec_segment_origin(
                            column,
                            SPLIT_SEGMENT_WIDTH as int,
                            image.width as int,
                            origin,
                        )
                        &&& job.logical_first_coordinate_y == spec_segment_origin(
                            row,
                            SPLIT_SEGMENT_HEIGHT as int,
                            image.height as int,
                            origin,
                        )
                        &&& !job.create_paint_by_number_set
                        &&& job.add_origin_grid_bars == (origin == CoordinateOrigin::Centered)
                    },
            decreases segment_images.len() - i,
        {
            let coordinate = segment_coordinates[i];
            proof {
                lemma_index_in_grid(i as int, columns, rows);
            }
            let first_x = segment_origin(coordinate.x, SPLIT_SEGMENT_WIDTH, image.width, origin);
            let first_y = segment_origin(coordinate.y, SPLIT_SEGMENT_HEIGHT, image.height, origin);
            jobs.push(
                PatternJob {
                    image: segment_images[i].copy(),
                    segment_index: Some(i + 1),
                    logical_first_coordinate_x: first_x,
                    logical_first_coordinate_y: first_y,
                    create_paint_by_number_set: false,
                    add_origin_grid_bars: centered,
                },
            );
            i += 1;
        }
    }
    let plan = PatternPlan { jobs, segment_coordinates };
    proof {
        assert forall|i: int| 0 <= i < columns * rows implies (#[trigger] plan.segment_coordinates@[i])
            == (Vec2i { x: (i % columns) as i32, y: (i / columns) as i32 }) by {
            lemma_index_in_grid(i, columns, rows);
        }
    }
    plan
}

/// An index into a grid that is stored row by row names a column and a row of the grid.
proof fn lemma_index_in_grid(index: int, columns: int, rows: int)
    requires
        0 <= index < columns * rows,
        0 <= columns,
        0 <= rows,
    ensures
        0 <= index % columns < columns,
        0 <= index / columns < rows,
{
    assert(columns > 0) by (nonlinear_arith)
        requires
            0 <= index < columns * rows,
            0 <= columns,
    ;
    vstd::arithmetic::div_mod::lemma_fundamental_div_mod(index, columns);
    vstd::arithmetic::div_mod::lemma_mod_bound(index, columns);
    let q = index / columns;
    assert(0 <= q < rows) by (nonlinear_arith)
        requires
            index == columns * q + index % columns,
            0 <= index % columns < columns,
            0 <= index < columns * rows,
            0 < columns,
    ;
}

/// Plans the sheets of an image whose logical coordinates start at its top-left corner.
pub fn create_patterns_dir(image: &Bitmap) -> (plan: PatternPlan)
    requires
        image.wf(),
    ensures
        is_plan_for(plan, image@, CoordinateOrigin::Absolute),
{
    plan_patterns(image, CoordinateOrigin::Absolute)
}

/// Plans the sheets of an image whose logical coordinates start at its centre.
pub fn create_patterns_dir_centered(image: &Bitmap) -> (plan: PatternPlan)
    requires
        image.wf(),
    ensures
        is_plan_for(plan, image@, CoordinateOrigin::Centered),
{
    plan_patterns(image, CoordinateOrigin::Centered)
}

/// A list of entries that has an entry for every visible pixel of an image has one for
/// every visible pixel of the image of every job of the image's plan.
pub proof fn lemma_plan_covered(
    plan: PatternPlan,
    image: Image,
    origin: CoordinateOrigin,
    entries: Seq<ColorInfo>,
)
    requires
        0 <= image.width,
        0 <= image.height,
        is_plan_for(plan, image, origin),
        covers(entries, image),
    ensures
        forall|i: int| 0 <= i < plan.jobs@.len() ==> covers(entries, (#[trigger] plan.jobs@[i]).image@),
{
    let columns = segment_count(image.width, SPLIT_SEGMENT_WIDTH as int);
    let rows = segment_count(image.height, SPLIT_SEGMENT_HEIGHT as int);
    lemma_segment_count(image.width, SPLIT_SEGMENT_WIDTH as int);
    lemma_segment_count(image.height, SPLIT_SEGMENT_HEIGHT as int);
    assert forall|i: int| 0 <= i < plan.jobs@.len() implies covers(
        entries,
        (#[trigger] plan.jobs@[i]).image@,
    ) by {
        if i >= 1 {
            lemma_index_in_grid(i - 1, columns, rows);
            lemma_segment_covered(
                entries,
                image,
                SPLIT_SEGMENT_WIDTH as int,
                SPLIT_SEGMENT_HEIGHT as int,
                (i - 1) % columns,
                (i - 1) / columns,
            );
        }
    }
}

/// Quantizes an image and lists its colours: what has to be done before any sheet of
/// the image is rendered. The mapping that comes back has an entry for every visible
/// pixel of the quantized image.
pub fn quantize_and_map(
    image: &Bitmap,
    palette: &Palette,
    symbols: &Vec<Bitmap>,
    symbols_alphanum: &Vec<Bitmap>,
) -> (result: Result<(Bitmap, ColorMapping), MappingError>)
    requires
        image.wf(),
        palette.entries@.len() > 0,
        forall|i: int| 0 <= i < symbols.len() ==> (#[trigger] symbols[i]).wf(),
        forall|i: int| 0 <= i < symbols_alphanum.len() ==> (#[trigger] symbols_alphanum[i]).wf(),
    ensures
        visible_colors(quantized(image.data@, palette.colors())).finite(),
        match result {
            Ok((converted, mapping)) => {
                &&& converted.wf()
                &&& converted.width == image.width
                &&& converted.height == image.height
                &&& converted.data@ == quantized(image.data@, palette.colors())
                &&& mapping.wf()
                &&& is_usage_of(mapping@, converted.data@)
                &&& covers(mapping@, converted@)
                &&& total_count(mapping@) == visible_count(converted.data@)
                &&& sorted_by_hue_lightness_saturation(mapping@)
                &&& ties_in_order_met(mapping@, converted.data@)
                &&& mapping@.len() <= symbols.len()
                &&& mapping@.len() <= symbols_alphanum.len()
                &&& forall|i: int|
                    0 <= i < mapping@.len() ==> {
                        &&& (#[trigger] mapping@[i]).symbol@ == symbols[i]@
                        &&& mapping@[i].symbol_alphanum@ == symbols_alphanum[i]@
                    }
            },
            Err(MappingError::InsufficientSymbols { colors, symbols: available }) => {
                &&& colors == visible_colors(quantized(image.data@, palette.colors())).len()
                &&& available == symbols.len()
                &&& available < colors
            },
            Err(MappingError::InsufficientAlphanumSymbols { colors, symbols: available }) => {
                &&& colors == visible_colors(quantized(image.data@, palette.colors())).len()
                &&& colors <= symbols.len()
                &&& available == symbols_alphanum.len()
                &&& available < colors
            },
        },
{
    let converted = convert_image(image, palette);
    match create_color_mappings_from_image(&converted, symbols, symbols_alphanum) {
        Ok(mapping) => {
            proof {
                lemma_usage_covers(mapping@, &converted);
                crate::mapping::lemma_usage_len(mapping@, converted.data@);
            }
            Ok((converted, mapping))
        },
        Err(error) => Err(error),
    }
}

/// The banner of the sheets of a job: the sheets of a segment carry a banner that
/// reads the number of the segment, the sheets of the whole image carry none.
pub fn segment_banner_text(segment_index: Option<usize>) -> (text: Option<String>)
    ensures
        match segment_index {
            Some(index) => text matches Some(banner) && banner@ == spec_pattern_part_text(
                index as nat,
            ),
            None => text.is_none(),
        },
{
    match segment_index {
        Some(index) => Some(pattern_part_text(index)),
        None => None,
    }
}

/// A sheet with its banner: the banner above the sheet, centred, on white.
pub open spec fn sheet_with_banner(sheet: Image, banner: Image) -> Image {
    banner.glued_to(sheet, GluePosition::TopCenter, 0, spec_white())
}

/// The finished sheet of a job: for a segment the sheet with its banner, for the whole
/// image the sheet as it is.
pub open spec fn finished_sheet(sheet: Image, segment_index: Option<usize>, banner: Option<Image>)
    -> Image {
    match (segment_index, banner) {
        (Some(_), Some(banner)) => sheet_with_banner(sheet, banner),
        _ => sheet,
    }
}

/// Glues the rendered banner above a sheet.
pub fn add_segment_banner(sheet: &Bitmap, banner: &Bitmap) -> (result: Bitmap)
    requires
        sheet.wf(),
        banner.wf(),
        sheet_with_banner(sheet@, banner@).storable(),
    ensures
        result.wf(),
        result@ == sheet_with_banner(sheet@, banner@),
{
    banner.glued_to(sheet, GluePosition::TopCenter, 0, PixelRGBA::white())
}

/// Finishes the sheet of a job with the text already drawn on it: the sheet of a
/// segment gets the rendered banner above it, the sheet of the whole image stays as it
/// is. Returns `None` where a banner is owed and none is given, or where sheet and
/// banner together are too large to be held.
pub fn try_finish_pattern_sheet(
    sheet: Bitmap,
    segment_index: Option<usize>,
    banner: Option<&Bitmap>,
) -> (result: Option<Bitmap>)
    requires
        sheet.wf(),
        banner matches Some(image) ==> image.wf(),
    ensures
        result.is_some() == (segment_index.is_some() ==> (banner matches Some(image)
            && sheet_with_banner(sheet@, image@).storable())),
        result matches Some(finished) ==> finished.wf() && finished@ == finished_sheet(
            sheet@,
            segment_index,
            match banner {
                Some(image) => Some(image@),
                None => None,
            },
        ),
{
    match segment_index {
        Some(_) => match banner {
            Some(image) => image.try_glued_to(
                &sheet,
                GluePosition::TopCenter,
                0,
                PixelRGBA::white(),
            ),
            None => None,
        },
        None => Some(sheet),
    }
}

} // verus!
