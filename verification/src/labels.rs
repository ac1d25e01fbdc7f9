//! The coordinate labels around a pattern sheet.

use vstd::prelude::*;
use crate::bitmap::Bitmap;
use crate::color::PixelRGBA;
use crate::constants::spec_white;
use crate::math::euclidean_remainder;
use crate::math::is_multiple_of;
use crate::math::lemma_multiple_below;
use crate::math::spec_ceil_to_multiple;
use crate::math::spec_floor_to_multiple;
use crate::math::Vec2i;
use crate::pattern::is_storable;
use crate::pattern::is_ten_line;
use crate::pattern::storable;
use crate::text::decimal_len;
use crate::text::decimal_text;

verus! {

/// One label: the number to print, and the point on which its text is centred.
#[derive(Debug, Clone, Copy, PartialEq, Eq, Structural)]
pub struct GridLabel {
    pub value: i64,
    pub position: Vec2i,
}

/// How many cells lie before the first multiple of ten at or after `first`.
pub open spec fn first_block_len(first: int) -> int {
    spec_ceil_to_multiple(first, 10) - first
}

/// How many cells lie after the last multiple of ten at or before `last`.
pub open spec fn last_block_len(last: int) -> int {
    last - spec_floor_to_multiple(last, 10)
}

/// The cell boundaries among the first `count` of an axis whose logical coordinate is
/// a multiple of ten, in ascending order; the axis starts at the coordinate `first`.
pub open spec fn ten_cells(first: int, count: int) -> Seq<i32>
    decreases count,
{
    if count <= 0 {
        Seq::empty()
    } else if (first + count - 1) % 10 == 0 {
        ten_cells(first, count - 1).push((count - 1) as i32)
    } else {
        ten_cells(first, count - 1)
    }
}

/// The cell boundaries of an axis of `cells` cells that get a label: every boundary on
/// a multiple of ten; then the first boundary, where more than three cells lie before
/// the first multiple of ten; then the last boundary, where more than three cells lie
/// after the last multiple of ten.
pub open spec fn axis_label_cells(first: int, cells: int) -> Seq<i32> {
    ten_cells(first, cells + 1) + (if first_block_len(first) > 3 {
        seq![0i32]
    } else {
        Seq::empty()
    }) + (if last_block_len(first + cells) > 3 {
        seq![cells as i32]
    } else {
        Seq::empty()
    })
}

/// Whether the first boundary of an axis that starts at `first` gets a label of its own.
pub fn labels_first_block(first: i32) -> (labelled: bool)
    ensures
        labelled == (first_block_len(first as int) > 3),
{
    let remainder = euclidean_remainder(first as i64, 10);
    proof {
        lemma_multiple_below(first as int, 10);
    }
    remainder != 0 && 10 - remainder > 3
}

/// Whether the last boundary of an axis that ends at `last` gets a label of its own.
pub fn labels_last_block(last: i64) -> (labelled: bool)
    requires
        i64::MIN < last,
    ensures
        labelled == (last_block_len(last as int) > 3),
{
    euclidean_remainder(last, 10) > 3
}

/// The cell boundaries of an axis that get a label.
pub fn grid_label_cells(first: i32, cells: i32) -> (labelled: Vec<i32>)
    requires
        0 <= cells,
    ensures
        labelled@ == axis_label_cells(first as int, cells as int),
        forall|i: int| 0 <= i < labelled.len() ==> 0 <= #[trigger] labelled[i] <= cells,
{
    let mut labelled: Vec<i32> = Vec::new();
    let mut cell: i64 = 0;
    while cell <= cells as i64
        invariant
            0 <= cell <= cells + 1,
            labelled@ == ten_cells(first as int, cell as int),
            forall|i: int| 0 <= i < labelled.len() ==> 0 <= #[trigger] labelled[i] <= cells,
        decreases cells + 1 - cell,
    {
        if is_multiple_of(first as i64 + cell, 10) {
            labelled.push(cell as i32);
        }
        cell += 1;
    }
    if labels_first_block(first) {
        labelled.push(0);
    }
    if labels_last_block(first as i64 + cells as i64) {
        labelled.push(cells);
    }
    assert(labelled@ =~= axis_label_cells(first as int, cells as int));
    labelled
}

/// The larger of two lengths.
pub open spec fn max_len(a: nat, b: nat) -> nat {
    if a >= b {
        a
    } else {
        b
    }
}

/// The width of the margin that holds the labels: room for the longest of the four
/// corner coordinates and four characters more, each as wide as the font's widest
/// advance.
pub open spec fn label_padding(
    horizontal_advance_max: int,
    first_x: int,
    first_y: int,
    columns: int,
    rows: int,
) -> int {
    horizontal_advance_max * (max_len(
        max_len(decimal_text(first_x).len(), decimal_text(first_y).len()),
        max_len(decimal_text(first_x + columns).len(), decimal_text(first_y + rows).len()),
    ) + 4)
}

/// The labels along the horizontal axis: for each labelled boundary its logical
/// coordinate, once centred in the top margin and once in the bottom margin.
pub open spec fn horizontal_labels(
    cells: Seq<i32>,
    first_x: int,
    grid_cell_size: int,
    padding: int,
    sheet_height: int,
) -> Seq<GridLabel> {
    Seq::new(
        2 * cells.len(),
        |i: int|
            GridLabel {
                value: (first_x + cells[i / 2]) as i64,
                position: Vec2i {
                    x: (padding + grid_cell_size * cells[i / 2]) as i32,
                    y: (if i % 2 == 0 {
                        padding / 2
                    } else {
                        sheet_height - padding / 2
                    }) as i32,
                },
            },
    )
}

/// The labels along the vertical axis: for each labelled boundary its logical
/// coordinate, negated so that it counts upwards, once centred in the left margin and
/// once in the right margin.
pub open spec fn vertical_labels(
    cells: Seq<i32>,
    first_y: int,
    grid_cell_size: int,
    padding: int,
    sheet_width: int,
) -> Seq<GridLabel> {
    Seq::new(
        2 * cells.len(),
        |i: int|
            GridLabel {
                value: (-(first_y + cells[i / 2])) as i64,
                position: Vec2i {
                    x: (if i % 2 == 0 {
                        padding / 2
                    } else {
                        sheet_width - padding / 2
                    }) as i32,
                    y: (padding + grid_cell_size * cells[i / 2]) as i32,
                },
            },
    )
}

/// All labels of a sheet of `width` by `height` pixels: those of the horizontal axis,
/// then those of the vertical axis.
pub open spec fn grid_labels(
    width: int,
    height: int,
    grid_cell_size: int,
    horizontal_advance_max: int,
    first_x: int,
    first_y: int,
) -> Seq<GridLabel> {
    let columns = width / grid_cell_size;
    let rows = height / grid_cell_size;
    let padding = label_padding(horizontal_advance_max, first_x, first_y, columns, rows);
    horizontal_labels(
        axis_label_cells(first_x, columns),
        first_x,
        grid_cell_size,
        padding,
        height + 2 * padding,
    ) + vertical_labels(
        axis_label_cells(first_y, rows),
        first_y,
        grid_cell_size,
        padding,
        width + 2 * padding,
    )
}

/// The larger of two lengths.
fn larger(a: usize, b: usize) -> (m: usize)
    ensures
        m == max_len(a as nat, b as nat),
{
    if a >= b {
        a
    } else {
        b
    }
}

/// A cell boundary's distance from the start of its axis is within the sheet.
proof fn lemma_cell_offset(extent: int, grid_cell_size: int, cell: int)
    by (nonlinear_arith)
    requires
        0 <= extent,
        0 < grid_cell_size,
        0 <= cell <= extent / grid_cell_size,
    ensures
        0 <= grid_cell_size * cell <= extent,
{
    assert(grid_cell_size * (extent / grid_cell_size) <= extent) by {
        vstd::arithmetic::div_mod::lemma_fundamental_div_mod(extent, grid_cell_size);
        vstd::arithmetic::div_mod::lemma_mod_bound(extent, grid_cell_size);
    }
}

/// Puts a white margin round a sheet and says where its labels go.
///
/// Every cell boundary whose logical coordinate is a multiple of ten gets a label on
/// both opposite margins. The first and the last boundary get one too where the block
/// of cells between them and the nearest multiple of ten is longer than three cells.
/// Labels along the vertical axis show the negated coordinate.
pub fn place_grid_labels_in_pattern(
    scaled_bitmap: &Bitmap,
    grid_cell_size: i32,
    horizontal_advance_max: i32,
    logical_first_coordinate_x: i32,
    logical_first_coordinate_y: i32,
) -> (result: (Bitmap, Vec<GridLabel>))
    requires
        scaled_bitmap.wf(),
        0 < grid_cell_size,
        0 <= horizontal_advance_max,
        ({
            let padding = label_padding(
                horizontal_advance_max as int,
                logical_first_coordinate_x as int,
                logical_first_coordinate_y as int,
                scaled_bitmap.width as int / grid_cell_size as int,
                scaled_bitmap.height as int / grid_cell_size as int,
            );
            storable(scaled_bitmap.width + 2 * padding, scaled_bitmap.height + 2 * padding)
        }),
    ensures
        ({
            let padding = label_padding(
                horizontal_advance_max as int,
                logical_first_coordinate_x as int,
                logical_first_coordinate_y as int,
                scaled_bitmap.width as int / grid_cell_size as int,
                scaled_bitmap.height as int / grid_cell_size as int,
            );
            &&& result.0.wf()
            &&& result.0.width == scaled_bitmap.width + 2 * padding
            &&& result.0.height == scaled_bitmap.height + 2 * padding
            &&& result.0@ == scaled_bitmap@.extended(
                padding,
                padding,
                padding,
                padding,
                spec_white(),
            )
        }),
        result.1@ == grid_labels(
            scaled_bitmap.width as int,
            scaled_bitmap.height as int,
            grid_cell_size as int,
            horizontal_advance_max as int,
            logical_first_coordinate_x as int,
            logical_first_coordinate_y as int,
        ),
{
    let grid_width: i32 = scaled_bitmap.width / grid_cell_size;
    let grid_height: i32 = scaled_bitmap.height / grid_cell_size;
    let first_x: i64 = logical_first_coordinate_x as i64;
    let first_y: i64 = logical_first_coordinate_y as i64;
    let cell_size: i64 = grid_cell_size as i64;
    proof {
        lemma_cell_offset(scaled_bitmap.width as int, grid_cell_size as int, grid_width as int);
        lemma_cell_offset(scaled_bitmap.height as int, grid_cell_size as int, grid_height as int);
    }
    let logical_last_coordinate_x: i64 = first_x + grid_width as i64;
    let logical_last_coordinate_y: i64 = first_y + grid_height as i64;
    let max_text_charcount = larger(
        larger(decimal_len(first_x), decimal_len(first_y)),
        larger(decimal_len(logical_last_coordinate_x), decimal_len(logical_last_coordinate_y)),
    );
    let ghost padding = label_padding(
        horizontal_advance_max as int,
        logical_first_coordinate_x as int,
        logical_first_coordinate_y as int,
        grid_width as int,
        grid_height as int,
    );
    assert(0 <= horizontal_advance_max * (max_text_charcount + 4) <= 0x7fff_ffff * 24)
        by (nonlinear_arith)
        requires
            0 <= horizontal_advance_max <= 0x7fff_ffff,
            0 <= max_text_charcount + 4 <= 24,
    ;
    let wide_padding: i64 = (horizontal_advance_max as i64) * (max_text_charcount as i64 + 4);
    assert(wide_padding == padding);
    let label_padding: i32 = wide_padding as i32;
    let result_bitmap = scaled_bitmap.extended(
        label_padding,
        label_padding,
        label_padding,
        label_padding,
        PixelRGBA::white(),
    );
    let half: i32 = label_padding / 2;
    let mut labels: Vec<GridLabel> = Vec::new();

    let label_coords_x = grid_label_cells(logical_first_coordinate_x, grid_width);
    let ghost expected_x = horizontal_labels(
        label_coords_x@,
        logical_first_coordinate_x as int,
        grid_cell_size as int,
        padding,
        result_bitmap.height as int,
    );
    let mut i: usize = 0;
    while i < label_coords_x.len()
        invariant
            i <= label_coords_x.len(),
            labels@ == expected_x.take(2 * i),
            expected_x == horizontal_labels(
                label_coords_x@,
                logical_first_coordinate_x as int,
                grid_cell_size as int,
                padding,
                result_bitmap.height as int,
            ),
            forall|k: int|
                0 <= k < label_coords_x.len() ==> 0 <= #[trigger] label_coords_x[k] <= grid_width,
            0 <= grid_width == scaled_bitmap.width as int / grid_cell_size as int,
            first_x == logical_first_coordinate_x,
            cell_size == grid_cell_size,
            0 < grid_cell_size,
            0 <= scaled_bitmap.width,
            label_padding == padding,
            0 <= padding,
            half == padding / 2,
            result_bitmap.height == scaled_bitmap.height + 2 * padding,
            0 <= scaled_bitmap.height,
            scaled_bitmap.width + 2 * padding <= i32::MAX,
        decreases label_coords_x.len() - i,
    {
        let bitmap_coord_x = label_coords_x[i];
        proof {
            lemma_cell_offset(
                scaled_bitmap.width as int,
                grid_cell_size as int,
                bitmap_coord_x as int,
            );
        }
        let logical_coord_x: i64 = first_x + bitmap_coord_x as i64;
        let draw_x: i32 = (label_padding as i64 + cell_size * bitmap_coord_x as i64) as i32;
        labels.push(GridLabel { value: logical_coord_x, position: Vec2i::new(draw_x, half) });
        labels.push(
            GridLabel {
                value: logical_coord_x,
                position: Vec2i::new(draw_x, result_bitmap.height - half),
            },
        );
        i += 1;
        assert(labels@ =~= expected_x.take(2 * i));
    }
    assert(labels@ =~= expected_x);

    let label_coords_y = grid_label_cells(logical_first_coordinate_y, grid_height);
    let ghost expected_y = vertical_labels(
        label_coords_y@,
        logical_first_coordinate_y as int,
        grid_cell_size as int,
        padding,
        result_bitmap.width as int,
    );
    let mut j: usize = 0;
    while j < label_coords_y.len()
        invariant
            j <= label_coords_y.len(),
            labels@ == expected_x + expected_y.take(2 * j),
            expected_y == vertical_labels(
                label_coords_y@,
                logical_first_coordinate_y as int,
                grid_cell_size as int,
                padding,
                result_bitmap.width as int,
            ),
            forall|k: int|
                0 <= k < label_coords_y.len() ==> 0 <= #[trigger] label_coords_y[k] <= grid_height,
            0 <= grid_height == scaled_bitmap.height as int / grid_cell_size as int,
            first_y == logical_first_coordinate_y,
            cell_size == grid_cell_size,
            0 < grid_cell_size,
            0 <= scaled_bitmap.height,
            label_padding == padding,
            0 <= padding,
            half == padding / 2,
            result_bitmap.width == scaled_bitmap.width + 2 * padding,
            0 <= scaled_bitmap.width,
            scaled_bitmap.height + 2 * padding <= i32::MAX,
        decreases label_coords_y.len() - j,
    {
        let bitmap_coord_y = label_coords_y[j];
        proof {
            lemma_cell_offset(
                scaled_bitmap.height as int,
                grid_cell_size as int,
                bitmap_coord_y as int,
            );
        }
        let logical_coord_y: i64 = first_y + bitmap_coord_y as i64;
        let draw_y: i32 = (label_padding as i64 + cell_size * bitmap_coord_y as i64) as i32;
        labels.push(GridLabel { value: -logical_coord_y, position: Vec2i::new(half, draw_y) });
        labels.push(
            GridLabel {
                value: -logical_coord_y,
                position: Vec2i::new(result_bitmap.width - half, draw_y),
            },
        );
        j += 1;
        assert(labels@ =~= expected_x + expected_y.take(2 * j));
    }
    assert(labels@ =~= expected_x + expected_y);
    (result_bitmap, labels)
}

/// Among the first `count` boundaries of an axis, those on a multiple of ten are
/// listed, and no others.
pub proof fn lemma_ten_cells(first: int, count: int)
    requires
        0 <= count <= i32::MAX + 1,
    ensures
        forall|cell: i32|
            ten_cells(first, count).contains(cell) <==> (0 <= cell < count && (first + cell) % 10
                == 0),
    decreases count,
{
    if count > 0 {
        lemma_ten_cells(first, count - 1);
        let rest = ten_cells(first, count - 1);
        let all = ten_cells(first, count);
        let last = (count - 1) as i32;
        assert forall|cell: i32| all.contains(cell) <==> (0 <= cell < count && (first + cell) % 10
            == 0) by {
            if all.contains(cell) {
                let i = choose|i: int| 0 <= i < all.len() && all[i] == cell;
                if i < rest.len() {
                    assert(rest[i] == cell);
                    assert(rest.contains(cell));
                }
            }
            if 0 <= cell < count && (first + cell) % 10 == 0 {
                if cell == last {
                    assert(all[all.len() - 1] == cell);
                } else {
                    assert(rest.contains(cell));
                    let i = choose|i: int| 0 <= i < rest.len() && rest[i] == cell;
                    assert(all[i] == cell);
                }
            }
        }
    }
}

/// Which boundaries of an axis of `cells` cells get a label: those whose logical
/// coordinate is a multiple of ten; the first, where more than three cells lie before
/// the first multiple of ten; and the last, where more than three cells lie after the
/// last multiple of ten. No other boundary gets one. The number of cells before the
/// first multiple of ten is the least number that, added to the first coordinate,
/// gives a multiple of ten.
pub proof fn lemma_labelled_boundaries(first: int, cells: int)
    requires
        0 <= cells <= i32::MAX,
    ensures
        forall|cell: i32|
            axis_label_cells(first, cells).contains(cell) <==> (0 <= cell <= cells && ((first
                + cell) % 10 == 0 || (cell == 0 && first_block_len(first) > 3) || (cell == cells
                && last_block_len(first + cells) > 3))),
        0 <= first_block_len(first) < 10,
        (first + first_block_len(first)) % 10 == 0,
        forall|before: int|
            0 <= before < first_block_len(first) ==> !#[trigger] is_ten_line(first, before),
        0 <= last_block_len(first + cells) < 10,
        (first + cells - last_block_len(first + cells)) % 10 == 0,
{
    lemma_ten_cells(first, cells + 1);
    crate::math::lemma_multiple_below(first, 10);
    crate::math::lemma_multiple_below(first + cells, 10);
    let tens = ten_cells(first, cells + 1);
    let head: Seq<i32> = if first_block_len(first) > 3 {
        seq![0i32]
    } else {
        Seq::empty()
    };
    let tail: Seq<i32> = if last_block_len(first + cells) > 3 {
        seq![cells as i32]
    } else {
        Seq::empty()
    };
    let all = axis_label_cells(first, cells);
    assert(all =~= tens + head + tail);
    assert forall|cell: i32| all.contains(cell) <==> (0 <= cell <= cells && ((first + cell) % 10
        == 0 || (cell == 0 && first_block_len(first) > 3) || (cell == cells && last_block_len(
        first + cells,
    ) > 3))) by {
        if all.contains(cell) {
            let i = choose|i: int| 0 <= i < all.len() && all[i] == cell;
            if i < tens.len() {
                assert(tens[i] == cell);
                assert(tens.contains(cell));
            } else if i < tens.len() + head.len() {
                assert(head[i - tens.len()] == cell);
            } else {
                assert(tail[i - tens.len() - head.len()] == cell);
            }
        }
        if 0 <= cell <= cells && (first + cell) % 10 == 0 {
            assert(tens.contains(cell));
            let i = choose|i: int| 0 <= i < tens.len() && tens[i] == cell;
            assert(all[i] == cell);
        } else if cell == 0 && first_block_len(first) > 3 {
            assert(all[tens.len() as int] == cell);
        } else if 0 <= cell && cell == cells && last_block_len(first + cells) > 3 {
            assert(all[(tens.len() + head.len()) as int] == cell);
        }
    }
    assert forall|before: int| 0 <= before < first_block_len(first) implies !#[trigger] is_ten_line(
        first,
        before,
    ) by {
        let r = first % 10;
        if (first + before) % 10 == 0 {
            vstd::arithmetic::div_mod::lemma_fundamental_div_mod(first, 10);
            vstd::arithmetic::div_mod::lemma_fundamental_div_mod(first + before, 10);
        }
    }
}

/// Puts a white margin round a sheet and says where its labels go, or returns `None`
/// where the cell size is not positive, the font's advance is negative, or the sheet
/// with its margin is too large to be held.
pub fn try_place_grid_labels_in_pattern(
    scaled_bitmap: &Bitmap,
    grid_cell_size: i32,
    horizontal_advance_max: i32,
    logical_first_coordinate_x: i32,
    logical_first_coordinate_y: i32,
) -> (result: Option<(Bitmap, Vec<GridLabel>)>)
    requires
        scaled_bitmap.wf(),
    ensures
        ({
            let padding = label_padding(
                horizontal_advance_max as int,
                logical_first_coordinate_x as int,
                logical_first_coordinate_y as int,
                scaled_bitmap.width as int / grid_cell_size as int,
                scaled_bitmap.height as int / grid_cell_size as int,
            );
            &&& result.is_some() == (0 < grid_cell_size && 0 <= horizontal_advance_max && storable(
                scaled_bitmap.width + 2 * padding,
                scaled_bitmap.height + 2 * padding,
            ))
            &&& result matches Some(placed) ==> {
                &&& placed.0.wf()
                &&& placed.0.width == scaled_bitmap.width + 2 * padding
                &&& placed.0.height == scaled_bitmap.height + 2 * padding
                &&& placed.0@ == scaled_bitmap@.extended(
                    padding,
                    padding,
                    padding,
                    padding,
                    spec_white(),
                )
                &&& placed.1@ == grid_labels(
                    scaled_bitmap.width as int,
                    scaled_bitmap.height as int,
                    grid_cell_size as int,
                    horizontal_advance_max as int,
                    logical_first_coordinate_x as int,
                    logical_first_coordinate_y as int,
                )
            }
        }),
{
    if grid_cell_size <= 0 || horizontal_advance_max < 0 {
        return None;
    }
    let grid_width: i32 = scaled_bitmap.width / grid_cell_size;
    let grid_height: i32 = scaled_bitmap.height / grid_cell_size;
    proof {
        lemma_cell_offset(scaled_bitmap.width as int, grid_cell_size as int, grid_width as int);
        lemma_cell_offset(scaled_bitmap.height as int, grid_cell_size as int, grid_height as int);
    }
    let first_x: i64 = logical_first_coordinate_x as i64;
    let first_y: i64 = logical_first_coordinate_y as i64;
    let longest = larger(
        larger(decimal_len(first_x), decimal_len(first_y)),
        larger(
            decimal_len(first_x + grid_width as i64),
            decimal_len(first_y + grid_height as i64),
        ),
    );
    assert(0 <= horizontal_advance_max * (longest + 4) <= 0x7fff_ffff * 24) by (nonlinear_arith)
        requires
            0 <= horizontal_advance_max <= 0x7fff_ffff,
            0 <= longest + 4 <= 24,
    ;
    let padding: i64 = (horizontal_advance_max as i64) * (longest as i64 + 4);
    if !is_storable(
        scaled_bitmap.width as i64 + 2 * padding,
        scaled_bitmap.height as i64 + 2 * padding,
    ) {
        return None;
    }
    Some(
        place_grid_labels_in_pattern(
            scaled_bitmap,
            grid_cell_size,
            horizontal_advance_max,
            logical_first_coordinate_x,
            logical_first_coordinate_y,
        ),
    )
}

} // verus!
