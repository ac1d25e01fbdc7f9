//! The segmenter: an image cut into printable pages, and the logical coordinates
//! at which each page starts.

use vstd::prelude::*;
use vstd::arithmetic::div_mod::lemma_fundamental_div_mod;
use vstd::arithmetic::div_mod::lemma_fundamental_div_mod_converse;
use vstd::arithmetic::div_mod::lemma_mod_bound;
use crate::bitmap::Bitmap;
use crate::bitmap::Image;
use crate::math::make_even_upwards;
use crate::math::Vec2i;

verus! {

/// How many segments of length `segment` an axis of length `extent` is cut into:
/// `extent / segment`, rounded up.
pub open spec fn segment_count(extent: int, segment: int) -> int {
    (extent + segment - 1) / segment
}

/// The length of the segment with the given index: `segment`, or what is left of the
/// axis where that is less.
pub open spec fn segment_extent(extent: int, segment: int, index: int) -> int {
    if extent - index * segment < segment {
        extent - index * segment
    } else {
        segment
    }
}

/// The segment in the given column and row of the grid of segments.
pub open spec fn segment_image(
    image: Image,
    segment_width: int,
    segment_height: int,
    column: int,
    row: int,
) -> Image {
    image.crop(
        column * segment_width,
        row * segment_height,
        segment_extent(image.width, segment_width, column),
        segment_extent(image.height, segment_height, row),
    )
}

/// The segments of an axis cover it: each starts inside the axis and ends inside it,
/// none is empty, and a position on the axis lies in the segment that its quotient by
/// the segment length names.
pub proof fn lemma_segment_axis(extent: int, segment: int, index: int)
    requires
        0 <= extent,
        0 < segment,
        0 <= index < segment_count(extent, segment),
    ensures
        0 <= index * segment < extent,
        0 < segment_extent(extent, segment, index) <= segment,
        index * segment + segment_extent(extent, segment, index) <= extent,
        (index + 1) * segment == index * segment + segment,
{
    let count = segment_count(extent, segment);
    lemma_fundamental_div_mod(extent + segment - 1, segment);
    lemma_mod_bound(extent + segment - 1, segment);
    assert(segment * count <= extent + segment - 1);
    assert(index * segment <= (count - 1) * segment) by (nonlinear_arith)
        requires
            0 <= index <= count - 1,
            0 < segment,
    ;
    assert((count - 1) * segment == segment * count - segment) by (nonlinear_arith);
    assert(0 <= index * segment) by (nonlinear_arith)
        requires
            0 <= index,
            0 < segment,
    ;
    assert((index + 1) * segment == index * segment + segment) by (nonlinear_arith);
}

/// The number of segments of an axis is not negative, and zero only for an empty axis.
pub proof fn lemma_segment_count(extent: int, segment: int)
    requires
        0 <= extent,
        0 < segment,
    ensures
        0 <= segment_count(extent, segment) <= extent,
        extent > 0 ==> segment_count(extent, segment) >= 1,
        extent <= segment && extent > 0 ==> segment_count(extent, segment) == 1,
        forall|position: int|
            0 <= position < extent ==> 0 <= #[trigger] (position / segment) < segment_count(
                extent,
                segment,
            ),
{
    let count = segment_count(extent, segment);
    lemma_fundamental_div_mod(extent + segment - 1, segment);
    lemma_mod_bound(extent + segment - 1, segment);
    assert(0 <= count <= extent && (extent > 0 ==> count >= 1) && (extent <= segment && extent > 0
        ==> count == 1)) by (nonlinear_arith)
        requires
            extent + segment - 1 == segment * count + (extent + segment - 1) % segment,
            0 <= (extent + segment - 1) % segment < segment,
            0 <= extent,
            0 < segment,
    ;
    assert forall|position: int| 0 <= position < extent implies 0 <= #[trigger] (position
        / segment) < count by {
        lemma_fundamental_div_mod(position, segment);
        lemma_mod_bound(position, segment);
        let q = position / segment;
        assert(0 <= q < count) by (nonlinear_arith)
            requires
                position == segment * q + position % segment,
                0 <= position % segment < segment,
                0 <= position < extent,
                extent + segment - 1 == segment * count + (extent + segment - 1) % segment,
                0 <= (extent + segment - 1) % segment < segment,
                0 < segment,
        ;
    }
}

/// The segments put back at their offsets give the image back, pixel for pixel: the
/// pixel `(x, y)` of the image is the pixel of the segment in column `x / segment_width`
/// and row `y / segment_height` that lies at `(x, y)` less the segment's offset.
pub proof fn lemma_segments_reconstruct(
    image: Image,
    segment_width: int,
    segment_height: int,
    x: int,
    y: int,
)
    requires
        0 < segment_width,
        0 < segment_height,
        image.contains(x, y),
    ensures
        ({
            let column = x / segment_width;
            let row = y / segment_height;
            let segment = segment_image(image, segment_width, segment_height, column, row);
            &&& 0 <= column < segment_count(image.width, segment_width)
            &&& 0 <= row < segment_count(image.height, segment_height)
            &&& segment.contains(x - column * segment_width, y - row * segment_height)
            &&& segment.pixel(x - column * segment_width, y - row * segment_height) == image.pixel(
                x,
                y,
            )
        }),
{
    let column = x / segment_width;
    let row = y / segment_height;
    lemma_segment_count(image.width, segment_width);
    lemma_segment_count(image.height, segment_height);
    assert(0 <= column < segment_count(image.width, segment_width));
    assert(0 <= row < segment_count(image.height, segment_height));
    lemma_segment_axis(image.width, segment_width, column);
    lemma_segment_axis(image.height, segment_height, row);
    lemma_fundamental_div_mod(x, segment_width);
    lemma_mod_bound(x, segment_width);
    lemma_fundamental_div_mod(y, segment_height);
    lemma_mod_bound(y, segment_height);
    assert(column * segment_width == segment_width * column) by (nonlinear_arith);
    assert(row * segment_height == segment_height * row) by (nonlinear_arith);
}

/// Every pixel of a segment is the pixel of the image at the segment's offset.
pub proof fn lemma_segment_pixels(
    image: Image,
    segment_width: int,
    segment_height: int,
    column: int,
    row: int,
    x: int,
    y: int,
)
    requires
        0 < segment_width,
        0 < segment_height,
        0 <= image.width,
        0 <= image.height,
        0 <= column < segment_count(image.width, segment_width),
        0 <= row < segment_count(image.height, segment_height),
        segment_image(image, segment_width, segment_height, column, row).contains(x, y),
    ensures
        image.contains(x + column * segment_width, y + row * segment_height),
        segment_image(image, segment_width, segment_height, column, row).pixel(x, y)
            == image.pixel(x + column * segment_width, y + row * segment_height),
{
    lemma_segment_axis(image.width, segment_width, column);
    lemma_segment_axis(image.height, segment_height, row);
}

/// The number of segments along one axis.
fn count_segments(extent: i32, segment: i32) -> (count: i32)
    requires
        0 <= extent,
        0 < segment,
    ensures
        count == segment_count(extent as int, segment as int),
        0 <= count <= extent,
{
    proof {
        lemma_segment_count(extent as int, segment as int);
    }
    ((extent as i64 + segment as i64 - 1) / (segment as i64)) as i32
}

/// Cuts an image into segments of `segment_width` by `segment_height` pixels, row by
/// row; the segments of the last column and of the last row are as large as what is
/// left. With each segment comes its column and row in the grid of segments.
pub fn to_segments(image: &Bitmap, segment_width: i32, segment_height: i32) -> (result: (
    Vec<Bitmap>,
    Vec<Vec2i>,
))
    requires
        image.wf(),
        0 < segment_width,
        0 < segment_height,
    ensures
        result.0.len() == segment_count(image.width as int, segment_width as int) * segment_count(
            image.height as int,
            segment_height as int,
        ),
        result.1.len() == result.0.len(),
        forall|i: int|
            0 <= i < result.1.len() ==> {
                let columns = segment_count(image.width as int, segment_width as int);
                &&& (#[trigger] result.1[i]).x == i % columns
                &&& result.1[i].y == i / columns
            },
        forall|i: int|
            0 <= i < result.0.len() ==> {
                let columns = segment_count(image.width as int, segment_width as int);
                &&& (#[trigger] result.0[i]).wf()
                &&& result.0[i]@ == segment_image(
                    image@,
                    segment_width as int,
                    segment_height as int,
                    i % columns,
                    i / columns,
                )
            },
{
    let columns = count_segments(image.width, segment_width);
    let rows = count_segments(image.height, segment_height);
    let mut segments: Vec<Bitmap> = Vec::new();
    let mut coordinates: Vec<Vec2i> = Vec::new();
    let mut row: i32 = 0;
    proof {
        assert(0 * columns == 0) by (nonlinear_arith);
    }
    while row < rows
        invariant
            0 <= row <= rows,
            image.wf(),
            0 < segment_width,
            0 < segment_height,
            columns == segment_count(image.width as int, segment_width as int),
            rows == segment_count(image.height as int, segment_height as int),
            0 <= columns,
            segments.len() == row * columns,
            coordinates.len() == segments.len(),
            forall|i: int|
                0 <= i < coordinates.len() ==> {
                    &&& (#[trigger] coordinates[i]).x == i % (columns as int)
                    &&& coordinates[i].y == i / (columns as int)
                },
            forall|i: int|
                0 <= i < segments.len() ==> {
                    &&& (#[trigger] segments[i]).wf()
                    &&& segments[i]@ == segment_image(
                        image@,
                        segment_width as int,
                        segment_height as int,
                        i % (columns as int),
                        i / (columns as int),
                    )
                },
        decreases rows - row,
    {
        let mut column: i32 = 0;
        while column < columns
            invariant
                0 <= column <= columns,
                0 <= row < rows,
                image.wf(),
                0 < segment_width,
                0 < segment_height,
                columns == segment_count(image.width as int, segment_width as int),
                rows == segment_count(image.height as int, segment_height as int),
                segments.len() == row * columns + column,
                coordinates.len() == segments.len(),
                forall|i: int|
                    0 <= i < coordinates.len() ==> {
                        &&& (#[trigger] coordinates[i]).x == i % (columns as int)
                        &&& coordinates[i].y == i / (columns as int)
                    },
                forall|i: int|
                    0 <= i < segments.len() ==> {
                        &&& (#[trigger] segments[i]).wf()
                        &&& segments[i]@ == segment_image(
                            image@,
                            segment_width as int,
                            segment_height as int,
                            i % (columns as int),
                            i / (columns as int),
                        )
                    },
            decreases columns - column,
        {
            proof {
                lemma_segment_axis(image.width as int, segment_width as int, column as int);
                lemma_segment_axis(image.height as int, segment_height as int, row as int);
                lemma_fundamental_div_mod_converse(
                    row * columns + column,
                    columns as int,
                    row as int,
                    column as int,
                );
            }
            let x: i32 = column * segment_width;
            let y: i32 = row * segment_height;
            let w: i32 = if image.width - x < segment_width {
                image.width - x
            } else {
                segment_width
            };
            let h: i32 = if image.height - y < segment_height {
                image.height - y
            } else {
                segment_height
            };
            let segment = image.cropped(x, y, w, h);
            segments.push(segment);
            coordinates.push(Vec2i::new(column, row));
            column += 1;
        }
        row += 1;
        proof {
            assert(row * columns == (row - 1) * columns + columns) by (nonlinear_arith);
        }
    }
    proof {
        assert(rows * columns == columns * rows) by (nonlinear_arith);
    }
    (segments, coordinates)
}

/// Where the logical coordinates of a pattern start.
#[derive(Debug, Clone, Copy, PartialEq, Eq, Hash, Structural)]
pub enum CoordinateOrigin {
    /// At the top-left corner of the whole image.
    Absolute,
    /// At the centre of the whole image.
    Centered,
}

/// The centre of an axis of `extent` cells: half of `extent`, rounded up.
pub open spec fn spec_image_center(extent: int) -> int {
    (extent + 1) / 2
}

/// The centre of an axis of `extent` cells.
pub fn image_center(extent: i32) -> (center: i32)
    requires
        0 <= extent,
    ensures
        center == spec_image_center(extent as int),
{
    if extent == i32::MAX {
        0x4000_0000
    } else {
        make_even_upwards(extent) / 2
    }
}

/// The logical coordinate at which a segment starts along one axis: its index times
/// the segment length, less the centre of the image where coordinates are centred.
pub open spec fn spec_segment_origin(
    index: int,
    segment: int,
    extent: int,
    origin: CoordinateOrigin,
) -> int {
    match origin {
        CoordinateOrigin::Absolute => index * segment,
        CoordinateOrigin::Centered => index * segment - spec_image_center(extent),
    }
}

/// The logical coordinate at which a segment starts along one axis.
pub fn segment_origin(index: i32, segment: i32, extent: i32, origin: CoordinateOrigin) -> (start:
    i32)
    requires
        0 <= extent,
        0 < segment,
        0 <= index < segment_count(extent as int, segment as int),
    ensures
        start == spec_segment_origin(index as int, segment as int, extent as int, origin),
{
    proof {
        lemma_segment_axis(extent as int, segment as int, index as int);
    }
    match origin {
        CoordinateOrigin::Absolute => index * segment,
        CoordinateOrigin::Centered => index * segment - image_center(extent),
    }
}

} // verus!
