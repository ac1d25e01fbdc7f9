//! Owned row-major RGBA bitmaps and the mathematical images they stand for.
//!
//! Every operation is specified over [`Image`], a width, a height and a total
//! function from coordinates to pixels, so that contracts compose by plain
//! equality and never mention buffer indices.

use vstd::prelude::*;
use crate::color::PixelRGBA;

verus! {

/// The mathematical model of a bitmap: `pixels` gives the colour at every
/// coordinate, and is the transparent pixel everywhere outside the frame.
#[verifier::ext_equal]
pub struct Image {
    pub width: int,
    pub height: int,
    pub pixels: spec_fn(int, int) -> PixelRGBA,
}

/// The colour every image has outside its frame.
pub open spec fn outside() -> PixelRGBA {
    PixelRGBA { r: 0, g: 0, b: 0, a: 0 }
}

impl Image {
    /// Whether `(x, y)` lies inside the frame.
    pub open spec fn contains(self, x: int, y: int) -> bool {
        0 <= x < self.width && 0 <= y < self.height
    }

    /// The colour at `(x, y)`.
    pub open spec fn pixel(self, x: int, y: int) -> PixelRGBA {
        (self.pixels)(x, y)
    }

    /// Well-formed images have a non-negative size and are transparent outside the frame.
    pub open spec fn valid(self) -> bool {
        &&& 0 <= self.width
        &&& 0 <= self.height
        &&& forall|x: int, y: int| !self.contains(x, y) ==> #[trigger] self.pixel(x, y) == outside()
    }

    /// Whether the rectangle at `(x, y)` of size `w` by `h` lies inside the frame.
    pub open spec fn contains_rect(self, x: int, y: int, w: int, h: int) -> bool {
        0 <= x && 0 <= y && 0 <= w && 0 <= h && x + w <= self.width && y + h <= self.height
    }

    /// A `width` by `height` image of one colour.
    pub open spec fn filled(width: int, height: int, color: PixelRGBA) -> Image {
        Image {
            width,
            height,
            pixels: |x: int, y: int|
                if 0 <= x < width && 0 <= y < height {
                    color
                } else {
                    outside()
                },
        }
    }

    /// The row-major buffer `data` read as a `width` by `height` image.
    pub open spec fn from_buffer(width: int, height: int, data: Seq<PixelRGBA>) -> Image {
        Image {
            width,
            height,
            pixels: |x: int, y: int|
                if 0 <= x < width && 0 <= y < height {
                    data[y * width + x]
                } else {
                    outside()
                },
        }
    }

    /// The image with the one pixel at `(x, y)` replaced, if it is inside the frame.
    pub open spec fn with_pixel(self, x: int, y: int, color: PixelRGBA) -> Image {
        Image {
            width: self.width,
            height: self.height,
            pixels: |px: int, py: int|
                if px == x && py == y && self.contains(x, y) {
                    color
                } else {
                    self.pixel(px, py)
                },
        }
    }

    /// The image with the part of the rectangle that is inside the frame painted over.
    pub open spec fn fill_rect(self, x: int, y: int, w: int, h: int, color: PixelRGBA) -> Image {
        Image {
            width: self.width,
            height: self.height,
            pixels: |px: int, py: int|
                if x <= px < x + w && y <= py < y + h && self.contains(px, py) {
                    color
                } else {
                    self.pixel(px, py)
                },
        }
    }

    /// The image with the one-pixel outline of the rectangle painted over.
    pub open spec fn stroke_rect(self, x: int, y: int, w: int, h: int, color: PixelRGBA) -> Image {
        Image {
            width: self.width,
            height: self.height,
            pixels: |px: int, py: int|
                if x <= px < x + w && y <= py < y + h && self.contains(px, py) && (px == x || px == x
                    + w - 1 || py == y || py == y + h - 1) {
                    color
                } else {
                    self.pixel(px, py)
                },
        }
    }

    /// The image with `src` copied over it, `src`'s top-left corner at `(x, y)`.
    pub open spec fn blit(self, src: Image, x: int, y: int) -> Image {
        Image {
            width: self.width,
            height: self.height,
            pixels: |px: int, py: int|
                if src.contains(px - x, py - y) && self.contains(px, py) {
                    src.pixel(px - x, py - y)
                } else {
                    self.pixel(px, py)
                },
        }
    }

    /// `blit` as far as it has come when the rows of `src` above `row`, and the
    /// pixels of row `row` left of `col`, have been copied.
    spec fn blit_upto(self, src: Image, x: int, y: int, row: int, col: int) -> Image {
        Image {
            width: self.width,
            height: self.height,
            pixels: |px: int, py: int|
                if src.contains(px - x, py - y) && self.contains(px, py) && (py - y < row || (py - y
                    == row && px - x < col)) {
                    src.pixel(px - x, py - y)
                } else {
                    self.pixel(px, py)
                },
        }
    }

    /// The image with the pixels of `symbol` that are not of the mask colour painted in
    /// `ink`, `symbol`'s top-left corner at `(x, y)`.
    pub open spec fn stamp(self, symbol: Image, x: int, y: int, mask: PixelRGBA, ink: PixelRGBA)
        -> Image {
        Image {
            width: self.width,
            height: self.height,
            pixels: |px: int, py: int|
                if symbol.contains(px - x, py - y) && self.contains(px, py) && symbol.pixel(
                    px - x,
                    py - y,
                ) != mask {
                    ink
                } else {
                    self.pixel(px, py)
                },
        }
    }

    /// `stamp` as far as it has come when the rows of `symbol` above `row`, and the
    /// pixels of row `row` left of `col`, have been looked at.
    pub open spec fn stamp_upto(
        self,
        symbol: Image,
        x: int,
        y: int,
        mask: PixelRGBA,
        ink: PixelRGBA,
        row: int,
        col: int,
    ) -> Image {
        Image {
            width: self.width,
            height: self.height,
            pixels: |px: int, py: int|
                if symbol.contains(px - x, py - y) && self.contains(px, py) && symbol.pixel(
                    px - x,
                    py - y,
                ) != mask && (py - y < row || (py - y == row && px - x < col)) {
                    ink
                } else {
                    self.pixel(px, py)
                },
        }
    }

    /// The `w` by `h` window of the image whose top-left corner is `(x, y)`.
    pub open spec fn crop(self, x: int, y: int, w: int, h: int) -> Image {
        Image {
            width: w,
            height: h,
            pixels: |px: int, py: int|
                if 0 <= px < w && 0 <= py < h {
                    self.pixel(px + x, py + y)
                } else {
                    outside()
                },
        }
    }

    /// The image with a margin of `color` added on each side.
    pub open spec fn extended(self, left: int, top: int, right: int, bottom: int, color: PixelRGBA)
        -> Image {
        Image::filled(self.width + left + right, self.height + top + bottom, color).blit(
            self,
            left,
            top,
        )
    }
}

/// On which side of another image an image is glued, and how the two are aligned:
/// the first word names the side, the second the alignment across it.
#[derive(Debug, Clone, Copy, PartialEq, Eq, Hash, Structural)]
pub enum GluePosition {
    TopLeft,
    TopCenter,
    TopRight,
    BottomLeft,
    BottomCenter,
    BottomRight,
    LeftTop,
    LeftCenter,
    LeftBottom,
    RightTop,
    RightCenter,
    RightBottom,
}

/// How two images that lie side by side are aligned across their common direction.
#[derive(Debug, Clone, Copy, PartialEq, Eq, Hash, Structural)]
pub enum GlueAlignment {
    Start,
    Center,
    End,
}

impl GluePosition {
    /// Whether the two images are stacked one above the other.
    pub open spec fn spec_is_vertical(self) -> bool {
        match self {
            GluePosition::TopLeft
            | GluePosition::TopCenter
            | GluePosition::TopRight
            | GluePosition::BottomLeft
            | GluePosition::BottomCenter
            | GluePosition::BottomRight => true,
            _ => false,
        }
    }

    /// Whether the glued image comes first: above or to the left of the other.
    pub open spec fn spec_comes_first(self) -> bool {
        match self {
            GluePosition::TopLeft
            | GluePosition::TopCenter
            | GluePosition::TopRight
            | GluePosition::LeftTop
            | GluePosition::LeftCenter
            | GluePosition::LeftBottom => true,
            _ => false,
        }
    }

    /// How the two images are aligned.
    pub open spec fn spec_alignment(self) -> GlueAlignment {
        match self {
            GluePosition::TopLeft
            | GluePosition::BottomLeft
            | GluePosition::LeftTop
            | GluePosition::RightTop => GlueAlignment::Start,
            GluePosition::TopCenter
            | GluePosition::BottomCenter
            | GluePosition::LeftCenter
            | GluePosition::RightCenter => GlueAlignment::Center,
            _ => GlueAlignment::End,
        }
    }

    #[verifier::when_used_as_spec(spec_is_vertical)]
    pub fn is_vertical(self) -> (b: bool)
        ensures
            b == self.spec_is_vertical(),
    {
        match self {
            GluePosition::TopLeft
            | GluePosition::TopCenter
            | GluePosition::TopRight
            | GluePosition::BottomLeft
            | GluePosition::BottomCenter
            | GluePosition::BottomRight => true,
            _ => false,
        }
    }

    #[verifier::when_used_as_spec(spec_comes_first)]
    pub fn comes_first(self) -> (b: bool)
        ensures
            b == self.spec_comes_first(),
    {
        match self {
            GluePosition::TopLeft
            | GluePosition::TopCenter
            | GluePosition::TopRight
            | GluePosition::LeftTop
            | GluePosition::LeftCenter
            | GluePosition::LeftBottom => true,
            _ => false,
        }
    }

    #[verifier::when_used_as_spec(spec_alignment)]
    pub fn alignment(self) -> (alignment: GlueAlignment)
        ensures
            alignment == self.spec_alignment(),
    {
        match self {
            GluePosition::TopLeft
            | GluePosition::BottomLeft
            | GluePosition::LeftTop
            | GluePosition::RightTop => GlueAlignment::Start,
            GluePosition::TopCenter
            | GluePosition::BottomCenter
            | GluePosition::LeftCenter
            | GluePosition::RightCenter => GlueAlignment::Center,
            _ => GlueAlignment::End,
        }
    }
}

/// Where a stretch of length `inner` starts inside one of length `outer` that is at
/// least as long.
pub open spec fn spec_aligned(outer: int, inner: int, alignment: GlueAlignment) -> int {
    match alignment {
        GlueAlignment::Start => 0,
        GlueAlignment::Center => (outer - inner) / 2,
        GlueAlignment::End => outer - inner,
    }
}

/// The larger of two numbers.
pub open spec fn spec_max(a: int, b: int) -> int {
    if a >= b {
        a
    } else {
        b
    }
}

impl Image {
    /// The width of `self` glued to `other`.
    pub open spec fn glued_width(self, other: Image, position: GluePosition, padding: int) -> int {
        if position.is_vertical() {
            spec_max(self.width, other.width)
        } else {
            self.width + padding + other.width
        }
    }

    /// The height of `self` glued to `other`.
    pub open spec fn glued_height(self, other: Image, position: GluePosition, padding: int) -> int {
        if position.is_vertical() {
            self.height + padding + other.height
        } else {
            spec_max(self.height, other.height)
        }
    }

    /// Where `self` lies in `self` glued to `other`.
    pub open spec fn glued_self_at(self, other: Image, position: GluePosition, padding: int) -> (
        int,
        int,
    ) {
        if position.is_vertical() {
            (
                spec_aligned(spec_max(self.width, other.width), self.width, position.alignment()),
                if position.comes_first() {
                    0
                } else {
                    other.height + padding
                },
            )
        } else {
            (
                if position.comes_first() {
                    0
                } else {
                    other.width + padding
                },
                spec_aligned(spec_max(self.height, other.height), self.height, position.alignment()),
            )
        }
    }

    /// Where `other` lies in `self` glued to `other`.
    pub open spec fn glued_other_at(self, other: Image, position: GluePosition, padding: int) -> (
        int,
        int,
    ) {
        if position.is_vertical() {
            (
                spec_aligned(spec_max(self.width, other.width), other.width, position.alignment()),
                if position.comes_first() {
                    self.height + padding
                } else {
                    0
                },
            )
        } else {
            (
                if position.comes_first() {
                    self.width + padding
                } else {
                    0
                },
                spec_aligned(
                    spec_max(self.height, other.height),
                    other.height,
                    position.alignment(),
                ),
            )
        }
    }

    /// `self` glued to the side of `other` that `position` names, `padding` pixels
    /// apart, on a ground of `color` just large enough for the two.
    pub open spec fn glued_to(
        self,
        other: Image,
        position: GluePosition,
        padding: int,
        color: PixelRGBA,
    ) -> Image {
        let other_at = self.glued_other_at(other, position, padding);
        let self_at = self.glued_self_at(other, position, padding);
        Image::filled(
            self.glued_width(other, position, padding),
            self.glued_height(other, position, padding),
            color,
        ).blit(other, other_at.0, other_at.1).blit(self, self_at.0, self_at.1)
    }

    /// Whether a bitmap can hold this image.
    pub open spec fn storable(self) -> bool {
        &&& 0 <= self.width <= i32::MAX
        &&& 0 <= self.height <= i32::MAX
        &&& self.width * self.height <= usize::MAX
    }
}

/// The images glued one to the next in their order: the second to the first, the
/// third to what the two have become, and so on. No image gives the empty image.
pub open spec fn glued_together(
    images: Seq<Image>,
    position: GluePosition,
    padding: int,
    color: PixelRGBA,
) -> Image
    decreases images.len(),
{
    if images.len() == 0 {
        Image::filled(0, 0, outside())
    } else if images.len() == 1 {
        images[0]
    } else {
        images.last().glued_to(
            glued_together(images.drop_last(), position, padding, color),
            position,
            padding,
            color,
        )
    }
}

/// Whether every image that arises while the images are glued one to the next can be
/// held by a bitmap.
pub open spec fn glued_together_storable(images: Seq<Image>, position: GluePosition, padding: int)
    -> bool
    decreases images.len(),
{
    if images.len() <= 1 {
        true
    } else {
        &&& glued_together_storable(images.drop_last(), position, padding)
        &&& glued_together(images, position, padding, outside()).storable()
    }
}

/// Every image is at most `width` wide and `height` high, and none has a negative size.
pub open spec fn all_within(images: Seq<Image>, width: int, height: int) -> bool {
    forall|i: int|
        0 <= i < images.len() ==> 0 <= (#[trigger] images[i]).width <= width && 0
            <= images[i].height <= height
}

/// Images glued one to the next are no larger than their number, their largest size
/// and the padding allow: across the direction in which they are glued they are as
/// large as the largest of them, along it as large as all of them and their paddings.
pub proof fn lemma_glued_together_bounds(
    images: Seq<Image>,
    position: GluePosition,
    padding: int,
    color: PixelRGBA,
    width: int,
    height: int,
)
    requires
        all_within(images, width, height),
        0 <= padding,
        0 <= width,
        0 <= height,
    ensures
        0 <= glued_together(images, position, padding, color).width,
        0 <= glued_together(images, position, padding, color).height,
        position.is_vertical() ==> glued_together(images, position, padding, color).width <= width
            && glued_together(images, position, padding, color).height <= images.len() * (height
            + padding),
        !position.is_vertical() ==> glued_together(images, position, padding, color).height
            <= height && glued_together(images, position, padding, color).width <= images.len() * (
        width + padding),
    decreases images.len(),
{
    let n = images.len() as int;
    if n == 0 {
        assert(0 * (height + padding) == 0 && 0 * (width + padding) == 0) by (nonlinear_arith);
    } else if n == 1 {
        assert(images[0].width <= width);
        assert(1 * (height + padding) == height + padding && 1 * (width + padding) == width
            + padding) by (nonlinear_arith);
    } else {
        let rest = images.drop_last();
        assert(all_within(rest, width, height)) by {
            assert forall|i: int| 0 <= i < rest.len() implies 0 <= (#[trigger] rest[i]).width
                <= width && 0 <= rest[i].height <= height by {
                assert(rest[i] == images[i]);
            }
        }
        lemma_glued_together_bounds(rest, position, padding, color, width, height);
        assert(images.last() == images[n - 1]);
        assert((n - 1) * (height + padding) + (height + padding) == n * (height + padding) && (n
            - 1) * (width + padding) + (width + padding) == n * (width + padding))
            by (nonlinear_arith);
    }
}

/// Where the size that the bounds allow can be held, every image that arises while
/// the images are glued one to the next can be held.
pub proof fn lemma_glued_together_fits(
    images: Seq<Image>,
    position: GluePosition,
    padding: int,
    width: int,
    height: int,
    max_width: int,
    max_height: int,
)
    requires
        all_within(images, width, height),
        0 <= padding,
        0 <= width,
        0 <= height,
        position.is_vertical() ==> width <= max_width && images.len() * (height + padding)
            <= max_height,
        !position.is_vertical() ==> height <= max_height && images.len() * (width + padding)
            <= max_width,
        0 <= max_width <= i32::MAX,
        0 <= max_height <= i32::MAX,
        max_width * max_height <= usize::MAX,
    ensures
        glued_together_storable(images, position, padding),
    decreases images.len(),
{
    let n = images.len() as int;
    if n > 1 {
        let rest = images.drop_last();
        assert(all_within(rest, width, height)) by {
            assert forall|i: int| 0 <= i < rest.len() implies 0 <= (#[trigger] rest[i]).width
                <= width && 0 <= rest[i].height <= height by {
                assert(rest[i] == images[i]);
            }
        }
        assert((n - 1) * (height + padding) <= n * (height + padding) && (n - 1) * (width
            + padding) <= n * (width + padding)) by (nonlinear_arith)
            requires
                0 <= height + padding,
                0 <= width + padding,
        ;
        lemma_glued_together_fits(rest, position, padding, width, height, max_width, max_height);
        lemma_glued_together_bounds(images, position, padding, outside(), width, height);
        let glued = glued_together(images, position, padding, outside());
        lemma_area_fits(glued.width, glued.height, max_width, max_height);
    }
}

/// A size that is within a size that can be held can be held.
pub proof fn lemma_area_fits(width: int, height: int, max_width: int, max_height: int)
    by (nonlinear_arith)
    requires
        0 <= width <= max_width,
        0 <= height <= max_height,
    ensures
        0 <= width * height <= max_width * max_height,
{
}

/// The images of a sequence of bitmaps.
pub open spec fn images_of(bitmaps: Seq<Bitmap>) -> Seq<Image> {
    Seq::new(bitmaps.len(), |i: int| bitmaps[i]@)
}

/// The size of glued images does not depend on the colour of the ground.
pub proof fn lemma_glued_together_size(
    images: Seq<Image>,
    position: GluePosition,
    padding: int,
    color: PixelRGBA,
    other: PixelRGBA,
)
    ensures
        glued_together(images, position, padding, color).width == glued_together(
            images,
            position,
            padding,
            other,
        ).width,
        glued_together(images, position, padding, color).height == glued_together(
            images,
            position,
            padding,
            other,
        ).height,
    decreases images.len(),
{
    if images.len() > 1 {
        lemma_glued_together_size(images.drop_last(), position, padding, color, other);
    }
}

/// An owned bitmap: `width * height` pixels in row-major order.
#[derive(Debug)]
pub struct Bitmap {
    pub width: i32,
    pub height: i32,
    pub data: Vec<PixelRGBA>,
}

/// `y * width + x` is a valid, unambiguous buffer index for every coordinate in the frame.
proof fn lemma_index(width: int, height: int, x: int, y: int)
    by (nonlinear_arith)
    requires
        0 <= x < width,
        0 <= y < height,
    ensures
        0 <= y * width + x < width * height,
        y * width <= y * width + x < (y + 1) * width,
        (y + 1) * width == y * width + width,
        (y + 1) * width <= width * height,
{
}

/// The buffer index of a coordinate in the frame lies in the buffer.
pub proof fn lemma_buffer_index(width: int, height: int, x: int, y: int)
    requires
        0 <= x < width,
        0 <= y < height,
    ensures
        0 <= y * width + x < width * height,
{
    lemma_index(width, height, x, y);
}

/// Two coordinates in the frame with the same buffer index are the same coordinate.
proof fn lemma_index_unique(width: int, x1: int, y1: int, x2: int, y2: int)
    by (nonlinear_arith)
    requires
        0 <= x1 < width,
        0 <= x2 < width,
        y1 * width + x1 == y2 * width + x2,
    ensures
        x1 == x2,
        y1 == y2,
{
}

/// Images of the same size with the same colour at every coordinate are equal.
pub proof fn lemma_image_equal(a: Image, b: Image)
    requires
        a.width == b.width,
        a.height == b.height,
        forall|x: int, y: int| #[trigger] a.pixel(x, y) == b.pixel(x, y),
    ensures
        a == b,
{
    assert forall|x: int, y: int| #[trigger] (a.pixels)(x, y) == (b.pixels)(x, y) by {
        assert(a.pixel(x, y) == b.pixel(x, y));
    }
    assert(a =~~= b);
}

impl View for Bitmap {
    type V = Image;

    open spec fn view(&self) -> Image {
        Image { width: self.width as int, height: self.height as int, pixels: self.pixels() }
    }
}

impl Bitmap {
    /// The colour at every coordinate: the buffer's inside the frame, the transparent
    /// pixel outside it.
    pub closed spec fn pixels(&self) -> spec_fn(int, int) -> PixelRGBA {
        Image::from_buffer(self.width as int, self.height as int, self.data@).pixels
    }

    /// The buffer holds exactly `width * height` pixels.
    pub open spec fn wf(&self) -> bool {
        &&& 0 <= self.width
        &&& 0 <= self.height
        &&& self.data.len() == self.width * self.height
    }

    /// The view has the bitmap's size and is a valid image; its pixels are the buffer's.
    pub proof fn lemma_view(&self)
        ensures
            self@.width == self.width,
            self@.height == self.height,
            self@ == Image::from_buffer(self.width as int, self.height as int, self.data@),
            self.wf() ==> self@.valid(),
    {
    }

    /// Bitmaps of the same size with the same pixels have the same buffer.
    pub proof fn lemma_same_view(&self, other: &Bitmap)
        requires
            self.wf(),
            other.wf(),
            self@ == other@,
        ensures
            self.width == other.width,
            self.height == other.height,
            self.data@ == other.data@,
    {
        let w = self.width as int;
        let h = self.height as int;
        assert forall|i: int| 0 <= i < self.data@.len() implies self.data@[i] == other.data@[i] by {
            if w > 0 {
                let x = i % w;
                let y = i / w;
                assert(y * w + x == i && 0 <= x < w && 0 <= y < h) by (nonlinear_arith)
                    requires
                        0 <= i < w * h,
                        w > 0,
                        x == i % w,
                        y == i / w,
                ;
                assert(self@.pixel(x, y) == self.data@[y * w + x]);
                assert(other@.pixel(x, y) == other.data@[y * w + x]);
            } else {
                assert(w * h == 0) by (nonlinear_arith)
                    requires
                        w == 0,
                ;
            }
        }
        assert(self.data@ =~= other.data@);
    }

    /// A bitmap of one colour.
    pub fn new_filled(width: i32, height: i32, color: PixelRGBA) -> (bitmap: Bitmap)
        requires
            0 <= width,
            0 <= height,
            width * height <= usize::MAX,
        ensures
            bitmap.wf(),
            bitmap.width == width,
            bitmap.height == height,
            bitmap@ == Image::filled(width as int, height as int, color),
    {
        assert(0 <= width * height) by (nonlinear_arith)
            requires
                0 <= width,
                0 <= height,
        ;
        let count: usize = (width as usize) * (height as usize);
        let data: Vec<PixelRGBA> = vec![color; count];
        let bitmap = Bitmap { width, height, data };
        proof {
            assert forall|x: int, y: int| #[trigger]
                bitmap@.pixel(x, y) == Image::filled(width as int, height as int, color).pixel(
                    x,
                    y,
                ) by {
                if 0 <= x < width && 0 <= y < height {
                    lemma_index(width as int, height as int, x, y);
                }
            }
            lemma_image_equal(bitmap@, Image::filled(width as int, height as int, color));
        }
        bitmap
    }

    /// A fully transparent bitmap.
    pub fn new(width: i32, height: i32) -> (bitmap: Bitmap)
        requires
            0 <= width,
            0 <= height,
            width * height <= usize::MAX,
        ensures
            bitmap.wf(),
            bitmap.width == width,
            bitmap.height == height,
            bitmap@ == Image::filled(width as int, height as int, outside()),
    {
        Bitmap::new_filled(width, height, PixelRGBA::transparent())
    }

    /// The bitmap without pixels.
    pub fn new_empty() -> (bitmap: Bitmap)
        ensures
            bitmap.wf(),
            bitmap.width == 0,
            bitmap.height == 0,
            bitmap@ == Image::filled(0, 0, outside()),
    {
        Bitmap::new_filled(0, 0, PixelRGBA::transparent())
    }

    /// Wraps a row-major buffer, or returns `None` when its length is not `width * height`.
    pub fn new_from_buffer(width: i32, height: i32, buffer: Vec<PixelRGBA>) -> (result: Option<
        Bitmap,
    >)
        ensures
            result.is_some() <==> (0 <= width && 0 <= height && buffer.len() == width * height),
            result matches Some(bitmap) ==> {
                &&& bitmap.wf()
                &&& bitmap.width == width
                &&& bitmap.height == height
                &&& bitmap.data@ == buffer@
                &&& bitmap@ == Image::from_buffer(width as int, height as int, buffer@)
            },
    {
        if width < 0 || height < 0 {
            return None;
        }
        assert(0 <= width * height <= 0x3fff_ffff_0000_0001) by (nonlinear_arith)
            requires
                0 <= width <= 0x7fff_ffff,
                0 <= height <= 0x7fff_ffff,
        ;
        let count: u64 = (width as u64) * (height as u64);
        if buffer.len() as u64 != count {
            return None;
        }
        Some(Bitmap { width, height, data: buffer })
    }

    /// A copy of the bitmap.
    pub fn copy(&self) -> (bitmap: Bitmap)
        ensures
            bitmap.width == self.width,
            bitmap.height == self.height,
            bitmap.data@ == self.data@,
            bitmap@ == self@,
            self.wf() ==> bitmap.wf(),
    {
        let mut data: Vec<PixelRGBA> = Vec::new();
        let mut i: usize = 0;
        while i < self.data.len()
            invariant
                i <= self.data.len(),
                data@ == self.data@.take(i as int),
            decreases self.data.len() - i,
        {
            data.push(self.data[i]);
            i += 1;
            assert(data@ =~= self.data@.take(i as int));
        }
        assert(data@ =~= self.data@);
        Bitmap { width: self.width, height: self.height, data }
    }

    /// The colour at `(x, y)`.
    pub fn get(&self, x: i32, y: i32) -> (color: PixelRGBA)
        requires
            self.wf(),
            self@.contains(x as int, y as int),
        ensures
            color == self@.pixel(x as int, y as int),
    {
        proof {
            lemma_index(self.width as int, self.height as int, x as int, y as int);
        }
        let index: usize = (y as usize) * (self.width as usize) + (x as usize);
        self.data[index]
    }

    /// Replaces the colour at `(x, y)`.
    pub fn set(&mut self, x: i32, y: i32, color: PixelRGBA)
        requires
            old(self).wf(),
            old(self)@.contains(x as int, y as int),
        ensures
            final(self).wf(),
            final(self).width == old(self).width,
            final(self).height == old(self).height,
            final(self)@ == old(self)@.with_pixel(x as int, y as int, color),
    {
        proof {
            lemma_index(self.width as int, self.height as int, x as int, y as int);
        }
        let index: usize = (y as usize) * (self.width as usize) + (x as usize);
        self.data.set(index, color);
        proof {
            let w = self.width as int;
            let h = self.height as int;
            let after = self@;
            let expected = old(self)@.with_pixel(x as int, y as int, color);
            assert forall|px: int, py: int| #[trigger]
                after.pixel(px, py) == expected.pixel(px, py) by {
                if 0 <= px < w && 0 <= py < h {
                    lemma_index(w, h, px, py);
                    if py * w + px == y * w + x {
                        lemma_index_unique(w, px, py, x as int, y as int);
                    }
                }
            }
            lemma_image_equal(after, expected);
        }
    }

    /// Paints a rectangle that lies inside the frame.
    pub fn draw_rect_filled(&mut self, x: i32, y: i32, w: i32, h: i32, color: PixelRGBA)
        requires
            old(self).wf(),
            old(self)@.contains_rect(x as int, y as int, w as int, h as int),
        ensures
            final(self).wf(),
            final(self).width == old(self).width,
            final(self).height == old(self).height,
            final(self)@ == old(self)@.fill_rect(x as int, y as int, w as int, h as int, color),
    {
        let ghost before = self@;
        proof {
            lemma_image_equal(self@, before.fill_rect(x as int, y as int, w as int, 0, color));
        }
        let mut row: i32 = y;
        while row < y + h
            invariant
                y <= row <= y + h,
                self.wf(),
                self.width == old(self).width,
                self.height == old(self).height,
                before == old(self)@,
                before.width == self.width,
                before.height == self.height,
                before.contains_rect(x as int, y as int, w as int, h as int),
                self@ == before.fill_rect(x as int, y as int, w as int, row - y, color),
            decreases y + h - row,
        {
            let ghost rows_done = self@;
            let mut col: i32 = x;
            proof {
                lemma_image_equal(self@, rows_done.fill_rect(x as int, row as int, 0, 1, color));
            }
            while col < x + w
                invariant
                    x <= col <= x + w,
                    y <= row < y + h,
                    self.wf(),
                    self.width == old(self).width,
                    self.height == old(self).height,
                    before.width == self.width,
                    before.height == self.height,
                    before.contains_rect(x as int, y as int, w as int, h as int),
                    rows_done == before.fill_rect(x as int, y as int, w as int, row - y, color),
                    self@ == rows_done.fill_rect(x as int, row as int, col - x, 1, color),
                decreases x + w - col,
            {
                self.set(col, row, color);
                col += 1;
                proof {
                    lemma_image_equal(
                        self@,
                        rows_done.fill_rect(x as int, row as int, col - x, 1, color),
                    );
                }
            }
            row += 1;
            proof {
                lemma_image_equal(
                    self@,
                    before.fill_rect(x as int, y as int, w as int, row - y, color),
                );
            }
        }
    }

    /// Paints the part of a rectangle that lies inside the frame; `w` or `h` below 1 paints nothing.
    fn fill_clipped(&mut self, x: i64, y: i64, w: i64, h: i64, color: PixelRGBA)
        requires
            old(self).wf(),
            -0x1_0000_0000 <= x <= 0x1_0000_0000,
            -0x1_0000_0000 <= y <= 0x1_0000_0000,
            -0x1_0000_0000 <= w <= 0x1_0000_0000,
            -0x1_0000_0000 <= h <= 0x1_0000_0000,
        ensures
            final(self).wf(),
            final(self).width == old(self).width,
            final(self).height == old(self).height,
            final(self)@ == old(self)@.fill_rect(x as int, y as int, w as int, h as int, color),
    {
        let ghost before = self@;
        let x0: i64 = if x < 0 { 0 } else { x };
        let y0: i64 = if y < 0 { 0 } else { y };
        let x1: i64 = if x + w > self.width as i64 { self.width as i64 } else { x + w };
        let y1: i64 = if y + h > self.height as i64 { self.height as i64 } else { y + h };
        if x0 < x1 && y0 < y1 {
            self.draw_rect_filled(x0 as i32, y0 as i32, (x1 - x0) as i32, (y1 - y0) as i32, color);
        }
        proof {
            lemma_image_equal(
                self@,
                before.fill_rect(x as int, y as int, w as int, h as int, color),
            );
        }
    }

    /// Paints the part of a rectangle that lies inside the frame.
    pub fn draw_rect_filled_safely(&mut self, x: i32, y: i32, w: i32, h: i32, color: PixelRGBA)
        requires
            old(self).wf(),
        ensures
            final(self).wf(),
            final(self).width == old(self).width,
            final(self).height == old(self).height,
            final(self)@ == old(self)@.fill_rect(x as int, y as int, w as int, h as int, color),
    {
        self.fill_clipped(x as i64, y as i64, w as i64, h as i64, color);
    }

    /// Paints the one-pixel outline of a rectangle, as far as it lies inside the frame.
    pub fn draw_rect(&mut self, x: i32, y: i32, w: i32, h: i32, color: PixelRGBA)
        requires
            old(self).wf(),
        ensures
            final(self).wf(),
            final(self).width == old(self).width,
            final(self).height == old(self).height,
            final(self)@ == old(self)@.stroke_rect(x as int, y as int, w as int, h as int, color),
    {
        let ghost before = self@;
        if w > 0 && h > 0 {
            let x64: i64 = x as i64;
            let y64: i64 = y as i64;
            let w64: i64 = w as i64;
            let h64: i64 = h as i64;
            self.fill_clipped(x64, y64, w64, 1, color);
            self.fill_clipped(x64, y64 + h64 - 1, w64, 1, color);
            self.fill_clipped(x64, y64, 1, h64, color);
            self.fill_clipped(x64 + w64 - 1, y64, 1, h64, color);
        }
        proof {
            lemma_image_equal(
                self@,
                before.stroke_rect(x as int, y as int, w as int, h as int, color),
            );
        }
    }

    /// Copies this bitmap over `dest`, this bitmap's top-left corner at `(x, y)` of `dest`;
    /// what falls outside `dest` is dropped.
    pub fn blit_to(&self, dest: &mut Bitmap, x: i32, y: i32)
        requires
            self.wf(),
            old(dest).wf(),
        ensures
            final(dest).wf(),
            final(dest).width == old(dest).width,
            final(dest).height == old(dest).height,
            final(dest)@ == old(dest)@.blit(self@, x as int, y as int),
    {
        let ghost before = dest@;
        let ghost src = self@;
        let x64: i64 = x as i64;
        let y64: i64 = y as i64;
        let sx0: i64 = if x64 < 0 { -x64 } else { 0 };
        let sy0: i64 = if y64 < 0 { -y64 } else { 0 };
        let sx1: i64 = if (dest.width as i64) - x64 < self.width as i64 {
            (dest.width as i64) - x64
        } else {
            self.width as i64
        };
        let sy1: i64 = if (dest.height as i64) - y64 < self.height as i64 {
            (dest.height as i64) - y64
        } else {
            self.height as i64
        };
        if sx0 < sx1 && sy0 < sy1 {
            let mut row: i64 = sy0;
            proof {
                lemma_image_equal(dest@, before.blit_upto(src, x as int, y as int, row as int, sx0 as int));
            }
            while row < sy1
                invariant
                    sy0 <= row <= sy1,
                    0 <= sx0 < sx1 <= self.width,
                    0 <= sy0 < sy1 <= self.height,
                    sx0 == (if x < 0 { -x } else { 0int }),
                    sx1 == self.width || sx1 + x == dest.width,
                    sx1 + x <= dest.width,
                    sy1 + y <= dest.height,
                    0 <= sx0 + x,
                    0 <= sy0 + y,
                    x64 == x,
                    y64 == y,
                    self.wf(),
                    dest.wf(),
                    dest.width == old(dest).width,
                    dest.height == old(dest).height,
                    src == self@,
                    src.width == self.width,
                    src.height == self.height,
                    before.width == dest.width,
                    before.height == dest.height,
                    dest@ == before.blit_upto(src, x as int, y as int, row as int, sx0 as int),
                decreases sy1 - row,
            {
                let mut col: i64 = sx0;
                while col < sx1
                    invariant
                        sx0 <= col <= sx1,
                        sy0 <= row < sy1,
                        0 <= sx0 < sx1 <= self.width,
                        0 <= sy0 < sy1 <= self.height,
                        sx1 + x <= dest.width,
                        sy1 + y <= dest.height,
                        0 <= sx0 + x,
                        0 <= sy0 + y,
                        x64 == x,
                        y64 == y,
                        self.wf(),
                        dest.wf(),
                        dest.width == old(dest).width,
                        dest.height == old(dest).height,
                        src == self@,
                        src.width == self.width,
                        src.height == self.height,
                        before.width == dest.width,
                        before.height == dest.height,
                        dest@ == before.blit_upto(src, x as int, y as int, row as int, col as int),
                    decreases sx1 - col,
                {
                    let color = self.get(col as i32, row as i32);
                    dest.set((col + x64) as i32, (row + y64) as i32, color);
                    col += 1;
                    proof {
                        lemma_image_equal(
                            dest@,
                            before.blit_upto(src, x as int, y as int, row as int, col as int),
                        );
                    }
                }
                row += 1;
                proof {
                    lemma_image_equal(
                        dest@,
                        before.blit_upto(src, x as int, y as int, row as int, sx0 as int),
                    );
                }
            }
        }
        proof {
            lemma_image_equal(dest@, before.blit(src, x as int, y as int));
        }
    }

    /// The window of this bitmap at `(x, y)` of size `w` by `h`, which lies inside the frame.
    pub fn cropped(&self, x: i32, y: i32, w: i32, h: i32) -> (bitmap: Bitmap)
        requires
            self.wf(),
            self@.contains_rect(x as int, y as int, w as int, h as int),
        ensures
            bitmap.wf(),
            bitmap.width == w,
            bitmap.height == h,
            bitmap@ == self@.crop(x as int, y as int, w as int, h as int),
    {
        proof {
            assert(0 <= w * h <= self.width * self.height) by (nonlinear_arith)
                requires
                    0 <= w <= self.width,
                    0 <= h <= self.height,
            ;
        }
        let mut bitmap = Bitmap::new(w, h);
        self.blit_to(&mut bitmap, -x, -y);
        proof {
            lemma_image_equal(bitmap@, self@.crop(x as int, y as int, w as int, h as int));
        }
        bitmap
    }

    /// This bitmap with a margin of `color` on each side.
    pub fn extended(&self, left: i32, top: i32, right: i32, bottom: i32, color: PixelRGBA) -> (bitmap:
        Bitmap)
        requires
            self.wf(),
            0 <= left,
            0 <= top,
            0 <= right,
            0 <= bottom,
            self.width + left + right <= i32::MAX,
            self.height + top + bottom <= i32::MAX,
            (self.width + left + right) * (self.height + top + bottom) <= usize::MAX,
        ensures
            bitmap.wf(),
            bitmap.width == self.width + left + right,
            bitmap.height == self.height + top + bottom,
            bitmap@ == self@.extended(left as int, top as int, right as int, bottom as int, color),
    {
        let mut bitmap = Bitmap::new_filled(
            self.width + left + right,
            self.height + top + bottom,
            color,
        );
        self.blit_to(&mut bitmap, left, top);
        bitmap
    }

    /// Adds a margin of `color` on each side, in place.
    pub fn extend(&mut self, left: i32, top: i32, right: i32, bottom: i32, color: PixelRGBA)
        requires
            old(self).wf(),
            0 <= left,
            0 <= top,
            0 <= right,
            0 <= bottom,
            old(self).width + left + right <= i32::MAX,
            old(self).height + top + bottom <= i32::MAX,
            (old(self).width + left + right) * (old(self).height + top + bottom) <= usize::MAX,
        ensures
            final(self).wf(),
            final(self).width == old(self).width + left + right,
            final(self).height == old(self).height + top + bottom,
            final(self)@ == old(self)@.extended(
                left as int,
                top as int,
                right as int,
                bottom as int,
                color,
            ),
    {
        let bitmap = self.extended(left, top, right, bottom, color);
        *self = bitmap;
    }

    /// This bitmap glued to the side of `other` that `position` names.
    pub fn glued_to(&self, other: &Bitmap, position: GluePosition, padding: i32, color: PixelRGBA)
        -> (bitmap: Bitmap)
        requires
            self.wf(),
            other.wf(),
            0 <= padding,
            self@.glued_to(other@, position, padding as int, color).storable(),
        ensures
            bitmap.wf(),
            bitmap@ == self@.glued_to(other@, position, padding as int, color),
            bitmap.width == self@.glued_width(other@, position, padding as int),
            bitmap.height == self@.glued_height(other@, position, padding as int),
    {
        let vertical = position.is_vertical();
        let first = position.comes_first();
        let alignment = position.alignment();
        let width: i32 = if vertical {
            if self.width >= other.width {
                self.width
            } else {
                other.width
            }
        } else {
            (self.width as i64 + padding as i64 + other.width as i64) as i32
        };
        let height: i32 = if vertical {
            (self.height as i64 + padding as i64 + other.height as i64) as i32
        } else {
            if self.height >= other.height {
                self.height
            } else {
                other.height
            }
        };
        let self_x: i32 = if vertical {
            align(width, self.width, alignment)
        } else if first {
            0
        } else {
            other.width + padding
        };
        let self_y: i32 = if !vertical {
            align(height, self.height, alignment)
        } else if first {
            0
        } else {
            other.height + padding
        };
        let other_x: i32 = if vertical {
            align(width, other.width, alignment)
        } else if first {
            self.width + padding
        } else {
            0
        };
        let other_y: i32 = if !vertical {
            align(height, other.height, alignment)
        } else if first {
            self.height + padding
        } else {
            0
        };
        let mut bitmap = Bitmap::new_filled(width, height, color);
        other.blit_to(&mut bitmap, other_x, other_y);
        self.blit_to(&mut bitmap, self_x, self_y);
        bitmap
    }

    /// This bitmap glued to the side of `other` that `position` names, or `None` where
    /// the padding is negative or the two together are too large to be held.
    pub fn try_glued_to(
        &self,
        other: &Bitmap,
        position: GluePosition,
        padding: i32,
        color: PixelRGBA,
    ) -> (result: Option<Bitmap>)
        requires
            self.wf(),
            other.wf(),
        ensures
            result.is_some() == (0 <= padding && self@.glued_to(
                other@,
                position,
                padding as int,
                color,
            ).storable()),
            result matches Some(bitmap) ==> bitmap.wf() && bitmap@ == self@.glued_to(
                other@,
                position,
                padding as int,
                color,
            ),
    {
        if padding < 0 {
            return None;
        }
        let along_width: i64 = self.width as i64 + padding as i64 + other.width as i64;
        let along_height: i64 = self.height as i64 + padding as i64 + other.height as i64;
        let across_width: i64 = if self.width >= other.width {
            self.width as i64
        } else {
            other.width as i64
        };
        let across_height: i64 = if self.height >= other.height {
            self.height as i64
        } else {
            other.height as i64
        };
        let (width, height) = if position.is_vertical() {
            (across_width, along_height)
        } else {
            (along_width, across_height)
        };
        if width > i32::MAX as i64 || height > i32::MAX as i64 {
            return None;
        }
        assert(0 <= width * height <= 0x7fff_ffff * 0x7fff_ffff) by (nonlinear_arith)
            requires
                0 <= width <= 0x7fff_ffff,
                0 <= height <= 0x7fff_ffff,
        ;
        if (width as u64) * (height as u64) > usize::MAX as u64 {
            return None;
        }
        Some(self.glued_to(other, position, padding, color))
    }

    /// `a` glued to the side of `b` that `position` names.
    pub fn glue_a_to_b(a: &Bitmap, b: &Bitmap, position: GluePosition, padding: i32, color: PixelRGBA)
        -> (bitmap: Bitmap)
        requires
            a.wf(),
            b.wf(),
            0 <= padding,
            a@.glued_to(b@, position, padding as int, color).storable(),
        ensures
            bitmap.wf(),
            bitmap@ == a@.glued_to(b@, position, padding as int, color),
    {
        a.glued_to(b, position, padding, color)
    }

    /// The bitmaps glued one to the next in their order.
    pub fn glue_together_multiple(
        bitmaps: &[Bitmap],
        position: GluePosition,
        padding: i32,
        color: PixelRGBA,
    ) -> (bitmap: Bitmap)
        requires
            forall|i: int| 0 <= i < bitmaps@.len() ==> (#[trigger] bitmaps@[i]).wf(),
            0 <= padding,
            glued_together_storable(images_of(bitmaps@), position, padding as int),
        ensures
            bitmap.wf(),
            bitmap@ == glued_together(images_of(bitmaps@), position, padding as int, color),
    {
        let ghost images = images_of(bitmaps@);
        if bitmaps.len() == 0 {
            return Bitmap::new_empty();
        }
        let mut bitmap = bitmaps[0].copy();
        let mut i: usize = 1;
        proof {
            assert(images.take(1)[0] == bitmaps@[0]@);
        }
        while i < bitmaps.len()
            invariant
                1 <= i <= bitmaps.len(),
                images == images_of(bitmaps@),
                forall|k: int| 0 <= k < bitmaps@.len() ==> (#[trigger] bitmaps@[k]).wf(),
                0 <= padding,
                glued_together_storable(images, position, padding as int),
                bitmap.wf(),
                bitmap@ == glued_together(images.take(i as int), position, padding as int, color),
            decreases bitmaps.len() - i,
        {
            proof {
                let upto = images.take(i + 1);
                assert(upto.drop_last() =~= images.take(i as int));
                assert(upto.last() == bitmaps@[i as int]@);
                lemma_glued_step_storable(images, position, padding as int, i + 1);
                lemma_glued_together_size(upto, position, padding as int, color, outside());
            }
            let next = bitmaps[i].glued_to(&bitmap, position, padding, color);
            bitmap = next;
            i += 1;
        }
        proof {
            assert(images.take(bitmaps.len() as int) =~= images);
        }
        bitmap
    }
}

/// Where a stretch of length `inner` starts inside one of length `outer`.
fn align(outer: i32, inner: i32, alignment: GlueAlignment) -> (offset: i32)
    requires
        0 <= inner <= outer,
    ensures
        offset == spec_aligned(outer as int, inner as int, alignment),
        0 <= offset <= outer - inner,
{
    match alignment {
        GlueAlignment::Start => 0,
        GlueAlignment::Center => (outer - inner) / 2,
        GlueAlignment::End => outer - inner,
    }
}

/// Where all steps of gluing a sequence can be held, so can the first `count` of them.
proof fn lemma_glued_step_storable(
    images: Seq<Image>,
    position: GluePosition,
    padding: int,
    count: int,
)
    requires
        glued_together_storable(images, position, padding),
        2 <= count <= images.len(),
    ensures
        glued_together(images.take(count), position, padding, outside()).storable(),
    decreases images.len(),
{
    if count == images.len() {
        assert(images.take(count) =~= images);
    } else {
        lemma_glued_step_storable(images.drop_last(), position, padding, count);
        assert(images.drop_last().take(count) =~= images.take(count));
    }
}

/// The pixel that four bytes in the order red, green, blue, alpha stand for, the first
/// of them at `start`.
pub open spec fn pixel_at_bytes(bytes: Seq<u8>, start: int) -> PixelRGBA {
    PixelRGBA { r: bytes[start], g: bytes[start + 1], b: bytes[start + 2], a: bytes[start + 3] }
}

/// The pixels that a buffer of bytes stands for, four bytes to the pixel; bytes at the
/// end that do not make up a pixel are left out.
pub open spec fn pixels_of_bytes(bytes: Seq<u8>) -> Seq<PixelRGBA> {
    Seq::new((bytes.len() / 4) as nat, |i: int| pixel_at_bytes(bytes, 4 * i))
}

/// One of the four channels of a pixel: red, green, blue, alpha.
pub open spec fn channel(pixel: PixelRGBA, index: int) -> u8 {
    if index == 0 {
        pixel.r
    } else if index == 1 {
        pixel.g
    } else if index == 2 {
        pixel.b
    } else {
        pixel.a
    }
}

/// The bytes that stand for a buffer of pixels, four bytes to the pixel.
pub open spec fn bytes_of_pixels(pixels: Seq<PixelRGBA>) -> Seq<u8> {
    Seq::new(4 * pixels.len(), |i: int| channel(pixels[i / 4], i % 4))
}

/// Reads pixels from bytes in the order red, green, blue, alpha.
pub fn pixels_from_rgba_bytes(bytes: &[u8]) -> (pixels: Vec<PixelRGBA>)
    ensures
        pixels@ == pixels_of_bytes(bytes@),
{
    let count: usize = bytes.len() / 4;
    let mut pixels: Vec<PixelRGBA> = Vec::new();
    let mut i: usize = 0;
    while i < count
        invariant
            i <= count,
            count == bytes@.len() / 4,
            bytes@.len() <= usize::MAX,
            pixels@ == pixels_of_bytes(bytes@).take(i as int),
        decreases count - i,
    {
        let start: usize = 4 * i;
        pixels.push(
            PixelRGBA::new(bytes[start], bytes[start + 1], bytes[start + 2], bytes[start + 3]),
        );
        i += 1;
        assert(pixels@ =~= pixels_of_bytes(bytes@).take(i as int));
    }
    assert(pixels@ =~= pixels_of_bytes(bytes@));
    pixels
}

/// The bytes of the first pixels, and then the four bytes of one more, are the bytes of
/// one more pixel.
proof fn lemma_bytes_of_one_more(pixels: Seq<PixelRGBA>, count: int)
    requires
        0 <= count < pixels.len(),
    ensures
        bytes_of_pixels(pixels).take(4 * (count + 1)) == bytes_of_pixels(pixels).take(4 * count).push(
            pixels[count].r,
        ).push(pixels[count].g).push(pixels[count].b).push(pixels[count].a),
{
    let all = bytes_of_pixels(pixels);
    let more = all.take(4 * (count + 1));
    let built = all.take(4 * count).push(pixels[count].r).push(pixels[count].g).push(
        pixels[count].b,
    ).push(pixels[count].a);
    assert(more.len() == built.len());
    assert forall|k: int| 0 <= k < more.len() implies more[k] == built[k] by {
        if k >= 4 * count {
            assert(k / 4 == count);
            assert(all[k] == channel(pixels[k / 4], k % 4));
        }
    }
    assert(more =~= built);
}

/// Reading the bytes of pixels gives the pixels back.
proof fn lemma_pixels_of_their_bytes(pixels: Seq<PixelRGBA>)
    ensures
        pixels_of_bytes(bytes_of_pixels(pixels)) == pixels,
{
    let bytes = bytes_of_pixels(pixels);
    let back = pixels_of_bytes(bytes);
    assert(back.len() == pixels.len());
    assert forall|i: int| 0 <= i < pixels.len() implies back[i] == pixels[i] by {
        assert(bytes[4 * i] == channel(pixels[(4 * i) / 4], (4 * i) % 4));
        assert(bytes[4 * i + 1] == channel(pixels[(4 * i + 1) / 4], (4 * i + 1) % 4));
        assert(bytes[4 * i + 2] == channel(pixels[(4 * i + 2) / 4], (4 * i + 2) % 4));
        assert(bytes[4 * i + 3] == channel(pixels[(4 * i + 3) / 4], (4 * i + 3) % 4));
    }
    assert(back =~= pixels);
}

/// Writes pixels as bytes in the order red, green, blue, alpha.
pub fn pixels_to_rgba_bytes(pixels: &[PixelRGBA]) -> (bytes: Vec<u8>)
    requires
        4 * pixels@.len() <= usize::MAX,
    ensures
        bytes@ == bytes_of_pixels(pixels@),
        pixels_of_bytes(bytes@) == pixels@,
{
    let mut bytes: Vec<u8> = Vec::new();
    let mut i: usize = 0;
    while i < pixels.len()
        invariant
            i <= pixels.len(),
            4 * pixels@.len() <= usize::MAX,
            bytes@ == bytes_of_pixels(pixels@).take(4 * i),
        decreases pixels.len() - i,
    {
        let pixel = pixels[i];
        proof {
            lemma_bytes_of_one_more(pixels@, i as int);
        }
        bytes.push(pixel.r);
        bytes.push(pixel.g);
        bytes.push(pixel.b);
        bytes.push(pixel.a);
        i += 1;
    }
    proof {
        assert(bytes_of_pixels(pixels@).take(4 * (pixels@.len() as int)) =~= bytes_of_pixels(pixels@));
        lemma_pixels_of_their_bytes(pixels@);
    }
    bytes
}

impl Bitmap {
    /// Makes a bitmap from bytes in the order red, green, blue, alpha, row by row, or
    /// returns `None` where the bytes are not exactly those of `width * height` pixels.
    pub fn from_rgba_bytes(width: i32, height: i32, bytes: &[u8]) -> (result: Option<Bitmap>)
        ensures
            result.is_some() <==> (0 <= width && 0 <= height && bytes@.len() == 4 * (width
                * height)),
            result matches Some(bitmap) ==> {
                &&& bitmap.wf()
                &&& bitmap.width == width
                &&& bitmap.height == height
                &&& bitmap.data@ == pixels_of_bytes(bytes@)
                &&& bitmap@ == Image::from_buffer(
                    width as int,
                    height as int,
                    pixels_of_bytes(bytes@),
                )
            },
    {
        if bytes.len() % 4 != 0 {
            return None;
        }
        Bitmap::new_from_buffer(width, height, pixels_from_rgba_bytes(bytes))
    }

    /// The pixels as bytes in the order red, green, blue, alpha, row by row.
    pub fn to_rgba_bytes(&self) -> (bytes: Vec<u8>)
        requires
            4 * self.data@.len() <= usize::MAX,
        ensures
            bytes@ == bytes_of_pixels(self.data@),
    {
        pixels_to_rgba_bytes(self.data.as_slice())
    }
}

} // verus!
