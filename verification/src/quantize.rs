//! The palette quantizer: every visible pixel goes to the nearest palette colour.

use vstd::prelude::*;
use crate::bitmap::Bitmap;
use crate::color::PixelRGBA;

verus! {

/// `root` is the integer square root of `value`: the largest number whose square is
/// not above it.
pub open spec fn is_integer_sqrt(value: int, root: int) -> bool {
    0 <= root && root * root <= value < (root + 1) * (root + 1)
}

/// The integer square root of a number that is not negative.
pub open spec fn integer_sqrt(value: int) -> int {
    choose|root: int| is_integer_sqrt(value, root)
}

/// A number has at most one integer square root.
pub proof fn lemma_integer_sqrt_unique(value: int, a: int, b: int)
    requires
        is_integer_sqrt(value, a),
        is_integer_sqrt(value, b),
    ensures
        a == b,
{
    if a < b {
        assert((a + 1) * (a + 1) <= b * b) by (nonlinear_arith)
            requires
                0 <= a,
                a + 1 <= b,
        ;
    } else if b < a {
        assert((b + 1) * (b + 1) <= a * a) by (nonlinear_arith)
            requires
                0 <= b,
                b + 1 <= a,
        ;
    }
}

/// Computes the integer square root by bisection.
pub fn compute_integer_sqrt(value: u64) -> (root: u64)
    requires
        value < 0x4000_0000_0000_0000,
    ensures
        is_integer_sqrt(value as int, root as int),
        root == integer_sqrt(value as int),
        root < 0x8000_0000,
{
    let mut low: u64 = 0;
    let mut high: u64 = 0x8000_0000;
    assert(0x8000_0000 * 0x8000_0000 == 0x4000_0000_0000_0000) by (nonlinear_arith);
    while high - low > 1
        invariant
            0 <= low < high <= 0x8000_0000,
            low * low <= value < high * high,
        decreases high - low,
    {
        let middle: u64 = low + (high - low) / 2;
        assert(middle * middle <= 0x8000_0000 * 0x8000_0000) by (nonlinear_arith)
            requires
                0 <= middle <= 0x8000_0000,
        ;
        if middle * middle <= value {
            low = middle;
        } else {
            high = middle;
        }
    }
    proof {
        let found = integer_sqrt(value as int);
        assert(is_integer_sqrt(value as int, low as int));
        lemma_integer_sqrt_unique(value as int, low as int, found);
    }
    low
}

/// The square of the Euclidean distance between two colours in RGB; alpha plays no part.
pub open spec fn squared_distance(first: PixelRGBA, second: PixelRGBA) -> int {
    (first.r - second.r) * (first.r - second.r) + (first.g - second.g) * (first.g - second.g) + (first.b - second.b) * (first.b - second.b)
}

/// The distance between two colours: a thousand times their Euclidean distance in
/// RGB, rounded down.
pub open spec fn spec_colour_distance(first: PixelRGBA, second: PixelRGBA) -> int {
    integer_sqrt(1_000_000 * squared_distance(first, second))
}

/// The squared distance is small enough to be scaled and rooted in 64 bits.
pub proof fn lemma_squared_distance_bound(first: PixelRGBA, second: PixelRGBA)
    ensures
        0 <= squared_distance(first, second) <= 195_075,
{
    let dr = first.r - second.r;
    let dg = first.g - second.g;
    let db = first.b - second.b;
    assert(0 <= dr * dr <= 65_025) by (nonlinear_arith)
        requires
            -255 <= dr <= 255,
    ;
    assert(0 <= dg * dg <= 65_025) by (nonlinear_arith)
        requires
            -255 <= dg <= 255,
    ;
    assert(0 <= db * db <= 65_025) by (nonlinear_arith)
        requires
            -255 <= db <= 255,
    ;
}

/// Computes the squared distance between two colours.
fn compute_squared_distance(first: &PixelRGBA, second: &PixelRGBA) -> (squared: u64)
    ensures
        squared == squared_distance(*first, *second),
        squared <= 195_075,
{
    proof {
        lemma_squared_distance_bound(*first, *second);
    }
    let dr: i64 = first.r as i64 - second.r as i64;
    let dg: i64 = first.g as i64 - second.g as i64;
    let db: i64 = first.b as i64 - second.b as i64;
    assert(0 <= dr * dr <= 65_025) by (nonlinear_arith)
        requires
            -255 <= dr <= 255,
    ;
    assert(0 <= dg * dg <= 65_025) by (nonlinear_arith)
        requires
            -255 <= dg <= 255,
    ;
    assert(0 <= db * db <= 65_025) by (nonlinear_arith)
        requires
            -255 <= db <= 255,
    ;
    (dr * dr + dg * dg + db * db) as u64
}

/// The distance between two colours.
pub fn colour_distance(first: &PixelRGBA, second: &PixelRGBA) -> (distance: i64)
    ensures
        distance == spec_colour_distance(*first, *second),
        0 <= distance,
{
    let squared = compute_squared_distance(first, second);
    compute_integer_sqrt(1_000_000 * squared) as i64
}

/// The distance is zero between colours of the same red, green and blue, and nowhere else.
pub proof fn lemma_distance_zero(first: PixelRGBA, second: PixelRGBA)
    ensures
        0 <= spec_colour_distance(first, second),
        spec_colour_distance(first, second) == 0 <==> (first.r == second.r && first.g == second.g && first.b == second.b),
{
    lemma_squared_distance_bound(first, second);
    let squared = squared_distance(first, second);
    let dr = first.r - second.r;
    let dg = first.g - second.g;
    let db = first.b - second.b;
    lemma_integer_sqrt_exists(1_000_000 * squared);
    assert(squared == dr * dr + dg * dg + db * db);
    assert(dr * dr >= 0 && dg * dg >= 0 && db * db >= 0 && (dr != 0 ==> dr * dr >= 1) && (dg != 0
        ==> dg * dg >= 1) && (db != 0 ==> db * db >= 1) && (dr == 0 ==> dr * dr == 0) && (dg == 0
        ==> dg * dg == 0) && (db == 0 ==> db * db == 0)) by (nonlinear_arith);
    if first.r == second.r && first.g == second.g && first.b == second.b {
        assert(squared == 0);
        assert(is_integer_sqrt(0, 0)) by (nonlinear_arith);
        lemma_integer_sqrt_unique(0, 0, integer_sqrt(0));
    } else {
        assert(squared >= 1);
        let root = integer_sqrt(1_000_000 * squared);
        if root == 0 {
            assert((root + 1) * (root + 1) == 1) by (nonlinear_arith)
                requires
                    root == 0,
            ;
        }
    }
}

/// Every number that is not negative has an integer square root.
pub proof fn lemma_integer_sqrt_exists(value: int)
    requires
        0 <= value,
    ensures
        is_integer_sqrt(value, integer_sqrt(value)),
    decreases value,
{
    if value == 0 {
        assert(is_integer_sqrt(0, 0)) by (nonlinear_arith);
    } else {
        lemma_integer_sqrt_exists(value - 1);
        let below = integer_sqrt(value - 1);
        if (below + 1) * (below + 1) <= value {
            assert((below + 1) * (below + 1) == value);
            assert(value < (below + 2) * (below + 2)) by (nonlinear_arith)
                requires
                    (below + 1) * (below + 1) == value,
                    0 <= below,
            ;
            assert(is_integer_sqrt(value, below + 1));
        } else {
            assert(is_integer_sqrt(value, below));
        }
    }
}

/// The place of the colour nearest to `pixel` among `colors`; of several at the same
/// distance, the first.
pub open spec fn closest_index(pixel: PixelRGBA, colors: Seq<PixelRGBA>) -> int
    decreases colors.len(),
{
    if colors.len() <= 1 {
        0
    } else {
        let best = closest_index(pixel, colors.drop_last());
        if spec_colour_distance(pixel, colors.last()) < spec_colour_distance(pixel, colors[best]) {
            colors.len() - 1
        } else {
            best
        }
    }
}

/// The nearest colour is nearest: no colour of the palette is closer to the pixel, and
/// none before it is as close.
pub proof fn lemma_closest_is_nearest(pixel: PixelRGBA, colors: Seq<PixelRGBA>)
    requires
        colors.len() > 0,
    ensures
        0 <= closest_index(pixel, colors) < colors.len(),
        forall|j: int|
            0 <= j < colors.len() ==> spec_colour_distance(
                pixel,
                colors[closest_index(pixel, colors)],
            ) <= spec_colour_distance(pixel, #[trigger] colors[j]),
        forall|j: int|
            0 <= j < closest_index(pixel, colors) ==> spec_colour_distance(
                pixel,
                colors[closest_index(pixel, colors)],
            ) < spec_colour_distance(pixel, #[trigger] colors[j]),
    decreases colors.len(),
{
    if colors.len() > 1 {
        let rest = colors.drop_last();
        lemma_closest_is_nearest(pixel, rest);
        let best = closest_index(pixel, rest);
        assert(rest[best] == colors[best]);
        assert forall|j: int| 0 <= j < colors.len() implies spec_colour_distance(
            pixel,
            colors[closest_index(pixel, colors)],
        ) <= spec_colour_distance(pixel, #[trigger] colors[j]) by {
            if j < rest.len() {
                assert(rest[j] == colors[j]);
            }
        }
        assert forall|j: int| 0 <= j < closest_index(pixel, colors) implies spec_colour_distance(
            pixel,
            colors[closest_index(pixel, colors)],
        ) < spec_colour_distance(pixel, #[trigger] colors[j]) by {
            assert(rest[j] == colors[j]);
        }
    }
}

/// What a pixel becomes: a fully transparent pixel stays as it is, every other pixel
/// becomes the nearest colour of the palette.
pub open spec fn quantized_pixel(pixel: PixelRGBA, colors: Seq<PixelRGBA>) -> PixelRGBA {
    if pixel.a == 0 {
        pixel
    } else {
        colors[closest_index(pixel, colors)]
    }
}

/// What a buffer of pixels becomes, pixel by pixel.
pub open spec fn quantized(pixels: Seq<PixelRGBA>, colors: Seq<PixelRGBA>) -> Seq<PixelRGBA> {
    Seq::new(pixels.len(), |i: int| quantized_pixel(pixels[i], colors))
}

/// Quantizing is idempotent: a quantized pixel is left as it is by quantizing it again.
pub proof fn lemma_quantized_pixel_idempotent(pixel: PixelRGBA, colors: Seq<PixelRGBA>)
    requires
        colors.len() > 0,
    ensures
        quantized_pixel(quantized_pixel(pixel, colors), colors) == quantized_pixel(pixel, colors),
{
    let once = quantized_pixel(pixel, colors);
    if pixel.a != 0 && once.a != 0 {
        let first = closest_index(pixel, colors);
        let second = closest_index(once, colors);
        lemma_closest_is_nearest(pixel, colors);
        lemma_closest_is_nearest(once, colors);
        lemma_distance_zero(once, colors[first]);
        lemma_distance_zero(once, colors[second]);
        assert(spec_colour_distance(once, colors[second]) <= spec_colour_distance(
            once,
            colors[first],
        ));
        // The two have the same red, green and blue, so they are equally far from the pixel.
        assert(squared_distance(pixel, colors[second]) == squared_distance(pixel, colors[first]));
        if second < first {
            assert(spec_colour_distance(pixel, colors[first]) < spec_colour_distance(
                pixel,
                colors[second],
            ));
        }
        if first < second {
            assert(spec_colour_distance(once, colors[second]) < spec_colour_distance(
                once,
                colors[first],
            ));
        }
    }
}

/// Quantizing is idempotent: quantizing a quantized buffer returns the same buffer.
pub proof fn lemma_quantized_idempotent(pixels: Seq<PixelRGBA>, colors: Seq<PixelRGBA>)
    requires
        colors.len() > 0,
    ensures
        quantized(quantized(pixels, colors), colors) == quantized(pixels, colors),
{
    assert forall|i: int| 0 <= i < pixels.len() implies quantized(
        quantized(pixels, colors),
        colors,
    )[i] == quantized(pixels, colors)[i] by {
        lemma_quantized_pixel_idempotent(pixels[i], colors);
    }
    assert(quantized(quantized(pixels, colors), colors) =~= quantized(pixels, colors));
}

/// One thread colour: the colour and the identifier under which the thread is sold.
pub struct PaletteEntry {
    pub color: PixelRGBA,
    pub thread_id: String,
}

/// The thread colours, in a fixed order.
pub struct Palette {
    pub entries: Vec<PaletteEntry>,
}

impl Palette {
    /// The colours of the palette, in its order.
    pub open spec fn colors(&self) -> Seq<PixelRGBA> {
        Seq::new(self.entries@.len(), |i: int| self.entries@[i].color)
    }

    /// No colour is listed twice.
    pub open spec fn wf(&self) -> bool {
        forall|i: int, j: int|
            0 <= i < self.entries@.len() && 0 <= j < self.entries@.len() && i != j ==> (
            #[trigger] self.entries@[i]).color != (#[trigger] self.entries@[j]).color
    }

    /// The palette without colours.
    pub fn new() -> (palette: Palette)
        ensures
            palette.entries@.len() == 0,
            palette.wf(),
    {
        Palette { entries: Vec::new() }
    }

    /// The number of colours.
    pub fn len(&self) -> (len: usize)
        ensures
            len == self.entries@.len(),
    {
        self.entries.len()
    }

    /// The place of `color` in the palette, or `None` when the palette does not have it.
    pub fn index_of(&self, color: &PixelRGBA) -> (place: Option<usize>)
        ensures
            match place {
                Some(index) => index < self.entries@.len() && self.entries@[index as int].color
                    == *color && forall|j: int|
                    0 <= j < index ==> (#[trigger] self.entries@[j]).color != *color,
                None => forall|j: int|
                    0 <= j < self.entries@.len() ==> (#[trigger] self.entries@[j]).color != *color,
            },
    {
        let mut i: usize = 0;
        while i < self.entries.len()
            invariant
                i <= self.entries.len(),
                forall|j: int| 0 <= j < i ==> (#[trigger] self.entries@[j]).color != *color,
            decreases self.entries.len() - i,
        {
            if self.entries[i].color == *color {
                return Some(i);
            }
            i += 1;
        }
        None
    }

    /// Adds a colour at the end, unless the palette has it already; says whether it was added.
    pub fn insert(&mut self, color: PixelRGBA, thread_id: String) -> (added: bool)
        requires
            old(self).wf(),
        ensures
            final(self).wf(),
            added == !old(self).colors().contains(color),
            added ==> final(self).entries@ == old(self).entries@.push(
                PaletteEntry { color, thread_id },
            ),
            !added ==> final(self).entries@ == old(self).entries@,
    {
        let place = self.index_of(&color);
        match place {
            Some(index) => {
                proof {
                    assert(self.colors()[index as int] == color);
                }
                false
            },
            None => {
                proof {
                    if self.colors().contains(color) {
                        let j = choose|j: int|
                            0 <= j < self.colors().len() && self.colors()[j] == color;
                        assert(self.entries@[j].color == color);
                    }
                }
                self.entries.push(PaletteEntry { color, thread_id });
                true
            },
        }
    }

    /// The identifier of the thread of the given colour: that of the first entry of
    /// the colour, or the empty text where the palette does not have the colour.
    pub open spec fn spec_thread_id(&self, color: PixelRGBA) -> Seq<char> {
        match self.colors().index_of_first(color) {
            Some(index) => self.entries@[index].thread_id@,
            None => Seq::<char>::empty(),
        }
    }

    /// The identifier of the thread of the given colour, or the empty text when the
    /// palette does not have the colour.
    pub fn thread_id(&self, color: &PixelRGBA) -> (id: &str)
        ensures
            id@ == self.spec_thread_id(*color),
    {
        proof {
            self.colors().index_of_first_ensures(*color);
        }
        match self.index_of(color) {
            Some(index) => {
                proof {
                    assert(self.colors()[index as int] == *color);
                    let first = self.colors().index_of_first(*color);
                    assert(first.is_some());
                    let found = first.unwrap();
                    assert(self.colors()[found] == *color);
                    if found < index {
                        assert(self.entries@[found].color != *color);
                    }
                    if index < found {
                        assert(self.colors()[index as int] != *color);
                    }
                }
                self.entries[index].thread_id.as_str()
            },
            None => {
                proof {
                    reveal_strlit("");
                    if self.colors().contains(*color) {
                        let j = choose|j: int|
                            0 <= j < self.colors().len() && self.colors()[j] == *color;
                        assert(self.entries@[j].color == *color);
                    }
                    assert("".view() =~= Seq::<char>::empty());
                }
                ""
            },
        }
    }
}

/// Finds the palette colour nearest to a pixel; of several at the same distance, the
/// one that comes first in the palette.
pub fn find_closest_color(pixel: &PixelRGBA, palette: &Palette) -> (closest: PixelRGBA)
    requires
        palette.entries@.len() > 0,
    ensures
        closest == palette.colors()[closest_index(*pixel, palette.colors())],
        palette.colors().contains(closest),
        forall|j: int|
            0 <= j < palette.colors().len() ==> spec_colour_distance(*pixel, closest)
                <= spec_colour_distance(*pixel, #[trigger] palette.colors()[j]),
{
    let ghost colors = palette.colors();
    let mut best: usize = 0;
    let mut best_distance: i64 = colour_distance(pixel, &palette.entries[0].color);
    let mut i: usize = 1;
    proof {
        assert(colors.take(1).len() == 1);
    }
    while i < palette.entries.len()
        invariant
            1 <= i <= palette.entries.len(),
            colors == palette.colors(),
            best == closest_index(*pixel, colors.take(i as int)),
            best < i,
            best_distance == spec_colour_distance(*pixel, colors[best as int]),
        decreases palette.entries.len() - i,
    {
        let distance = colour_distance(pixel, &palette.entries[i].color);
        proof {
            assert(colors.take(i + 1).drop_last() =~= colors.take(i as int));
            assert(colors.take(i + 1).last() == colors[i as int]);
            assert(colors.take(i + 1)[best as int] == colors[best as int]);
        }
        if distance < best_distance {
            best = i;
            best_distance = distance;
        }
        i += 1;
    }
    proof {
        assert(colors.take(palette.entries.len() as int) =~= colors);
        lemma_closest_is_nearest(*pixel, colors);
        assert(colors[best as int] == palette.entries@[best as int].color);
    }
    palette.entries[best].color
}

/// Quantizes an image: every visible pixel becomes the nearest colour of the palette,
/// every fully transparent pixel stays as it is.
pub fn convert_image(image: &Bitmap, palette: &Palette) -> (converted: Bitmap)
    requires
        palette.entries@.len() > 0,
    ensures
        converted.width == image.width,
        converted.height == image.height,
        converted.data@ == quantized(image.data@, palette.colors()),
        image.wf() ==> converted.wf(),
        forall|x: int, y: int|
            image.wf() && image@.contains(x, y) ==> #[trigger] converted@.pixel(x, y)
                == quantized_pixel(image@.pixel(x, y), palette.colors()),
{
    let ghost colors = palette.colors();
    let mut data: Vec<PixelRGBA> = Vec::new();
    let mut i: usize = 0;
    while i < image.data.len()
        invariant
            i <= image.data.len(),
            palette.entries@.len() > 0,
            colors == palette.colors(),
            data@ == quantized(image.data@, colors).take(i as int),
        decreases image.data.len() - i,
    {
        let pixel = image.data[i];
        let result = if pixel.a == 0 {
            pixel
        } else {
            find_closest_color(&pixel, palette)
        };
        data.push(result);
        i += 1;
        assert(data@ =~= quantized(image.data@, colors).take(i as int));
    }
    assert(data@ =~= quantized(image.data@, colors));
    let converted = Bitmap { width: image.width, height: image.height, data };
    proof {
        image.lemma_view();
        converted.lemma_view();
        assert forall|x: int, y: int| image.wf() && image@.contains(x, y) implies #[trigger] converted@.pixel(
            x,
            y,
        ) == quantized_pixel(image@.pixel(x, y), colors) by {
            crate::bitmap::lemma_buffer_index(image.width as int, image.height as int, x, y);
        }
    }
    converted
}

} // verus!
