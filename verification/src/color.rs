//! Pixel colours: the 8-bit RGBA value every bitmap is made of, its packed
//! 32-bit form, and the perceptual ordering used to sort colour ramps.

use vstd::prelude::*;
use std::cmp::Ordering;

verus! {

/// One pixel: four 8-bit channels. Equality is exact and channel-wise.
#[derive(Debug, Clone, Copy, PartialEq, Eq, Hash, Structural)]
pub struct PixelRGBA {
    pub r: u8,
    pub g: u8,
    pub b: u8,
    pub a: u8,
}

/// The blend modes a compositor can apply when one colour is laid over another.
#[derive(Debug, Clone, Copy, PartialEq, Eq, Hash, Structural)]
pub enum ColorBlendMode {
    Normal,
    Multiply,
    Screen,
    Overlay,
    Darken,
    Lighten,
    ColorDodge,
    ColorBurn,
    HardLight,
    SoftLight,
    Hue,
    Saturation,
    Color,
    Luminosity,
}

/// What `hsl::HSL::from_rgb` returns for the colour `(r, g, b)`: hue in degrees,
/// saturation and lightness, each as the bit pattern of its double.
pub uninterp spec fn hsl_bits(r: u8, g: u8, b: u8) -> (u64, u64, u64);

/// Calls `hsl::HSL::from_rgb` and hands back hue, saturation and lightness as the
/// bit patterns of the three doubles. The conversion uses only the four basic
/// operations and rounding, so the result is a function of the three channels.
/// None of the three is negative or a NaN, so they are ordered as their bit
/// patterns are.
#[verifier::external_body]
fn hsl_from_rgb(r: u8, g: u8, b: u8) -> (bits: (u64, u64, u64))
    ensures
        bits == hsl_bits(r, g, b),
{
    let hsl = hsl::HSL::from_rgb(&[r, g, b]);
    (hsl.h.to_bits(), hsl.s.to_bits(), hsl.l.to_bits())
}

/// A colour's place in the perceptual order: hue, lightness, saturation.
#[derive(Debug, Clone, Copy, PartialEq, Eq, Structural)]
pub struct SortKey {
    pub hue: u64,
    pub lightness: u64,
    pub saturation: u64,
}

impl SortKey {
    /// The lexicographic order on hue, then lightness, then saturation.
    pub open spec fn less(self, other: SortKey) -> bool {
        self.hue < other.hue || (self.hue == other.hue && (self.lightness < other.lightness || (
        self.lightness == other.lightness && self.saturation < other.saturation)))
    }

    /// `self` does not come after `other`.
    pub open spec fn less_or_equal(self, other: SortKey) -> bool {
        !other.less(self)
    }

    /// Orders two keys by hue, then lightness, then saturation.
    pub fn compare(&self, other: &SortKey) -> (order: Ordering)
        ensures
            (order == Ordering::Less) == self.less(*other),
            (order == Ordering::Greater) == other.less(*self),
            (order == Ordering::Equal) == (*self == *other),
    {
        if self.hue < other.hue {
            Ordering::Less
        } else if self.hue > other.hue {
            Ordering::Greater
        } else if self.lightness < other.lightness {
            Ordering::Less
        } else if self.lightness > other.lightness {
            Ordering::Greater
        } else if self.saturation < other.saturation {
            Ordering::Less
        } else if self.saturation > other.saturation {
            Ordering::Greater
        } else {
            Ordering::Equal
        }
    }
}

impl Default for PixelRGBA {
    fn default() -> (p: PixelRGBA)
        ensures
            p == (PixelRGBA { r: 0, g: 0, b: 0, a: 0 }),
    {
        PixelRGBA { r: 0, g: 0, b: 0, a: 0 }
    }
}

impl PixelRGBA {
    /// The pixel whose packed form `0xRRGGBBAA` is `hex_rgba`.
    #[verifier::opaque]
    pub open spec fn spec_from_hex_rgba(hex_rgba: u32) -> PixelRGBA {
        PixelRGBA {
            r: (hex_rgba / 0x100_0000) as u8,
            g: ((hex_rgba / 0x1_0000) % 0x100) as u8,
            b: ((hex_rgba / 0x100) % 0x100) as u8,
            a: (hex_rgba % 0x100) as u8,
        }
    }

    /// The packed form `0xRRGGBBAA` of a pixel.
    #[verifier::opaque]
    pub open spec fn spec_to_hex_rgba(self) -> u32 {
        (self.r as u32 * 0x100_0000 + self.g as u32 * 0x1_0000 + self.b as u32 * 0x100
            + self.a as u32) as u32
    }

    /// The key by which colours are sorted; alpha plays no part in it.
    pub open spec fn sort_key(self) -> SortKey {
        let bits = hsl_bits(self.r, self.g, self.b);
        SortKey { hue: bits.0, lightness: bits.2, saturation: bits.1 }
    }

    pub fn new(r: u8, g: u8, b: u8, a: u8) -> (p: PixelRGBA)
        ensures
            p == (PixelRGBA { r, g, b, a }),
    {
        PixelRGBA { r, g, b, a }
    }

    pub fn white() -> (p: PixelRGBA)
        ensures
            p == (PixelRGBA { r: 255, g: 255, b: 255, a: 255 }),
    {
        PixelRGBA { r: 255, g: 255, b: 255, a: 255 }
    }

    pub fn black() -> (p: PixelRGBA)
        ensures
            p == (PixelRGBA { r: 0, g: 0, b: 0, a: 255 }),
    {
        PixelRGBA { r: 0, g: 0, b: 0, a: 255 }
    }

    pub fn red() -> (p: PixelRGBA)
        ensures
            p == (PixelRGBA { r: 255, g: 0, b: 0, a: 255 }),
    {
        PixelRGBA { r: 255, g: 0, b: 0, a: 255 }
    }

    pub fn green() -> (p: PixelRGBA)
        ensures
            p == (PixelRGBA { r: 0, g: 255, b: 0, a: 255 }),
    {
        PixelRGBA { r: 0, g: 255, b: 0, a: 255 }
    }

    pub fn blue() -> (p: PixelRGBA)
        ensures
            p == (PixelRGBA { r: 0, g: 0, b: 255, a: 255 }),
    {
        PixelRGBA { r: 0, g: 0, b: 255, a: 255 }
    }

    pub fn yellow() -> (p: PixelRGBA)
        ensures
            p == (PixelRGBA { r: 255, g: 255, b: 0, a: 255 }),
    {
        PixelRGBA { r: 255, g: 255, b: 0, a: 255 }
    }

    pub fn magenta() -> (p: PixelRGBA)
        ensures
            p == (PixelRGBA { r: 255, g: 0, b: 255, a: 255 }),
    {
        PixelRGBA { r: 255, g: 0, b: 255, a: 255 }
    }

    pub fn cyan() -> (p: PixelRGBA)
        ensures
            p == (PixelRGBA { r: 0, g: 255, b: 255, a: 255 }),
    {
        PixelRGBA { r: 0, g: 255, b: 255, a: 255 }
    }

    pub fn transparent() -> (p: PixelRGBA)
        ensures
            p == (PixelRGBA { r: 0, g: 0, b: 0, a: 0 }),
    {
        PixelRGBA { r: 0, g: 0, b: 0, a: 0 }
    }

    pub fn greyscale(value: u8) -> (p: PixelRGBA)
        ensures
            p == (PixelRGBA { r: value, g: value, b: value, a: 255 }),
    {
        PixelRGBA { r: value, g: value, b: value, a: 255 }
    }

    /// The pixel that a random 32-bit number stands for when it is read as `0xRRGGBBAA`.
    pub fn new_random(random: u32) -> (p: PixelRGBA)
        ensures
            p == Self::spec_from_hex_rgba(random),
    {
        PixelRGBA::from_hex_rgba(random)
    }

    /// An opaque pixel from three random numbers, one for each of red, green and blue;
    /// of each number the lowest eight bits count.
    pub fn new_random_non_translucent(red: u32, green: u32, blue: u32) -> (p: PixelRGBA)
        ensures
            p == (PixelRGBA {
                r: (red % 0x100) as u8,
                g: (green % 0x100) as u8,
                b: (blue % 0x100) as u8,
                a: 255,
            }),
    {
        PixelRGBA {
            r: (red % 0x100) as u8,
            g: (green % 0x100) as u8,
            b: (blue % 0x100) as u8,
            a: 255,
        }
    }

    /// Unpacks `0xRRGGBBAA`.
    pub fn from_hex_rgba(hex_rgba: u32) -> (p: PixelRGBA)
        ensures
            p == Self::spec_from_hex_rgba(hex_rgba),
            p.spec_to_hex_rgba() == hex_rgba,
    {
        proof {
            reveal(PixelRGBA::spec_from_hex_rgba);
            lemma_hex_rgba_round_trip(hex_rgba);
        }
        let r: u32 = (hex_rgba & 0xff000000) >> 24;
        let g: u32 = (hex_rgba & 0x00ff0000) >> 16;
        let b: u32 = (hex_rgba & 0x0000ff00) >> 8;
        let a: u32 = hex_rgba & 0x000000ff;
        assert(r == hex_rgba / 0x100_0000 && r < 0x100) by (bit_vector)
            requires
                r == (hex_rgba & 0xff000000) >> 24,
        ;
        assert(g == (hex_rgba / 0x1_0000) % 0x100 && g < 0x100) by (bit_vector)
            requires
                g == (hex_rgba & 0x00ff0000) >> 16,
        ;
        assert(b == (hex_rgba / 0x100) % 0x100 && b < 0x100) by (bit_vector)
            requires
                b == (hex_rgba & 0x0000ff00) >> 8,
        ;
        assert(a == hex_rgba % 0x100 && a < 0x100) by (bit_vector)
            requires
                a == hex_rgba & 0x000000ff,
        ;
        PixelRGBA { r: r as u8, g: g as u8, b: b as u8, a: a as u8 }
    }

    /// Computes the key by which colours are sorted.
    pub fn compute_sort_key(&self) -> (key: SortKey)
        ensures
            key == self.sort_key(),
    {
        let bits = hsl_from_rgb(self.r, self.g, self.b);
        SortKey { hue: bits.0, lightness: bits.2, saturation: bits.1 }
    }

    /// Orders colours by hue, then lightness, then saturation.
    pub fn compare_by_hue_luminosity_saturation(color_a: &PixelRGBA, color_b: &PixelRGBA) -> (order:
        Ordering)
        ensures
            (order == Ordering::Less) == color_a.sort_key().less(color_b.sort_key()),
            (order == Ordering::Greater) == color_b.sort_key().less(color_a.sort_key()),
            (order == Ordering::Equal) == (color_a.sort_key() == color_b.sort_key()),
    {
        let a = color_a.compute_sort_key();
        let b = color_b.compute_sort_key();
        a.compare(&b)
    }

    /// Packs the four channels as `0xRRGGBBAA`; the inverse of `from_hex_rgba`.
    pub fn to_hex_rgba(self) -> (hex_rgba: u32)
        ensures
            hex_rgba == self.spec_to_hex_rgba(),
            Self::spec_from_hex_rgba(hex_rgba) == self,
    {
        proof {
            reveal(PixelRGBA::spec_from_hex_rgba);
            reveal(PixelRGBA::spec_to_hex_rgba);
            lemma_pack_unpack(self.r as u32, self.g as u32, self.b as u32, self.a as u32);
        }
        let hex_rgba: u32 = (self.r as u32) * 0x100_0000 + (self.g as u32) * 0x1_0000 + (
        self.b as u32) * 0x100 + (self.a as u32);
        hex_rgba
    }
}

proof fn lemma_pack_unpack(r: u32, g: u32, b: u32, a: u32)
    by (bit_vector)
    requires
        r < 0x100,
        g < 0x100,
        b < 0x100,
        a < 0x100,
    ensures
        r * 0x100_0000 + g * 0x1_0000 + b * 0x100 + a <= 0xffff_ffff,
        (r * 0x100_0000 + g * 0x1_0000 + b * 0x100 + a) / 0x100_0000 == r,
        ((r * 0x100_0000 + g * 0x1_0000 + b * 0x100 + a) / 0x1_0000) % 0x100 == g,
        ((r * 0x100_0000 + g * 0x1_0000 + b * 0x100 + a) / 0x100) % 0x100 == b,
        (r * 0x100_0000 + g * 0x1_0000 + b * 0x100 + a) % 0x100 == a,
{
}

/// Unpacking and packing again gives the number back.
pub proof fn lemma_hex_rgba_round_trip(hex_rgba: u32)
    ensures
        PixelRGBA::spec_from_hex_rgba(hex_rgba).spec_to_hex_rgba() == hex_rgba,
{
    reveal(PixelRGBA::spec_from_hex_rgba);
    reveal(PixelRGBA::spec_to_hex_rgba);
    assert((hex_rgba / 0x100_0000) * 0x100_0000 + ((hex_rgba / 0x1_0000) % 0x100) * 0x1_0000 + ((
    hex_rgba / 0x100) % 0x100) * 0x100 + hex_rgba % 0x100 == hex_rgba && hex_rgba / 0x100_0000
        < 0x100) by (bit_vector);
}

/// Packing and unpacking again gives the pixel back.
pub proof fn lemma_hex_rgba_unpack(p: PixelRGBA)
    ensures
        PixelRGBA::spec_from_hex_rgba(p.spec_to_hex_rgba()) == p,
{
    reveal(PixelRGBA::spec_from_hex_rgba);
    reveal(PixelRGBA::spec_to_hex_rgba);
    lemma_pack_unpack(p.r as u32, p.g as u32, p.b as u32, p.a as u32);
}

/// Packing is injective: two pixels with the same packed form are the same pixel.
pub proof fn lemma_hex_rgba_injective(p: PixelRGBA, q: PixelRGBA)
    requires
        p.spec_to_hex_rgba() == q.spec_to_hex_rgba(),
    ensures
        p == q,
{
    reveal(PixelRGBA::spec_to_hex_rgba);
    lemma_pack_unpack(p.r as u32, p.g as u32, p.b as u32, p.a as u32);
    lemma_pack_unpack(q.r as u32, q.g as u32, q.b as u32, q.a as u32);
}

} // verus!
