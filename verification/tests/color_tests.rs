use pixie_stitch::color::ColorBlendMode;
use pixie_stitch::color::PixelRGBA;
use pixie_stitch::color::SortKey;
use std::cmp::Ordering;

#[test]
fn named_colors_have_their_channels() {
    assert_eq!(PixelRGBA::white(), PixelRGBA { r: 255, g: 255, b: 255, a: 255 });
    assert_eq!(PixelRGBA::black(), PixelRGBA { r: 0, g: 0, b: 0, a: 255 });
    assert_eq!(PixelRGBA::red(), PixelRGBA { r: 255, g: 0, b: 0, a: 255 });
    assert_eq!(PixelRGBA::green(), PixelRGBA { r: 0, g: 255, b: 0, a: 255 });
    assert_eq!(PixelRGBA::blue(), PixelRGBA { r: 0, g: 0, b: 255, a: 255 });
    assert_eq!(PixelRGBA::yellow(), PixelRGBA { r: 255, g: 255, b: 0, a: 255 });
    assert_eq!(PixelRGBA::magenta(), PixelRGBA { r: 255, g: 0, b: 255, a: 255 });
    assert_eq!(PixelRGBA::cyan(), PixelRGBA { r: 0, g: 255, b: 255, a: 255 });
    assert_eq!(PixelRGBA::transparent(), PixelRGBA { r: 0, g: 0, b: 0, a: 0 });
    assert_eq!(PixelRGBA::greyscale(77), PixelRGBA { r: 77, g: 77, b: 77, a: 255 });
    assert_eq!(PixelRGBA::new(1, 2, 3, 4), PixelRGBA { r: 1, g: 2, b: 3, a: 4 });
    assert_eq!(PixelRGBA::default(), PixelRGBA { r: 0, g: 0, b: 0, a: 0 });
}

#[test]
fn hex_unpacks_most_significant_byte_as_red() {
    assert_eq!(PixelRGBA::from_hex_rgba(0x11223344), PixelRGBA { r: 0x11, g: 0x22, b: 0x33, a: 0x44 });
    assert_eq!(PixelRGBA::from_hex_rgba(0xff000080), PixelRGBA { r: 255, g: 0, b: 0, a: 128 });
    assert_eq!(PixelRGBA::from_hex_rgba(0), PixelRGBA::transparent());
    assert_eq!(PixelRGBA::from_hex_rgba(0xffffffff), PixelRGBA::white());
}

#[test]
fn hex_packs_and_unpacks_back() {
    for value in [0u32, 1, 0xff, 0x100, 0xdeadbeef, 0x01020304, 0xffffffff, 0x80000000] {
        assert_eq!(PixelRGBA::from_hex_rgba(value).to_hex_rgba(), value);
    }
    let pixel = PixelRGBA::new(9, 8, 7, 6);
    assert_eq!(pixel.to_hex_rgba(), 0x09080706);
    assert_eq!(PixelRGBA::from_hex_rgba(pixel.to_hex_rgba()), pixel);
}

#[test]
fn random_pixels_come_from_their_numbers() {
    assert_eq!(PixelRGBA::new_random(0xa1b2c3d4), PixelRGBA { r: 0xa1, g: 0xb2, b: 0xc3, a: 0xd4 });
    assert_eq!(
        PixelRGBA::new_random_non_translucent(255, 256, 513),
        PixelRGBA { r: 255, g: 0, b: 1, a: 255 }
    );
}

#[test]
fn colors_are_ordered_by_hue_first() {
    // Hues: red 0, yellow 60, green 120, blue 240.
    let red = PixelRGBA::red();
    let yellow = PixelRGBA::yellow();
    let green = PixelRGBA::green();
    let blue = PixelRGBA::blue();
    assert_eq!(PixelRGBA::compare_by_hue_luminosity_saturation(&red, &yellow), Ordering::Less);
    assert_eq!(PixelRGBA::compare_by_hue_luminosity_saturation(&yellow, &green), Ordering::Less);
    assert_eq!(PixelRGBA::compare_by_hue_luminosity_saturation(&green, &blue), Ordering::Less);
    // By its channels blue would come before yellow; by its hue it comes after.
    assert_eq!(PixelRGBA::compare_by_hue_luminosity_saturation(&blue, &yellow), Ordering::Greater);
    assert_eq!(PixelRGBA::compare_by_hue_luminosity_saturation(&blue, &red), Ordering::Greater);
}

#[test]
fn equal_hues_are_ordered_by_lightness() {
    // Greys all have hue 0 and saturation 0.
    let dark = PixelRGBA::greyscale(10);
    let light = PixelRGBA::greyscale(200);
    assert_eq!(PixelRGBA::compare_by_hue_luminosity_saturation(&dark, &light), Ordering::Less);
    assert_eq!(PixelRGBA::compare_by_hue_luminosity_saturation(&light, &dark), Ordering::Greater);
    // Dark red and red share hue 0; dark red is less light.
    let dark_red = PixelRGBA::new(128, 0, 0, 255);
    assert_eq!(
        PixelRGBA::compare_by_hue_luminosity_saturation(&dark_red, &PixelRGBA::red()),
        Ordering::Less
    );
}

#[test]
fn equal_hue_and_lightness_are_ordered_by_saturation() {
    // Both have hue 0 and lightness one half; the grey has saturation 0, the red 1.
    let grey = PixelRGBA::new(128, 128, 128, 255);
    let hsl_grey = hsl::HSL::from_rgb(&[128, 128, 128]);
    let vivid = PixelRGBA::new(255, 1, 1, 255);
    let hsl_vivid = hsl::HSL::from_rgb(&[255, 1, 1]);
    assert_eq!(hsl_grey.h, hsl_vivid.h);
    assert_eq!(hsl_grey.l, hsl_vivid.l);
    assert!(hsl_grey.s < hsl_vivid.s);
    assert_eq!(PixelRGBA::compare_by_hue_luminosity_saturation(&grey, &vivid), Ordering::Less);
    assert_eq!(PixelRGBA::compare_by_hue_luminosity_saturation(&vivid, &grey), Ordering::Greater);
}

#[test]
fn alpha_plays_no_part_in_the_order() {
    let opaque = PixelRGBA::new(12, 200, 99, 255);
    let faint = PixelRGBA::new(12, 200, 99, 3);
    assert_eq!(PixelRGBA::compare_by_hue_luminosity_saturation(&opaque, &faint), Ordering::Equal);
    assert_eq!(PixelRGBA::compare_by_hue_luminosity_saturation(&opaque, &opaque), Ordering::Equal);
}

fn float_order(a: [u8; 3], b: [u8; 3]) -> Ordering {
    let x = hsl::HSL::from_rgb(&a);
    let y = hsl::HSL::from_rgb(&b);
    if x.h < y.h {
        Ordering::Less
    } else if x.h > y.h {
        Ordering::Greater
    } else if x.l < y.l {
        Ordering::Less
    } else if x.l > y.l {
        Ordering::Greater
    } else if x.s < y.s {
        Ordering::Less
    } else if x.s > y.s {
        Ordering::Greater
    } else {
        Ordering::Equal
    }
}

#[test]
fn order_agrees_with_the_order_of_the_hsl_numbers() {
    let mut samples: Vec<[u8; 3]> = Vec::new();
    let mut seed: u32 = 12345;
    for _ in 0..300 {
        seed = seed.wrapping_mul(1664525).wrapping_add(1013904223);
        samples.push([(seed >> 24) as u8, (seed >> 16) as u8, (seed >> 8) as u8]);
    }
    samples.push([0, 0, 0]);
    samples.push([255, 255, 255]);
    samples.push([1, 1, 1]);
    for a in &samples {
        for b in &samples {
            let pa = PixelRGBA::new(a[0], a[1], a[2], 255);
            let pb = PixelRGBA::new(b[0], b[1], b[2], 255);
            assert_eq!(
                PixelRGBA::compare_by_hue_luminosity_saturation(&pa, &pb),
                float_order(*a, *b)
            );
        }
    }
}

#[test]
fn blend_modes_are_distinct() {
    assert_ne!(ColorBlendMode::Normal, ColorBlendMode::Multiply);
    assert_eq!(ColorBlendMode::Luminosity, ColorBlendMode::Luminosity);
}

#[test]
fn keys_are_compared_by_hue_then_lightness_then_saturation() {
    let key = |hue, lightness, saturation| SortKey { hue, lightness, saturation };
    assert_eq!(key(1, 9, 9).compare(&key(2, 0, 0)), Ordering::Less);
    assert_eq!(key(2, 0, 0).compare(&key(1, 9, 9)), Ordering::Greater);
    assert_eq!(key(5, 1, 9).compare(&key(5, 2, 0)), Ordering::Less);
    assert_eq!(key(5, 2, 0).compare(&key(5, 1, 9)), Ordering::Greater);
    assert_eq!(key(5, 2, 3).compare(&key(5, 2, 4)), Ordering::Less);
    assert_eq!(key(5, 2, 4).compare(&key(5, 2, 3)), Ordering::Greater);
    assert_eq!(key(5, 2, 3).compare(&key(5, 2, 3)), Ordering::Equal);
}
