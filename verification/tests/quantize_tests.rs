use pixie_stitch::bitmap::Bitmap;
use pixie_stitch::color::PixelRGBA;
use pixie_stitch::quantize::colour_distance;
use pixie_stitch::quantize::compute_integer_sqrt;
use pixie_stitch::quantize::convert_image;
use pixie_stitch::quantize::find_closest_color;
use pixie_stitch::quantize::Palette;

fn palette_of(colors: &[(u8, u8, u8)]) -> Palette {
    let mut palette = Palette::new();
    for (i, (r, g, b)) in colors.iter().enumerate() {
        assert!(palette.insert(PixelRGBA::new(*r, *g, *b, 255), format!("T{}", i)));
    }
    palette
}

fn reference_distance(a: &PixelRGBA, b: &PixelRGBA) -> i64 {
    let c1 = color_art::Color::from_rgb(a.r, a.g, a.b).unwrap_or_default();
    let c2 = color_art::Color::from_rgb(b.r, b.g, b.b).unwrap_or_default();
    (color_art::distance(&c1, &c2) * 1000f64) as i64
}

#[test]
fn integer_sqrt_rounds_down() {
    assert_eq!(compute_integer_sqrt(0), 0);
    assert_eq!(compute_integer_sqrt(1), 1);
    assert_eq!(compute_integer_sqrt(3), 1);
    assert_eq!(compute_integer_sqrt(4), 2);
    assert_eq!(compute_integer_sqrt(99), 9);
    assert_eq!(compute_integer_sqrt(100), 10);
    assert_eq!(compute_integer_sqrt(195_075_000_000), 441_672);
    assert_eq!(compute_integer_sqrt(0x3fff_ffff_ffff_ffff), 0x7fff_ffff);
}

#[test]
fn distance_is_a_thousand_times_the_euclidean_distance() {
    let black = PixelRGBA::black();
    assert_eq!(colour_distance(&black, &black), 0);
    // sqrt(3 * 255^2) = 441.6729...
    assert_eq!(colour_distance(&black, &PixelRGBA::white()), 441_672);
    // sqrt(1) = 1
    assert_eq!(colour_distance(&PixelRGBA::new(10, 10, 10, 255), &PixelRGBA::new(10, 11, 10, 255)), 1000);
    // sqrt(2) = 1.41421...
    assert_eq!(colour_distance(&PixelRGBA::new(10, 10, 10, 255), &PixelRGBA::new(11, 11, 10, 255)), 1414);
    // 3-4-5
    assert_eq!(colour_distance(&PixelRGBA::new(0, 0, 0, 255), &PixelRGBA::new(3, 4, 0, 255)), 5000);
}

#[test]
fn distance_ignores_alpha() {
    let a = PixelRGBA::new(1, 2, 3, 255);
    let b = PixelRGBA::new(1, 2, 3, 7);
    assert_eq!(colour_distance(&a, &b), 0);
}

#[test]
fn distance_agrees_with_the_colour_library() {
    let mut seed: u32 = 99;
    for _ in 0..20_000 {
        seed = seed.wrapping_mul(1664525).wrapping_add(1013904223);
        let a = PixelRGBA::new((seed >> 24) as u8, (seed >> 16) as u8, (seed >> 8) as u8, 255);
        seed = seed.wrapping_mul(1664525).wrapping_add(1013904223);
        let b = PixelRGBA::new((seed >> 24) as u8, (seed >> 16) as u8, (seed >> 8) as u8, 255);
        assert_eq!(colour_distance(&a, &b), reference_distance(&a, &b));
    }
}

#[test]
fn distance_agrees_with_the_colour_library_on_every_squared_distance_along_an_axis() {
    let origin = PixelRGBA::new(0, 0, 0, 255);
    for r in 0..=255u8 {
        for g in [0u8, 1, 2, 3, 100, 254, 255] {
            for b in [0u8, 1, 17, 255] {
                let other = PixelRGBA::new(r, g, b, 255);
                assert_eq!(colour_distance(&origin, &other), reference_distance(&origin, &other));
            }
        }
    }
}

#[test]
fn closest_color_is_the_nearest() {
    let palette = palette_of(&[(0, 0, 0), (255, 255, 255), (255, 0, 0), (0, 0, 255)]);
    assert_eq!(find_closest_color(&PixelRGBA::new(250, 10, 10, 255), &palette), PixelRGBA::red());
    assert_eq!(find_closest_color(&PixelRGBA::new(10, 10, 10, 255), &palette), PixelRGBA::black());
    assert_eq!(find_closest_color(&PixelRGBA::new(200, 200, 210, 255), &palette), PixelRGBA::white());
    assert_eq!(find_closest_color(&PixelRGBA::new(10, 10, 180, 255), &palette), PixelRGBA::blue());
}

#[test]
fn closest_color_is_no_farther_than_any_palette_entry() {
    let palette = palette_of(&[(12, 200, 7), (90, 90, 90), (255, 0, 255), (3, 3, 250), (128, 64, 32)]);
    let mut seed: u32 = 7;
    for _ in 0..2000 {
        seed = seed.wrapping_mul(1664525).wrapping_add(1013904223);
        let pixel = PixelRGBA::new((seed >> 24) as u8, (seed >> 16) as u8, (seed >> 8) as u8, 255);
        let chosen = find_closest_color(&pixel, &palette);
        for entry in &palette.entries {
            assert!(colour_distance(&pixel, &chosen) <= colour_distance(&pixel, &entry.color));
        }
    }
}

#[test]
fn ties_go_to_the_first_palette_entry() {
    // (10, 0, 0) is as far from (0, 0, 0) as from (20, 0, 0).
    let palette = palette_of(&[(20, 0, 0), (0, 0, 0)]);
    assert_eq!(
        find_closest_color(&PixelRGBA::new(10, 0, 0, 255), &palette),
        PixelRGBA::new(20, 0, 0, 255)
    );
    let reversed = palette_of(&[(0, 0, 0), (20, 0, 0)]);
    assert_eq!(
        find_closest_color(&PixelRGBA::new(10, 0, 0, 255), &reversed),
        PixelRGBA::new(0, 0, 0, 255)
    );
}

#[test]
fn transparent_pixels_pass_through_unchanged() {
    let palette = palette_of(&[(0, 0, 0), (255, 255, 255)]);
    let ghost = PixelRGBA::new(200, 100, 50, 0);
    let image = Bitmap::new_from_buffer(
        2,
        1,
        vec![ghost, PixelRGBA::new(240, 240, 240, 9)],
    )
    .unwrap();
    let converted = convert_image(&image, &palette);
    assert_eq!(converted.width, 2);
    assert_eq!(converted.height, 1);
    assert_eq!(converted.data, vec![ghost, PixelRGBA::white()]);
}

#[test]
fn quantizing_twice_is_quantizing_once() {
    let palette = palette_of(&[(12, 200, 7), (90, 90, 90), (255, 0, 255), (3, 3, 250), (128, 64, 32)]);
    let mut data = Vec::new();
    let mut seed: u32 = 4242;
    for _ in 0..(16 * 9) {
        seed = seed.wrapping_mul(1664525).wrapping_add(1013904223);
        let alpha = if seed % 5 == 0 { 0 } else { (seed % 255) as u8 + 1 };
        data.push(PixelRGBA::new((seed >> 24) as u8, (seed >> 16) as u8, (seed >> 8) as u8, alpha));
    }
    let image = Bitmap::new_from_buffer(16, 9, data).unwrap();
    let once = convert_image(&image, &palette);
    let twice = convert_image(&once, &palette);
    assert_eq!(once.data, twice.data);
    assert_eq!(once.width, twice.width);
    assert_eq!(once.height, twice.height);
}

#[test]
fn palette_has_no_color_twice() {
    let mut palette = Palette::new();
    assert!(palette.insert(PixelRGBA::red(), "321".to_string()));
    assert!(!palette.insert(PixelRGBA::red(), "666".to_string()));
    assert!(palette.insert(PixelRGBA::blue(), "797".to_string()));
    assert_eq!(palette.len(), 2);
    assert_eq!(palette.index_of(&PixelRGBA::blue()), Some(1));
    assert_eq!(palette.index_of(&PixelRGBA::green()), None);
    assert_eq!(palette.thread_id(&PixelRGBA::red()), "321");
    assert_eq!(palette.thread_id(&PixelRGBA::blue()), "797");
    assert_eq!(palette.thread_id(&PixelRGBA::green()), "");
}

fn distances_agree_for_largest_difference_in(range: std::ops::Range<u16>) {
    let origin = PixelRGBA::new(0, 0, 0, 255);
    for c in range {
        for b in 0..=c {
            for a in 0..=b {
                let other = PixelRGBA::new(a as u8, b as u8, c as u8, 255);
                assert_eq!(colour_distance(&origin, &other), reference_distance(&origin, &other));
            }
        }
    }
}

#[test]
fn distance_agrees_with_the_colour_library_on_all_differences_below_128() {
    distances_agree_for_largest_difference_in(0..128);
}

#[test]
fn distance_agrees_with_the_colour_library_on_all_differences_from_128_to_191() {
    distances_agree_for_largest_difference_in(128..192);
}

#[test]
fn distance_agrees_with_the_colour_library_on_all_differences_from_192_to_231() {
    distances_agree_for_largest_difference_in(192..232);
}

#[test]
fn distance_agrees_with_the_colour_library_on_all_differences_from_232_to_255() {
    distances_agree_for_largest_difference_in(232..256);
}
