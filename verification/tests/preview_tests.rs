use pixie_stitch::bitmap::pixels_from_rgba_bytes;
use pixie_stitch::bitmap::pixels_to_rgba_bytes;
use pixie_stitch::bitmap::Bitmap;
use pixie_stitch::color::PixelRGBA;
use pixie_stitch::mapping::create_color_mappings_from_image;
use pixie_stitch::math::Vec2i;
use pixie_stitch::pattern::has_entry_for_every_pixel;
use pixie_stitch::preview::create_preview_background;
use pixie_stitch::preview::plan_preview_stitches;
use pixie_stitch::preview::try_create_preview_background;
use pixie_stitch::preview::try_plan_preview_stitches;
use pixie_stitch::bitmap::GluePosition;
use pixie_stitch::preview::StitchPlacement;
use pixie_stitch::sheets::pattern_set_variants;
use pixie_stitch::sheets::sheet_is_renderable;
use pixie_stitch::sheets::try_create_pattern_sheet;
use pixie_stitch::symbols::alphanumeric_symbol_characters;
use pixie_stitch::symbols::create_alphanumeric_symbol;
use pixie_stitch::symbols::create_alphanumeric_symbols;

fn numbered(width: i32, height: i32) -> Bitmap {
    let mut data = Vec::new();
    for y in 0..height {
        for x in 0..width {
            data.push(PixelRGBA::new(x as u8, y as u8, (x + 10 * y) as u8, 255));
        }
    }
    Bitmap::new_from_buffer(width, height, data).unwrap()
}

fn symbol(mark: i32) -> Bitmap {
    let mut bitmap = Bitmap::new_filled(16, 16, PixelRGBA::white());
    bitmap.set(5, 5 + mark, PixelRGBA::black());
    bitmap
}

#[test]
fn the_fabric_is_repeated_from_the_top_left() {
    let fabric = numbered(16, 24);
    let layer = create_preview_background(5, 3, &fabric);
    // A cell is 2 by 3 pixels.
    assert_eq!((layer.width, layer.height), (10, 9));
    for y in 0..9 {
        for x in 0..10 {
            assert_eq!(layer.get(x, y), fabric.get(x % 16, y % 24));
        }
    }
    let wide = create_preview_background(20, 9, &fabric);
    assert_eq!((wide.width, wide.height), (40, 27));
    for y in 0..27 {
        for x in 0..40 {
            assert_eq!(wide.get(x, y), fabric.get(x % 16, y % 24), "at {} {}", x, y);
        }
    }
}

#[test]
fn a_fabric_of_odd_size_is_repeated_too() {
    let fabric = numbered(19, 9);
    let layer = create_preview_background(30, 17, &fabric);
    assert_eq!((layer.width, layer.height), (60, 17));
    for y in 0..17 {
        for x in 0..60 {
            assert_eq!(layer.get(x, y), fabric.get(x % 19, y % 9), "at {} {}", x, y);
        }
    }
}

#[test]
fn a_fabric_smaller_than_eight_pixels_gives_no_background() {
    let fabric = numbered(7, 16);
    let layer = create_preview_background(4, 4, &fabric);
    assert_eq!((layer.width, layer.height), (0, 8));
    let none = create_preview_background(0, 0, &numbered(16, 16));
    assert_eq!((none.width, none.height), (0, 0));
}

#[test]
fn every_visible_pixel_gets_a_stitch() {
    let image = Bitmap::new_from_buffer(
        2,
        2,
        vec![PixelRGBA::blue(), PixelRGBA::transparent(), PixelRGBA::red(), PixelRGBA::blue()],
    )
    .unwrap();
    let glyphs: Vec<Bitmap> = (0..3).map(symbol).collect();
    let mut mapping = create_color_mappings_from_image(&image, &glyphs, &glyphs).unwrap();
    // Red is entry 0, blue entry 1.
    mapping.set_preview(
        0,
        true,
        vec![Bitmap::new_filled(4, 6, PixelRGBA::red()), Bitmap::new_filled(8, 8, PixelRGBA::red())],
    );
    mapping.set_preview(
        1,
        false,
        vec![
            Bitmap::new_filled(4, 6, PixelRGBA::blue()),
            Bitmap::new_filled(6, 2, PixelRGBA::blue()),
            Bitmap::new_filled(5, 5, PixelRGBA::blue()),
        ],
    );
    let placements = plan_preview_stitches(&image, &mapping, 4, 6, &[5, 1, 7, 99]);
    assert_eq!(
        placements,
        vec![
            // Pixel (0, 0), blue, 5 % 3 = 2: a stitch of 5 by 5.
            StitchPlacement { entry: 1, variant: 2, position: Vec2i::new(40 + 2 - 2, 60 + 2 - 2) },
            // Pixel (0, 1), red, 1 % 2 = 1: a stitch of 8 by 8.
            StitchPlacement { entry: 0, variant: 1, position: Vec2i::new(40 + 2 - 4, 66 + 2 - 4) },
            // Pixel (1, 1), blue, 7 % 3 = 1: a stitch of 6 by 2.
            StitchPlacement { entry: 1, variant: 1, position: Vec2i::new(44 + 2 - 3, 66 + 2 - 1) },
        ]
    );
}

#[test]
fn an_image_without_visible_pixels_has_no_stitch() {
    let image = Bitmap::new_filled(3, 3, PixelRGBA::transparent());
    let mapping = create_color_mappings_from_image(&image, &Vec::new(), &Vec::new()).unwrap();
    assert_eq!(plan_preview_stitches(&image, &mapping, 4, 6, &[]), vec![]);
}

#[test]
fn the_alphanumeric_characters_are_digits_then_letters() {
    let characters = alphanumeric_symbol_characters();
    assert_eq!(characters, "123456789ABCDEFGHIJKLMNOPQRSTUVWXYZ");
    assert_eq!(characters.chars().count(), 35);
}

#[test]
fn an_alphanumeric_symbol_is_the_glyph_in_white_centred_in_a_cell() {
    let mut glyph = Bitmap::new_filled(3, 5, PixelRGBA::transparent());
    glyph.set(0, 0, PixelRGBA::black());
    glyph.set(2, 4, PixelRGBA::new(9, 9, 9, 200));
    glyph.set(1, 2, PixelRGBA::new(0, 0, 0, 0));
    let symbol = create_alphanumeric_symbol(&glyph);
    assert_eq!((symbol.width, symbol.height), (16, 16));
    for y in 0..16 {
        for x in 0..16 {
            let expected = if (x, y) == (6, 5) || (x, y) == (8, 9) {
                PixelRGBA::white()
            } else {
                PixelRGBA::transparent()
            };
            assert_eq!(symbol.get(x, y), expected, "at {} {}", x, y);
        }
    }
    let all = create_alphanumeric_symbols(&[glyph.copy(), Bitmap::new_empty(), glyph.copy()]);
    assert_eq!(all.len(), 3);
    assert_eq!(all[0].data, symbol.data);
    assert_eq!(all[1].data, vec![PixelRGBA::transparent(); 256]);
    assert_eq!(all[2].data, symbol.data);
}

#[test]
fn pixels_are_four_bytes_each() {
    let pixels = pixels_from_rgba_bytes(&[1, 2, 3, 4, 5, 6, 7, 8, 9]);
    assert_eq!(pixels, vec![PixelRGBA::new(1, 2, 3, 4), PixelRGBA::new(5, 6, 7, 8)]);
    assert_eq!(pixels_from_rgba_bytes(&[1, 2, 3]), vec![]);
    assert_eq!(pixels_to_rgba_bytes(&pixels), vec![1, 2, 3, 4, 5, 6, 7, 8]);
    let bitmap = Bitmap::from_rgba_bytes(1, 2, &[1, 2, 3, 4, 5, 6, 7, 8]).unwrap();
    assert_eq!(bitmap.get(0, 1), PixelRGBA::new(5, 6, 7, 8));
    assert_eq!(bitmap.to_rgba_bytes(), vec![1, 2, 3, 4, 5, 6, 7, 8]);
    assert!(Bitmap::from_rgba_bytes(1, 2, &[1, 2, 3, 4, 5, 6, 7, 8, 9]).is_none());
    assert!(Bitmap::from_rgba_bytes(2, 2, &[1, 2, 3, 4, 5, 6, 7, 8]).is_none());
    assert!(Bitmap::from_rgba_bytes(-1, -2, &[1, 2, 3, 4, 5, 6, 7, 8]).is_none());
    assert!(Bitmap::from_rgba_bytes(0, 0, &[]).is_some());
}

#[test]
fn sheets_that_cannot_be_rendered_are_refused() {
    let image = Bitmap::new_from_buffer(2, 1, vec![PixelRGBA::red(), PixelRGBA::blue()]).unwrap();
    let glyphs: Vec<Bitmap> = (0..3).map(symbol).collect();
    let mapping = create_color_mappings_from_image(&image, &glyphs, &glyphs).unwrap();
    let variants = pattern_set_variants(true, true);
    assert!(has_entry_for_every_pixel(&image, &mapping));
    for variant in &variants {
        assert!(sheet_is_renderable(&image, &mapping, 6, 0, 0, variant));
        assert!(try_create_pattern_sheet(&image, &mapping, 6, 0, 0, variant).is_some());
        assert!(try_create_pattern_sheet(&image, &mapping, -1, 0, 0, variant).is_none());
    }
    // An image with a colour that the mapping does not know.
    let other = Bitmap::new_from_buffer(2, 1, vec![PixelRGBA::red(), PixelRGBA::green()]).unwrap();
    assert!(!has_entry_for_every_pixel(&other, &mapping));
    assert!(try_create_pattern_sheet(&other, &mapping, 6, 0, 0, &variants[0]).is_none());
    assert!(try_create_pattern_sheet(&other, &mapping, 6, 0, 0, &variants[1]).is_none());
    assert!(try_create_pattern_sheet(&other, &mapping, 6, 0, 0, &variants[3]).is_none());
    // Without symbols no entry is needed.
    assert!(try_create_pattern_sheet(&other, &mapping, 6, 0, 0, &variants[2]).is_some());
    // An empty image.
    let empty = Bitmap::new_empty();
    assert!(try_create_pattern_sheet(&empty, &mapping, 6, 0, 0, &variants[2]).is_none());
    // A margin that does not fit.
    assert!(!sheet_is_renderable(&image, &mapping, i32::MAX / 8, 0, 0, &variants[2]));
    assert!(sheet_is_renderable(&image, &mapping, i32::MAX / 8, 0, 0, &variants[3]));
    let sheet = try_create_pattern_sheet(&image, &mapping, 6, 0, 0, &variants[0]).unwrap();
    // Two pixels of margin for the marker at the left and at the top, then 30 for the labels.
    assert_eq!((sheet.image.width, sheet.image.height), (34 + 60, 18 + 60));
}

#[test]
fn a_background_that_cannot_be_laid_is_refused() {
    let fabric = numbered(16, 24);
    let layer = try_create_preview_background(5, 3, &fabric).unwrap();
    assert_eq!(layer.data, create_preview_background(5, 3, &fabric).data);
    assert!(try_create_preview_background(-1, 3, &fabric).is_none());
    assert!(try_create_preview_background(5, -3, &fabric).is_none());
    assert!(try_create_preview_background(i32::MAX, 3, &fabric).is_none());
}

#[test]
fn stitches_that_cannot_be_placed_are_refused() {
    let image = Bitmap::new_from_buffer(2, 1, vec![PixelRGBA::blue(), PixelRGBA::red()]).unwrap();
    let glyphs: Vec<Bitmap> = (0..3).map(symbol).collect();
    let mut mapping = create_color_mappings_from_image(&image, &glyphs, &glyphs).unwrap();
    // No entry has a stitch image yet.
    assert!(try_plan_preview_stitches(&image, &mapping, 4, 6, &[1, 2]).is_none());
    mapping.set_preview(0, true, vec![Bitmap::new_filled(4, 6, PixelRGBA::red())]);
    assert!(try_plan_preview_stitches(&image, &mapping, 4, 6, &[1, 2]).is_none());
    mapping.set_preview(1, true, vec![Bitmap::new_filled(4, 6, PixelRGBA::blue())]);
    let placements = try_plan_preview_stitches(&image, &mapping, 4, 6, &[1, 2]).unwrap();
    assert_eq!(placements, plan_preview_stitches(&image, &mapping, 4, 6, &[1, 2]));
    assert_eq!(placements.len(), 2);
    // Too few random numbers, a negative cell, a cell that is too large, an unknown colour.
    assert!(try_plan_preview_stitches(&image, &mapping, 4, 6, &[1]).is_none());
    assert!(try_plan_preview_stitches(&image, &mapping, -4, 6, &[1, 2]).is_none());
    assert!(try_plan_preview_stitches(&image, &mapping, 4, i32::MAX / 2, &[1, 2]).is_none());
    let other = Bitmap::new_from_buffer(1, 1, vec![PixelRGBA::green()]).unwrap();
    assert!(try_plan_preview_stitches(&other, &mapping, 4, 6, &[1, 2]).is_none());
}

#[test]
fn parts_that_are_too_large_together_are_not_glued() {
    let small = Bitmap::new_filled(2, 1, PixelRGBA::red());
    let other = Bitmap::new_filled(3, 2, PixelRGBA::blue());
    let glued = small.try_glued_to(&other, GluePosition::TopCenter, 1, PixelRGBA::white()).unwrap();
    assert_eq!(glued.data, small.glued_to(&other, GluePosition::TopCenter, 1, PixelRGBA::white()).data);
    assert!(small.try_glued_to(&other, GluePosition::TopCenter, -1, PixelRGBA::white()).is_none());
    assert!(small.try_glued_to(&other, GluePosition::TopCenter, i32::MAX - 2, PixelRGBA::white()).is_none());
    assert!(small.try_glued_to(&other, GluePosition::RightTop, i32::MAX - 4, PixelRGBA::white()).is_none());
}
