use pixie_stitch::bitmap::Bitmap;
use pixie_stitch::color::PixelRGBA;
use pixie_stitch::constants::color_grid_thick;
use pixie_stitch::constants::color_grid_thin;
use pixie_stitch::constants::TILE_SIZE;
use pixie_stitch::mapping::create_color_mappings_from_image;
use pixie_stitch::mapping::ColorMapping;
use pixie_stitch::math::Vec2i;
use pixie_stitch::pattern::blit_symbol;
use pixie_stitch::pattern::create_cross_stitch_pattern;
use pixie_stitch::pattern::draw_origin_line_horizontal;
use pixie_stitch::pattern::draw_origin_line_vertical;
use pixie_stitch::pattern::symbol_ink;
use pixie_stitch::pattern::PatternType;

fn symbol(mark: i32) -> Bitmap {
    let mut bitmap = Bitmap::new_filled(16, 16, PixelRGBA::white());
    bitmap.set(5, 5 + mark, PixelRGBA::black());
    bitmap
}

fn letter(mark: i32) -> Bitmap {
    let mut bitmap = Bitmap::new_filled(16, 16, PixelRGBA::transparent());
    bitmap.set(9, 5 + mark, PixelRGBA::white());
    bitmap
}

fn two_by_two() -> Bitmap {
    Bitmap::new_from_buffer(
        2,
        2,
        vec![PixelRGBA::red(), PixelRGBA::green(), PixelRGBA::blue(), PixelRGBA::transparent()],
    )
    .unwrap()
}

fn mapping_of(image: &Bitmap) -> ColorMapping {
    let glyphs: Vec<Bitmap> = (0..3).map(symbol).collect();
    let letters: Vec<Bitmap> = (0..3).map(letter).collect();
    create_color_mappings_from_image(image, &glyphs, &letters).unwrap()
}

fn thin() -> PixelRGBA {
    color_grid_thin()
}

fn thick() -> PixelRGBA {
    color_grid_thick()
}

#[test]
fn tile_size_is_sixteen() {
    assert_eq!(TILE_SIZE, 16);
    assert_eq!(thin(), PixelRGBA::new(128, 128, 128, 255));
    assert_eq!(thick(), PixelRGBA::new(64, 64, 64, 255));
}

#[test]
fn ink_is_black_on_light_and_white_on_dark() {
    assert_eq!(symbol_ink(true), PixelRGBA::black());
    assert_eq!(symbol_ink(false), PixelRGBA::white());
}

#[test]
fn symbols_are_stamped_without_their_background() {
    let mut glyph = Bitmap::new_filled(3, 2, PixelRGBA::white());
    glyph.set(0, 0, PixelRGBA::black());
    glyph.set(2, 1, PixelRGBA::red());
    let mut image = Bitmap::new_filled(5, 4, PixelRGBA::blue());
    blit_symbol(&glyph, &mut image, Vec2i::new(1, 2), PixelRGBA::white(), false);
    for y in 0..4 {
        for x in 0..5 {
            let expected = if (x, y) == (1, 2) || (x, y) == (3, 3) {
                PixelRGBA::white()
            } else {
                PixelRGBA::blue()
            };
            assert_eq!(image.get(x, y), expected, "at {} {}", x, y);
        }
    }
    let mut light = Bitmap::new_filled(5, 4, PixelRGBA::yellow());
    blit_symbol(&glyph, &mut light, Vec2i::new(2, 0), PixelRGBA::white(), true);
    assert_eq!(light.get(2, 0), PixelRGBA::black());
    assert_eq!(light.get(4, 1), PixelRGBA::black());
    assert_eq!(light.get(3, 0), PixelRGBA::yellow());
}

#[test]
fn a_two_by_two_image_gives_a_grid_of_two_by_two_cells() {
    let image = two_by_two();
    let mapping = mapping_of(&image);
    for pattern_type in [
        PatternType::BlackAndWhite,
        PatternType::Colorized,
        PatternType::ColorizedNoSymbols,
        PatternType::PaintByNumbers,
    ] {
        let sheet = create_cross_stitch_pattern(
            &image,
            &mapping,
            0,
            0,
            pattern_type,
            false,
            false,
            PixelRGBA::white(),
        );
        assert_eq!((sheet.width, sheet.height), (32, 32));
        assert_eq!(sheet.data.len(), 32 * 32);
    }
}

#[test]
fn colorized_cells_have_their_color_and_a_symbol() {
    let image = two_by_two();
    let mapping = mapping_of(&image);
    let sheet = create_cross_stitch_pattern(
        &image,
        &mapping,
        5,
        5,
        PatternType::Colorized,
        false,
        false,
        PixelRGBA::white(),
    );
    // Sorted by hue: red, green, blue get the symbols with marks 0, 1, 2.
    for y in 0..32 {
        for x in 0..32 {
            let on_grid = x % 16 == 0 || y % 16 == 0 || x == 31 || y == 31;
            let (cx, cy) = (x / 16, y / 16);
            let (sx, sy) = (x % 16, y % 16);
            let expected = if on_grid {
                thin()
            } else {
                match (cx, cy) {
                    (0, 0) => if (sx, sy) == (5, 5) { PixelRGBA::black() } else { PixelRGBA::red() },
                    (1, 0) => if (sx, sy) == (5, 6) { PixelRGBA::black() } else { PixelRGBA::green() },
                    (0, 1) => if (sx, sy) == (5, 7) { PixelRGBA::black() } else { PixelRGBA::blue() },
                    _ => PixelRGBA::white(),
                }
            };
            assert_eq!(sheet.get(x, y), expected, "at {} {}", x, y);
        }
    }
}

#[test]
fn dark_fills_get_white_symbols() {
    let image = two_by_two();
    let mut mapping = mapping_of(&image);
    mapping.set_preview(2, false, Vec::new());
    let colorized = create_cross_stitch_pattern(
        &image,
        &mapping,
        5,
        5,
        PatternType::Colorized,
        false,
        false,
        PixelRGBA::white(),
    );
    assert_eq!(colorized.get(5, 16 + 7), PixelRGBA::white());
    assert_eq!(colorized.get(6, 16 + 7), PixelRGBA::blue());
    assert_eq!(colorized.get(5, 5), PixelRGBA::black());
    // Without colour the cell is white, and the symbol is black whatever the colour.
    let outline = create_cross_stitch_pattern(
        &image,
        &mapping,
        5,
        5,
        PatternType::BlackAndWhite,
        false,
        false,
        PixelRGBA::white(),
    );
    assert_eq!(outline.get(5, 16 + 7), PixelRGBA::black());
    assert_eq!(outline.get(6, 16 + 7), PixelRGBA::white());
}

#[test]
fn black_and_white_cells_are_white_with_symbols() {
    let image = two_by_two();
    let mapping = mapping_of(&image);
    let sheet = create_cross_stitch_pattern(
        &image,
        &mapping,
        5,
        5,
        PatternType::BlackAndWhite,
        false,
        false,
        PixelRGBA::white(),
    );
    assert_eq!(sheet.get(5, 5), PixelRGBA::black());
    assert_eq!(sheet.get(6, 5), PixelRGBA::white());
    assert_eq!(sheet.get(16 + 5, 6), PixelRGBA::black());
    assert_eq!(sheet.get(5, 16 + 7), PixelRGBA::black());
    // The transparent pixel is a white cell without a symbol.
    for y in 17..31 {
        for x in 17..31 {
            assert_eq!(sheet.get(x, y), PixelRGBA::white());
        }
    }
}

#[test]
fn colorized_without_symbols_has_fills_only() {
    let image = two_by_two();
    let mapping = mapping_of(&image);
    let sheet = create_cross_stitch_pattern(
        &image,
        &mapping,
        5,
        5,
        PatternType::ColorizedNoSymbols,
        false,
        false,
        PixelRGBA::white(),
    );
    for y in 1..16 {
        for x in 1..16 {
            assert_eq!(sheet.get(x, y), PixelRGBA::red());
            if x < 15 {
                assert_eq!(sheet.get(x + 16, y), PixelRGBA::green());
            }
        }
    }
    assert_eq!(sheet.get(20, 20), PixelRGBA::white());
}

#[test]
fn colorized_without_symbols_needs_no_entries() {
    let image = two_by_two();
    let empty = create_color_mappings_from_image(
        &Bitmap::new_filled(1, 1, PixelRGBA::transparent()),
        &Vec::new(),
        &Vec::new(),
    )
    .unwrap();
    let sheet = create_cross_stitch_pattern(
        &image,
        &empty,
        0,
        0,
        PatternType::ColorizedNoSymbols,
        false,
        false,
        PixelRGBA::white(),
    );
    assert_eq!(sheet.get(8, 8), PixelRGBA::red());
}

#[test]
fn paint_by_numbers_uses_the_alphanumeric_symbols() {
    let image = two_by_two();
    let mapping = mapping_of(&image);
    let sheet = create_cross_stitch_pattern(
        &image,
        &mapping,
        5,
        5,
        PatternType::PaintByNumbers,
        false,
        false,
        PixelRGBA::transparent(),
    );
    // The letters have their mark at column 9; the cells are white, the ink black.
    assert_eq!(sheet.get(9, 5), PixelRGBA::black());
    assert_eq!(sheet.get(5, 5), PixelRGBA::white());
    assert_eq!(sheet.get(16 + 9, 6), PixelRGBA::black());
    assert_eq!(sheet.get(9, 16 + 7), PixelRGBA::black());
    assert_eq!(sheet.get(16 + 9, 16 + 5), PixelRGBA::white());
}

#[test]
fn thick_lines_lie_on_multiples_of_ten() {
    let image = Bitmap::new_filled(12, 3, PixelRGBA::red());
    let mapping = mapping_of(&image);
    // Columns have the coordinates -2 .. 9, rows 8 .. 10.
    let sheet = create_cross_stitch_pattern(
        &image,
        &mapping,
        -2,
        8,
        PatternType::ColorizedNoSymbols,
        true,
        false,
        PixelRGBA::white(),
    );
    assert_eq!((sheet.width, sheet.height), (192, 48));
    for y in 0..48 {
        for x in 0..192 {
            let thick_column = (x / 16 == 2 && x % 16 < 2) || x >= 190;
            let thick_row = y / 16 == 2 && y % 16 < 2;
            let thin_line = x % 16 == 0 || y % 16 == 0 || x == 191 || y == 47;
            let expected = if thick_column || thick_row {
                thick()
            } else if thin_line {
                thin()
            } else {
                PixelRGBA::red()
            };
            assert_eq!(sheet.get(x, y), expected, "at {} {}", x, y);
        }
    }
}

#[test]
fn without_thick_grid_there_are_thin_lines_only() {
    let image = Bitmap::new_filled(3, 3, PixelRGBA::red());
    let mapping = mapping_of(&image);
    let sheet = create_cross_stitch_pattern(
        &image,
        &mapping,
        0,
        0,
        PatternType::ColorizedNoSymbols,
        false,
        false,
        PixelRGBA::white(),
    );
    assert_eq!(sheet.get(0, 0), thin());
    assert_eq!(sheet.get(1, 5), PixelRGBA::red());
    assert_eq!(sheet.get(47, 5), thin());
    assert_eq!(sheet.get(46, 5), PixelRGBA::red());
}

#[test]
fn origin_markers_are_four_pixels_with_two_white_inside() {
    let mut bitmap = Bitmap::new_filled(10, 3, PixelRGBA::red());
    draw_origin_line_vertical(&mut bitmap, 5);
    for y in 0..3 {
        let row: Vec<PixelRGBA> = (0..10).map(|x| bitmap.get(x, y)).collect();
        let r = PixelRGBA::red();
        let k = PixelRGBA::black();
        let w = PixelRGBA::white();
        assert_eq!(row, vec![r, r, r, k, w, w, k, r, r, r]);
    }
    let mut column = Bitmap::new_filled(2, 6, PixelRGBA::red());
    draw_origin_line_horizontal(&mut column, 1);
    let cells: Vec<PixelRGBA> = (0..6).map(|y| column.get(1, y)).collect();
    let r = PixelRGBA::red();
    let k = PixelRGBA::black();
    let w = PixelRGBA::white();
    assert_eq!(cells, vec![w, w, k, r, r, r]);
}

#[test]
fn an_origin_inside_the_image_is_marked_in_place() {
    let image = Bitmap::new_filled(4, 4, PixelRGBA::red());
    let mapping = mapping_of(&image);
    let sheet = create_cross_stitch_pattern(
        &image,
        &mapping,
        -1,
        -3,
        PatternType::ColorizedNoSymbols,
        false,
        true,
        PixelRGBA::white(),
    );
    assert_eq!((sheet.width, sheet.height), (64, 64));
    // The vertical marker lies round column 16, the horizontal one round row 48.
    assert_eq!(sheet.get(14, 5), PixelRGBA::black());
    assert_eq!(sheet.get(15, 5), PixelRGBA::white());
    assert_eq!(sheet.get(16, 5), PixelRGBA::white());
    assert_eq!(sheet.get(17, 5), PixelRGBA::black());
    assert_eq!(sheet.get(13, 5), PixelRGBA::red());
    assert_eq!(sheet.get(18, 5), PixelRGBA::red());
    assert_eq!(sheet.get(5, 46), PixelRGBA::black());
    assert_eq!(sheet.get(5, 47), PixelRGBA::white());
    assert_eq!(sheet.get(5, 48), PixelRGBA::white());
    assert_eq!(sheet.get(5, 49), PixelRGBA::black());
    // Where the two cross, the horizontal one was drawn last.
    assert_eq!(sheet.get(14, 47), PixelRGBA::white());
    assert_eq!(sheet.get(15, 46), PixelRGBA::black());
}

#[test]
fn an_origin_on_the_left_and_top_edge_widens_the_image() {
    let image = two_by_two();
    let mapping = mapping_of(&image);
    let sheet = create_cross_stitch_pattern(
        &image,
        &mapping,
        0,
        0,
        PatternType::Colorized,
        true,
        true,
        PixelRGBA::white(),
    );
    assert_eq!((sheet.width, sheet.height), (34, 34));
    // The horizontal marker at the top was drawn after the vertical one at the left.
    assert_eq!(sheet.get(0, 0), PixelRGBA::black());
    assert_eq!(sheet.get(0, 1), PixelRGBA::white());
    assert_eq!(sheet.get(0, 2), PixelRGBA::white());
    assert_eq!(sheet.get(0, 3), PixelRGBA::black());
    assert_eq!(sheet.get(0, 5), PixelRGBA::black());
    assert_eq!(sheet.get(1, 5), PixelRGBA::white());
    assert_eq!(sheet.get(2, 5), PixelRGBA::white());
    assert_eq!(sheet.get(3, 5), PixelRGBA::black());
    // What was at (2, 3) of the sheet is now at (4, 5): inside the red cell.
    assert_eq!(sheet.get(4, 5), PixelRGBA::red());
    // What was at (5, 5), the symbol of red, is now at (7, 7).
    assert_eq!(sheet.get(7, 7), PixelRGBA::black());
    assert_eq!(sheet.get(33, 33), thin());
}

#[test]
fn an_origin_on_the_right_and_bottom_edge_widens_the_image() {
    let image = two_by_two();
    let mapping = mapping_of(&image);
    let sheet = create_cross_stitch_pattern(
        &image,
        &mapping,
        -2,
        -2,
        PatternType::ColorizedNoSymbols,
        false,
        true,
        PixelRGBA::white(),
    );
    assert_eq!((sheet.width, sheet.height), (34, 34));
    let row: Vec<PixelRGBA> = (29..34).map(|x| sheet.get(x, 5)).collect();
    assert_eq!(
        row,
        vec![
            PixelRGBA::green(),
            PixelRGBA::black(),
            PixelRGBA::white(),
            PixelRGBA::white(),
            PixelRGBA::black()
        ]
    );
    let column: Vec<PixelRGBA> = (29..34).map(|y| sheet.get(5, y)).collect();
    assert_eq!(
        column,
        vec![
            PixelRGBA::blue(),
            PixelRGBA::black(),
            PixelRGBA::white(),
            PixelRGBA::white(),
            PixelRGBA::black()
        ]
    );
    assert_eq!(sheet.get(0, 0), thin());
}

#[test]
fn an_origin_outside_the_image_leaves_it_as_it_is() {
    let image = two_by_two();
    let mapping = mapping_of(&image);
    let with = create_cross_stitch_pattern(
        &image,
        &mapping,
        5,
        -7,
        PatternType::Colorized,
        true,
        true,
        PixelRGBA::white(),
    );
    let without = create_cross_stitch_pattern(
        &image,
        &mapping,
        5,
        -7,
        PatternType::Colorized,
        true,
        false,
        PixelRGBA::white(),
    );
    assert_eq!((with.width, with.height), (32, 32));
    assert_eq!(with.data, without.data);
}
