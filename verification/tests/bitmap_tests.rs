use pixie_stitch::bitmap::Bitmap;
use pixie_stitch::bitmap::GluePosition;
use pixie_stitch::color::PixelRGBA;

fn numbered(width: i32, height: i32) -> Bitmap {
    let mut data = Vec::new();
    for y in 0..height {
        for x in 0..width {
            data.push(PixelRGBA::new(x as u8, y as u8, (x + 10 * y) as u8, 255));
        }
    }
    Bitmap::new_from_buffer(width, height, data).unwrap()
}

#[test]
fn new_bitmaps_are_filled() {
    let grey = PixelRGBA::greyscale(9);
    let bitmap = Bitmap::new_filled(3, 2, grey);
    assert_eq!(bitmap.width, 3);
    assert_eq!(bitmap.height, 2);
    assert_eq!(bitmap.data, vec![grey; 6]);
    let clear = Bitmap::new(2, 2);
    assert_eq!(clear.data, vec![PixelRGBA::transparent(); 4]);
    let empty = Bitmap::new_empty();
    assert_eq!((empty.width, empty.height, empty.data.len()), (0, 0, 0));
}

#[test]
fn buffers_must_match_their_size() {
    assert!(Bitmap::new_from_buffer(2, 2, vec![PixelRGBA::black(); 3]).is_none());
    assert!(Bitmap::new_from_buffer(-1, 2, vec![]).is_none());
    assert!(Bitmap::new_from_buffer(2, -2, vec![PixelRGBA::black(); 4]).is_none());
    assert!(Bitmap::new_from_buffer(0, 5, vec![]).is_some());
    let bitmap = Bitmap::new_from_buffer(2, 3, vec![PixelRGBA::black(); 6]).unwrap();
    assert_eq!((bitmap.width, bitmap.height), (2, 3));
}

#[test]
fn pixels_are_stored_row_by_row() {
    let bitmap = numbered(4, 3);
    assert_eq!(bitmap.get(0, 0), PixelRGBA::new(0, 0, 0, 255));
    assert_eq!(bitmap.get(3, 0), PixelRGBA::new(3, 0, 3, 255));
    assert_eq!(bitmap.get(1, 2), PixelRGBA::new(1, 2, 21, 255));
    assert_eq!(bitmap.data[2 * 4 + 1], bitmap.get(1, 2));
}

#[test]
fn set_changes_one_pixel() {
    let mut bitmap = numbered(4, 3);
    let before = bitmap.copy();
    bitmap.set(2, 1, PixelRGBA::red());
    for y in 0..3 {
        for x in 0..4 {
            if (x, y) == (2, 1) {
                assert_eq!(bitmap.get(x, y), PixelRGBA::red());
            } else {
                assert_eq!(bitmap.get(x, y), before.get(x, y));
            }
        }
    }
}

#[test]
fn filled_rectangles_cover_their_pixels_only() {
    let mut bitmap = numbered(6, 5);
    let before = bitmap.copy();
    bitmap.draw_rect_filled(1, 2, 3, 2, PixelRGBA::blue());
    for y in 0..5 {
        for x in 0..6 {
            if (1..4).contains(&x) && (2..4).contains(&y) {
                assert_eq!(bitmap.get(x, y), PixelRGBA::blue());
            } else {
                assert_eq!(bitmap.get(x, y), before.get(x, y));
            }
        }
    }
}

#[test]
fn safe_rectangles_are_clipped() {
    let mut bitmap = numbered(4, 4);
    let before = bitmap.copy();
    bitmap.draw_rect_filled_safely(-2, 3, 4, 10, PixelRGBA::green());
    for y in 0..4 {
        for x in 0..4 {
            if x < 2 && y == 3 {
                assert_eq!(bitmap.get(x, y), PixelRGBA::green());
            } else {
                assert_eq!(bitmap.get(x, y), before.get(x, y));
            }
        }
    }
    bitmap.draw_rect_filled_safely(10, 10, 5, 5, PixelRGBA::red());
    bitmap.draw_rect_filled_safely(1, 1, -3, 2, PixelRGBA::red());
    bitmap.draw_rect_filled_safely(i32::MAX, i32::MAX, i32::MAX, i32::MAX, PixelRGBA::red());
    assert_eq!(bitmap.get(1, 1), before.get(1, 1));
}

#[test]
fn outlines_are_one_pixel_wide() {
    let mut bitmap = Bitmap::new_filled(6, 6, PixelRGBA::white());
    bitmap.draw_rect(1, 1, 4, 3, PixelRGBA::black());
    for y in 0..6 {
        for x in 0..6 {
            let inside = (1..5).contains(&x) && (1..4).contains(&y);
            let on_edge = inside && (x == 1 || x == 4 || y == 1 || y == 3);
            let expected = if on_edge { PixelRGBA::black() } else { PixelRGBA::white() };
            assert_eq!(bitmap.get(x, y), expected, "at {} {}", x, y);
        }
    }
}

#[test]
fn blit_copies_and_clips() {
    let source = numbered(3, 3);
    let mut dest = Bitmap::new_filled(4, 4, PixelRGBA::white());
    source.blit_to(&mut dest, 2, -1);
    for y in 0..4 {
        for x in 0..4 {
            let sx = x - 2;
            let sy = y + 1;
            if (0..3).contains(&sx) && (0..3).contains(&sy) {
                assert_eq!(dest.get(x, y), source.get(sx, sy));
            } else {
                assert_eq!(dest.get(x, y), PixelRGBA::white());
            }
        }
    }
    let mut untouched = Bitmap::new_filled(2, 2, PixelRGBA::white());
    source.blit_to(&mut untouched, 5, 5);
    assert_eq!(untouched.data, vec![PixelRGBA::white(); 4]);
}

#[test]
fn cropping_takes_a_window() {
    let source = numbered(5, 4);
    let window = source.cropped(1, 2, 3, 2);
    assert_eq!((window.width, window.height), (3, 2));
    for y in 0..2 {
        for x in 0..3 {
            assert_eq!(window.get(x, y), source.get(x + 1, y + 2));
        }
    }
}

#[test]
fn extending_adds_margins() {
    let source = numbered(2, 2);
    let wide = source.extended(1, 2, 3, 4, PixelRGBA::white());
    assert_eq!((wide.width, wide.height), (6, 8));
    for y in 0..8 {
        for x in 0..6 {
            if (1..3).contains(&x) && (2..4).contains(&y) {
                assert_eq!(wide.get(x, y), source.get(x - 1, y - 2));
            } else {
                assert_eq!(wide.get(x, y), PixelRGBA::white());
            }
        }
    }
    let mut in_place = numbered(2, 2);
    in_place.extend(1, 2, 3, 4, PixelRGBA::white());
    assert_eq!(in_place.data, wide.data);
}

#[test]
fn gluing_on_top_centers_the_narrower() {
    let banner = Bitmap::new_filled(2, 1, PixelRGBA::red());
    let body = Bitmap::new_filled(6, 2, PixelRGBA::blue());
    let glued = banner.glued_to(&body, GluePosition::TopCenter, 1, PixelRGBA::white());
    assert_eq!((glued.width, glued.height), (6, 4));
    for y in 0..4 {
        for x in 0..6 {
            let expected = if y == 0 && (2..4).contains(&x) {
                PixelRGBA::red()
            } else if y >= 2 {
                PixelRGBA::blue()
            } else {
                PixelRGBA::white()
            };
            assert_eq!(glued.get(x, y), expected, "at {} {}", x, y);
        }
    }
}

#[test]
fn gluing_to_the_right_centers_vertically() {
    let text = Bitmap::new_filled(3, 2, PixelRGBA::red());
    let swatch = Bitmap::new_filled(2, 6, PixelRGBA::blue());
    let glued = text.glued_to(&swatch, GluePosition::RightCenter, 0, PixelRGBA::white());
    assert_eq!((glued.width, glued.height), (5, 6));
    for y in 0..6 {
        for x in 0..5 {
            let expected = if x < 2 {
                PixelRGBA::blue()
            } else if (2..4).contains(&y) {
                PixelRGBA::red()
            } else {
                PixelRGBA::white()
            };
            assert_eq!(glued.get(x, y), expected, "at {} {}", x, y);
        }
    }
}

#[test]
fn gluing_at_the_ends_aligns_to_the_far_side() {
    let small = Bitmap::new_filled(1, 1, PixelRGBA::red());
    let large = Bitmap::new_filled(3, 3, PixelRGBA::blue());
    let below = small.glued_to(&large, GluePosition::BottomRight, 0, PixelRGBA::white());
    assert_eq!((below.width, below.height), (3, 4));
    assert_eq!(below.get(2, 3), PixelRGBA::red());
    assert_eq!(below.get(0, 3), PixelRGBA::white());
    assert_eq!(below.get(1, 1), PixelRGBA::blue());
    let left = small.glued_to(&large, GluePosition::LeftBottom, 2, PixelRGBA::white());
    assert_eq!((left.width, left.height), (6, 3));
    assert_eq!(left.get(0, 2), PixelRGBA::red());
    assert_eq!(left.get(0, 0), PixelRGBA::white());
    assert_eq!(left.get(1, 2), PixelRGBA::white());
    assert_eq!(left.get(3, 0), PixelRGBA::blue());
    let same = Bitmap::glue_a_to_b(&small, &large, GluePosition::LeftBottom, 2, PixelRGBA::white());
    assert_eq!(same.data, left.data);
}

#[test]
fn gluing_many_stacks_them_in_order() {
    let parts = vec![
        Bitmap::new_filled(2, 1, PixelRGBA::red()),
        Bitmap::new_filled(3, 2, PixelRGBA::green()),
        Bitmap::new_filled(1, 1, PixelRGBA::blue()),
    ];
    let column = Bitmap::glue_together_multiple(&parts, GluePosition::BottomLeft, 1, PixelRGBA::white());
    assert_eq!((column.width, column.height), (3, 6));
    assert_eq!(column.get(0, 0), PixelRGBA::red());
    assert_eq!(column.get(2, 0), PixelRGBA::white());
    assert_eq!(column.get(0, 1), PixelRGBA::white());
    assert_eq!(column.get(2, 2), PixelRGBA::green());
    assert_eq!(column.get(2, 3), PixelRGBA::green());
    assert_eq!(column.get(0, 4), PixelRGBA::white());
    assert_eq!(column.get(0, 5), PixelRGBA::blue());
    assert_eq!(column.get(1, 5), PixelRGBA::white());
    let row = Bitmap::glue_together_multiple(&parts, GluePosition::RightTop, 2, PixelRGBA::white());
    assert_eq!((row.width, row.height), (10, 2));
    assert_eq!(row.get(0, 0), PixelRGBA::red());
    assert_eq!(row.get(0, 1), PixelRGBA::white());
    assert_eq!(row.get(4, 1), PixelRGBA::green());
    assert_eq!(row.get(9, 0), PixelRGBA::blue());
    assert_eq!(row.get(9, 1), PixelRGBA::white());
    let none = Bitmap::glue_together_multiple(&[], GluePosition::RightTop, 2, PixelRGBA::white());
    assert_eq!((none.width, none.height), (0, 0));
    let one = Bitmap::glue_together_multiple(&parts[1..2], GluePosition::RightTop, 2, PixelRGBA::white());
    assert_eq!(one.data, parts[1].data);
}
