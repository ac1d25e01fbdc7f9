use pixie_stitch::bitmap::Bitmap;
use pixie_stitch::color::PixelRGBA;
use pixie_stitch::labels::GridLabel;
use pixie_stitch::legend::create_cross_stitch_legend;
use pixie_stitch::legend::create_legend_block;
use pixie_stitch::legend::create_legend_entry;
use pixie_stitch::legend::create_pattern_page_layout;
use pixie_stitch::legend::try_create_cross_stitch_legend;
use pixie_stitch::legend::try_create_pattern_page_layout;
use pixie_stitch::legend::legend_entry_texts;
use pixie_stitch::legend::legend_header_text;
use pixie_stitch::legend::needs_page_layout;
use pixie_stitch::legend::try_create_legend_sheet;
use pixie_stitch::quantize::Palette;
use pixie_stitch::mapping::create_color_mappings_from_image;
use pixie_stitch::mapping::ColorMapping;
use pixie_stitch::math::Vec2i;

const TEXT_COLOR: PixelRGBA = PixelRGBA { r: 10, g: 20, b: 30, a: 255 };
const STATS_COLOR: PixelRGBA = PixelRGBA { r: 40, g: 50, b: 60, a: 255 };
const LAYOUT_COLOR: PixelRGBA = PixelRGBA { r: 70, g: 80, b: 90, a: 255 };

fn symbol(mark: i32) -> Bitmap {
    let mut bitmap = Bitmap::new_filled(16, 16, PixelRGBA::white());
    bitmap.set(5, 5 + mark, PixelRGBA::black());
    bitmap
}

fn mapping_with(colors: usize) -> ColorMapping {
    let mut data = Vec::new();
    for i in 0..colors {
        data.push(PixelRGBA::new((i * 20) as u8, 0, 0, 255));
    }
    data.push(PixelRGBA::transparent());
    let image = Bitmap::new_from_buffer(colors as i32 + 1, 1, data).unwrap();
    let glyphs: Vec<Bitmap> = (0..colors as i32).map(|mark| symbol(mark % 10)).collect();
    create_color_mappings_from_image(&image, &glyphs, &glyphs).unwrap()
}

fn texts(count: usize) -> Vec<Bitmap> {
    (0..count).map(|_| Bitmap::new_filled(40, 10, TEXT_COLOR)).collect()
}

#[test]
fn an_entry_is_swatch_symbol_and_text() {
    let mapping = mapping_with(3);
    let info = mapping.get_index(2);
    let text = Bitmap::new_filled(40, 10, TEXT_COLOR);
    let entry = create_legend_entry(info, &text);
    assert_eq!((entry.width, entry.height), (72, 16));
    for y in 0..16 {
        for x in 0..72 {
            let expected = if x < 16 {
                if x == 0 || x == 15 || y == 0 || y == 15 {
                    PixelRGBA::black()
                } else {
                    info.color
                }
            } else if x < 32 {
                if x == 16 || x == 31 || y == 0 || y == 15 || (x, y) == (16 + 5, 5 + 2) {
                    PixelRGBA::black()
                } else {
                    PixelRGBA::white()
                }
            } else if (3..13).contains(&y) {
                TEXT_COLOR
            } else {
                PixelRGBA::white()
            };
            assert_eq!(entry.get(x, y), expected, "at {} {}", x, y);
        }
    }
}

#[test]
fn a_block_stacks_its_entries() {
    let mapping = mapping_with(3);
    let rendered = texts(3);
    let block = create_legend_block(mapping.entries(), &rendered);
    assert_eq!((block.width, block.height), (72, 3 * 16 + 2 * 16));
    for (i, info) in mapping.entries().iter().enumerate() {
        let top = 32 * i as i32;
        assert_eq!(block.get(1, top + 1), info.color);
        assert_eq!(block.get(0, top), PixelRGBA::black());
        assert_eq!(block.get(16 + 5, top + 5 + i as i32), PixelRGBA::black());
        assert_eq!(block.get(40, top + 3), TEXT_COLOR);
        if i < 2 {
            for x in 0..72 {
                assert_eq!(block.get(x, top + 16), PixelRGBA::white());
                assert_eq!(block.get(x, top + 31), PixelRGBA::white());
            }
        }
    }
    let none = create_legend_block(&[], &[]);
    assert_eq!((none.width, none.height), (0, 0));
}

#[test]
fn a_legend_of_three_colors_lists_three_entries() {
    let mapping = mapping_with(3);
    assert_eq!(mapping.len(), 3);
    assert_eq!(mapping.total_count(), Some(3));
    let stats = Bitmap::new_filled(50, 20, STATS_COLOR);
    let legend = create_cross_stitch_legend(mapping.entries(), &texts(3), &stats, None);
    // One block of 72 by 80; a margin of 24 below; the statistics above; 16 all round.
    assert_eq!((legend.width, legend.height), (72 + 32, 20 + 80 + 24 + 32));
    assert_eq!(legend.get(0, 0), PixelRGBA::white());
    assert_eq!(legend.get(16, 16), STATS_COLOR);
    assert_eq!(legend.get(16 + 49, 16 + 19), STATS_COLOR);
    assert_eq!(legend.get(16 + 50, 16), PixelRGBA::white());
    let mut swatches = 0;
    for (i, info) in mapping.entries().iter().enumerate() {
        let top = 16 + 20 + 32 * i as i32;
        assert_eq!(legend.get(16, top), PixelRGBA::black());
        assert_eq!(legend.get(17, top + 1), info.color);
        assert_eq!(legend.get(16 + 16 + 5, top + 5 + i as i32), PixelRGBA::black());
        assert_eq!(legend.get(16 + 32, top + 3), TEXT_COLOR);
        swatches += 1;
    }
    assert_eq!(swatches, 3);
    let text_pixels = legend.data.iter().filter(|pixel| **pixel == TEXT_COLOR).count();
    assert_eq!(text_pixels, 3 * 40 * 10);
    for x in 0..legend.width {
        for y in (16 + 20 + 80)..legend.height {
            assert_eq!(legend.get(x, y), PixelRGBA::white());
        }
    }
}

#[test]
fn blocks_of_five_stand_side_by_side() {
    let mapping = mapping_with(6);
    let stats = Bitmap::new_filled(50, 20, STATS_COLOR);
    let legend = create_cross_stitch_legend(mapping.entries(), &texts(6), &stats, None);
    // The first block has five entries, the second one; they are 16 pixels apart.
    let block_height = 5 * 16 + 4 * 16;
    assert_eq!((legend.width, legend.height), (72 + 16 + 72 + 32, 20 + block_height + 24 + 32));
    let entries = mapping.entries();
    for i in 0..5 {
        assert_eq!(legend.get(17, 16 + 20 + 32 * i as i32 + 1), entries[i].color);
    }
    assert_eq!(legend.get(16 + 88 + 1, 16 + 20 + 1), entries[5].color);
    assert_eq!(legend.get(16 + 88 + 1, 16 + 20 + 33), PixelRGBA::white());
    assert_eq!(legend.get(16 + 72 + 8, 16 + 20 + 1), PixelRGBA::white());
}

#[test]
fn a_legend_without_colors_has_statistics_only() {
    let mapping = mapping_with(0);
    let stats = Bitmap::new_filled(50, 20, STATS_COLOR);
    let legend = create_cross_stitch_legend(mapping.entries(), &[], &stats, None);
    assert_eq!((legend.width, legend.height), (50 + 32, 20 + 24 + 32));
    assert_eq!(legend.get(16, 16), STATS_COLOR);
}

#[test]
fn the_page_layout_follows_under_a_rule() {
    let mapping = mapping_with(3);
    let stats = Bitmap::new_filled(50, 20, STATS_COLOR);
    let layout = Bitmap::new_filled(90, 30, LAYOUT_COLOR);
    let legend = create_cross_stitch_legend(mapping.entries(), &texts(3), &stats, Some(&layout));
    let body_height = 20 + 80 + 24;
    assert_eq!((legend.width, legend.height), (90 + 32, body_height + 30 + 32));
    let rule = 16 + body_height;
    for x in 16..(16 + 90) {
        assert_eq!(legend.get(x, rule), PixelRGBA::black());
        assert_eq!(legend.get(x, rule + 1), LAYOUT_COLOR);
        assert_eq!(legend.get(x, rule + 29), LAYOUT_COLOR);
    }
    assert_eq!(legend.get(15, rule), PixelRGBA::white());
    assert_eq!(legend.get(16 + 90, rule), PixelRGBA::white());
    assert_eq!(legend.get(16, 16), STATS_COLOR);
    assert_eq!(legend.get(16 + 75, 16 + 25), PixelRGBA::white());
}

#[test]
fn the_page_layout_has_one_box_for_each_page() {
    let indices = vec![Vec2i::new(0, 0), Vec2i::new(1, 0), Vec2i::new(0, 1), Vec2i::new(1, 1)];
    let (image, labels) = create_pattern_page_layout(9, &indices);
    // A box is 10 wide and 1 + 15 high.
    assert_eq!((image.width, image.height), (20, 32));
    for y in 0..32 {
        for x in 0..20 {
            let (bx, by) = (x % 10, y % 16);
            let outline = bx < 9 && by < 15 && (bx == 0 || bx == 8 || by == 0 || by == 14);
            let expected = if outline { PixelRGBA::black() } else { PixelRGBA::white() };
            assert_eq!(image.get(x, y), expected, "at {} {}", x, y);
        }
    }
    assert_eq!(
        labels,
        vec![
            GridLabel { value: 1, position: Vec2i::new(5, 8) },
            GridLabel { value: 2, position: Vec2i::new(15, 8) },
            GridLabel { value: 3, position: Vec2i::new(5, 24) },
            GridLabel { value: 4, position: Vec2i::new(15, 24) },
        ]
    );
}

#[test]
fn the_page_layout_spans_the_largest_column_and_row() {
    let indices = vec![Vec2i::new(2, 0), Vec2i::new(0, 3)];
    let (image, labels) = create_pattern_page_layout(3, &indices);
    // A box is 4 wide and 1 + 6 high.
    assert_eq!((image.width, image.height), (12, 28));
    assert_eq!(image.get(8, 0), PixelRGBA::black());
    assert_eq!(image.get(0, 0), PixelRGBA::white());
    assert_eq!(image.get(0, 21), PixelRGBA::black());
    assert_eq!(labels[0], GridLabel { value: 1, position: Vec2i::new(10, 3) });
    assert_eq!(labels[1], GridLabel { value: 2, position: Vec2i::new(2, 24) });
}

#[test]
fn a_legend_that_fits_is_made() {
    let mapping = mapping_with(6);
    let stats = Bitmap::new_filled(50, 20, STATS_COLOR);
    let layout = Bitmap::new_filled(90, 30, LAYOUT_COLOR);
    let rendered = texts(6);
    let expected = create_cross_stitch_legend(mapping.entries(), &rendered, &stats, Some(&layout));
    let legend = try_create_cross_stitch_legend(mapping.entries(), &rendered, &stats, Some(&layout)).unwrap();
    assert_eq!((legend.width, legend.height), (expected.width, expected.height));
    assert_eq!(legend.data, expected.data);
    let none = try_create_cross_stitch_legend(mapping.entries(), &rendered, &stats, None).unwrap();
    assert_eq!(none.height, expected.height - 30);
}

#[test]
fn a_legend_that_may_be_too_large_is_refused() {
    let mapping = mapping_with(1);
    // The statistics alone leave no room for the outer margin.
    let wide = Bitmap::new_filled(i32::MAX - 20, 0, STATS_COLOR);
    assert!(try_create_cross_stitch_legend(mapping.entries(), &texts(1), &wide, None).is_none());
    let high = Bitmap::new_filled(0, i32::MAX - 100, STATS_COLOR);
    assert!(try_create_cross_stitch_legend(mapping.entries(), &texts(1), &high, None).is_none());
}

#[test]
fn a_page_layout_that_cannot_be_drawn_is_refused() {
    let indices = vec![Vec2i::new(0, 0), Vec2i::new(1, 0)];
    let (image, labels) = try_create_pattern_page_layout(9, &indices).unwrap();
    let (expected_image, expected_labels) = create_pattern_page_layout(9, &indices);
    assert_eq!(image.data, expected_image.data);
    assert_eq!(labels, expected_labels);
    assert!(try_create_pattern_page_layout(-1, &indices).is_none());
    assert!(try_create_pattern_page_layout(9, &[Vec2i::new(0, -1)]).is_none());
    assert!(try_create_pattern_page_layout(9, &[Vec2i::new(-3, 0)]).is_none());
    assert!(try_create_pattern_page_layout(i32::MAX, &indices).is_none());
    assert!(try_create_pattern_page_layout(9, &[Vec2i::new(i32::MAX, 0)]).is_none());
    let (empty, no_labels) = try_create_pattern_page_layout(9, &[]).unwrap();
    assert_eq!((empty.width, empty.height), (10, 16));
    assert!(no_labels.is_empty());
}

fn place_of_entry(index: usize) -> (i32, i32) {
    let block = (index / 5) as i32;
    let row = block / 4;
    let column = block % 4;
    (16 + column * (72 + 16), 16 + 20 + row * (144 + 16) + (index % 5) as i32 * 32)
}

#[test]
fn a_row_holds_at_most_four_blocks() {
    // 21 colours make five blocks: four in the first row, one in the second.
    let mapping = mapping_with(21);
    assert_eq!(mapping.len(), 21);
    let stats = Bitmap::new_filled(50, 20, STATS_COLOR);
    let legend = create_cross_stitch_legend(mapping.entries(), &texts(21), &stats, None);
    let row_width = 4 * 72 + 3 * 16;
    let rows_height = 144 + 16 + 16;
    assert_eq!((legend.width, legend.height), (row_width + 32, 20 + rows_height + 24 + 32));
    for (index, info) in mapping.entries().iter().enumerate() {
        let (left, top) = place_of_entry(index);
        assert_eq!(legend.get(left, top), PixelRGBA::black(), "entry {}", index);
        assert_eq!(legend.get(left + 1, top + 1), info.color, "entry {}", index);
        assert_eq!(legend.get(left + 32, top + 3), TEXT_COLOR, "entry {}", index);
    }
    // The last entry stands alone at the start of the second row.
    assert_eq!(place_of_entry(20), (16, 16 + 20 + 160));
    // Right of it the second row is empty.
    for x in (16 + 72)..legend.width {
        for y in (16 + 20 + 160)..legend.height {
            assert_eq!(legend.get(x, y), PixelRGBA::white());
        }
    }
    let text_pixels = legend.data.iter().filter(|pixel| **pixel == TEXT_COLOR).count();
    assert_eq!(text_pixels, 21 * 40 * 10);
}

#[test]
fn twenty_colors_fill_one_row_and_forty_one_need_three() {
    let stats = Bitmap::new_filled(50, 20, STATS_COLOR);
    let twenty = create_cross_stitch_legend(mapping_with(20).entries(), &texts(20), &stats, None);
    assert_eq!((twenty.width, twenty.height), (4 * 72 + 3 * 16 + 32, 20 + 144 + 24 + 32));
    let mapping = mapping_with(41);
    let many = try_create_cross_stitch_legend(mapping.entries(), &texts(41), &stats, None).unwrap();
    let rows_height = 144 + 16 + 144 + 16 + 16;
    assert_eq!((many.width, many.height), (4 * 72 + 3 * 16 + 32, 20 + rows_height + 24 + 32));
    for (index, info) in mapping.entries().iter().enumerate() {
        let (left, top) = place_of_entry(index);
        assert_eq!(many.get(left + 1, top + 1), info.color, "entry {}", index);
    }
}

#[test]
fn the_header_shows_size_colors_and_stitches_of_the_mapping() {
    let mapping = mapping_with(3);
    assert_eq!(
        legend_header_text(Vec2i::new(4, 1), &mapping),
        Some("Size:     4x1\n\nColors:   3\n\nStitches: 3\n\n\n".to_string())
    );
    let image = Bitmap::new_from_buffer(
        3,
        2,
        vec![
            PixelRGBA::red(),
            PixelRGBA::blue(),
            PixelRGBA::red(),
            PixelRGBA::transparent(),
            PixelRGBA::red(),
            PixelRGBA::blue(),
        ],
    )
    .unwrap();
    let glyphs: Vec<Bitmap> = (0..2).map(symbol).collect();
    let mapping = create_color_mappings_from_image(&image, &glyphs, &glyphs).unwrap();
    assert_eq!(
        legend_header_text(Vec2i::new(3, 2), &mapping),
        Some("Size:     3x2\n\nColors:   2\n\nStitches: 5\n\n\n".to_string())
    );
    let mut palette = Palette::new();
    palette.insert(PixelRGBA::blue(), "797".to_string());
    palette.insert(PixelRGBA::red(), "666".to_string());
    assert_eq!(
        legend_entry_texts(&mapping, &palette),
        vec![" 3 stitches DMC 666".to_string(), " 2 stitches DMC 797".to_string()]
    );
    let other = Palette::new();
    assert_eq!(
        legend_entry_texts(&mapping, &other),
        vec![" 3 stitches DMC ".to_string(), " 2 stitches DMC ".to_string()]
    );
}

#[test]
fn the_page_layout_is_owed_for_more_than_one_segment() {
    assert!(!needs_page_layout(&[]));
    assert!(!needs_page_layout(&[Vec2i::new(0, 0)]));
    assert!(needs_page_layout(&[Vec2i::new(0, 0), Vec2i::new(1, 0)]));
    let mapping = mapping_with(3);
    let stats = Bitmap::new_filled(50, 20, STATS_COLOR);
    let layout = Bitmap::new_filled(90, 30, LAYOUT_COLOR);
    let rendered = texts(3);
    let one = [Vec2i::new(0, 0)];
    let two = [Vec2i::new(0, 0), Vec2i::new(1, 0)];
    let without = create_cross_stitch_legend(mapping.entries(), &rendered, &stats, None);
    let with = create_cross_stitch_legend(mapping.entries(), &rendered, &stats, Some(&layout));
    // One segment: no layout, whether one is given or not.
    let legend = try_create_legend_sheet(mapping.entries(), &rendered, &stats, &one, None).unwrap();
    assert_eq!(legend.data, without.data);
    let legend = try_create_legend_sheet(mapping.entries(), &rendered, &stats, &one, Some(&layout)).unwrap();
    assert_eq!(legend.data, without.data);
    // Two segments: the layout under its rule; without one there is no legend.
    let legend = try_create_legend_sheet(mapping.entries(), &rendered, &stats, &two, Some(&layout)).unwrap();
    assert_eq!((legend.width, legend.height), (with.width, with.height));
    assert_eq!(legend.data, with.data);
    assert!(try_create_legend_sheet(mapping.entries(), &rendered, &stats, &two, None).is_none());
}

#[test]
fn a_symbol_larger_than_a_cell_is_not_drawn_into_a_legend() {
    let image = Bitmap::new_from_buffer(1, 1, vec![PixelRGBA::red()]).unwrap();
    let large = vec![Bitmap::new_filled(17, 16, PixelRGBA::black())];
    let small = vec![symbol(0)];
    // The mapping is made all the same.
    let mapping = create_color_mappings_from_image(&image, &large, &small).unwrap();
    assert_eq!(mapping.get_index(0).symbol.width, 17);
    let stats = Bitmap::new_filled(50, 20, STATS_COLOR);
    assert!(try_create_cross_stitch_legend(mapping.entries(), &texts(1), &stats, None).is_none());
    let mapping = create_color_mappings_from_image(&image, &small, &large).unwrap();
    assert!(try_create_cross_stitch_legend(mapping.entries(), &texts(1), &stats, None).is_some());
}
