use pixie_stitch::bitmap::Bitmap;
use pixie_stitch::color::PixelRGBA;
use pixie_stitch::labels::grid_label_cells;
use pixie_stitch::labels::labels_first_block;
use pixie_stitch::labels::labels_last_block;
use pixie_stitch::labels::place_grid_labels_in_pattern;
use pixie_stitch::labels::try_place_grid_labels_in_pattern;
use pixie_stitch::labels::GridLabel;
use pixie_stitch::math::Vec2i;

#[test]
fn three_cells_before_the_first_ten_get_no_label() {
    // From 7 three cells lie before 10.
    assert!(!labels_first_block(7));
    assert_eq!(grid_label_cells(7, 5), vec![3]);
}

#[test]
fn four_cells_before_the_first_ten_get_a_label() {
    // From 6 four cells lie before 10.
    assert!(labels_first_block(6));
    assert_eq!(grid_label_cells(6, 5), vec![4, 0]);
}

#[test]
fn first_block_rule_for_every_start() {
    for first in -30..30 {
        let before_ten = ((10 - first % 10) % 10 + 10) % 10;
        assert_eq!(labels_first_block(first), before_ten > 3, "first {}", first);
    }
    assert!(!labels_first_block(0));
    assert!(!labels_first_block(-3));
    assert!(labels_first_block(-4));
    assert!(labels_first_block(-9));
    assert!(!labels_first_block(-10));
}

#[test]
fn last_block_rule() {
    assert!(!labels_last_block(10));
    assert!(!labels_last_block(13));
    assert!(labels_last_block(14));
    assert!(labels_last_block(19));
    assert!(!labels_last_block(-10));
    assert!(!labels_last_block(-7));
    assert!(labels_last_block(-6));
    assert!(labels_last_block(-1));
}

#[test]
fn every_multiple_of_ten_is_labelled() {
    assert_eq!(grid_label_cells(0, 25), vec![0, 10, 20, 25]);
    assert_eq!(grid_label_cells(0, 20), vec![0, 10, 20]);
    assert_eq!(grid_label_cells(-15, 30), vec![5, 15, 25, 0, 30]);
    assert_eq!(grid_label_cells(-65, 60), vec![5, 15, 25, 35, 45, 55, 0, 60]);
    assert_eq!(grid_label_cells(3, 0), vec![0]);
    assert_eq!(grid_label_cells(4, 0), vec![0, 0]);
    assert_eq!(grid_label_cells(1, 2), vec![0]);
}

#[test]
fn labels_stand_in_the_middle_of_the_margins() {
    let sheet = Bitmap::new_filled(32, 32, PixelRGBA::red());
    let (padded, labels) = place_grid_labels_in_pattern(&sheet, 16, 6, 0, 0);
    // The longest coordinate has one character: the margin is 6 * (1 + 4).
    assert_eq!((padded.width, padded.height), (92, 92));
    assert_eq!(padded.get(0, 0), PixelRGBA::white());
    assert_eq!(padded.get(29, 30), PixelRGBA::white());
    assert_eq!(padded.get(30, 30), PixelRGBA::red());
    assert_eq!(padded.get(61, 61), PixelRGBA::red());
    assert_eq!(padded.get(62, 61), PixelRGBA::white());
    assert_eq!(
        labels,
        vec![
            GridLabel { value: 0, position: Vec2i::new(30, 15) },
            GridLabel { value: 0, position: Vec2i::new(30, 77) },
            GridLabel { value: 0, position: Vec2i::new(15, 30) },
            GridLabel { value: 0, position: Vec2i::new(77, 30) },
        ]
    );
}

#[test]
fn vertical_labels_show_the_negated_coordinate() {
    // 12 columns from -5, 3 rows from 8: coordinates -5, 8, 7 and 11 have at most two characters.
    let sheet = Bitmap::new_filled(12 * 16, 3 * 16, PixelRGBA::red());
    let (padded, labels) = place_grid_labels_in_pattern(&sheet, 16, 5, -5, 8);
    let margin = 5 * (2 + 4);
    assert_eq!((padded.width, padded.height), (192 + 2 * margin, 48 + 2 * margin));
    let half = margin / 2;
    let bottom = padded.height - half;
    let right = padded.width - half;
    assert_eq!(
        labels,
        vec![
            // x: 0 at cell 5; the first block has five cells, the last block seven.
            GridLabel { value: 0, position: Vec2i::new(margin + 80, half) },
            GridLabel { value: 0, position: Vec2i::new(margin + 80, bottom) },
            GridLabel { value: -5, position: Vec2i::new(margin, half) },
            GridLabel { value: -5, position: Vec2i::new(margin, bottom) },
            GridLabel { value: 7, position: Vec2i::new(margin + 192, half) },
            GridLabel { value: 7, position: Vec2i::new(margin + 192, bottom) },
            // y: 10 at cell 2; the first block has two cells, the last block one.
            GridLabel { value: -10, position: Vec2i::new(half, margin + 32) },
            GridLabel { value: -10, position: Vec2i::new(right, margin + 32) },
        ]
    );
}

#[test]
fn margin_grows_with_the_longest_coordinate() {
    let sheet = Bitmap::new_filled(16, 16, PixelRGBA::red());
    let (padded, _) = place_grid_labels_in_pattern(&sheet, 16, 3, -1000, 0);
    // "-1000" has five characters.
    assert_eq!(padded.width, 16 + 2 * 3 * 9);
    let (padded, _) = place_grid_labels_in_pattern(&sheet, 16, 0, -1000, 0);
    assert_eq!(padded.width, 16);
}

#[test]
fn thirteen_cells_from_seven_are_labelled_at_ten_and_twenty_only() {
    assert_eq!(grid_label_cells(7, 13), vec![3, 13]);
    let sheet = Bitmap::new_filled(16 * 13, 16, PixelRGBA::red());
    let (padded, labels) = place_grid_labels_in_pattern(&sheet, 16, 6, 7, 0);
    // The longest coordinate, 20, has two characters.
    let margin = 6 * (2 + 4);
    let bottom = padded.height - margin / 2;
    let along_x: Vec<GridLabel> = labels.iter().copied().filter(|label| label.position.y == margin / 2 || label.position.y == bottom).collect();
    assert_eq!(
        along_x,
        vec![
            GridLabel { value: 10, position: Vec2i::new(margin + 16 * 3, margin / 2) },
            GridLabel { value: 10, position: Vec2i::new(margin + 16 * 3, bottom) },
            GridLabel { value: 20, position: Vec2i::new(margin + 16 * 13, margin / 2) },
            GridLabel { value: 20, position: Vec2i::new(margin + 16 * 13, bottom) },
        ]
    );
}

#[test]
fn fourteen_cells_from_six_are_labelled_at_ten_twenty_and_six() {
    assert_eq!(grid_label_cells(6, 14), vec![4, 14, 0]);
    let sheet = Bitmap::new_filled(16 * 14, 16, PixelRGBA::red());
    let (padded, labels) = try_place_grid_labels_in_pattern(&sheet, 16, 6, 6, 0).unwrap();
    let margin = 6 * (2 + 4);
    let bottom = padded.height - margin / 2;
    let along_x: Vec<GridLabel> = labels.iter().copied().filter(|label| label.position.y == margin / 2 || label.position.y == bottom).collect();
    assert_eq!(
        along_x,
        vec![
            GridLabel { value: 10, position: Vec2i::new(margin + 16 * 4, margin / 2) },
            GridLabel { value: 10, position: Vec2i::new(margin + 16 * 4, bottom) },
            GridLabel { value: 20, position: Vec2i::new(margin + 16 * 14, margin / 2) },
            GridLabel { value: 20, position: Vec2i::new(margin + 16 * 14, bottom) },
            GridLabel { value: 6, position: Vec2i::new(margin, margin / 2) },
            GridLabel { value: 6, position: Vec2i::new(margin, bottom) },
        ]
    );
}

#[test]
fn labels_that_cannot_be_placed_are_refused() {
    let sheet = Bitmap::new_filled(32, 32, PixelRGBA::red());
    let placed = try_place_grid_labels_in_pattern(&sheet, 16, 6, 0, 0).unwrap();
    let expected = place_grid_labels_in_pattern(&sheet, 16, 6, 0, 0);
    assert_eq!(placed.0.data, expected.0.data);
    assert_eq!(placed.1, expected.1);
    assert!(try_place_grid_labels_in_pattern(&sheet, 0, 6, 0, 0).is_none());
    assert!(try_place_grid_labels_in_pattern(&sheet, -16, 6, 0, 0).is_none());
    assert!(try_place_grid_labels_in_pattern(&sheet, 16, -1, 0, 0).is_none());
    assert!(try_place_grid_labels_in_pattern(&sheet, 16, i32::MAX / 8, 0, 0).is_none());
}
