use pixie_stitch::text::decimal_len;
use pixie_stitch::text::decimal_string;
use pixie_stitch::text::decimal_string_unsigned;
use pixie_stitch::text::legend_entry_text;
use pixie_stitch::text::legend_stats_text;
use pixie_stitch::text::output_file_name;
use pixie_stitch::text::page_layout_caption;
use pixie_stitch::text::page_number_sample_text;
use pixie_stitch::text::pattern_part_text;
use pixie_stitch::text::segment_suffix;

#[test]
fn decimal_strings_are_what_formatting_gives() {
    for value in [
        0i64,
        1,
        9,
        10,
        11,
        99,
        100,
        12345,
        -1,
        -9,
        -10,
        -120,
        i64::MAX,
        i64::MIN,
        i64::MIN + 1,
        1_000_000_000_000,
    ] {
        assert_eq!(decimal_string(value), format!("{}", value));
        assert_eq!(decimal_len(value), format!("{}", value).len());
    }
    for value in [0u64, 7, 10, 18_446_744_073_709_551_615, 1_000_000_007] {
        assert_eq!(decimal_string_unsigned(value), format!("{}", value));
    }
}

#[test]
fn decimal_lengths_count_the_sign() {
    assert_eq!(decimal_len(0), 1);
    assert_eq!(decimal_len(7), 1);
    assert_eq!(decimal_len(-7), 2);
    assert_eq!(decimal_len(10), 2);
    assert_eq!(decimal_len(-100), 4);
    assert_eq!(decimal_len(i64::MIN), 20);
    assert_eq!(decimal_len(i64::MAX), 19);
}

#[test]
fn legend_entry_text_names_count_and_thread() {
    assert_eq!(legend_entry_text(12, "310"), " 12 stitches DMC 310");
    assert_eq!(legend_entry_text(0, ""), " 0 stitches DMC ");
    assert_eq!(legend_entry_text(1234567, "B5200"), " 1234567 stitches DMC B5200");
}

#[test]
fn legend_stats_text_lists_size_colors_and_stitches() {
    assert_eq!(
        legend_stats_text(10, 20, 3, 42),
        "Size:     10x20\n\nColors:   3\n\nStitches: 42\n\n\n"
    );
}

#[test]
fn banner_and_page_texts() {
    assert_eq!(pattern_part_text(3), "\n Pattern Part 3 \n");
    assert_eq!(pattern_part_text(12), "\n Pattern Part 12 \n");
    assert_eq!(page_number_sample_text(9), " 9 ");
    assert_eq!(page_layout_caption(), "\n\nPattern parts overview:\n");
    assert_eq!(segment_suffix(4), "segment_4");
}

#[test]
fn output_file_names_are_put_together() {
    assert_eq!(
        output_file_name("rose", "cross_stitch_colorized_", "complete"),
        "rose_cross_stitch_colorized_complete.png"
    );
    assert_eq!(
        output_file_name("rose", "paint_by_numbers_", "segment_2"),
        "rose_paint_by_numbers_segment_2.png"
    );
}
