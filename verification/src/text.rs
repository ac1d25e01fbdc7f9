//! The texts that sheets and legends carry, and the decimal form of numbers.

use vstd::prelude::*;
use vstd::string::StringExecFns;

verus! {

/// The character of a decimal digit.
pub open spec fn digit_char(digit: int) -> char {
    if digit == 0 {
        '0'
    } else if digit == 1 {
        '1'
    } else if digit == 2 {
        '2'
    } else if digit == 3 {
        '3'
    } else if digit == 4 {
        '4'
    } else if digit == 5 {
        '5'
    } else if digit == 6 {
        '6'
    } else if digit == 7 {
        '7'
    } else if digit == 8 {
        '8'
    } else {
        '9'
    }
}

/// The decimal digits of a natural number, most significant first, without leading zeros.
pub open spec fn decimal_digits(value: nat) -> Seq<char>
    decreases value,
{
    if value < 10 {
        seq![digit_char(value as int)]
    } else {
        decimal_digits(value / 10).push(digit_char((value % 10) as int))
    }
}

/// The decimal form of an integer: its digits, after a minus sign where it is negative.
pub open spec fn decimal_text(value: int) -> Seq<char> {
    if value < 0 {
        seq!['-'] + decimal_digits((-value) as nat)
    } else {
        decimal_digits(value as nat)
    }
}

/// The decimal form of a number has one character for each digit, and one for the sign.
pub proof fn lemma_decimal_digits_len(value: nat)
    ensures
        decimal_digits(value).len() >= 1,
        value < 10 ==> decimal_digits(value).len() == 1,
        value >= 10 ==> decimal_digits(value).len() == decimal_digits(value / 10).len() + 1,
    decreases value,
{
    if value >= 10 {
        lemma_decimal_digits_len(value / 10);
    }
}

/// The text of one decimal digit.
fn digit_str(digit: u8) -> (text: &'static str)
    requires
        digit < 10,
    ensures
        text@ == seq![digit_char(digit as int)],
{
    proof {
        reveal_strlit("0");
        reveal_strlit("1");
        reveal_strlit("2");
        reveal_strlit("3");
        reveal_strlit("4");
        reveal_strlit("5");
        reveal_strlit("6");
        reveal_strlit("7");
        reveal_strlit("8");
        reveal_strlit("9");
    }
    let text = if digit == 0 {
        "0"
    } else if digit == 1 {
        "1"
    } else if digit == 2 {
        "2"
    } else if digit == 3 {
        "3"
    } else if digit == 4 {
        "4"
    } else if digit == 5 {
        "5"
    } else if digit == 6 {
        "6"
    } else if digit == 7 {
        "7"
    } else if digit == 8 {
        "8"
    } else {
        "9"
    };
    assert(text@ =~= seq![digit_char(digit as int)]);
    text
}

/// The decimal digits of a natural number, as a string.
pub fn decimal_string_unsigned(value: u64) -> (text: String)
    ensures
        text@ == decimal_digits(value as nat),
    decreases value,
{
    if value < 10 {
        String::from_str(digit_str(value as u8))
    } else {
        let head = decimal_string_unsigned(value / 10);
        let text = head.concat(digit_str((value % 10) as u8));
        assert(text@ =~= decimal_digits(value as nat));
        text
    }
}

/// The decimal form of an integer, as a string.
pub fn decimal_string(value: i64) -> (text: String)
    ensures
        text@ == decimal_text(value as int),
{
    if value < 0 {
        proof {
            reveal_strlit("-");
        }
        let magnitude: u64 = if value == i64::MIN {
            0x8000_0000_0000_0000
        } else {
            (-value) as u64
        };
        let digits = decimal_string_unsigned(magnitude);
        let text = String::from_str("-").concat(digits.as_str());
        assert(text@ =~= decimal_text(value as int));
        text
    } else {
        decimal_string_unsigned(value as u64)
    }
}

/// Ten to the power `exponent`.
pub open spec fn pow10(exponent: nat) -> nat
    decreases exponent,
{
    if exponent == 0 {
        1
    } else {
        10 * pow10((exponent - 1) as nat)
    }
}

proof fn lemma_pow10_monotonic(low: nat, high: nat)
    requires
        low <= high,
    ensures
        pow10(low) <= pow10(high),
        pow10(low) >= 1,
    decreases high,
{
    if low < high {
        lemma_pow10_monotonic(low, (high - 1) as nat);
    } else if low > 0 {
        lemma_pow10_monotonic((low - 1) as nat, (low - 1) as nat);
    }
}

/// A number that is at least ten times the `steps`-th power of ten, and below the
/// nineteenth, leaves room for one more step.
proof fn lemma_decimal_step(magnitude: nat, steps: nat, whole: nat)
    requires
        magnitude >= 10,
        magnitude * pow10(steps) <= whole,
        whole <= 0x8000_0000_0000_0000,
    ensures
        steps + 1 <= 18,
        (magnitude / 10) * pow10(steps + 1) <= whole,
{
    assert(pow10(steps + 1) == 10 * pow10(steps));
    lemma_pow10_monotonic(0, steps);
    assert(10 * pow10(steps) <= magnitude * pow10(steps)) by (nonlinear_arith)
        requires
            magnitude >= 10,
            pow10(steps) >= 1,
    ;
    if steps + 1 >= 19 {
        assert(pow10(19) == 10_000_000_000_000_000_000) by {
            reveal_with_fuel(pow10, 20);
        }
        lemma_pow10_monotonic(19, steps + 1);
    }
    assert((magnitude / 10) * (10 * pow10(steps)) <= magnitude * pow10(steps)) by (nonlinear_arith)
        requires
            pow10(steps) >= 1,
    ;
}

/// How many characters the decimal form of an integer has.
pub fn decimal_len(value: i64) -> (len: usize)
    ensures
        len == decimal_text(value as int).len(),
        1 <= len <= 20,
{
    let mut magnitude: u64 = if value == i64::MIN {
        0x8000_0000_0000_0000
    } else if value < 0 {
        (-value) as u64
    } else {
        value as u64
    };
    let ghost whole = magnitude as nat;
    let ghost sign: nat = if value < 0 { 1 } else { 0 };
    let mut len: usize = if value < 0 { 2 } else { 1 };
    let ghost mut steps: nat = 0;
    proof {
        assert(magnitude * pow10(0) == magnitude) by (nonlinear_arith)
            requires
                pow10(0) == 1,
        ;
    }
    while magnitude >= 10
        invariant
            len == 1 + sign + steps,
            sign <= 1,
            steps <= 18,
            whole <= 0x8000_0000_0000_0000,
            magnitude * pow10(steps) <= whole,
            len + decimal_digits(magnitude as nat).len() == decimal_digits(whole).len() + 1
                + sign,
        decreases magnitude,
    {
        proof {
            lemma_decimal_digits_len(magnitude as nat);
            lemma_decimal_step(magnitude as nat, steps, whole);
            steps = steps + 1;
        }
        magnitude = magnitude / 10;
        len += 1;
    }
    proof {
        lemma_decimal_digits_len(magnitude as nat);
    }
    len
}

/// The text of a legend entry: the number of stitches and the thread.
pub open spec fn spec_legend_entry_text(count: nat, thread_id: Seq<char>) -> Seq<char> {
    " "@ + decimal_digits(count) + " stitches DMC "@ + thread_id
}

/// The text of a legend entry.
pub fn legend_entry_text(count: usize, thread_id: &str) -> (text: String)
    ensures
        text@ == spec_legend_entry_text(count as nat, thread_id@),
{
    let digits = decimal_string_unsigned(count as u64);
    let text = String::from_str(" ").concat(digits.as_str()).concat(" stitches DMC ").concat(
        thread_id,
    );
    text
}

/// The statistics at the top of a legend: the size of the image in cells, the number
/// of colours and the number of stitches.
pub open spec fn spec_legend_stats_text(width: int, height: int, colors: nat, stitches: nat) -> Seq<
    char,
> {
    "Size:     "@ + decimal_text(width) + "x"@ + decimal_text(height) + "\n\nColors:   "@
        + decimal_digits(colors) + "\n\nStitches: "@ + decimal_digits(stitches) + "\n\n\n"@
}

/// The statistics at the top of a legend.
pub fn legend_stats_text(width: i32, height: i32, color_count: usize, stitch_count: usize) -> (text:
    String)
    ensures
        text@ == spec_legend_stats_text(
            width as int,
            height as int,
            color_count as nat,
            stitch_count as nat,
        ),
{
    let width_text = decimal_string(width as i64);
    let height_text = decimal_string(height as i64);
    let colors_text = decimal_string_unsigned(color_count as u64);
    let stitches_text = decimal_string_unsigned(stitch_count as u64);
    let text = String::from_str("Size:     ").concat(width_text.as_str()).concat("x").concat(
        height_text.as_str(),
    ).concat("\n\nColors:   ").concat(colors_text.as_str()).concat("\n\nStitches: ").concat(
        stitches_text.as_str(),
    ).concat("\n\n\n");
    text
}

/// The banner above the sheet of one segment.
pub open spec fn spec_pattern_part_text(segment_index: nat) -> Seq<char> {
    "\n Pattern Part "@ + decimal_digits(segment_index) + " \n"@
}

/// The banner above the sheet of one segment.
pub fn pattern_part_text(segment_index: usize) -> (text: String)
    ensures
        text@ == spec_pattern_part_text(segment_index as nat),
{
    let digits = decimal_string_unsigned(segment_index as u64);
    let text = String::from_str("\n Pattern Part ").concat(digits.as_str()).concat(" \n");
    text
}

/// The text whose rendered width is the room that a page number gets in the page
/// layout: the number of pages between two blanks.
pub fn page_number_sample_text(page_count: usize) -> (text: String)
    ensures
        text@ == " "@ + decimal_digits(page_count as nat) + " "@,
{
    let digits = decimal_string_unsigned(page_count as u64);
    let text = String::from_str(" ").concat(digits.as_str()).concat(" ");
    text
}

/// The caption above the page layout.
pub fn page_layout_caption() -> (text: &'static str)
    ensures
        text@ == "\n\nPattern parts overview:\n"@,
{
    "\n\nPattern parts overview:\n"
}

/// The suffix in the file names of the sheets of one segment.
pub fn segment_suffix(segment_index: usize) -> (text: String)
    ensures
        text@ == "segment_"@ + decimal_digits(segment_index as nat),
{
    let digits = decimal_string_unsigned(segment_index as u64);
    let text = String::from_str("segment_").concat(digits.as_str());
    text
}

/// The name of an output file: the name of the image, the kind of sheet, and the
/// suffix that tells the whole image from its segments.
pub fn output_file_name(image_name: &str, kind: &str, suffix: &str) -> (text: String)
    ensures
        text@ == image_name@ + "_"@ + kind@ + suffix@ + ".png"@,
{
    let text = String::from_str(image_name).concat("_").concat(kind).concat(suffix).concat(".png");
    text
}

} // verus!
