use glance::icon::{icon_glyphs, GlyphCell, BOTTOM_BASELINE, TOP_BASELINE};
use glance::speed::{format_rows, format_speed};

fn speed(bps: u64) -> (String, String) {
    let (n, u) = format_speed(bps);
    (n, u.to_string())
}

fn pair(n: &str, u: &str) -> (String, String) {
    (n.to_string(), u.to_string())
}

#[test]
fn speed_bytes_below_one_hundred() {
    assert_eq!(speed(0), pair("0", "B"));
    assert_eq!(speed(7), pair("7", "B"));
    assert_eq!(speed(99), pair("99", "B"));
}

#[test]
fn speed_tenths_of_a_kilobyte() {
    assert_eq!(speed(100), pair(".1", "K"));
    assert_eq!(speed(600), pair(".5", "K"));
    assert_eq!(speed(1023), pair(".9", "K"));
}

#[test]
fn speed_whole_kilobytes() {
    assert_eq!(speed(1024), pair("1", "K"));
    assert_eq!(speed(27_000), pair("26", "K"));
    assert_eq!(speed(102_399), pair("99", "K"));
}

#[test]
fn speed_megabytes() {
    assert_eq!(speed(102_400), pair(".1", "M"));
    assert_eq!(speed(400_000), pair(".3", "M"));
    assert_eq!(speed(500_000), pair(".4", "M"));
    assert_eq!(speed(1_048_575), pair(".9", "M"));
    assert_eq!(speed(1_048_576), pair("1", "M"));
    assert_eq!(speed(104_857_599), pair("99", "M"));
}

#[test]
fn speed_gigabytes_capped_at_ninety_nine() {
    assert_eq!(speed(104_857_600), pair(".1", "G"));
    assert_eq!(speed(1_073_741_823), pair(".9", "G"));
    assert_eq!(speed(1_073_741_824), pair("1", "G"));
    assert_eq!(speed(50 * 1_073_741_824), pair("50", "G"));
    assert_eq!(speed(u64::MAX), pair("99", "G"));
}

#[test]
fn rows_for_the_preview_figures() {
    let (row1, row2) = format_rows(8, 57, 27_000, 400_000);
    assert_eq!(row1, "c 8% m57%");
    assert_eq!(row2, "↓26K ↑.3M");
}

#[test]
fn rows_cap_percentages_and_pad() {
    let (row1, row2) = format_rows(100, 5, 5, 0);
    assert_eq!(row1, "c99% m 5%");
    assert_eq!(row2, "↓ 5B ↑ 0B");
    let (row1, _) = format_rows(-5, 1000, 0, 0);
    assert_eq!(row1, "c-5% m99%");
}

#[test]
fn rows_are_nine_characters_wide() {
    let rates = [0u64, 9, 99, 100, 1023, 5000, 102_400, 9_999_999, 104_857_600, u64::MAX];
    for &cpu in &[-9, 0, 7, 42, 99, 100, 1000] {
        for &d in &rates {
            for &u in &rates {
                let (row1, row2) = format_rows(cpu, 57, d, u);
                assert_eq!(row1.chars().count(), 9);
                assert_eq!(row2.chars().count(), 9);
            }
        }
    }
    let (row1, _) = format_rows(-10, 0, 0, 0);
    assert_eq!(row1.chars().count(), 10);
}

#[test]
fn preview_icon() {
    let g = icon_glyphs(8, 57, 27_000, 400_000);
    let cell = |ch: char, i: u64, baseline: u64| GlyphCell { ch, cell_x: 3 + 14 * i, baseline };
    let expected = vec![
        cell('c', 0, TOP_BASELINE),
        cell('8', 2, TOP_BASELINE),
        cell('%', 3, TOP_BASELINE),
        cell('m', 5, TOP_BASELINE),
        cell('5', 6, TOP_BASELINE),
        cell('7', 7, TOP_BASELINE),
        cell('%', 8, TOP_BASELINE),
        cell('↓', 0, BOTTOM_BASELINE),
        cell('2', 1, BOTTOM_BASELINE),
        cell('6', 2, BOTTOM_BASELINE),
        cell('K', 3, BOTTOM_BASELINE),
        cell('↑', 5, BOTTOM_BASELINE),
        cell('.', 6, BOTTOM_BASELINE),
        cell('3', 7, BOTTOM_BASELINE),
        cell('M', 8, BOTTOM_BASELINE),
    ];
    assert_eq!(g, expected);
    assert_eq!(TOP_BASELINE, 22);
    assert_eq!(BOTTOM_BASELINE, 3);
}
