use scout::format::format_cell;

#[test]
fn format_cell_scales_millions() {
    assert_eq!(format_cell("1500000"), "1.50M");
}

#[test]
fn format_cell_keeps_small_values_unscaled() {
    assert_eq!(format_cell("-250"), "-250.00");
}

#[test]
fn format_cell_maps_sentinel_to_dash() {
    assert_eq!(format_cell("--"), "-");
}

#[test]
fn format_cell_strips_commas_and_scales() {
    assert_eq!(format_cell("1,234.5"), "1.23K");
}

#[test]
fn format_cell_maps_empty_to_dash() {
    assert_eq!(format_cell(""), "-");
    assert_eq!(format_cell("   "), "-");
}

#[test]
fn format_cell_passes_non_numeric_through() {
    assert_eq!(format_cell("Total Revenue"), "Total Revenue");
    assert_eq!(format_cell("  spaced words  "), "spaced words");
}

#[test]
fn format_cell_zero() {
    assert_eq!(format_cell("0"), "0.00");
    assert_eq!(format_cell("-0"), "0.00");
}

#[test]
fn format_cell_billions_and_trillions() {
    assert_eq!(format_cell("2,500,000,000"), "2.50B");
    assert_eq!(format_cell("1e12"), "1.00T");
    assert_eq!(format_cell("3.7e9"), "3.70B");
}

#[test]
fn format_cell_rounds_half_up() {
    assert_eq!(format_cell("999999"), "1000.00K");
    assert_eq!(format_cell("-0.004"), "-0.00");
    assert_eq!(format_cell("-0.005"), "-0.01");
    assert_eq!(format_cell("1235"), "1.24K");
}

#[test]
fn format_cell_signs() {
    assert_eq!(format_cell("+250"), "250.00");
    assert_eq!(format_cell("-1500000"), "-1.50M");
}

#[test]
fn dec_rendering() {
    assert_eq!(scout::errors::dec_u64(0), "0");
    assert_eq!(scout::errors::dec_u64(30000), "30000");
    assert_eq!(scout::errors::dec_i64(-42), "-42");
}
