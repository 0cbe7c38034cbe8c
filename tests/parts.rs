use ffuf_parts::number::{decimal, parse_i32};
use ffuf_parts::parts::{get_number_of_parts, partition_count, PartsError};

#[test]
fn it_counts_right() {
    let lines = 1_000_000;
    let rate = 100;
    let time = 25;
    assert_eq!(lines / (rate * 60 * time) + 1, 7);
    assert_eq!(partition_count(lines, rate, time), 7);
}

#[test]
fn it_counts_right_1_part() {
    let lines = 100;
    let rate = 100;
    let time = 25;
    assert_eq!(lines / (rate * 60 * time) + 1, 1);
    assert_eq!(partition_count(lines, rate, time), 1);
}

#[test]
fn it_counts_right2() {
    let lines = 2_600_000;
    let rate = 100;
    let time = 1;
    // 2_600_000 lines fill 433 whole windows of 6_000 lines, and one more partition
    // takes the rest.
    assert_eq!(lines / (rate * 60 * time) + 1, 434);
    assert_eq!(partition_count(lines, rate, time), 434);
}

#[test]
fn empty_wordlist_has_one_part() {
    assert_eq!(partition_count(0, 1, 1), 1);
    assert_eq!(partition_count(0, u32::MAX, u32::MAX), 1);
}

#[test]
fn count_matches_formula() {
    for &(l, r, t) in &[(59u32, 1u32, 1u32), (60, 1, 1), (6000, 100, 1), (5999, 100, 1), (12000, 1, 100)] {
        assert_eq!(partition_count(l, r, t), l / (r * 60 * t) + 1);
    }
    assert_eq!(partition_count(60, 1, 1), 2);
}

#[test]
fn count_with_huge_window() {
    assert_eq!(partition_count(u32::MAX, u32::MAX, u32::MAX), 1);
    assert_eq!(partition_count(u32::MAX, 1, 1), u32::MAX / 60 + 1);
    assert_eq!(partition_count(u32::MAX, 1, 2), u32::MAX / 120 + 1);
}

#[test]
fn number_of_parts_from_text() {
    assert_eq!(get_number_of_parts(1_000_000, "25", "100"), Ok(7));
    assert_eq!(get_number_of_parts(100, "25", "100"), Ok(1));
    assert_eq!(get_number_of_parts(2_600_000, "1", "100"), Ok(434));
    assert_eq!(get_number_of_parts(2_600_000, "+1", "+100"), Ok(434));
    assert_eq!(get_number_of_parts(2_600_000, "30", "100"), Ok(15));
}

#[test]
fn number_of_parts_errors() {
    assert_eq!(get_number_of_parts(2_147_483_648, "1", "100"), Err(PartsError::TooManyLines));
    assert_eq!(get_number_of_parts(2_147_483_647, "1", "100"), Ok(2_147_483_647 / 6000 + 1));
    assert_eq!(get_number_of_parts(10, "ten", "100"), Err(PartsError::InvalidTime));
    assert_eq!(get_number_of_parts(10, "0", "100"), Err(PartsError::InvalidTime));
    assert_eq!(get_number_of_parts(10, "-3", "100"), Err(PartsError::InvalidTime));
    assert_eq!(get_number_of_parts(10, "3", "1e2"), Err(PartsError::InvalidRate));
    assert_eq!(get_number_of_parts(10, "3", ""), Err(PartsError::InvalidRate));
    assert_eq!(get_number_of_parts(10, "x", "y"), Err(PartsError::InvalidTime));
}

#[test]
fn parse_i32_agrees_with_std() {
    let cases = [
        "0", "7", "-7", "+7", "42", "007", "-0", "2147483647", "2147483648", "-2147483648",
        "-2147483649", "99999999999999999999", "", "-", "+", " 1", "1 ", "1_000", "--1", "+-1",
        "12a", "٣",
    ];
    for s in cases.iter() {
        assert_eq!(parse_i32(s), s.parse::<i32>().ok(), "{}", s);
    }
}

#[test]
fn decimal_writes_digits() {
    assert_eq!(decimal(0), "0");
    assert_eq!(decimal(9), "9");
    assert_eq!(decimal(10), "10");
    assert_eq!(decimal(1907), "1907");
    assert_eq!(decimal(u32::MAX), "4294967295");
}
