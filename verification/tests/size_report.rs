use file_size::extract::{extract_file_size_number, extract_file_size_unit};
use file_size::report::Sizes;
use file_size::size::{format_size, parse_size, ParseFailure};

#[test]
fn kilobytes_input_full_report() {
    let s = String::from("1024kb");
    assert_eq!(parse_size(&s), Ok(1048576));
    match format_size(&s) {
        Ok(sizes) => {
            assert_eq!(sizes.bytes, "1048576");
            assert_eq!(sizes.kilobytes, "1048.58");
            assert_eq!(sizes.megabytes, "1.05");
            assert_eq!(sizes.gigabytes, "0.00105");
            assert_eq!(sizes.terabytes, "0.00000105");
        }
        Err(_) => panic!("expected a report"),
    }
}

#[test]
fn unitless_input_is_bytes() {
    assert_eq!(parse_size(&String::from("500")), Ok(500));
}

#[test]
fn unrecognized_unit_falls_through_as_bytes() {
    assert_eq!(parse_size(&String::from("10xy")), Ok(10));
}

#[test]
fn no_leading_digits_is_a_parse_failure() {
    assert_eq!(parse_size(&String::from("kb")), Err(ParseFailure::NoDigits));
    match format_size(&String::from("kb")) {
        Err(ParseFailure::NoDigits) => {}
        _ => panic!("expected a parse failure"),
    }
}

#[test]
fn empty_input_is_a_parse_failure() {
    assert_eq!(parse_size(&String::from("")), Err(ParseFailure::NoDigits));
    assert_eq!(parse_size(&String::from("   ")), Err(ParseFailure::NoDigits));
}

#[test]
fn gigabytes_input() {
    assert_eq!(parse_size(&String::from("1gb")), Ok(1073741824));
}

#[test]
fn each_unit_multiplies_by_its_power_of_1024() {
    assert_eq!(parse_size(&String::from("3kb")), Ok(3 * 1024));
    assert_eq!(parse_size(&String::from("3mb")), Ok(3 * 1024 * 1024));
    assert_eq!(parse_size(&String::from("3gb")), Ok(3 * 1024 * 1024 * 1024));
    assert_eq!(parse_size(&String::from("3tb")), Ok(3 * 1024 * 1024 * 1024 * 1024));
}

#[test]
fn units_are_case_insensitive() {
    assert_eq!(parse_size(&String::from("2KB")), Ok(2048));
    assert_eq!(parse_size(&String::from("2Kb")), Ok(2048));
    assert_eq!(parse_size(&String::from("2kB")), Ok(2048));
    assert_eq!(parse_size(&String::from("7TB")), Ok(7 * 1024 * 1024 * 1024 * 1024));
    assert_eq!(parse_size(&String::from("5Mb")), Ok(5 * 1024 * 1024));
    assert_eq!(parse_size(&String::from("9gB")), Ok(9 * 1024 * 1024 * 1024));
}

#[test]
fn single_stray_letter_is_bytes() {
    assert_eq!(parse_size(&String::from("10k")), Ok(10));
}

#[test]
fn three_letter_token_falls_through_as_bytes() {
    assert_eq!(parse_size(&String::from("1kbb")), Ok(1));
}

#[test]
fn whitespace_around_and_between_is_tolerated() {
    assert_eq!(parse_size(&String::from("  500  \n")), Ok(500));
    assert_eq!(parse_size(&String::from("5 mb")), Ok(5 * 1024 * 1024));
    assert_eq!(parse_size(&String::from(" 5\tkb \n")), Ok(5 * 1024));
}

#[test]
fn trailing_content_after_unit_letters_is_ignored() {
    assert_eq!(parse_size(&String::from("2kb extra!")), Ok(2048));
    assert_eq!(parse_size(&String::from("10ab2cd")), Ok(10));
}

#[test]
fn largest_byte_count_parses() {
    assert_eq!(parse_size(&String::from("18446744073709551615")), Ok(u64::MAX));
}

#[test]
fn numeral_too_large_for_64_bits_overflows() {
    assert_eq!(
        parse_size(&String::from("18446744073709551616")),
        Err(ParseFailure::Overflow)
    );
    assert_eq!(
        parse_size(&String::from("99999999999999999999999")),
        Err(ParseFailure::Overflow)
    );
}

#[test]
fn multiplied_count_past_64_bits_overflows() {
    // 16777217 * 1024^4 is just above 2^64.
    assert_eq!(parse_size(&String::from("16777217tb")), Err(ParseFailure::Overflow));
    // 16777215 * 1024^4 still fits.
    assert_eq!(
        parse_size(&String::from("16777215tb")),
        Ok(16777215 * 1024 * 1024 * 1024 * 1024)
    );
}

#[test]
fn extract_number_takes_leading_digits_of_trimmed_input() {
    assert_eq!(extract_file_size_number(&String::from("  42 kb ")), "42");
    assert_eq!(extract_file_size_number(&String::from("1024kb")), "1024");
    assert_eq!(extract_file_size_number(&String::from("kb")), "");
    assert_eq!(extract_file_size_number(&String::from("12 34kb")), "12");
}

#[test]
fn extract_unit_skips_digits_and_whitespace_then_takes_letters() {
    assert_eq!(extract_file_size_unit(&String::from("  42 kb ")), "kb");
    assert_eq!(extract_file_size_unit(&String::from("1024KB")), "KB");
    assert_eq!(extract_file_size_unit(&String::from("500")), "");
    assert_eq!(extract_file_size_unit(&String::from("10ab2cd")), "ab");
    assert_eq!(extract_file_size_unit(&String::from("12 34kb9")), "kb");
}

#[test]
fn report_for_zero() {
    let sizes = Sizes::new(0);
    assert_eq!(sizes.bytes, "0");
    assert_eq!(sizes.kilobytes, "0.00");
    assert_eq!(sizes.megabytes, "0.00");
    assert_eq!(sizes.gigabytes, "0.00000");
    assert_eq!(sizes.terabytes, "0.00000000");
}

#[test]
fn report_rounds_to_nearest() {
    // 999 bytes is 0.999 kilobytes, which shows as 1.00.
    let sizes = Sizes::new(999);
    assert_eq!(sizes.bytes, "999");
    assert_eq!(sizes.kilobytes, "1.00");
    assert_eq!(sizes.megabytes, "0.00");
    assert_eq!(sizes.gigabytes, "0.00000");
    assert_eq!(sizes.terabytes, "0.00000000");
}

#[test]
fn report_for_largest_count() {
    let sizes = Sizes::new(u64::MAX);
    assert_eq!(sizes.bytes, "18446744073709551615");
    assert_eq!(sizes.kilobytes, "18446744073709551.62");
    assert_eq!(sizes.megabytes, "18446744073709.55");
    assert_eq!(sizes.gigabytes, "18446744073.70955");
    assert_eq!(sizes.terabytes, "18446744.07370955");
}

#[test]
fn formatting_twice_gives_identical_reports() {
    let a = Sizes::new(123456789);
    let b = Sizes::new(123456789);
    assert_eq!(a.bytes, b.bytes);
    assert_eq!(a.kilobytes, b.kilobytes);
    assert_eq!(a.megabytes, b.megabytes);
    assert_eq!(a.gigabytes, b.gigabytes);
    assert_eq!(a.terabytes, b.terabytes);
}

#[test]
fn bytes_field_round_trips_through_the_parser() {
    let sizes = Sizes::new(987654321);
    assert_eq!(sizes.bytes.parse::<u64>().unwrap(), 987654321);
    assert_eq!(parse_size(&sizes.bytes), Ok(987654321));
}
