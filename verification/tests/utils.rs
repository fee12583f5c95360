use data_lander::pattern::Capture;
use data_lander::text::{decimal, decimal_padded, find_text, parse_u16, split_text};
use data_lander::utils::{
    date_from_capture, format_prefix, get_date_from_url, get_s3_prefix, is_light_variant,
    parse_date, variant_from_match, PrefixError,
};

#[test]
fn prefix_of_a_light_archive() {
    assert_eq!(
        get_s3_prefix("https://example.org/files/global-2024-03-07-light.zip").unwrap(),
        "global-light/2024-03-07/"
    );
}

#[test]
fn prefix_of_a_full_archive() {
    assert_eq!(
        get_s3_prefix("https://example.org/files/global-2024-11-17-full.zip").unwrap(),
        "global-full/2024-11-17/"
    );
}

#[test]
fn light_is_looked_for_in_the_whole_url() {
    assert_eq!(
        get_s3_prefix("https://example.org/x-light/global-2024-11-17-full.zip").unwrap(),
        "global-light/2024-11-17/"
    );
}

#[test]
fn the_first_date_in_the_url_counts() {
    assert_eq!(
        get_s3_prefix("https://example.org/global-2023-01-02/global-2024-11-17-full.zip").unwrap(),
        "global-full/2023-01-02/"
    );
}

#[test]
fn a_url_that_names_no_archive_is_refused() {
    assert_eq!(get_s3_prefix("https://example.org/x.zip"), Err(PrefixError::InvalidUrlFormat));
    assert_eq!(
        get_s3_prefix("https://example.org/global-2024-11-17-half.zip"),
        Err(PrefixError::InvalidUrlFormat)
    );
    assert_eq!(is_light_variant("global-2024-1-17-full.zip"), Err(PrefixError::InvalidUrlFormat));
}

#[test]
fn digits_outside_ascii_match_but_are_no_numbers() {
    let url = "global-\u{662}\u{660}\u{662}\u{664}-01-01-full.zip";
    assert_eq!(is_light_variant(url), Ok(false));
    assert_eq!(get_s3_prefix(url), Err(PrefixError::InvalidNumber));
}

#[test]
fn dates_are_read_from_urls() {
    assert_eq!(get_date_from_url("a/global-2024-03-07-x"), Ok([2024, 3, 7]));
    assert_eq!(get_date_from_url("a/global-x"), Err(PrefixError::NoDateFound));
}

#[test]
fn each_outcome_of_the_searches_is_answered() {
    assert_eq!(variant_from_match(None, "u"), Err(PrefixError::BadPattern));
    assert_eq!(variant_from_match(Some(false), "u"), Err(PrefixError::InvalidUrlFormat));
    assert_eq!(variant_from_match(Some(true), "u-light"), Ok(true));
    assert_eq!(variant_from_match(Some(true), "u-full"), Ok(false));
    assert_eq!(date_from_capture(None), Err(PrefixError::BadPattern));
    assert_eq!(date_from_capture(Some(Capture::NoMatch)), Err(PrefixError::NoDateFound));
    assert_eq!(date_from_capture(Some(Capture::NoGroup)), Err(PrefixError::DateNotFound));
    assert_eq!(
        date_from_capture(Some(Capture::Text("1999-12-31".to_string()))),
        Ok([1999, 12, 31])
    );
}

#[test]
fn dates_need_three_numbers() {
    assert_eq!(parse_date("2024-03-07"), Ok([2024, 3, 7]));
    assert_eq!(parse_date("2024-03"), Err(PrefixError::InvalidDateFormat));
    assert_eq!(parse_date("2024-03-07-01"), Err(PrefixError::InvalidDateFormat));
    assert_eq!(parse_date(""), Err(PrefixError::InvalidDateFormat));
    assert_eq!(parse_date("2024--07"), Err(PrefixError::InvalidNumber));
    assert_eq!(parse_date("2024-3x-07"), Err(PrefixError::InvalidNumber));
    assert_eq!(parse_date("70000-03-07"), Err(PrefixError::InvalidNumber));
}

#[test]
fn prefixes_pad_with_zeros() {
    assert_eq!(format_prefix(true, [7, 1, 2]), "global-light/0007-01-02/");
    assert_eq!(format_prefix(false, [2024, 12, 31]), "global-full/2024-12-31/");
    assert_eq!(format_prefix(false, [65535, 100, 0]), "global-full/65535-100-00/");
}

#[test]
fn messages_of_prefix_errors() {
    assert_eq!(PrefixError::BadPattern.message(), "Search pattern rejected");
    assert_eq!(PrefixError::InvalidUrlFormat.message(), "Invalid URL format");
    assert_eq!(PrefixError::NoDateFound.message(), "No date found in URL");
    assert_eq!(PrefixError::DateNotFound.message(), "Date not found in URL");
    assert_eq!(PrefixError::InvalidDateFormat.message(), "Invalid date format in URL");
    assert_eq!(PrefixError::InvalidNumber.message(), "Invalid number in date");
}

#[test]
fn numbers_are_read_as_the_standard_library_reads_them() {
    for text in ["0", "7", "007", "+5", "65535", "65536", "", "+", "-1", "1_0", " 1", "1 ", "٣", "99999999999"] {
        assert_eq!(parse_u16(text), text.parse::<u16>().ok(), "for {:?}", text);
    }
}

#[test]
fn numbers_are_written_in_decimal() {
    assert_eq!(decimal(0), "0");
    assert_eq!(decimal(9), "9");
    assert_eq!(decimal(10), "10");
    assert_eq!(decimal(18446744073709551615), "18446744073709551615");
    assert_eq!(decimal_padded(5, 3), "005");
    assert_eq!(decimal_padded(1234, 3), "1234");
    assert_eq!(decimal_padded(0, 0), "0");
}

#[test]
fn text_is_split_and_searched() {
    assert_eq!(split_text("a-b--c", '-'), vec!["a", "b", "", "c"]);
    assert_eq!(split_text("", '-'), vec![""]);
    assert_eq!(split_text("-", '-'), vec!["", ""]);
    assert!(find_text("xx-light.zip", "-light"));
    assert!(!find_text("xx-ligh", "-light"));
    assert!(find_text("abc", ""));
    assert!(find_text("", ""));
    assert!(!find_text("", "a"));
}

#[test]
fn a_date_that_was_read_is_written_as_it_stood() {
    for date in ["0007-01-02", "2024-12-31", "0000-00-00", "9999-99-99"] {
        let read = parse_date(date).unwrap();
        assert_eq!(format_prefix(true, read), format!("global-light/{}/", date));
        assert_eq!(format_prefix(false, read), format!("global-full/{}/", date));
    }
}
