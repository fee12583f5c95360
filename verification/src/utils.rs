//! Storage prefixes derived from the URL of the source archive.

use vstd::prelude::*;
use vstd::string::StringExecFns;
use crate::pattern::{capture, is_match, regex_capture, regex_is_match, Capture, CaptureView};
use crate::text::{
    all_digits, contains_text, decimal_padded, digits_value, find_text, is_digit,
    lemma_digits_value_bound, lemma_padded_value_repeats_digits, lemma_split_at,
    lemma_split_of_one_piece, parse_u16, split, split_text, ten_to, u16_of_text, zero_padded,
};

verus! {

/// Matches the file name of an archive, in its light or its full variant.
pub const VARIANT_PATTERN: &'static str = "global-\\d{4}-\\d{2}-\\d{2}-(light|full)\\.zip";

/// Matches the date in the name of an archive and captures it.
pub const DATE_PATTERN: &'static str = "global-(\\d{4}-\\d{2}-\\d{2})";

/// Why no prefix could be derived from a URL.
#[derive(Clone, Copy, Debug, PartialEq, Eq, Structural)]
pub enum PrefixError {
    /// A search pattern was not accepted.
    BadPattern,
    /// The URL does not name a light or full archive.
    InvalidUrlFormat,
    /// The URL holds no date.
    NoDateFound,
    /// The date pattern matched, but captured nothing.
    DateNotFound,
    /// The date is not made of three parts.
    InvalidDateFormat,
    /// A part of the date is not a number that fits.
    InvalidNumber,
}

/// The year, month and day written in `date` as three numbers with hyphens
/// between them.
pub open spec fn date_of_text(date: Seq<char>) -> Result<(u16, u16, u16), PrefixError> {
    let parts = split(date, '-');
    if parts.len() != 3 {
        Err(PrefixError::InvalidDateFormat)
    } else {
        match (u16_of_text(parts[0]), u16_of_text(parts[1]), u16_of_text(parts[2])) {
            (Some(year), Some(month), Some(day)) => Ok((year, month, day)),
            _ => Err(PrefixError::InvalidNumber),
        }
    }
}

/// Reads year, month and day from text of the form `YYYY-MM-DD`.
pub fn parse_date(date: &str) -> (r: Result<[u16; 3], PrefixError>)
    ensures
        r is Ok <==> date_of_text(date@) is Ok,
        r matches Ok(d) ==> date_of_text(date@) == Ok::<(u16, u16, u16), PrefixError>(
            (d[0], d[1], d[2]),
        ),
        r matches Err(e) ==> date_of_text(date@) == Err::<(u16, u16, u16), PrefixError>(e),
{
    let parts = split_text(date, '-');
    if parts.len() != 3 {
        return Err(PrefixError::InvalidDateFormat);
    }
    let year = parse_u16(parts[0].as_str());
    let month = parse_u16(parts[1].as_str());
    let day = parse_u16(parts[2].as_str());
    match (year, month, day) {
        (Some(y), Some(m), Some(d)) => Ok([y, m, d]),
        _ => Err(PrefixError::InvalidNumber),
    }
}

/// The date a capture of the date pattern stands for.
pub open spec fn date_of_capture(found: Option<CaptureView>) -> Result<
    (u16, u16, u16),
    PrefixError,
> {
    match found {
        None => Err(PrefixError::BadPattern),
        Some(CaptureView::NoMatch) => Err(PrefixError::NoDateFound),
        Some(CaptureView::NoGroup) => Err(PrefixError::DateNotFound),
        Some(CaptureView::Text(date)) => date_of_text(date),
    }
}

/// The date in a URL: what follows the first `global-` that a date follows.
pub open spec fn date_of_url(url: Seq<char>) -> Result<(u16, u16, u16), PrefixError> {
    date_of_capture(regex_capture(DATE_PATTERN@, url, 1))
}

/// Reads the date from what the date pattern captured; `None` stands for a
/// pattern that was not accepted.
pub fn date_from_capture(found: Option<Capture>) -> (r: Result<[u16; 3], PrefixError>)
    ensures
        r is Ok <==> date_of_capture(capture_view(found)) is Ok,
        r matches Ok(d) ==> date_of_capture(capture_view(found)) == Ok::<
            (u16, u16, u16),
            PrefixError,
        >((d[0], d[1], d[2])),
        r matches Err(e) ==> date_of_capture(capture_view(found)) == Err::<
            (u16, u16, u16),
            PrefixError,
        >(e),
{
    match found {
        None => Err(PrefixError::BadPattern),
        Some(Capture::NoMatch) => Err(PrefixError::NoDateFound),
        Some(Capture::NoGroup) => Err(PrefixError::DateNotFound),
        Some(Capture::Text(date)) => parse_date(date.as_str()),
    }
}

/// The view of a capture that may be there.
pub open spec fn capture_view(found: Option<Capture>) -> Option<CaptureView> {
    match found {
        Some(c) => Some(c@),
        None => None,
    }
}

/// Extracts year, month and day from the first `global-YYYY-MM-DD` in `url`.
pub fn get_date_from_url(url: &str) -> (r: Result<[u16; 3], PrefixError>)
    ensures
        r is Ok <==> date_of_url(url@) is Ok,
        r matches Ok(d) ==> date_of_url(url@) == Ok::<(u16, u16, u16), PrefixError>(
            (d[0], d[1], d[2]),
        ),
        r matches Err(e) ==> date_of_url(url@) == Err::<(u16, u16, u16), PrefixError>(e),
{
    match capture(DATE_PATTERN, url, 1) {
        Err(_) => date_from_capture(None),
        Ok(found) => date_from_capture(Some(found)),
    }
}

/// Whether a URL names the light variant, given whether the variant pattern
/// matched it.
pub open spec fn variant_of(matched: Option<bool>, url: Seq<char>) -> Result<bool, PrefixError> {
    match matched {
        None => Err(PrefixError::BadPattern),
        Some(false) => Err(PrefixError::InvalidUrlFormat),
        Some(true) => Ok(contains_text(url, "-light"@)),
    }
}

/// Tells the light variant from the full one, given whether the variant
/// pattern matched the URL; `None` stands for a pattern that was not
/// accepted.
pub fn variant_from_match(matched: Option<bool>, url: &str) -> (r: Result<bool, PrefixError>)
    ensures
        r == variant_of(matched, url@),
{
    match matched {
        None => Err(PrefixError::BadPattern),
        Some(false) => Err(PrefixError::InvalidUrlFormat),
        Some(true) => Ok(find_text(url, "-light")),
    }
}

/// Tells the light variant of an archive from the full one.
pub fn is_light_variant(url: &str) -> (r: Result<bool, PrefixError>)
    ensures
        r == variant_of(regex_is_match(VARIANT_PATTERN@, url@), url@),
{
    match is_match(VARIANT_PATTERN, url) {
        Err(_) => variant_from_match(None, url),
        Ok(matched) => variant_from_match(Some(matched), url),
    }
}

/// The prefix for a variant and a date: `global-light/YYYY-MM-DD/` or
/// `global-full/YYYY-MM-DD/`, each number padded with zeros to its width.
pub open spec fn prefix_text(light: bool, year: u16, month: u16, day: u16) -> Seq<char> {
    (if light {
        "global-light/"@
    } else {
        "global-full/"@
    }) + zero_padded(year as nat, 4) + "-"@ + zero_padded(month as nat, 2) + "-"@ + zero_padded(
        day as nat,
        2,
    ) + "/"@
}

/// Formats the prefix for a variant and a date.
pub fn format_prefix(light: bool, date: [u16; 3]) -> (prefix: String)
    ensures
        prefix@ == prefix_text(light, date[0], date[1], date[2]),
{
    let mut prefix = if light {
        String::from_str("global-light/")
    } else {
        String::from_str("global-full/")
    };
    prefix.append(decimal_padded(date[0] as u64, 4).as_str());
    prefix.append("-");
    prefix.append(decimal_padded(date[1] as u64, 2).as_str());
    prefix.append("-");
    prefix.append(decimal_padded(date[2] as u64, 2).as_str());
    prefix.append("/");
    prefix
}

/// Up to four digits are one part of a date and a number that fits.
proof fn lemma_digits_are_one_part(digits: Seq<char>)
    requires
        all_digits(digits),
        1 <= digits.len() <= 4,
    ensures
        split(digits, '-') == seq![digits],
        u16_of_text(digits) == Some(digits_value(digits) as u16),
        digits_value(digits) <= u16::MAX,
{
    lemma_split_of_one_piece(digits, '-');
    lemma_digits_value_bound(digits);
    reveal_with_fuel(ten_to, 5);
}

/// A date written with four, two and two digits is read, and the prefix
/// repeats it as it is written.
pub proof fn lemma_prefix_repeats_date(
    light: bool,
    year: Seq<char>,
    month: Seq<char>,
    day: Seq<char>,
)
    requires
        all_digits(year) && year.len() == 4,
        all_digits(month) && month.len() == 2,
        all_digits(day) && day.len() == 2,
    ensures
        date_of_text(year + "-"@ + month + "-"@ + day) is Ok,
        ({
            let date = date_of_text(year + "-"@ + month + "-"@ + day)->Ok_0;
            prefix_text(light, date.0, date.1, date.2) == (if light {
                "global-light/"@
            } else {
                "global-full/"@
            }) + year + "-"@ + month + "-"@ + day + "/"@
        }),
{
    reveal_strlit("-");
    assert("-"@ == seq!['-']);
    lemma_digits_are_one_part(year);
    lemma_digits_are_one_part(month);
    lemma_digits_are_one_part(day);
    lemma_split_at(year, month, '-');
    lemma_split_at(year + seq!['-'] + month, day, '-');
    lemma_padded_value_repeats_digits(year);
    lemma_padded_value_repeats_digits(month);
    lemma_padded_value_repeats_digits(day);
}

/// The prefix a URL stands for, from what the two patterns found in it.
pub open spec fn prefix_of(
    matched: Option<bool>,
    found: Option<CaptureView>,
    url: Seq<char>,
) -> Result<Seq<char>, PrefixError> {
    match variant_of(matched, url) {
        Err(e) => Err(e),
        Ok(light) => match date_of_capture(found) {
            Err(e) => Err(e),
            Ok((year, month, day)) => Ok(prefix_text(light, year, month, day)),
        },
    }
}

/// The prefix a URL stands for.
pub open spec fn prefix_of_url(url: Seq<char>) -> Result<Seq<char>, PrefixError> {
    prefix_of(regex_is_match(VARIANT_PATTERN@, url), regex_capture(DATE_PATTERN@, url, 1), url)
}

/// Derives the storage prefix from the URL of the source archive.
pub fn get_s3_prefix(url: &str) -> (r: Result<String, PrefixError>)
    ensures
        r is Ok <==> prefix_of_url(url@) is Ok,
        r matches Ok(prefix) ==> prefix_of_url(url@) == Ok::<Seq<char>, PrefixError>(prefix@),
        r matches Err(e) ==> prefix_of_url(url@) == Err::<Seq<char>, PrefixError>(e),
{
    let light = match is_light_variant(url) {
        Ok(light) => light,
        Err(e) => {
            return Err(e);
        },
    };
    let date = match get_date_from_url(url) {
        Ok(date) => date,
        Err(e) => {
            return Err(e);
        },
    };
    Ok(format_prefix(light, date))
}

impl PrefixError {
    /// What went wrong, in words.
    pub fn message(&self) -> (text: String)
        ensures
            text@ == (match *self {
                PrefixError::BadPattern => "Search pattern rejected"@,
                PrefixError::InvalidUrlFormat => "Invalid URL format"@,
                PrefixError::NoDateFound => "No date found in URL"@,
                PrefixError::DateNotFound => "Date not found in URL"@,
                PrefixError::InvalidDateFormat => "Invalid date format in URL"@,
                PrefixError::InvalidNumber => "Invalid number in date"@,
            }),
    {
        match self {
            PrefixError::BadPattern => String::from_str("Search pattern rejected"),
            PrefixError::InvalidUrlFormat => String::from_str("Invalid URL format"),
            PrefixError::NoDateFound => String::from_str("No date found in URL"),
            PrefixError::DateNotFound => String::from_str("Date not found in URL"),
            PrefixError::InvalidDateFormat => String::from_str("Invalid date format in URL"),
            PrefixError::InvalidNumber => String::from_str("Invalid number in date"),
        }
    }
}

} // verus!
