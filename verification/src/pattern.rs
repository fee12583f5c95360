//! Searches with regular expressions, done by the regex crate.

use vstd::prelude::*;

verus! {

/// The error type of the regex crate.
#[verifier::external_type_specification]
#[verifier::external_body]
pub struct ExRegexError(regex::Error);

/// What a search for one capture group found.
#[derive(Debug, PartialEq, Eq)]
pub enum Capture {
    /// The pattern matches nowhere in the text.
    NoMatch,
    /// The pattern matches, but the group took no part in the match.
    NoGroup,
    /// The text the group matched, in the leftmost match.
    Text(String),
}

/// The mathematical content of a [`Capture`].
pub enum CaptureView {
    NoMatch,
    NoGroup,
    Text(Seq<char>),
}

impl View for Capture {
    type V = CaptureView;

    open spec fn view(&self) -> CaptureView {
        match self {
            Capture::NoMatch => CaptureView::NoMatch,
            Capture::NoGroup => CaptureView::NoGroup,
            Capture::Text(s) => CaptureView::Text(s@),
        }
    }
}

/// Whether `pattern` matches somewhere in `text`; `None` where `pattern` is
/// not a regular expression the regex crate accepts.
pub uninterp spec fn regex_is_match(pattern: Seq<char>, text: Seq<char>) -> Option<bool>;

/// What capture group `group` of `pattern` matched in the leftmost match in
/// `text`; `None` where `pattern` is not a regular expression the regex
/// crate accepts.
pub uninterp spec fn regex_capture(pattern: Seq<char>, text: Seq<char>, group: nat) -> Option<
    CaptureView,
>;

/// Tests whether `pattern` matches somewhere in `text`.
///
/// Wraps `regex::Regex::new` and `regex::Regex::is_match`. The outcome is a
/// function of the two strings alone and is only named.
#[verifier::external_body]
pub(crate) fn is_match(pattern: &str, text: &str) -> (r: Result<bool, regex::Error>)
    ensures
        r is Ok <==> regex_is_match(pattern@, text@) is Some,
        r matches Ok(found) ==> Some(found) == regex_is_match(pattern@, text@),
{
    Ok(regex::Regex::new(pattern)?.is_match(text))
}

/// Finds what one capture group matched in the leftmost match.
///
/// Wraps `regex::Regex::new`, `regex::Regex::captures` and
/// `regex::Captures::get`. The outcome is a function of the arguments alone
/// and is only named.
#[verifier::external_body]
pub(crate) fn capture(pattern: &str, text: &str, group: usize) -> (r: Result<Capture, regex::Error>)
    ensures
        r is Ok <==> regex_capture(pattern@, text@, group as nat) is Some,
        r matches Ok(c) ==> Some(c@) == regex_capture(pattern@, text@, group as nat),
{
    Ok(
        match regex::Regex::new(pattern)?.captures(text) {
            None => Capture::NoMatch,
            Some(found) => match found.get(group) {
                None => Capture::NoGroup,
                Some(m) => Capture::Text(m.as_str().to_owned()),
            },
        },
    )
}

} // verus!
