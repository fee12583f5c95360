//! Category keys: storage-safe identifiers derived from raw category values.
//!
//! A raw value is lower-cased, every character outside `[a-z0-9\-_]` becomes
//! a hyphen, runs of separators collapse into one hyphen, separators at
//! either end are dropped, and an empty outcome becomes `unknown`.

use vstd::prelude::*;
use vstd::utf8::is_ascii_chars;
use vstd::string::StringExecFns;
use crate::text::push_char;

verus! {

/// The characters a key is made of besides the hyphen: `a-z` and `0-9`.
pub open spec fn is_key_alnum(c: char) -> bool {
    ('a' <= c && c <= 'z') || ('0' <= c && c <= '9')
}

/// Hyphen and underscore both separate the words of a key.
pub open spec fn is_separator(c: char) -> bool {
    c == '-' || c == '_'
}

/// Membership in the class `[a-z0-9\-_]`.
pub open spec fn in_safe_class(c: char) -> bool {
    is_key_alnum(c) || is_separator(c)
}

/// Lower-case form of one ASCII character.
pub open spec fn ascii_lower(c: char) -> char {
    if 'A' <= c && c <= 'Z' {
        ((c as u8 + 32) as u8) as char
    } else {
        c
    }
}

/// Every character outside the safe class replaced by a hyphen.
pub open spec fn replace_unsafe(s: Seq<char>) -> Seq<char> {
    s.map_values(|c: char| if in_safe_class(c) { c } else { '-' })
}

/// The words of `s` (maximal runs without a separator) joined by single
/// hyphens.
pub open spec fn squeeze(s: Seq<char>) -> Seq<char>
    decreases s.len(),
{
    if s.len() == 0 {
        Seq::empty()
    } else {
        let head = s.drop_last();
        let c = s.last();
        let words = squeeze(head);
        if is_separator(c) {
            words
        } else if words.len() > 0 && head.len() > 0 && is_separator(head.last()) {
            words.push('-').push(c)
        } else {
            words.push(c)
        }
    }
}

/// The key that stands in when nothing of a raw value is left.
pub open spec fn unknown_key() -> Seq<char> {
    seq!['u', 'n', 'k', 'n', 'o', 'w', 'n']
}

/// The key of a value that has already been lower-cased.
pub open spec fn key_of_lowered(lowered: Seq<char>) -> Seq<char> {
    let words = squeeze(replace_unsafe(lowered));
    if words.len() == 0 {
        unknown_key()
    } else {
        words
    }
}

/// What `str::to_lowercase` returns for a string with a character outside
/// ASCII.
pub uninterp spec fn unicode_lowercase(s: Seq<char>) -> Seq<char>;

/// Lower-case form of a string: character by character for ASCII input,
/// the Unicode mapping otherwise.
pub open spec fn lowercase_of(s: Seq<char>) -> Seq<char> {
    if is_ascii_chars(s) {
        s.map_values(|c: char| ascii_lower(c))
    } else {
        unicode_lowercase(s)
    }
}

/// The category key of a raw category value.
pub open spec fn category_key(raw: Seq<char>) -> Seq<char> {
    key_of_lowered(lowercase_of(raw))
}

/// A well-formed key: not empty, made of `a-z`, `0-9` and single hyphens,
/// with no hyphen at either end.
pub open spec fn is_category_key(k: Seq<char>) -> bool {
    &&& k.len() > 0
    &&& forall|i: int| 0 <= i < k.len() ==> is_key_alnum(#[trigger] k[i]) || k[i] == '-'
    &&& k[0] != '-'
    &&& k.last() != '-'
    &&& forall|i: int| 0 < i < k.len() ==> !(#[trigger] k[i] == '-' && k[i - 1] == '-')
}

/// Key characters, no hyphen in front and no two hyphens in a row; a hyphen
/// at the end is still allowed.
spec fn is_key_prefix(t: Seq<char>) -> bool {
    &&& forall|i: int| 0 <= i < t.len() ==> is_key_alnum(#[trigger] t[i]) || t[i] == '-'
    &&& t.len() > 0 ==> t[0] != '-'
    &&& forall|i: int| 0 < i < t.len() ==> !(#[trigger] t[i] == '-' && t[i - 1] == '-')
}

proof fn lemma_squeeze_shape(s: Seq<char>)
    requires
        forall|i: int| 0 <= i < s.len() ==> in_safe_class(#[trigger] s[i]),
    ensures
        squeeze(s).len() > 0 ==> is_category_key(squeeze(s)),
    decreases s.len(),
{
    if s.len() > 0 {
        lemma_squeeze_shape(s.drop_last());
    }
}

proof fn lemma_squeeze_key_prefix(t: Seq<char>)
    requires
        is_key_prefix(t),
    ensures
        squeeze(t) == (if t.len() > 0 && t.last() == '-' {
            t.drop_last()
        } else {
            t
        }),
    decreases t.len(),
{
    if t.len() > 0 {
        lemma_squeeze_key_prefix(t.drop_last());
    }
}

/// Squeezing leaves a well-formed key as it is.
pub proof fn lemma_squeeze_fixes_keys(k: Seq<char>)
    requires
        is_category_key(k),
    ensures
        squeeze(k) == k,
        replace_unsafe(k) == k,
        lowercase_of(k) == k,
        category_key(k) == k,
{
    lemma_squeeze_key_prefix(k);
}

/// Every category key is well formed, whatever the raw value was.
pub proof fn lemma_category_key_well_formed(raw: Seq<char>)
    ensures
        is_category_key(category_key(raw)),
        is_category_key(key_of_lowered(raw)),
{
    lemma_key_of_lowered_well_formed(lowercase_of(raw));
    lemma_key_of_lowered_well_formed(raw);
}

proof fn lemma_key_of_lowered_well_formed(lowered: Seq<char>)
    ensures
        is_category_key(key_of_lowered(lowered)),
{
    lemma_squeeze_shape(replace_unsafe(lowered));
}

/// Sanitization is idempotent: the key of a key is that key.
pub proof fn lemma_category_key_idempotent(raw: Seq<char>)
    ensures
        category_key(category_key(raw)) == category_key(raw),
{
    lemma_category_key_well_formed(raw);
    lemma_squeeze_fixes_keys(category_key(raw));
}

/// The pattern that matches each character outside `[a-z0-9\-_]`.
pub const UNSAFE_CHAR_PATTERN: &'static str = "[^a-z0-9\\-_]";

/// Lower-cases a string.
///
/// Wraps `str::to_lowercase`. On ASCII input the result is the input with
/// `A-Z` mapped to `a-z` and every other character kept; for any other input
/// the result is only given a name.
#[verifier::external_body]
fn to_lowercase(s: &str) -> (r: String)
    ensures
        is_ascii_chars(s@) ==> r@ == s@.map_values(|c: char| ascii_lower(c)),
        !is_ascii_chars(s@) ==> r@ == unicode_lowercase(s@),
{
    s.to_lowercase()
}

/// Replaces each character outside the safe class by a hyphen.
///
/// Wraps `regex::Regex::new` and `regex::Regex::replace_all` for the one
/// pattern this library sanitizes with, a negated character class. Such a
/// class matches exactly one character at a time, so every character outside
/// `[a-z0-9\-_]` is a match of its own and is replaced by `rep`, which holds
/// no `$` and is therefore taken literally; all other characters are copied.
#[verifier::external_body]
fn replace_unsafe_chars(pattern: &str, text: &str, rep: &str) -> (out: String)
    requires
        pattern@ == UNSAFE_CHAR_PATTERN@,
        rep@ == "-"@,
    ensures
        out@ == replace_unsafe(text@),
{
    regex::Regex::new(pattern).expect("the sanitization pattern compiles").replace_all(
        text,
        rep,
    ).into_owned()
}

/// Joins the words of `text` with single hyphens.
pub fn squeeze_separators(text: &str) -> (out: String)
    ensures
        out@ == squeeze(text@),
{
    let mut out = String::new();
    let mut pending = false;
    for c in iter: text.chars()
        invariant
            iter.seq() == text@,
            out@ == squeeze(text@.take(iter.index() as int)),
            pending == (iter.index() > 0 && is_separator(text@[iter.index() - 1])),
    {
        proof {
            let i = iter.index() as int;
            assert(text@.take(i + 1).drop_last() == text@.take(i));
        }
        if c == '-' || c == '_' {
            pending = true;
        } else {
            if pending && !out.as_str().is_empty() {
                push_char(&mut out, '-');
            }
            push_char(&mut out, c);
            pending = false;
        }
    }
    proof {
        assert(text@.take(text@.len() as int) == text@);
    }
    out
}

/// The category key of a value that is already lower-case.
pub fn key_from_lowered(lowered: &str) -> (key: String)
    ensures
        key@ == key_of_lowered(lowered@),
        is_category_key(key@),
{
    let replaced = replace_unsafe_chars(UNSAFE_CHAR_PATTERN, lowered, "-");
    let words = squeeze_separators(replaced.as_str());
    proof {
        lemma_key_of_lowered_well_formed(lowered@);
    }
    if words.as_str().is_empty() {
        proof {
            reveal_strlit("unknown");
        }
        String::from_str("unknown")
    } else {
        words
    }
}

/// Normalizes a raw category value into its category key.
pub fn sanitize(raw: &str) -> (key: String)
    ensures
        key@ == category_key(raw@),
        is_category_key(key@),
{
    let lowered = to_lowercase(raw);
    key_from_lowered(lowered.as_str())
}

} // verus!
