//! Text operations that the standard library and the `regex` crate carry
//! out. Their contracts are taken on trust.

use vstd::prelude::*;
use vstd::utf8::{decode_utf8, valid_utf8};

verus! {

/// `regex::Error`, the error for a pattern that does not compile. The
/// library only carries it; nothing is claimed of what it holds.
#[verifier::external_type_specification]
#[verifier::external_body]
pub struct ExRegexError(regex::Error);

/// The text that lossy UTF-8 decoding makes of a byte string.
pub uninterp spec fn utf8_lossy(bytes: Seq<u8>) -> Seq<char>;

/// The lower-case form of a text, by the Unicode rules.
pub uninterp spec fn lowercased(text: Seq<char>) -> Seq<char>;

/// What becomes of `text` when every non-overlapping match of the regular
/// expression `pattern` is replaced by `replacement`; `None` where `pattern`
/// does not compile.
pub uninterp spec fn regex_replaced(
    pattern: Seq<char>,
    text: Seq<char>,
    replacement: Seq<char>,
) -> Option<Seq<char>>;

/// `text` with every `from` replaced by `to`.
pub open spec fn char_replaced(text: Seq<char>, from: char, to: Seq<char>) -> Seq<char>
    decreases text.len(),
{
    if text.len() == 0 {
        Seq::<char>::empty()
    } else {
        char_replaced(text.drop_last(), from, to) + (if text.last() == from {
            to
        } else {
            seq![text.last()]
        })
    }
}

/// `String::from_utf8_lossy`: decodes `bytes` as UTF-8 and puts U+FFFD in
/// the place of what is not valid. Trusted: the result is a function of the
/// bytes, and for valid UTF-8 it is the decoded text.
#[verifier::external_body]
pub(crate) fn from_utf8_lossy(bytes: &[u8]) -> (s: String)
    ensures
        s@ == utf8_lossy(bytes@),
        valid_utf8(bytes@) ==> s@ == decode_utf8(bytes@),
{
    String::from_utf8_lossy(bytes).into_owned()
}

/// `str::to_lowercase`. Trusted: the result is a function of the text.
#[verifier::external_body]
pub(crate) fn to_lowercase(text: &str) -> (s: String)
    ensures
        s@ == lowercased(text@),
{
    text.to_lowercase()
}

/// `str::replace` with a character as its pattern. Trusted: every
/// occurrence of `from` gives way to `to`, and nothing else changes.
#[verifier::external_body]
pub(crate) fn replace_char(text: &str, from: char, to: &str) -> (s: String)
    ensures
        s@ == char_replaced(text@, from, to@),
{
    text.replace(from, to)
}

/// `regex::Regex::new` on `pattern`, then `Regex::replace_all` on `text`
/// with `replacement`. Trusted: whether the pattern compiles, and the text
/// that the replacement leaves, are functions of the three strings.
#[verifier::external_body]
pub(crate) fn regex_replace_all(pattern: &str, text: &str, replacement: &str) -> (r: Result<
    String,
    regex::Error,
>)
    ensures
        match r {
            Ok(s) => regex_replaced(pattern@, text@, replacement@) == Some(s@),
            Err(_) => regex_replaced(pattern@, text@, replacement@) is None,
        },
{
    match regex::Regex::new(pattern) {
        Ok(re) => Ok(re.replace_all(text, replacement).into_owned()),
        Err(e) => Err(e),
    }
}

} // verus!
