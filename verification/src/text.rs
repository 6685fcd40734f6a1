//! The string operations of the standard library that the text filter rests
//! on. Each function here makes one call and nothing else; what is stated of
//! the call is taken on trust.

use vstd::prelude::*;

verus! {

/// The text that `str::trim` returns for `text`: `text` without its leading
/// and trailing white space. Which characters are white space is a matter of
/// the Unicode tables and is not spelled out here.
pub uninterp spec fn trimmed_of(text: Seq<char>) -> Seq<char>;

/// The text that `str::to_lowercase` returns for `text`. The mapping follows
/// the Unicode tables and is not spelled out here.
pub uninterp spec fn lowercase_of(text: Seq<char>) -> Seq<char>;

/// The text that `str::replace` returns for `text`: `text` with every match
/// of `from`, found from the left and not overlapping, replaced by `to`.
pub uninterp spec fn replaced_of(text: Seq<char>, from: Seq<char>, to: Seq<char>) -> Seq<char>;

/// `needle` occurs in `hay` as a run of consecutive characters.
pub open spec fn is_substring(needle: Seq<char>, hay: Seq<char>) -> bool {
    exists|at: int|
        0 <= at && at + needle.len() <= hay.len() && #[trigger] hay.subrange(
            at,
            at + needle.len(),
        ) == needle
}

/// `prefix` is how `text` begins.
pub open spec fn is_prefix(prefix: Seq<char>, text: Seq<char>) -> bool {
    prefix.len() <= text.len() && text.subrange(0, prefix.len() as int) == prefix
}

/// Calls `str::trim`. Trusted: the result is `text` with leading and trailing
/// white space removed, which `trimmed_of` names.
#[verifier::external_body]
pub(crate) fn trimmed<'a>(text: &'a str) -> (out: &'a str)
    ensures
        out@ == trimmed_of(text@),
{
    text.trim()
}

/// Calls `str::to_lowercase`. Trusted: the result is the lowercase
/// equivalent of `text`, which `lowercase_of` names.
#[verifier::external_body]
pub(crate) fn lowercased(text: &str) -> (out: String)
    ensures
        out@ == lowercase_of(text@),
{
    text.to_lowercase()
}

/// Calls `str::contains` with a string pattern. Trusted: the result says
/// whether `needle` matches a sub-slice of `hay`.
#[verifier::external_body]
pub(crate) fn has_substring(hay: &str, needle: &str) -> (found: bool)
    ensures
        found == is_substring(needle@, hay@),
{
    hay.contains(needle)
}

/// Calls `str::starts_with` with a string pattern. Trusted: the result says
/// whether `prefix` matches a prefix of `text`.
#[verifier::external_body]
pub(crate) fn has_prefix(text: &str, prefix: &str) -> (found: bool)
    ensures
        found == is_prefix(prefix@, text@),
{
    text.starts_with(prefix)
}

/// Calls `str::replace` with a string pattern. Trusted: the result is
/// `text` with all matches of `from` replaced by `to`, which `replaced_of`
/// names.
#[verifier::external_body]
pub(crate) fn replaced(text: &str, from: &str, to: &str) -> (out: String)
    ensures
        out@ == replaced_of(text@, from@, to@),
{
    text.replace(from, to)
}

/// Calls `str::eq`. Trusted: two string slices are equal exactly when they
/// hold the same characters.
#[verifier::external_body]
pub(crate) fn same_text(a: &str, b: &str) -> (same: bool)
    ensures
        same == (a@ == b@),
{
    a == b
}

} // verus!
