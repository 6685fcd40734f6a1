//! Identifiers as text. Reading and writing the textual form is the work of
//! the `uuid` crate; what is stated of its functions here is taken on trust.

use vstd::prelude::*;

verus! {

/// The error with which `uuid` refuses a text.
#[verifier::external_type_specification]
#[verifier::external_body]
pub struct ExUuidError(uuid::Error);

/// The identifier that `uuid::Uuid::parse_str` reads from `text`, as a
/// 128-bit number in big-endian order, or `None` where it refuses the text.
/// The accepted forms (simple, hyphenated, URN, braced) are not spelled out
/// here.
pub uninterp spec fn uuid_of_text(text: Seq<char>) -> Option<u128>;

/// The text that `uuid::Uuid` displays for the identifier `id`: 32 lower-case
/// hexadecimal digits in five groups with hyphens between them.
pub uninterp spec fn hyphenated_of(id: u128) -> Seq<char>;

/// Calls `uuid::Uuid::parse_str` and hands the identifier back as a number
/// (`Uuid::as_u128`). Trusted: the outcome is a function of the text alone,
/// named by `uuid_of_text`.
#[verifier::external_body]
pub(crate) fn parse_uuid_text(text: &str) -> (parsed: Result<u128, uuid::Error>)
    ensures
        match parsed {
            Ok(id) => uuid_of_text(text@) == Some(id),
            Err(_) => uuid_of_text(text@) is None,
        },
{
    match uuid::Uuid::parse_str(text) {
        Ok(id) => Ok(id.as_u128()),
        Err(error) => Err(error),
    }
}

/// Calls `to_string` on the `uuid::Uuid` made of `id` (`Uuid::from_u128`).
/// Trusted: the text is the hyphenated form, which `hyphenated_of` names,
/// and that form is 36 characters long.
#[verifier::external_body]
pub(crate) fn uuid_text(id: u128) -> (text: String)
    ensures
        text@ == hyphenated_of(id),
        text@.len() == 36,
{
    uuid::Uuid::from_u128(id).to_string()
}

} // verus!
