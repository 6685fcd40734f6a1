//! Passwords as they are kept and checked. Hashing and checking is the work
//! of the `argon2` crate; what is stated of its functions here is taken on
//! trust. What a login or a registration makes of the outcome is decided
//! here.

use argon2::{Argon2, PasswordHash, PasswordHasher, PasswordVerifier};
use argon2::password_hash::SaltString;
use argon2::password_hash::rand_core::OsRng;
use crate::error::{is_internal, joined, AppError};
use crate::model::RepoError;
use crate::text::is_prefix;
use vstd::prelude::*;

verus! {

/// The error with which `argon2` refuses a password or a stored hash.
#[verifier::external_type_specification]
#[verifier::external_body]
pub struct ExPasswordHashError(argon2::password_hash::Error);

/// What checking `password` against the stored hash `stored` comes to:
/// `None` where `stored` cannot be read as a password hash, and otherwise
/// whether the password is the one that the hash was made of. The hash
/// function and the format of the stored text are not spelled out here.
pub uninterp spec fn password_verdict(stored: Seq<char>, password: Seq<char>) -> Option<bool>;

/// Reads `stored` with `argon2::PasswordHash::new` and checks `password`
/// against it with `verify_password` of `Argon2::default()`. Trusted: the
/// outcome is a function of the two texts alone, named by
/// `password_verdict`; a stored text that cannot be read is an error.
#[verifier::external_body]
pub(crate) fn verify_stored_password(stored: &str, password: &str) -> (outcome: Result<
    bool,
    argon2::password_hash::Error,
>)
    ensures
        match outcome {
            Ok(valid) => password_verdict(stored@, password@) == Some(valid),
            Err(_) => password_verdict(stored@, password@) is None,
        },
{
    match PasswordHash::new(stored) {
        Ok(parsed) => Ok(Argon2::default().verify_password(password.as_bytes(), &parsed).is_ok()),
        Err(error) => Err(error),
    }
}

/// Hashes `password` with `hash_password` of `Argon2::default()` and a
/// fresh random salt. Trusted: the text that comes out is a stored hash
/// that `password` checks against; which text it is depends on the salt.
#[verifier::external_body]
pub(crate) fn hash_new_password(password: &str) -> (outcome: Result<
    String,
    argon2::password_hash::Error,
>)
    ensures
        outcome matches Ok(stored) ==> password_verdict(stored@, password@) == Some(true),
{
    let salt = SaltString::generate(&mut OsRng);
    match Argon2::default().hash_password(password.as_bytes(), &salt) {
        Ok(hash) => Ok(hash.to_string()),
        Err(error) => Err(error),
    }
}

/// Formats an error of `argon2` with its `Display`. Nothing is stated of
/// the text.
#[verifier::external_body]
pub(crate) fn hash_error_text(error: &argon2::password_hash::Error) -> (text: String) {
    format!("{error}")
}

/// What the check of a password came to.
#[derive(Debug)]
pub enum PasswordCheck {
    /// The password is the right one.
    Valid,
    /// The password is a wrong one.
    Invalid,
    /// The stored hash could not be read; the text says why.
    Unreadable(String),
}

/// The refusal of a login, the same for an unknown name and for a wrong
/// password.
pub open spec fn is_login_refusal(error: AppError) -> bool {
    error matches AppError::Unauthorized(message) && message@ == "Invalid username or password"@
}

/// Checks `password` against the stored hash `stored`.
pub fn check_password(stored: &str, password: &str) -> (check: PasswordCheck)
    ensures
        match password_verdict(stored@, password@) {
            Some(true) => check is Valid,
            Some(false) => check is Invalid,
            None => check is Unreadable,
        },
{
    match verify_stored_password(stored, password) {
        Ok(true) => PasswordCheck::Valid,
        Ok(false) => PasswordCheck::Invalid,
        Err(error) => PasswordCheck::Unreadable(hash_error_text(&error)),
    }
}

/// What a login makes of the check of the password: a wrong password is
/// refused, and a stored hash that cannot be read is an internal error.
pub fn login_outcome(check: PasswordCheck) -> (outcome: Result<(), AppError>)
    ensures
        match check {
            PasswordCheck::Valid => outcome is Ok,
            PasswordCheck::Invalid => outcome matches Err(error) && is_login_refusal(error),
            PasswordCheck::Unreadable(why) => outcome matches Err(error) && is_internal(
                error,
                "users.login invalid password hash: "@ + why@,
            ),
        },
{
    match check {
        PasswordCheck::Valid => Ok(()),
        PasswordCheck::Invalid => Err(
            AppError::unauthorized("Invalid username or password".to_owned()),
        ),
        PasswordCheck::Unreadable(why) => Err(
            AppError::internal(joined("users.login invalid password hash: ", why.as_str())),
        ),
    }
}

/// Decides on a login with `password` for a user whose stored hash is
/// `stored`.
pub fn check_login(stored: &str, password: &str) -> (outcome: Result<(), AppError>)
    ensures
        match password_verdict(stored@, password@) {
            Some(true) => outcome is Ok,
            Some(false) => outcome matches Err(error) && is_login_refusal(error),
            None => outcome matches Err(error) && error is Internal,
        },
{
    login_outcome(check_password(stored, password))
}

/// What a login makes of a user that could not be found: the same refusal
/// as for a wrong password, whatever the store said.
pub fn login_lookup_failed(_error: RepoError) -> (refusal: AppError)
    ensures
        is_login_refusal(refusal),
{
    AppError::unauthorized("Invalid username or password".to_owned())
}

/// The refusal of a password that cannot be hashed; `why` is what the hash
/// function said.
pub open spec fn is_password_refusal(error: AppError, why: Seq<char>) -> bool {
    error matches AppError::BadRequest(message) && message@ == "Invalid password: "@ + why
}

/// What a registration makes of the hashing of the password: the hash to
/// store, or the refusal of the password.
pub fn hash_or_bad_request(hashed: Result<String, String>) -> (outcome: Result<String, AppError>)
    ensures
        match hashed {
            Ok(stored) => outcome matches Ok(kept) && kept == stored,
            Err(why) => outcome matches Err(error) && is_password_refusal(error, why@),
        },
{
    match hashed {
        Ok(stored) => Ok(stored),
        Err(why) => Err(AppError::bad_request(joined("Invalid password: ", why.as_str()))),
    }
}

/// Hashes the password of a registration. Whether and to what the
/// password hashes is up to the hash function and its random salt; where
/// it does, the password checks against the hash, and where it does not,
/// the password is refused as a bad request.
pub fn register_password(password: &str) -> (outcome: Result<String, AppError>)
    ensures
        match outcome {
            Ok(stored) => password_verdict(stored@, password@) == Some(true),
            Err(error) => error matches AppError::BadRequest(message) && is_prefix(
                "Invalid password: "@,
                message@,
            ),
        },
{
    let hashed = match hash_new_password(password) {
        Ok(stored) => Ok(stored),
        Err(error) => Err(hash_error_text(&error)),
    };
    let ghost said = hashed;
    let outcome = hash_or_bad_request(hashed);
    proof {
        if let Err(why) = said {
            let message = "Invalid password: "@ + why@;
            assert(message.subrange(0, "Invalid password: "@.len() as int)
                =~= "Invalid password: "@);
        }
    }
    outcome
}

} // verus!
