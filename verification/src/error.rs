//! The errors that reach a client, and how store errors turn into them.

use crate::model::RepoError;
use vstd::prelude::*;
use vstd::string::StringExecFns;

verus! {

/// An error as a client sees it. `Internal` keeps what went wrong in
/// `context` and shows the client `public_message` only.
#[derive(Debug)]
pub enum AppError {
    BadRequest(String),
    Unauthorized(String),
    NotFound(String),
    Conflict(String),
    Internal { public_message: String, context: String },
}

/// What a client is told of any internal error.
pub open spec fn internal_message() -> Seq<char> {
    "Internal server error"@
}

impl AppError {
    /// The text that the client is shown.
    pub open spec fn message(self) -> Seq<char> {
        match self {
            AppError::BadRequest(message) => message@,
            AppError::Unauthorized(message) => message@,
            AppError::NotFound(message) => message@,
            AppError::Conflict(message) => message@,
            AppError::Internal { public_message, .. } => public_message@,
        }
    }

    /// The HTTP status that goes with the error.
    pub open spec fn status(self) -> int {
        match self {
            AppError::BadRequest(_) => 400,
            AppError::Unauthorized(_) => 401,
            AppError::NotFound(_) => 404,
            AppError::Conflict(_) => 409,
            AppError::Internal { .. } => 500,
        }
    }

    pub fn bad_request(message: String) -> (error: AppError)
        ensures
            error == AppError::BadRequest(message),
    {
        AppError::BadRequest(message)
    }

    pub fn unauthorized(message: String) -> (error: AppError)
        ensures
            error == AppError::Unauthorized(message),
    {
        AppError::Unauthorized(message)
    }

    pub fn not_found(message: String) -> (error: AppError)
        ensures
            error == AppError::NotFound(message),
    {
        AppError::NotFound(message)
    }

    pub fn conflict(message: String) -> (error: AppError)
        ensures
            error == AppError::Conflict(message),
    {
        AppError::Conflict(message)
    }

    /// An internal error: `context` is kept for the log, the client is shown
    /// a fixed text.
    pub fn internal(context: String) -> (error: AppError)
        ensures
            is_internal(error, context@),
    {
        AppError::Internal { public_message: "Internal server error".to_owned(), context }
    }

    /// The text that the client is shown.
    pub fn public_message(&self) -> (text: &str)
        ensures
            text@ == self.message(),
    {
        match self {
            AppError::BadRequest(message) => message.as_str(),
            AppError::Unauthorized(message) => message.as_str(),
            AppError::NotFound(message) => message.as_str(),
            AppError::Conflict(message) => message.as_str(),
            AppError::Internal { public_message, .. } => public_message.as_str(),
        }
    }

    /// The HTTP status that goes with the error.
    pub fn status_code(&self) -> (code: u16)
        ensures
            code == self.status(),
    {
        match self {
            AppError::BadRequest(_) => 400,
            AppError::Unauthorized(_) => 401,
            AppError::NotFound(_) => 404,
            AppError::Conflict(_) => 409,
            AppError::Internal { .. } => 500,
        }
    }
}

/// `error` is an internal error that keeps `context` and shows the client
/// the fixed text.
pub open spec fn is_internal(error: AppError, context: Seq<char>) -> bool {
    error matches AppError::Internal { public_message, context: kept } && kept@ == context
        && public_message@ == internal_message()
}

/// `a` followed by `b`.
pub fn joined(a: &str, b: &str) -> (text: String)
    ensures
        text@ == a@ + b@,
{
    a.to_owned().concat(b)
}

/// Turns the error of a repository into the error a client sees: a missing
/// record is reported with `not_found_message`, a storage failure as an
/// internal error whose context names the operation.
pub fn map_repo_error(error: RepoError, not_found_message: &str, context: &str) -> (mapped:
    AppError)
    ensures
        match error {
            RepoError::NotFound => mapped matches AppError::NotFound(message) && message@
                == not_found_message@,
            RepoError::StorageError => is_internal(mapped, context@ + ": storage failure"@),
        },
{
    match error {
        RepoError::NotFound => AppError::not_found(not_found_message.to_owned()),
        RepoError::StorageError => AppError::internal(joined(context, ": storage failure")),
    }
}

/// Turns the error of creating a user into the error a client sees: the
/// store refuses a name that is taken.
pub fn map_register_error(error: RepoError) -> (mapped: AppError)
    ensures
        match error {
            RepoError::StorageError => mapped matches AppError::Conflict(message) && message@
                == "User already exists"@,
            RepoError::NotFound => is_internal(
                mapped,
                "users.register impossible not found state"@,
            ),
        },
{
    match error {
        RepoError::StorageError => AppError::conflict("User already exists".to_owned()),
        RepoError::NotFound => AppError::internal(
            "users.register impossible not found state".to_owned(),
        ),
    }
}

} // verus!
