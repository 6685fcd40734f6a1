use argon2::{Argon2, PasswordHasher};
use argon2::password_hash::SaltString;
use media_catalog::error::AppError;
use media_catalog::model::RepoError;
use media_catalog::password::{
    check_login, check_password, hash_or_bad_request, login_lookup_failed, login_outcome,
    register_password, PasswordCheck,
};

#[test]
fn registered_password_logs_in() {
    let stored = register_password("correct horse").unwrap();
    assert_ne!(stored, "correct horse");
    assert!(stored.starts_with("$argon2"));
    assert!(check_login(&stored, "correct horse").is_ok());
    assert!(matches!(check_password(&stored, "correct horse"), PasswordCheck::Valid));
}

#[test]
fn wrong_password_is_refused() {
    let stored = register_password("correct horse").unwrap();
    assert!(matches!(check_password(&stored, "battery staple"), PasswordCheck::Invalid));
    assert!(matches!(check_password(&stored, ""), PasswordCheck::Invalid));
    assert!(matches!(
        check_login(&stored, "Correct horse"),
        Err(AppError::Unauthorized(m)) if m == "Invalid username or password"
    ));
}

#[test]
fn two_hashes_of_one_password_differ_and_both_check() {
    let first = register_password("same").unwrap();
    let second = register_password("same").unwrap();
    assert_ne!(first, second);
    assert!(check_login(&first, "same").is_ok());
    assert!(check_login(&second, "same").is_ok());
}

#[test]
fn hash_made_elsewhere_checks_too() {
    let salt = SaltString::from_b64("c29tZXNhbHRzb21lc2FsdA").unwrap();
    let stored = Argon2::default().hash_password(b"hunter42", &salt).unwrap().to_string();
    assert!(check_login(&stored, "hunter42").is_ok());
    assert!(check_login(&stored, "hunter43").is_err());
}

#[test]
fn unreadable_hash_is_an_internal_error() {
    assert!(matches!(check_password("not a hash", "pw"), PasswordCheck::Unreadable(_)));
    assert!(matches!(check_password("", "pw"), PasswordCheck::Unreadable(_)));
    assert!(matches!(
        check_login("plain-text-password", "plain-text-password"),
        Err(AppError::Internal { public_message, context })
            if public_message == "Internal server error"
                && context.starts_with("users.login invalid password hash: ")
                && context.len() > "users.login invalid password hash: ".len()
    ));
}

#[test]
fn login_outcome_follows_the_check() {
    assert!(login_outcome(PasswordCheck::Valid).is_ok());
    assert!(matches!(
        login_outcome(PasswordCheck::Invalid),
        Err(AppError::Unauthorized(m)) if m == "Invalid username or password"
    ));
    assert!(matches!(
        login_outcome(PasswordCheck::Unreadable("bad salt".to_string())),
        Err(AppError::Internal { context, .. })
            if context == "users.login invalid password hash: bad salt"
    ));
}

#[test]
fn unknown_user_gets_the_same_refusal() {
    for error in [RepoError::NotFound, RepoError::StorageError] {
        assert!(matches!(
            login_lookup_failed(error),
            AppError::Unauthorized(m) if m == "Invalid username or password"
        ));
    }
}

#[test]
fn failed_hashing_refuses_the_password() {
    assert!(matches!(hash_or_bad_request(Ok("stored".to_string())), Ok(kept) if kept == "stored"));
    assert!(matches!(
        hash_or_bad_request(Err("too long".to_string())),
        Err(AppError::BadRequest(m)) if m == "Invalid password: too long"
    ));
}
