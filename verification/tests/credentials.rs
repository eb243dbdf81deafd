use tow_dispatch::errors::AppError;
use tow_dispatch::utils::{
    generate_session_token, hash_outcome, hash_password, hash_password_with_salt,
    token_from_indices, verdict, verify_password, SESSION_ALPHABET_SIZE, SESSION_TOKEN_LENGTH,
};

#[test]
fn session_token_has_thirty_alphanumerics() {
    let token = generate_session_token();
    assert_eq!(token.chars().count(), 30);
    assert_eq!(token.len(), SESSION_TOKEN_LENGTH);
    assert!(token.chars().all(|c| c.is_ascii_alphanumeric()));
}

#[test]
fn session_tokens_differ() {
    assert_ne!(generate_session_token(), generate_session_token());
}

#[test]
fn token_from_indices_spells_the_alphabet() {
    assert_eq!(token_from_indices(&vec![0, 25, 26, 51, 52, 61]), Some(String::from("AZaz09")));
    assert_eq!(token_from_indices(&vec![7, 4, 11, 11, 14]), Some(String::from("HELLO")));
    assert_eq!(token_from_indices(&vec![]), Some(String::new()));
    let all: Vec<usize> = (0..SESSION_ALPHABET_SIZE).collect();
    assert_eq!(
        token_from_indices(&all),
        Some(String::from("ABCDEFGHIJKLMNOPQRSTUVWXYZabcdefghijklmnopqrstuvwxyz0123456789"))
    );
}

#[test]
fn token_from_indices_rejects_a_place_outside_the_alphabet() {
    assert_eq!(token_from_indices(&vec![62]), None);
    assert_eq!(token_from_indices(&vec![0, 1, usize::MAX]), None);
}

#[test]
fn hash_outcome_maps_a_missing_hash_to_an_internal_failure() {
    assert_eq!(hash_outcome(Some(String::from("h"))), Ok(String::from("h")));
    assert_eq!(hash_outcome(None), Err(AppError::InternalServerError));
}

#[test]
fn verdict_follows_the_parse_and_the_check() {
    assert_eq!(verdict(true, true), Ok(true));
    assert_eq!(verdict(true, false), Ok(false));
    assert_eq!(verdict(false, true), Err(AppError::InternalServerError));
    assert_eq!(verdict(false, false), Err(AppError::InternalServerError));
}

#[test]
fn hashed_password_is_an_argon2id_string_and_verifies() {
    let hashed = hash_password("correct horse").expect("hashing succeeds");
    assert!(hashed.starts_with("$argon2id$v=19$"));
    assert_ne!(hashed, "correct horse");
    assert_eq!(verify_password(&hashed, "correct horse"), Ok(true));
    assert_eq!(verify_password(&hashed, "wrong horse"), Ok(false));
    assert_eq!(verify_password(&hashed, ""), Ok(false));
}

#[test]
fn hashing_twice_uses_two_salts() {
    let a = hash_password("pw").expect("hashing succeeds");
    let b = hash_password("pw").expect("hashing succeeds");
    assert_ne!(a, b);
    assert_eq!(verify_password(&a, "pw"), Ok(true));
    assert_eq!(verify_password(&b, "pw"), Ok(true));
}

#[test]
fn unparsable_hash_is_an_internal_failure() {
    assert_eq!(verify_password("", "pw"), Err(AppError::InternalServerError));
    assert_eq!(verify_password("not a hash", "pw"), Err(AppError::InternalServerError));
    assert_eq!(verify_password("pw", "pw"), Err(AppError::InternalServerError));
}

#[test]
fn parsable_hash_of_another_scheme_accepts_nothing() {
    assert_eq!(verify_password("$scrypt$ln=1$c2FsdHNhbHQ$aGFzaGhhc2hoYXNo", "pw"), Ok(false));
}

#[test]
fn hash_under_a_given_salt_is_fixed_by_password_and_salt() {
    let salt = "c29tZXNhbHRzb21lc2FsdA";
    let a = hash_password_with_salt("pw", salt).expect("hashing succeeds");
    let b = hash_password_with_salt("pw", salt).expect("hashing succeeds");
    assert_eq!(a, b);
    assert!(a.starts_with("$argon2id$v=19$m=19456,t=2,p=1$c29tZXNhbHRzb21lc2FsdA$"));
    let other_password = hash_password_with_salt("pw2", salt).expect("hashing succeeds");
    assert_ne!(a, other_password);
    let other_salt = hash_password_with_salt("pw", "YW5vdGhlcnNhbHQ").expect("hashing succeeds");
    assert_ne!(a, other_salt);
    assert_eq!(verify_password(&a, "pw"), Ok(true));
    assert_eq!(verify_password(&a, "pw2"), Ok(false));
    assert_eq!(verify_password(&other_salt, "pw"), Ok(true));
}

#[test]
fn hash_under_a_text_that_is_no_salt_is_an_internal_failure() {
    assert_eq!(hash_password_with_salt("pw", ""), Err(AppError::InternalServerError));
    assert_eq!(hash_password_with_salt("pw", "abc"), Err(AppError::InternalServerError));
    assert_eq!(
        hash_password_with_salt("pw", "not a salt!"),
        Err(AppError::InternalServerError)
    );
}

#[test]
fn hash_of_the_empty_password_verifies() {
    let hashed = hash_password("").expect("hashing succeeds");
    assert!(hashed.starts_with("$argon2id$v=19$"));
    assert_eq!(verify_password(&hashed, ""), Ok(true));
    assert_eq!(verify_password(&hashed, " "), Ok(false));
}
