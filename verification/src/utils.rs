//! Session tokens and password hashes.

use crate::errors::AppError;
use argon2::password_hash::rand_core::OsRng;
use argon2::password_hash::{PasswordHash, PasswordHasher, PasswordVerifier, Salt, SaltString};
use argon2::Argon2;
use rand::Rng;
use vstd::prelude::*;

verus! {

/// The number of characters of a session token.
pub const SESSION_TOKEN_LENGTH: usize = 30;

/// The number of characters that a session token is drawn from.
pub const SESSION_ALPHABET_SIZE: usize = 62;

/// The characters that a session token is drawn from: the capital letters,
/// the small letters, the digits.
pub open spec fn session_alphabet() -> Seq<char> {
    "ABCDEFGHIJKLMNOPQRSTUVWXYZabcdefghijklmnopqrstuvwxyz0123456789"@
}

/// `s` has the form of a session token: 30 characters of the alphabet.
pub open spec fn is_session_token(s: Seq<char>) -> bool {
    s.len() == SESSION_TOKEN_LENGTH && forall|i: int|
        0 <= i < s.len() ==> session_alphabet().contains(#[trigger] s[i])
}

/// The string that a list of places in the alphabet spells, where each
/// place lies in the alphabet.
pub open spec fn spelled(indices: Seq<usize>) -> Seq<char> {
    Seq::new(indices.len(), |i: int| session_alphabet()[indices[i] as int])
}

/// Every place lies in the alphabet.
pub open spec fn all_in_alphabet(indices: Seq<usize>) -> bool {
    forall|i: int| 0 <= i < indices.len() ==> (#[trigger] indices[i]) < SESSION_ALPHABET_SIZE
}

/// The generator of random numbers that `rand` keeps for each thread.
#[verifier::external_type_specification]
#[verifier::external_body]
pub struct ExThreadRng(rand::rngs::ThreadRng);

/// `rand::thread_rng`: the generator of the calling thread. Nothing is
/// claimed of it.
#[verifier::external_body]
fn thread_generator() -> rand::rngs::ThreadRng {
    rand::thread_rng()
}

/// `rand::Rng::gen_range` on the range from 0 up to, not including,
/// `bound`: the number drawn lies in that range. An empty range makes it
/// panic, so `bound` is not 0.
#[verifier::external_body]
fn draw_below(rng: &mut rand::rngs::ThreadRng, bound: usize) -> (drawn: usize)
    requires
        bound > 0,
    ensures
        drawn < bound,
{
    rng.gen_range(0..bound)
}

/// `SaltString::generate` with the system's generator: a fresh salt, in
/// its text form. Nothing is claimed of it.
#[verifier::external_body]
fn fresh_salt() -> String {
    SaltString::generate(&mut OsRng).as_str().to_string()
}

/// The text that `PasswordHasher::hash_password` of `Argon2::default()`
/// gives for a password under a salt in its text form; `None` where the
/// text is no salt, and where the hasher fails.
pub uninterp spec fn argon2_hash_text(password: Seq<char>, salt: Seq<char>) -> Option<Seq<char>>;

/// What a hash, or the lack of one, reads as.
pub open spec fn text_of(hashed: Option<String>) -> Option<Seq<char>> {
    match hashed {
        Some(h) => Some(h@),
        None => None,
    }
}

/// `PasswordHasher::hash_password` of `Argon2::default()`, on a salt that
/// `Salt::from_b64` reads from its text form: the hash in its text form, or
/// nothing where the text is no salt or the hasher fails. The text depends
/// on the password and the salt alone.
#[verifier::external_body]
fn argon2_hash(password: &str, salt: &str) -> (hashed: Option<String>)
    ensures
        text_of(hashed) == argon2_hash_text(password@, salt@),
{
    match Salt::from_b64(salt) {
        Ok(salt) => match Argon2::default().hash_password(password.as_bytes(), salt) {
            Ok(hash) => Some(hash.to_string()),
            Err(_) => None,
        },
        Err(_) => None,
    }
}

/// Whether `PasswordHash::new` accepts a text as a hash in the PHC string
/// format.
pub uninterp spec fn phc_parses(hashed: Seq<char>) -> bool;

/// Whether `PasswordVerifier::verify_password` of `Argon2::default()` accepts
/// a password for a hash that parses.
pub uninterp spec fn argon2_accepts(hashed: Seq<char>, password: Seq<char>) -> bool;

/// `PasswordHash::new`: whether the text parses as a hash.
#[verifier::external_body]
fn parses_as_hash(hashed: &str) -> (ok: bool)
    ensures
        ok == phc_parses(hashed@),
{
    PasswordHash::new(hashed).is_ok()
}

/// `PasswordVerifier::verify_password` of `Argon2::default()`, on a hash
/// that parses: whether the verifier accepts the password for the hash. It
/// hashes the password with the parameters and the salt that the hash
/// names, in the memory that they ask for, and compares the two outputs.
#[verifier::external_body]
fn accepts_password(hashed: &str, password: &str) -> (ok: bool)
    requires
        phc_parses(hashed@),
    ensures
        ok == argon2_accepts(hashed@, password@),
{
    match PasswordHash::new(hashed) {
        Ok(parsed) => Argon2::default().verify_password(password.as_bytes(), &parsed).is_ok(),
        Err(_) => false,
    }
}

/// The token that a list of places in the alphabet spells; `None` where a
/// place lies outside the alphabet.
pub fn token_from_indices(indices: &Vec<usize>) -> (token: Option<String>)
    ensures
        all_in_alphabet(indices@) ==> token.is_some() && token.unwrap()@ == spelled(indices@),
        !all_in_alphabet(indices@) ==> token.is_none(),
{
    let alphabet = "ABCDEFGHIJKLMNOPQRSTUVWXYZabcdefghijklmnopqrstuvwxyz0123456789";
    proof {
        reveal_strlit("ABCDEFGHIJKLMNOPQRSTUVWXYZabcdefghijklmnopqrstuvwxyz0123456789");
    }
    let mut token = String::new();
    let mut i: usize = 0;
    while i < indices.len()
        invariant
            i <= indices@.len(),
            alphabet@ == session_alphabet(),
            alphabet@.len() == SESSION_ALPHABET_SIZE,
            alphabet.is_ascii(),
            token@.len() == i,
            forall|j: int| 0 <= j < i ==> (#[trigger] indices@[j]) < SESSION_ALPHABET_SIZE,
            forall|j: int|
                0 <= j < i ==> #[trigger] token@[j] == session_alphabet()[indices@[j] as int],
        decreases indices@.len() - i,
    {
        let idx: usize = indices[i];
        if idx >= SESSION_ALPHABET_SIZE {
            return None;
        }
        let letter = alphabet.substring_ascii(idx, idx + 1);
        token.append(letter);
        i += 1;
    }
    proof {
        assert(token@ =~= spelled(indices@));
    }
    Some(token)
}

/// A fresh session token: 30 characters, each drawn at random from the
/// alphabet.
pub fn generate_session_token() -> (token: String)
    ensures
        is_session_token(token@),
{
    let mut rng = thread_generator();
    let mut indices: Vec<usize> = Vec::new();
    let mut i: usize = 0;
    while i < SESSION_TOKEN_LENGTH
        invariant
            i <= SESSION_TOKEN_LENGTH,
            indices@.len() == i,
            all_in_alphabet(indices@),
        decreases SESSION_TOKEN_LENGTH - i,
    {
        let idx: usize = draw_below(&mut rng, SESSION_ALPHABET_SIZE);
        indices.push(idx);
        i += 1;
    }
    match token_from_indices(&indices) {
        Some(token) => {
            proof {
                reveal_strlit("ABCDEFGHIJKLMNOPQRSTUVWXYZabcdefghijklmnopqrstuvwxyz0123456789");
                assert forall|j: int| 0 <= j < token@.len() implies session_alphabet().contains(
                    #[trigger] token@[j],
                ) by {
                    assert(indices@[j] < SESSION_ALPHABET_SIZE);
                    assert(token@[j] == session_alphabet()[indices@[j] as int]);
                }
            }
            token
        },
        None => vstd::pervasive::unreached(),
    }
}

/// What is reported for the outcome of hashing: the hash, or an internal
/// failure where the hasher gave none.
pub fn hash_outcome(hashed: Option<String>) -> (r: Result<String, AppError>)
    ensures
        r == (match hashed {
            Some(h) => Ok::<String, AppError>(h),
            None => Err::<String, AppError>(AppError::InternalServerError),
        }),
{
    match hashed {
        Some(h) => Ok(h),
        None => Err(AppError::InternalServerError),
    }
}

/// `r` reports the outcome of hashing: the hash where there is one, and an
/// internal failure where there is none.
pub open spec fn reports_hash(outcome: Option<Seq<char>>, r: Result<String, AppError>) -> bool {
    match outcome {
        Some(text) => r.is_ok() && r.unwrap()@ == text,
        None => r == Err::<String, AppError>(AppError::InternalServerError),
    }
}

/// Hashes a password under a given salt, as Argon2 with its default
/// parameters does: the same password and salt give the same hash. A text
/// that is no salt, and a failure of the hasher, are reported as an
/// internal failure.
pub fn hash_password_with_salt(password: &str, salt: &str) -> (r: Result<String, AppError>)
    ensures
        reports_hash(argon2_hash_text(password@, salt@), r),
{
    hash_outcome(argon2_hash(password, salt))
}

/// Hashes a password with a fresh salt, as Argon2 with its default
/// parameters does: the result is what `hash_password_with_salt` gives for
/// the password under some salt. The only failure is an internal one.
pub fn hash_password(password: &str) -> (r: Result<String, AppError>)
    ensures
        exists|salt: Seq<char>| reports_hash(#[trigger] argon2_hash_text(password@, salt), r),
        r.is_err() ==> r == Err::<String, AppError>(AppError::InternalServerError),
{
    let salt = fresh_salt();
    let r = hash_password_with_salt(password, salt.as_str());
    proof {
        assert(reports_hash(argon2_hash_text(password@, salt@), r));
    }
    r
}

/// What is reported for a password check: an internal failure where the
/// stored hash does not parse, and otherwise whether the password was
/// accepted.
pub open spec fn password_verdict(parses: bool, accepted: bool) -> Result<bool, AppError> {
    if parses {
        Ok(accepted)
    } else {
        Err(AppError::InternalServerError)
    }
}

/// The verdict on a password check, from whether the hash parsed and
/// whether the password was accepted.
pub fn verdict(parses: bool, accepted: bool) -> (r: Result<bool, AppError>)
    ensures
        r == password_verdict(parses, accepted),
{
    if parses {
        Ok(accepted)
    } else {
        Err(AppError::InternalServerError)
    }
}

/// Checks a password against a stored hash.
pub fn verify_password(hashed_password: &str, input_password: &str) -> (r: Result<bool, AppError>)
    ensures
        r == password_verdict(
            phc_parses(hashed_password@),
            argon2_accepts(hashed_password@, input_password@),
        ),
{
    if parses_as_hash(hashed_password) {
        verdict(true, accepts_password(hashed_password, input_password))
    } else {
        verdict(false, false)
    }
}

} // verus!
