//! What the HTTP handlers decide: the answer to a session check and the
//! size of a profile image.

use crate::errors::AppError;
use vstd::prelude::*;

verus! {

/// The side of a profile image, in pixels, where the request names none.
pub const DEFAULT_IMAGE_SIDE: i32 = 500;

/// The query of a session check.
#[derive(Clone, Debug)]
pub struct ValidateSessionQueryParams {
    pub session_token: Option<String>,
}

/// The answer to a session check.
#[derive(Clone, Copy, Debug, PartialEq, Eq, Structural)]
pub struct ValidationResponse {
    pub is_valid: bool,
}

/// The query of a profile image: its width and height, where given.
#[derive(Clone, Copy, Debug, PartialEq, Eq, Structural)]
pub struct UserProfileImageQueryParams {
    pub w: Option<i32>,
    pub h: Option<i32>,
}

impl ValidationResponse {
    /// The answer to a session check, from what the check came to: valid
    /// only where a token was given, the check went through, and the session
    /// is valid. `None` stands for a query without a token.
    pub fn from_check(outcome: Option<Result<bool, AppError>>) -> (response: Self)
        ensures
            response.is_valid == (outcome == Some(Ok::<bool, AppError>(true))),
    {
        match outcome {
            Some(Ok(is_valid)) => ValidationResponse { is_valid },
            _ => ValidationResponse { is_valid: false },
        }
    }
}

impl UserProfileImageQueryParams {
    /// The width asked for, or the default.
    pub fn width(&self) -> (w: i32)
        ensures
            w == (match self.w {
                Some(given) => given,
                None => DEFAULT_IMAGE_SIDE,
            }),
    {
        match self.w {
            Some(given) => given,
            None => DEFAULT_IMAGE_SIDE,
        }
    }

    /// The height asked for, or the default.
    pub fn height(&self) -> (h: i32)
        ensures
            h == (match self.h {
                Some(given) => given,
                None => DEFAULT_IMAGE_SIDE,
            }),
    {
        match self.h {
            Some(given) => given,
            None => DEFAULT_IMAGE_SIDE,
        }
    }
}

} // verus!
