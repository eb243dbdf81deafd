//! The failures that the services report.

use vstd::prelude::*;

verus! {

/// A failure, by the kind of answer that it calls for.
#[derive(Clone, Copy, Debug, PartialEq, Eq, Structural)]
pub enum AppError {
    BadRequest,
    Unauthorized,
    NotFound,
    Conflict,
    InternalServerError,
}

} // verus!
