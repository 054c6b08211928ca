//! Errors that publish-path operations surface to their callers.

use vstd::prelude::*;

verus! {

/// A request-level failure: a client error for inputs rejected before any
/// work starts, or a server error for failures of the work itself.
#[derive(Debug)]
pub enum AppError {
    E400(String),
    E500(String),
}

impl AppError {
    /// The HTTP status code this error maps to.
    pub fn status_code(&self) -> (r: u16)
        ensures
            *self is E400 ==> r == 400,
            *self is E500 ==> r == 500,
    {
        match self {
            AppError::E400(_) => 400,
            AppError::E500(_) => 500,
        }
    }

    /// The error's message text.
    pub fn message(&self) -> (r: &String)
        ensures
            *self matches AppError::E400(m) ==> r@ == m@,
            *self matches AppError::E500(m) ==> r@ == m@,
    {
        match self {
            AppError::E400(m) => m,
            AppError::E500(m) => m,
        }
    }
}

} // verus!
