//! The structured errors that the sanitizers and command helpers return.
//!
//! Every fallible operation surfaces invalid input as one of these
//! variants; none of the library's verified functions panics.

use vstd::prelude::*;

verus! {

/// An input-shaped, recoverable failure.
#[derive(Debug, Clone)]
pub enum AppError {
    /// The URL was empty, too long, used a disallowed scheme, or pointed
    /// at a local or private network address.
    InvalidUrl(String),
    /// The output path was empty, too long, relative, or contained a
    /// parent-directory component.
    FileError(String),
    /// Any other input-shaped failure: template violations, unsupported
    /// browsers, interop failures.
    Custom(String),
}

impl AppError {
    /// The free-text message carried by the error.
    pub fn message(&self) -> (r: &String)
        ensures
            self matches AppError::InvalidUrl(m) ==> r@ == m@,
            self matches AppError::FileError(m) ==> r@ == m@,
            self matches AppError::Custom(m) ==> r@ == m@,
    {
        match self {
            AppError::InvalidUrl(m) => m,
            AppError::FileError(m) => m,
            AppError::Custom(m) => m,
        }
    }
}

} // verus!
