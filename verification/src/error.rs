//! Error kinds for matching operations.
//!
//! Every operation has a three-way outcome: success with matches, success
//! with no matches (not an error), or one of the hard errors below.

use vstd::prelude::*;

verus! {

/// A hard error of a matching operation.
#[derive(Debug, Clone, Copy, PartialEq, Eq, Structural, Hash)]
pub enum ZlobError {
    /// An internal buffer could not grow; the current call fails and is
    /// never retried internally.
    NoSpace,
    /// A directory was unreadable under the abort-on-error option, the
    /// caller's error callback asked to stop, or the pattern was malformed.
    Aborted,
}

impl ZlobError {
    /// Decodes a numeric result code.
    ///
    /// Returns `Ok(true)` for success with matches, `Ok(false)` for the
    /// no-match outcome, and the error kind otherwise; every unknown code
    /// is treated as an abort.
    pub fn from_code(code: i32) -> (r: Result<bool, Self>)
        ensures
            code == 0 ==> r == Result::<bool, Self>::Ok(true),
            code == 3 ==> r == Result::<bool, Self>::Ok(false),
            code == 1 ==> r == Result::<bool, Self>::Err(ZlobError::NoSpace),
            code != 0 && code != 1 && code != 3 ==> r == Result::<bool, Self>::Err(
                ZlobError::Aborted,
            ),
    {
        match code {
            0 => Ok(true),
            3 => Ok(false),
            1 => Err(ZlobError::NoSpace),
            2 => Err(ZlobError::Aborted),
            _ => Err(ZlobError::Aborted),
        }
    }

    /// A short human-readable description of the error.
    pub fn message(&self) -> (r: &'static str)
        ensures
            *self == ZlobError::NoSpace ==> r@ == "out of memory"@,
            *self == ZlobError::Aborted ==> r@ == "operation aborted or read error"@,
    {
        match self {
            ZlobError::NoSpace => "out of memory",
            ZlobError::Aborted => "operation aborted or read error",
        }
    }
}

} // verus!
