//! The interface of the process-edge error handlers.

use vstd::prelude::*;

verus! {

/// A trait that defines functions that will report an error and exit with an
/// error code. These can be used instead of panics to have clean logging in
/// the console.
///
/// Terminating the process is the prerogative of the process entry point, so
/// the library only states the interface; the entry point supplies the
/// implementations for `Option` and `Result` and decides how the error is
/// reported before it exits.
pub trait ExitWithError<T> {
    /// Unwraps an option or result, yielding the content of a `Some` or `Ok`.
    ///
    /// Reports the text provided by `msg` if the value is a `None` or `Err`
    /// and exits with an error code.
    fn expect_or_exit(self, msg: &str) -> T;

    /// Unwraps an option or result, yielding the content of a `Some` or `Ok`.
    ///
    /// Exits with an error code if the value is a `None` or `Err`. If the
    /// value is an `Err` the corresponding error message will be reported.
    fn unwrap_or_exit(self) -> T;
}

} // verus!
