use vstd::prelude::*;

verus! {

/// The error kinds of the fuzzer.
///
/// Failures coming from outside collaborators (streams, child processes,
/// the HTTP transport, crypto primitives) are folded into the matching
/// variant at the point where the outside call is made.
#[derive(Clone, Copy, Debug, PartialEq, Eq, Structural)]
pub enum Error {
    /// An error that carries no further information.
    Unknown,
    /// A runner function was invoked with the wrong runner kind tag.
    UnsupportedCommandRunner,
    /// A runner was selected but the options it needs are missing.
    InsufficientRunnerConfiguration,
    /// Splitting the `exec` string into command words failed.
    ArgError,
    /// An expectation pattern is not a valid regular expression.
    InvalidRegex,
    /// Signing a JWT failed.
    JwtSignatureError,
    /// Reading or writing a stream failed.
    Io,
    /// The HTTP transport failed.
    Http,
    /// A cryptographic primitive rejected its input.
    Crypto,
}

/// Result alias used throughout the fuzzer.
pub type FResult<T> = Result<T, Error>;

} // verus!
