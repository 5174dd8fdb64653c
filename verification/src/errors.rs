//! Typed errors for the decoders and for the interpreter transport.

use vstd::prelude::*;

verus! {

/// Why a lambda term failed to decode.
///
/// The decoders are total over their inputs: every malformed term maps to
/// exactly one of these variants, and the decoder contracts say which.
#[derive(Debug, Clone, Copy, PartialEq, Eq, Structural)]
pub enum DecodeError {
    /// A CLNI term or rectangle expression was empty.
    EmptyTerm,
    /// A term that must open with `(` did not.
    MissingOpenParen,
    /// A pair or tuple wrapper had no second `(` after its selector binder.
    MissingSecondParen,
    /// No `\` (lambda) symbol was found in the term.
    NoLambdaSymbol,
    /// Parenthesis nesting never returned to zero, or a bound-variable name
    /// ran off the end of the term.
    UnterminatedTerm,
    /// A binder list had no closing `.`.
    UnterminatedBinderList,
    /// A Church boolean had no space after its first bound variable.
    MissingSeparator,
    /// A Church boolean had no `.` after its second bound variable.
    MissingDot,
    /// A Church boolean body matched neither bound variable.
    BodyMismatch,
}

/// A failure of the channel to the interpreter process.
///
/// Only `ProcessTerminated` is ever produced by this crate's own logic (see
/// `lambda::classify_read`); the other variants carry operating-system error
/// text observed by the unverified process-handling code around the library.
#[derive(Debug, PartialEq, Eq)]
pub enum TransportError {
    /// The lambda source file could not be opened or read.
    Config(String),
    /// The interpreter process could not be spawned.
    Spawn(String),
    /// A pipe read or write failed.
    Io(String),
    /// The interpreter exited while a request was still waiting for its
    /// response line; the request text is carried verbatim.
    ProcessTerminated { pending: String },
}

} // verus!
