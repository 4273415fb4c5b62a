//! The ways in which loading, resolving, tokenizing and calling fail. Every
//! one of them ends a line of input and leaves the session usable.

use crate::token::TokenizeError;
use vstd::prelude::*;

verus! {

/// What the operating system said about a failure: its error code and the
/// text that goes with it.
#[derive(Clone, Debug, PartialEq, Eq)]
pub struct OsDiagnostic {
    pub code: i32,
    pub message: String,
}

/// Why the call machinery refused a call descriptor.
#[derive(Clone, Copy, Debug, PartialEq, Eq, Structural)]
pub enum Rejection {
    /// A type was described badly or is not supported.
    Typedef,
    /// The calling convention is not supported.
    Abi,
    /// An argument type is not supported.
    ArgType,
    /// The machinery could not allocate what it needs.
    Allocation,
    /// A reason that the machinery gave no name.
    Other,
}

/// Why no call descriptor came about.
#[derive(Clone, Copy, Debug, PartialEq, Eq, Structural)]
pub enum CallFailure {
    /// More arguments than the call machinery can count.
    TooManyArguments,
    /// The argument at `index` is declared `Void`.
    VoidArgument { index: usize },
    /// The value at `index` is not of the type declared for it.
    Mismatch { index: usize },
    /// The call machinery refused the descriptor.
    Rejected(Rejection),
}

/// A failure of the bridge.
#[derive(Clone, Debug, PartialEq, Eq)]
pub enum BridgeError {
    /// No file stands at the path, so the loader was not asked.
    PathNotFound,
    /// The loader refused the file.
    LoadFailed(OsDiagnostic),
    /// The library exports no such name. The diagnostic is missing where
    /// the name holds a zero byte, so that the lookup was never made.
    SymbolNotFound { name: Vec<u8>, diagnostic: Option<OsDiagnostic> },
    /// The argument text is no sequence of literals.
    TokenizeError(TokenizeError),
    /// No call came about.
    CallFailed(CallFailure),
}

} // verus!
