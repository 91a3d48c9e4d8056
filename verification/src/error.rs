//! What can go wrong while a trust graph is read, built or analysed.

use vstd::prelude::*;

verus! {

#[derive(Clone, Debug, PartialEq, Eq)]
pub enum FbasError {
    /// The input text does not have the expected shape.
    ParseError(String),
    /// A quorum set is nested more deeply than `QUORUM_SET_MAX_DEPTH` allows.
    QuorumSetTooDeep,
    /// A validator is declared more than once.
    DuplicateValidator(String),
    /// The library reached a state that its own rules exclude, or a limit
    /// of the machine.
    InternalError(&'static str),
    /// A wire-format record could not be decoded.
    XdrDecodeError(String),
}

} // verus!
