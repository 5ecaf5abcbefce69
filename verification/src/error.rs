//! What can go wrong.

use vstd::prelude::*;

verus! {

/// The ways in which a call can fail.
#[derive(Clone, Debug, PartialEq, Eq)]
pub enum QvmError {
    /// A line of a program text is no instruction.
    InvalidProgram,
    /// A text is no gate table; the string says why.
    InvalidGateSpec(String),
    /// An instruction names a gate that the table does not hold.
    UnknownGate,
    /// A gate on one line was asked for and the table holds one on two
    /// lines under that name, or the other way round.
    GateArityMismatch,
    /// An instruction names a line that the register does not have.
    QubitOutOfRange,
    /// An instruction names the same line twice.
    InvalidQubitTarget,
}

} // verus!
