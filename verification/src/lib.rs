//! A small state-vector simulator for quantum circuits.
//!
//! The register of `n` qubit lines is held as its full vector of `2^n`
//! complex amplitudes. A program is a list of named gates, each addressed to
//! one or two lines; the machine steps through it forwards and backwards.
//! Every step builds a dense `2^n` by `2^n` operator, so the cost of a step
//! grows as `4^n` (and as `8^n` where a gate on two lines has to be
//! routed): the machine is meant for small registers only.
//!
//! Basis state `i` has line `q` set exactly where bit `q` of `i` (the bit of
//! weight `2^q`) is set.

pub mod algebra;
pub mod complex;
pub mod error;
pub mod gates;
pub mod laws;
pub mod lift;
pub mod matrix;
pub mod program;
pub mod qvm;
pub mod ring;
pub mod standard;
pub mod step;
pub mod text;
pub mod unitary;

pub use complex::{eq, is_zero, Complex};
pub use error::QvmError;
pub use gates::{standard_gates, Arity, GateEntry, GateTable};
pub use lift::{join_gates, lift_gate, vecify, vecify2, MAX_QUBITS};
pub use matrix::{dot_product, tensor_product, Matrix};
pub use program::Instruction;
pub use qvm::{fmt_tensor, pow, zero, QVM};
