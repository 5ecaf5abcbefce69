//! What an instruction does to the register, stated over any scalar type.

use crate::algebra::{apply, join, lift, Scalar};
use crate::error::QvmError;
use crate::gates::{table_lookup, Table};
use crate::program::InstructionView;
use crate::text::index_below;
use vstd::arithmetic::power2::pow2;
use vstd::prelude::*;

verus! {

/// The state in which every line is clear: amplitude one for basis state 0,
/// zero for every other.
pub open spec fn basis_zero<S: Scalar>(qubits: nat) -> Seq<S> {
    Seq::new(
        pow2(qubits),
        |i: int|
            if i == 0 {
                S::one()
            } else {
                S::zero()
            },
    )
}

/// The operators that carry a gate on two lines to the lines `low` and
/// `high`: the swaps of the lines `(high - 1, high)`, `(high - 2, high - 1)`
/// down to `(low, low + 1)`, which bring line `high` next to line `low`, and
/// after them `gate` on the lines `low` and `low + 1`.
pub open spec fn route<S: Scalar>(
    gate: Seq<Seq<S>>,
    swap: Seq<Seq<S>>,
    low: nat,
    high: nat,
    qubits: nat,
) -> Seq<Seq<Seq<S>>> {
    Seq::new(
        (high - low + 1) as nat,
        |i: int|
            if i < high - low {
                lift(swap, (high - 1 - i) as nat, qubits)
            } else {
                lift(gate, low, qubits)
            },
    )
}

/// The operator on the whole register that an instruction stands for, or
/// the reason why it stands for none.
///
/// A gate on one line is lifted to its line. A gate on two lines is routed:
/// the swaps of `route` are applied, then that gate, then the swaps in
/// reverse, all joined into one operator. The first operand of its
/// matrix then acts on the lower of the two lines, whichever way round the
/// instruction names them.
pub open spec fn step_operator<S: Scalar>(
    table: Table<S>,
    instruction: InstructionView,
    qubits: nat,
) -> Result<Seq<Seq<S>>, QvmError> {
    match instruction {
        InstructionView::Malformed => Err(QvmError::InvalidProgram),
        InstructionView::Single(name, qb) => match table_lookup(table, name) {
            None => Err(QvmError::UnknownGate),
            Some(gate) => if gate.len() != 2 {
                Err(QvmError::GateArityMismatch)
            } else {
                match index_below(qb, qubits) {
                    None => Err(QvmError::QubitOutOfRange),
                    Some(line) => Ok(lift(gate, line as nat, qubits)),
                }
            },
        },
        InstructionView::Double(name, qb0, qb1) => match table_lookup(table, name) {
            None => Err(QvmError::UnknownGate),
            Some(gate) => if gate.len() != 4 {
                Err(QvmError::GateArityMismatch)
            } else {
                match (index_below(qb0, qubits), index_below(qb1, qubits)) {
                    (Some(a), Some(b)) => if a == b {
                        Err(QvmError::InvalidQubitTarget)
                    } else {
                        match table_lookup(table, "swap"@) {
                            None => Err(QvmError::UnknownGate),
                            Some(swap) => if swap.len() != 4 {
                                Err(QvmError::GateArityMismatch)
                            } else {
                                let low = if a < b {
                                    a
                                } else {
                                    b
                                };
                                let high = if a < b {
                                    b
                                } else {
                                    a
                                };
                                Ok(join(route(gate, swap, low as nat, high as nat, qubits)))
                            },
                        }
                    },
                    _ => Err(QvmError::QubitOutOfRange),
                }
            },
        },
    }
}

/// A machine as contracts see it, over any scalar type.
pub ghost struct Machine<S> {
    /// The number of lines of the register.
    pub qubits: nat,
    /// The number of instructions that have been carried out.
    pub counter: nat,
    /// The amplitudes of the basis states.
    pub state: Seq<S>,
    /// The program.
    pub program: Seq<InstructionView>,
    /// The gates that the program may name.
    pub gates: Table<S>,
}

impl<S: Scalar> Machine<S> {
    /// The state has one amplitude for each basis state, and the counter
    /// is not beyond the program.
    pub open spec fn wf(self) -> bool {
        &&& self.state.len() == pow2(self.qubits)
        &&& self.counter <= self.program.len()
    }

    /// The operator of the instruction at place `at` of the program.
    pub open spec fn operator_at(self, at: int) -> Result<Seq<Seq<S>>, QvmError> {
        step_operator(self.gates, self.program[at], self.qubits)
    }

    /// The machine with the operator `op` applied to its state and its
    /// counter at `counter`.
    pub open spec fn stepped(self, op: Seq<Seq<S>>, counter: nat) -> Machine<S> {
        Machine { counter, state: apply(op, self.state), ..self }
    }

    /// The machine after a step forwards: at the end of the program, and
    /// where the instruction at the counter cannot be carried out, it is
    /// the machine itself.
    pub open spec fn next(self) -> Machine<S> {
        if self.counter < self.program.len() {
            match self.operator_at(self.counter as int) {
                Ok(op) => self.stepped(op, self.counter + 1),
                Err(_) => self,
            }
        } else {
            self
        }
    }

    /// What a step forwards answers.
    pub open spec fn next_result(self) -> Result<(), QvmError> {
        if self.counter < self.program.len() {
            match self.operator_at(self.counter as int) {
                Ok(_) => Ok(()),
                Err(e) => Err(e),
            }
        } else {
            Ok(())
        }
    }

    /// The machine after a step backwards: at the start of the program, and
    /// where the instruction before the counter cannot be carried out, it
    /// is the machine itself.
    pub open spec fn prev(self) -> Machine<S> {
        if self.counter > 0 {
            match self.operator_at(self.counter - 1) {
                Ok(op) => self.stepped(op, (self.counter - 1) as nat),
                Err(_) => self,
            }
        } else {
            self
        }
    }

    /// What a step backwards answers.
    pub open spec fn prev_result(self) -> Result<(), QvmError> {
        if self.counter > 0 {
            match self.operator_at(self.counter - 1) {
                Ok(_) => Ok(()),
                Err(e) => Err(e),
            }
        } else {
            Ok(())
        }
    }

    /// The machine at the start of its program, with every line clear.
    pub open spec fn reset(self) -> Machine<S> {
        Machine { counter: 0, state: basis_zero(self.qubits), ..self }
    }
}

} // verus!
