//! The machine: a register, a program and a gate table, stepped forwards
//! and backwards.
//!
//! A step backwards applies the same operator as the step forwards did, so
//! it undoes that step only where the operator is its own inverse. That is
//! so for the gates of the standard table, up to rounding; a gate that a
//! caller puts into the table is taken as it is.

use crate::algebra::Scalar;
use crate::complex::{c0, c1, complex_display, complex_text, is_zero, near_zero, Complex};
use crate::error::QvmError;
use crate::gates::{
    check_entries, gate_table_of_json, json_of_gate_table, standard_gates, standard_table,
    valid_table, Arity, GateTable,
};
use crate::lift::{join_gates, lift_gate, operators, MAX_QUBITS};
use crate::matrix::{dot_product, Matrix};
use crate::program::{
    any_malformed, has_malformed, instruction_views, parse, parse_program, render,
    render_program, Instruction, InstructionView,
};
use crate::step::{basis_zero, route, step_operator, Machine};
use crate::text::{basis_label, ket, parse_index};
use vstd::arithmetic::power::{lemma_pow_increases, lemma_pow_positive};
use vstd::arithmetic::power2::{
    lemma2_to64, lemma_pow2, lemma_pow2_strictly_increases, pow2,
};
use vstd::prelude::*;

verus! {

/// `a` to the power `b`.
pub fn pow(a: usize, b: usize) -> (r: usize)
    requires
        vstd::arithmetic::power::pow(a as int, b as nat) <= usize::MAX,
    ensures
        r == vstd::arithmetic::power::pow(a as int, b as nat),
{
    let mut prod: usize = 1;
    let mut i: usize = 0;
    proof {
        vstd::arithmetic::power::lemma_pow0(a as int);
    }
    while i < b
        invariant
            i <= b,
            prod == vstd::arithmetic::power::pow(a as int, i as nat),
            vstd::arithmetic::power::pow(a as int, b as nat) <= usize::MAX,
        decreases b - i,
    {
        proof {
            vstd::arithmetic::power::lemma_pow_adds(a as int, i as nat, 1);
            vstd::arithmetic::power::lemma_pow1(a as int);
            if a > 0 {
                lemma_pow_increases(a as nat, (i + 1) as nat, b as nat);
            } else {
                assert(prod * a == 0) by (nonlinear_arith)
                    requires
                        a == 0,
                ;
            }
        }
        prod = prod * a;
        i += 1;
    }
    prod
}

/// The state of a register of `qubits` lines in which every line is clear.
pub fn zero(qubits: usize) -> (r: Vec<Complex>)
    requires
        qubits <= MAX_QUBITS,
    ensures
        r@ == basis_zero::<Complex>(qubits as nat),
{
    proof {
        lemma2_to64();
        lemma_pow2(qubits as nat);
        if qubits < 31 {
            lemma_pow2_strictly_increases(qubits as nat, 31);
        }
        lemma_pow_positive(2, qubits as nat);
    }
    let size = pow(2, qubits);
    let mut ret: Vec<Complex> = Vec::new();
    let mut i: usize = 0;
    while i < size
        invariant
            i <= size,
            ret@.len() == i,
            forall|k: int| 0 <= k < i ==> ret@[k] == Complex::zero(),
        decreases size - i,
    {
        ret.push(c0());
        i += 1;
    }
    ret.set(0, c1());
    assert(ret@ =~= basis_zero::<Complex>(qubits as nat));
    ret
}

/// The operator that `instruction` stands for on a register of `qubits`
/// lines, with the gates of `gates`.
pub fn build_operator(gates: &GateTable, instruction: &Instruction, qubits: usize) -> (r: Result<
    Matrix,
    QvmError,
>)
    requires
        gates.wf(),
        qubits <= MAX_QUBITS,
    ensures
        match step_operator(gates@, instruction@, qubits as nat) {
            Ok(op) => r is Ok && r->Ok_0@ == op && r->Ok_0.wf() && op.len() == pow2(qubits as nat),
            Err(e) => r == Err::<Matrix, QvmError>(e),
        },
{
    match instruction {
        Instruction::Malformed => Err(QvmError::InvalidProgram),
        Instruction::Single(name, qb) => {
            let gate = match gates.lookup(name.as_str(), Arity::Single) {
                Ok(gate) => gate,
                Err(e) => {
                    return Err(e);
                },
            };
            assert(gate.wf());
            match parse_index(qb.as_str(), qubits) {
                None => Err(QvmError::QubitOutOfRange),
                Some(line) => Ok(lift_gate(line, gate, qubits)),
            }
        },
        Instruction::Double(name, qb0, qb1) => {
            let gate = match gates.lookup(name.as_str(), Arity::Double) {
                Ok(gate) => gate,
                Err(e) => {
                    return Err(e);
                },
            };
            assert(gate.wf());
            let a = match parse_index(qb0.as_str(), qubits) {
                Some(a) => a,
                None => {
                    return Err(QvmError::QubitOutOfRange);
                },
            };
            let b = match parse_index(qb1.as_str(), qubits) {
                Some(b) => b,
                None => {
                    return Err(QvmError::QubitOutOfRange);
                },
            };
            if a == b {
                return Err(QvmError::InvalidQubitTarget);
            }
            let swap = match gates.lookup("swap", Arity::Double) {
                Ok(swap) => swap,
                Err(e) => {
                    return Err(e);
                },
            };
            assert(swap.wf());
            let low = if a < b {
                a
            } else {
                b
            };
            let high = if a < b {
                b
            } else {
                a
            };
            let ghost chain = route(gate@, swap@, low as nat, high as nat, qubits as nat);
            let mut gatelist: Vec<Matrix> = Vec::new();
            let mut i: usize = 0;
            while i < high - low
                invariant
                    swap.wf(),
                    swap@.len() == 4,
                    qubits <= MAX_QUBITS,
                    low < high < qubits,
                    i <= high - low,
                    chain == route(gate@, swap@, low as nat, high as nat, qubits as nat),
                    gatelist@.len() == i,
                    forall|k: int|
                        0 <= k < i ==> (#[trigger] gatelist@[k]).wf() && gatelist@[k]@.len()
                            == pow2(qubits as nat) && gatelist@[k]@ == chain[k],
                decreases high - low - i,
            {
                gatelist.push(lift_gate(high - 1 - i, swap, qubits));
                i += 1;
            }
            gatelist.push(lift_gate(low, gate, qubits));
            assert(operators(gatelist@) =~= chain);
            Ok(join_gates(&gatelist))
        },
    }
}

/// The machine.
#[derive(Clone, Debug)]
pub struct QVM {
    /// The number of lines of the register.
    pub qubits: usize,
    /// The number of instructions that have been carried out.
    pub counter: usize,
    /// The amplitudes of the basis states.
    pub state: Vec<Complex>,
    /// The program.
    pub program: Vec<Instruction>,
    /// The gates that the program may name.
    pub gates: GateTable,
}

impl View for QVM {
    type V = Machine<Complex>;

    open spec fn view(&self) -> Machine<Complex> {
        Machine {
            qubits: self.qubits as nat,
            counter: self.counter as nat,
            state: self.state@,
            program: instruction_views(self.program@),
            gates: self.gates@,
        }
    }
}

impl QVM {
    /// What holds of every machine: the register is not larger than
    /// `MAX_QUBITS`, the state has one amplitude for each basis state, the
    /// counter is not beyond the program, and the table of gates is valid.
    pub open spec fn wf(&self) -> bool {
        &&& self.qubits <= MAX_QUBITS
        &&& self@.wf()
        &&& self.gates.wf()
    }

    /// Whether the machine is as `wf` asks. A caller that Verus does not see
    /// can put this test before a call.
    pub fn valid(&self) -> (r: bool)
        ensures
            r == self.wf(),
    {
        if self.qubits > MAX_QUBITS {
            return false;
        }
        proof {
            lemma2_to64();
            lemma_pow2(self.qubits as nat);
            if self.qubits < 31 {
                lemma_pow2_strictly_increases(self.qubits as nat, 31);
            }
        }
        self.state.len() == pow(2, self.qubits) && self.counter <= self.program.len()
            && check_entries(&self.gates.entries)
    }

    /// A machine with a register of `qubits` lines, all clear, with the
    /// standard gates and an empty program.
    pub fn new(qubits: usize) -> (r: QVM)
        requires
            qubits <= MAX_QUBITS,
        ensures
            r.wf(),
            r@ == (Machine {
                qubits: qubits as nat,
                counter: 0,
                state: basis_zero::<Complex>(qubits as nat),
                program: Seq::<InstructionView>::empty(),
                gates: standard_table(),
            }),
    {
        let r = QVM {
            qubits,
            counter: 0,
            state: zero(qubits),
            program: Vec::new(),
            gates: standard_gates(),
        };
        assert(instruction_views(r.program@) =~= Seq::<InstructionView>::empty());
        r
    }

    /// Goes back to the start of the program, with every line of the
    /// register clear.
    pub fn reset(&mut self)
        requires
            old(self).wf(),
        ensures
            final(self).wf(),
            final(self)@ == old(self)@.reset(),
    {
        self.counter = 0;
        self.state = zero(self.qubits);
    }

    /// The program as text, one instruction on each line.
    pub fn read_program(&self) -> (r: String)
        ensures
            r@ == render(self@.program),
    {
        render_program(&self.program)
    }

    /// Takes the program that `program` holds in place of the present one
    /// and goes back to the start, with every line of the register clear.
    /// Where a line of the text is no instruction, nothing changes and the
    /// answer is `false`.
    pub fn update(&mut self, program: &str) -> (ok: bool)
        requires
            old(self).wf(),
        ensures
            final(self).wf(),
            ok == !has_malformed(parse_program(program@)),
            ok ==> final(self)@ == (Machine {
                program: parse_program(program@),
                ..old(self)@.reset()
            }),
            !ok ==> *final(self) == *old(self),
    {
        let prog = parse(program);
        if any_malformed(&prog) {
            false
        } else {
            self.counter = 0;
            self.program = prog;
            self.state = zero(self.qubits);
            true
        }
    }

    /// Takes the table of gates that `gates` holds in place of the present
    /// one and goes back to the start of the program, with every line of
    /// the register clear. Where the text holds no valid table, nothing
    /// changes and the answer is `false`.
    pub fn set_gates(&mut self, gates: &str) -> (ok: bool)
        requires
            old(self).wf(),
        ensures
            final(self).wf(),
            ok == match gate_table_of_json(gates@) {
                Some(t) => valid_table(t),
                None => false,
            },
            ok ==> final(self)@ == (Machine {
                gates: gate_table_of_json(gates@)->Some_0,
                ..old(self)@.reset()
            }),
            !ok ==> *final(self) == *old(self),
    {
        match self.gates.replace(gates) {
            Ok(_) => {
                self.counter = 0;
                self.state = zero(self.qubits);
                true
            },
            Err(_) => false,
        }
    }

    /// The table of gates as text.
    pub fn show_gates(&self) -> (r: String)
        requires
            self.wf(),
        ensures
            r@ == match json_of_gate_table(self@.gates) {
                Some(text) => text,
                None => Seq::<char>::empty(),
            },
    {
        self.gates.serialize()
    }

    /// Carries out the instruction at the counter on the state. Where the
    /// instruction cannot be carried out, nothing changes.
    pub fn operate(&mut self) -> (r: Result<(), QvmError>)
        requires
            old(self).wf(),
            old(self).counter < old(self).program@.len(),
        ensures
            final(self).wf(),
            match old(self)@.operator_at(old(self).counter as int) {
                Ok(op) => r is Ok && final(self)@ == old(self)@.stepped(op, old(self)@.counter),
                Err(e) => r == Err::<(), QvmError>(e) && *final(self) == *old(self),
            },
    {
        match build_operator(&self.gates, &self.program[self.counter], self.qubits) {
            Ok(op) => {
                self.state = dot_product(&op, &self.state);
                Ok(())
            },
            Err(e) => Err(e),
        }
    }

    /// One step backwards: where the counter is not at the start, the
    /// instruction before it is carried out and the counter goes back by
    /// one. Where that instruction cannot be carried out, nothing changes.
    pub fn prev(&mut self) -> (r: Result<(), QvmError>)
        requires
            old(self).wf(),
        ensures
            final(self).wf(),
            final(self)@ == old(self)@.prev(),
            r == old(self)@.prev_result(),
            r is Err ==> *final(self) == *old(self),
    {
        if self.counter > 0 {
            self.counter -= 1;
            match self.operate() {
                Ok(_) => Ok(()),
                Err(e) => {
                    self.counter += 1;
                    Err(e)
                },
            }
        } else {
            Ok(())
        }
    }

    /// One step forwards: where the counter is not at the end, the
    /// instruction at the counter is carried out and the counter goes on by
    /// one. Where that instruction cannot be carried out, nothing changes.
    pub fn next(&mut self) -> (r: Result<(), QvmError>)
        requires
            old(self).wf(),
        ensures
            final(self).wf(),
            final(self)@ == old(self)@.next(),
            r == old(self)@.next_result(),
            r is Err ==> *final(self) == *old(self),
    {
        if self.counter < self.program.len() {
            match self.operate() {
                Ok(_) => {
                    self.counter += 1;
                    Ok(())
                },
                Err(e) => Err(e),
            }
        } else {
            Ok(())
        }
    }
}

/// The label and the amplitude of basis state `n` of a register of `qubits`
/// lines, as texts for display; two empty texts where the amplitude is zero
/// within `2^-23`.
pub fn fmt_tensor(value: Complex, n: usize, qubits: usize) -> (r: (String, String))
    ensures
        near_zero(value) ==> r.0@.len() == 0 && r.1@.len() == 0,
        !near_zero(value) ==> r.0@ == ket(n as nat, qubits as nat) && r.1@ == complex_display(
            value,
        ),
{
    if is_zero(value) {
        (String::new(), String::new())
    } else {
        (basis_label(n, qubits), complex_text(value))
    }
}

} // verus!
