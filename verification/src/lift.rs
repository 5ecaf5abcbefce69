//! Lifting a gate on one or two lines to an operator on the whole register,
//! and joining a list of operators into their palindromic product.

use crate::algebra::{
    ascend, descend, identity, join, lift, lift_factors, lift_slots, tensor_chain, Scalar,
};
use crate::complex::{c0, c1, Complex};
use crate::matrix::{tensor_product, Matrix};
use vstd::arithmetic::power2::{
    lemma2_to64, lemma_pow2_strictly_increases, lemma_pow2_unfold, pow2,
};
use vstd::prelude::*;

verus! {

/// The largest register: `2^31` amplitudes are the most that every `usize`
/// can count.
pub const MAX_QUBITS: usize = 31;

/// The matrix with the entries of `a`.
pub fn vecify(a: [[Complex; 2]; 2]) -> (r: Matrix)
    ensures
        r.wf(),
        r@.len() == 2,
        forall|i: int, j: int| 0 <= i < 2 && 0 <= j < 2 ==> r@[i][j] == a@[i]@[j],
{
    let mut outer: Vec<Vec<Complex>> = Vec::new();
    let mut i: usize = 0;
    while i < 2
        invariant
            i <= 2,
            outer@.len() == i,
            forall|k: int| 0 <= k < i ==> (#[trigger] outer@[k])@ == a@[k]@,
        decreases 2 - i,
    {
        let mut inner: Vec<Complex> = Vec::new();
        let mut j: usize = 0;
        while j < 2
            invariant
                i < 2,
                j <= 2,
                inner@.len() == j,
                forall|k: int| 0 <= k < j ==> #[trigger] inner@[k] == a@[i as int]@[k],
            decreases 2 - j,
        {
            inner.push(a[i][j]);
            j += 1;
        }
        assert(inner@ =~= a@[i as int]@);
        outer.push(inner);
        i += 1;
    }
    Matrix { rows: outer }
}

/// The matrix with the entries of `a`.
pub fn vecify2(a: [[Complex; 4]; 4]) -> (r: Matrix)
    ensures
        r.wf(),
        r@.len() == 4,
        forall|i: int, j: int| 0 <= i < 4 && 0 <= j < 4 ==> r@[i][j] == a@[i]@[j],
{
    let mut outer: Vec<Vec<Complex>> = Vec::new();
    let mut i: usize = 0;
    while i < 4
        invariant
            i <= 4,
            outer@.len() == i,
            forall|k: int| 0 <= k < i ==> (#[trigger] outer@[k])@ == a@[k]@,
        decreases 4 - i,
    {
        let mut inner: Vec<Complex> = Vec::new();
        let mut j: usize = 0;
        while j < 4
            invariant
                i < 4,
                j <= 4,
                inner@.len() == j,
                forall|k: int| 0 <= k < j ==> #[trigger] inner@[k] == a@[i as int]@[k],
            decreases 4 - j,
        {
            inner.push(a[i][j]);
            j += 1;
        }
        assert(inner@ =~= a@[i as int]@);
        outer.push(inner);
        i += 1;
    }
    Matrix { rows: outer }
}

/// The number of lines that the first `i` factors of a lifted gate cover,
/// where that gate has `gate_len` rows and stands at index `at`.
pub open spec fn lifted_lines(gate_len: nat, at: int, i: int) -> nat {
    if i <= at {
        i as nat
    } else if gate_len == 2 {
        i as nat
    } else {
        (i + 1) as nat
    }
}

/// The size of the Kronecker product of the first `i` factors of a lifted
/// gate of size 2 or 4.
pub proof fn lemma_lift_prefix_size<S: Scalar>(gate: Seq<Seq<S>>, line: nat, qubits: nat, i: int)
    requires
        gate.len() == 2 || gate.len() == 4,
        line < lift_slots(gate, qubits),
        1 <= i <= lift_slots(gate, qubits),
    ensures
        tensor_chain(lift_factors(gate, line, qubits).take(i)).len() == pow2(
            lifted_lines(gate.len(), lift_slots(gate, qubits) - 1 - line, i),
        ),
    decreases i,
{
    let fs = lift_factors(gate, line, qubits);
    let at = lift_slots(gate, qubits) - 1 - line;
    lemma2_to64();
    if i == 1 {
        assert(fs.take(1).len() == 1);
        assert(fs.take(1)[0] == fs[0]);
    } else {
        lemma_lift_prefix_size(gate, line, qubits, i - 1);
        assert(fs.take(i).drop_last() =~= fs.take(i - 1));
        assert(fs.take(i).last() == fs[i - 1]);
        let before = lifted_lines(gate.len(), at, i - 1);
        let after = lifted_lines(gate.len(), at, i);
        lemma_pow2_unfold(before + 1);
        lemma_pow2_unfold(before + 2);
        let prefix = tensor_chain(fs.take(i - 1));
        assert(prefix.len() * fs[i - 1].len() == pow2(after)) by (nonlinear_arith)
            requires
                prefix.len() == pow2(before),
                pow2(before + 1) == 2 * pow2(before),
                pow2(before + 2) == 2 * pow2(before + 1),
                (fs[i - 1].len() == 2 && after == before + 1) || (fs[i - 1].len() == 4 && after
                    == before + 2),
        ;
    }
}

/// A lifted gate of size 2 or 4 has one row for each basis state of the
/// register.
pub proof fn lemma_lift_size<S: Scalar>(gate: Seq<Seq<S>>, line: nat, qubits: nat)
    requires
        gate.len() == 2 || gate.len() == 4,
        line < lift_slots(gate, qubits),
    ensures
        lift(gate, line, qubits).len() == pow2(qubits),
{
    let fs = lift_factors(gate, line, qubits);
    lemma_lift_prefix_size(gate, line, qubits, lift_slots(gate, qubits));
    assert(fs.take(fs.len() as int) =~= fs);
}

/// `gate`, acting on line `n` (and on line `n + 1`, if it has four rows), as
/// an operator on a register of `qubits` lines: the Kronecker product of
/// one factor for each line, from the highest line down to line 0, where
/// `gate` is the factor of its lines and the identity that of every other.
pub fn lift_gate(n: usize, gate: &Matrix, qubits: usize) -> (r: Matrix)
    requires
        gate.wf(),
        gate@.len() == 2 || gate@.len() == 4,
        qubits <= MAX_QUBITS,
        n < lift_slots(gate@, qubits as nat),
    ensures
        r.wf(),
        r@.len() == pow2(qubits as nat),
        r@ == lift(gate@, n as nat, qubits as nat),
{
    let i1 = vecify([[c1(), c0()], [c0(), c1()]]);
    proof {
        assert forall|i: int| 0 <= i < 2 implies #[trigger] i1@[i] == identity::<Complex>(2)[i] by {
            assert(i1@[i] =~= identity::<Complex>(2)[i]);
        }
        assert(i1@ =~= identity::<Complex>(2));
        lemma2_to64();
    }
    let slots = if gate.dim() == 2 {
        qubits
    } else {
        qubits - 1
    };
    let at = slots - 1 - n;
    let ghost fs = lift_factors(gate@, n as nat, qubits as nat);
    let ghost gate_len = gate@.len();
    let mut prod = if at == 0 {
        gate.copy()
    } else {
        i1.copy()
    };
    assert(fs.take(1).drop_last() =~= Seq::<Seq<Seq<Complex>>>::empty());
    assert(tensor_chain(fs.take(1)) == fs[0]);
    let mut i: usize = 1;
    while i < slots
        invariant
            gate.wf(),
            gate_len == gate@.len(),
            gate_len == 2 || gate_len == 4,
            i1.wf(),
            i1@ == identity::<Complex>(2),
            qubits <= MAX_QUBITS,
            slots == lift_slots(gate@, qubits as nat),
            at == slots - 1 - n,
            0 <= at < slots,
            fs == lift_factors(gate@, n as nat, qubits as nat),
            1 <= i <= slots,
            prod.wf(),
            prod@ == tensor_chain(fs.take(i as int)),
            prod@.len() == pow2(lifted_lines(gate_len, at as int, i as int)),
            lifted_lines(gate_len, at as int, i as int) <= qubits,
        decreases slots - i,
    {
        let factor = if i == at {
            gate
        } else {
            &i1
        };
        proof {
            let before = lifted_lines(gate_len, at as int, i as int);
            let after = lifted_lines(gate_len, at as int, i + 1);
            assert(factor@ == fs[i as int]);
            assert(after <= qubits);
            lemma_pow2_unfold(before + 1);
            lemma_pow2_unfold(before + 2);
            assert(prod@.len() * factor@.len() == pow2(after)) by (nonlinear_arith)
                requires
                    prod@.len() == pow2(before),
                    pow2(before + 1) == 2 * pow2(before),
                    pow2(before + 2) == 2 * pow2(before + 1),
                    (factor@.len() == 2 && after == before + 1) || (factor@.len() == 4 && after
                        == before + 2),
            ;
            lemma2_to64();
            if after < 31 {
                lemma_pow2_strictly_increases(after, 31);
            }
            assert(pow2(after) <= 0x8000_0000);
            assert(fs.take(i + 1).drop_last() =~= fs.take(i as int));
        }
        prod = tensor_product(&prod, factor);
        i += 1;
    }
    assert(fs.take(slots as int) =~= fs);
    prod
}

/// The palindromic product of a nonempty list of operators of one size:
/// for `[a, b, c]` it is `a * b * c * b * a`.
pub fn join_gates(gates: &Vec<Matrix>) -> (r: Matrix)
    requires
        gates@.len() >= 1,
        forall|i: int| 0 <= i < gates@.len() ==> (#[trigger] gates@[i]).wf(),
        forall|i: int| 0 <= i < gates@.len() ==> (#[trigger] gates@[i])@.len() == gates@[0]@.len(),
    ensures
        r.wf(),
        r@.len() == gates@[0]@.len(),
        r@ == join(operators(gates@)),
{
    let size = gates.len();
    let ghost gs = operators(gates@);
    let mut ret = gates[0].copy();
    let mut i: usize = 1;
    while i < size
        invariant
            size == gates@.len(),
            gs == operators(gates@),
            forall|k: int| 0 <= k < gates@.len() ==> (#[trigger] gates@[k]).wf(),
            forall|k: int|
                0 <= k < gates@.len() ==> (#[trigger] gates@[k])@.len() == gates@[0]@.len(),
            1 <= i <= size,
            ret.wf(),
            ret@.len() == gates@[0]@.len(),
            ret@ == ascend(gs, (i - 1) as nat),
        decreases size - i,
    {
        ret = crate::matrix::mul(&gates[i], &ret);
        i += 1;
    }
    let mut i: usize = 1;
    while i < size
        invariant
            size == gates@.len(),
            gs == operators(gates@),
            forall|k: int| 0 <= k < gates@.len() ==> (#[trigger] gates@[k]).wf(),
            forall|k: int|
                0 <= k < gates@.len() ==> (#[trigger] gates@[k])@.len() == gates@[0]@.len(),
            1 <= i <= size,
            ret.wf(),
            ret@.len() == gates@[0]@.len(),
            ret@ == descend(gs, (i - 1) as nat),
        decreases size - i,
    {
        ret = crate::matrix::mul(&gates[size - 1 - i], &ret);
        i += 1;
    }
    ret
}

/// The matrices of a list, each by its view.
pub open spec fn operators(gates: Seq<Matrix>) -> Seq<Seq<Seq<Complex>>> {
    Seq::new(gates.len(), |i: int| gates[i]@)
}

} // verus!
