//! The linear algebra the machine rests on, stated over any scalar type.
//!
//! Sums are taken from the left, starting at zero, and products of matrices
//! are built from such sums. With floating-point scalars the order matters,
//! so these definitions fix it once for every executable function.

use vstd::prelude::*;

verus! {

/// What the algebra needs of a scalar: two constants and two operations.
/// No law is asked of them here.
pub trait Scalar: Sized {
    spec fn zero() -> Self;

    spec fn one() -> Self;

    spec fn plus(self, other: Self) -> Self;

    spec fn times(self, other: Self) -> Self;
}

/// A scalar with a conjugate.
pub trait Conjugate: Scalar {
    /// The conjugate of `self`.
    spec fn star(self) -> Self;
}

/// `((zero + s[0]) + s[1]) + ...`
pub open spec fn sum<S: Scalar>(s: Seq<S>) -> S
    decreases s.len(),
{
    if s.len() == 0 {
        S::zero()
    } else {
        sum(s.drop_last()).plus(s.last())
    }
}

/// The products `a[k] * b[k]`, one for each index of `a`.
pub open spec fn products<S: Scalar>(a: Seq<S>, b: Seq<S>) -> Seq<S> {
    Seq::new(a.len(), |k: int| a[k].times(b[k]))
}

/// The sum of the products `a[k] * b[k]`.
pub open spec fn dot<S: Scalar>(a: Seq<S>, b: Seq<S>) -> S {
    sum(products(a, b))
}

/// `m` has `n` rows of `n` entries each.
pub open spec fn is_square<S>(m: Seq<Seq<S>>, n: nat) -> bool {
    &&& m.len() == n
    &&& forall|i: int| 0 <= i < n ==> (#[trigger] m[i]).len() == n
}

/// Column `j` of `m`, read from the top.
pub open spec fn column<S>(m: Seq<Seq<S>>, j: int) -> Seq<S> {
    Seq::new(m.len(), |k: int| m[k][j])
}

/// The `n` by `n` identity.
pub open spec fn identity<S: Scalar>(n: nat) -> Seq<Seq<S>> {
    Seq::new(
        n,
        |i: int|
            Seq::new(
                n,
                |j: int|
                    if i == j {
                        S::one()
                    } else {
                        S::zero()
                    },
            ),
    )
}

/// The product `a * b` of two square matrices of one size:
/// entry `(i, j)` is the dot product of row `i` of `a` and column `j` of `b`.
pub open spec fn mat_mul<S: Scalar>(a: Seq<Seq<S>>, b: Seq<Seq<S>>) -> Seq<Seq<S>> {
    Seq::new(a.len(), |i: int| Seq::new(a.len(), |j: int| dot(a[i], column(b, j))))
}

/// The vector `m * v`: entry `i` is the dot product of row `i` of `m` and `v`.
pub open spec fn apply<S: Scalar>(m: Seq<Seq<S>>, v: Seq<S>) -> Seq<S> {
    Seq::new(m.len(), |i: int| dot(m[i], v))
}

/// The Kronecker product of `a` and `b`: with `n` the size of `b`,
/// entry `(ai * n + bi, aj * n + bj)` is `a[ai][aj] * b[bi][bj]`.
pub open spec fn tensor<S: Scalar>(a: Seq<Seq<S>>, b: Seq<Seq<S>>) -> Seq<Seq<S>> {
    let n = b.len() as int;
    let size = a.len() * b.len();
    Seq::new(size, |r: int| Seq::new(size, |c: int| a[r / n][c / n].times(b[r % n][c % n])))
}

/// The Kronecker product of a list of matrices, taken from the left:
/// `((fs[0] x fs[1]) x fs[2]) x ...`.
pub open spec fn tensor_chain<S: Scalar>(fs: Seq<Seq<Seq<S>>>) -> Seq<Seq<S>>
    decreases fs.len(),
{
    if fs.len() == 0 {
        identity(1)
    } else if fs.len() == 1 {
        fs[0]
    } else {
        tensor(tensor_chain(fs.drop_last()), fs.last())
    }
}

/// The number of factors that stand for a register of `qubits` lines when
/// one of them is `gate`: a gate of size 2 takes the place of one line, any
/// other takes the place of two.
pub open spec fn lift_slots<S>(gate: Seq<Seq<S>>, qubits: nat) -> int {
    if gate.len() == 2 {
        qubits as int
    } else {
        qubits - 1
    }
}

/// The factors of a lifted gate, ordered from line `qubits - 1` down to
/// line 0: `gate` where its lowest line is `line`, the identity of size 2
/// for every other line.
pub open spec fn lift_factors<S: Scalar>(gate: Seq<Seq<S>>, line: nat, qubits: nat) -> Seq<
    Seq<Seq<S>>,
> {
    let slots = lift_slots(gate, qubits);
    Seq::new(
        slots as nat,
        |i: int|
            if i == slots - 1 - line {
                gate
            } else {
                identity::<S>(2)
            },
    )
}

/// `gate`, acting on `line` (and on `line + 1`, if it is a gate on two
/// lines), as an operator on the whole register.
pub open spec fn lift<S: Scalar>(gate: Seq<Seq<S>>, line: nat, qubits: nat) -> Seq<Seq<S>> {
    tensor_chain(lift_factors(gate, line, qubits))
}

/// `gs[i] * (gs[i - 1] * (... * gs[0]))`.
pub open spec fn ascend<S: Scalar>(gs: Seq<Seq<Seq<S>>>, i: nat) -> Seq<Seq<S>>
    decreases i,
{
    if i == 0 {
        gs[0]
    } else {
        mat_mul(gs[i as int], ascend(gs, (i - 1) as nat))
    }
}

/// With `k` the last index of `gs`:
/// `gs[k - i] * (... * (gs[k - 1] * (gs[k] * (gs[k - 1] * (... * gs[0])))))`.
pub open spec fn descend<S: Scalar>(gs: Seq<Seq<Seq<S>>>, i: nat) -> Seq<Seq<S>>
    decreases i,
{
    if i == 0 {
        ascend(gs, (gs.len() - 1) as nat)
    } else {
        mat_mul(gs[gs.len() - 1 - i], descend(gs, (i - 1) as nat))
    }
}

/// The palindromic product of a nonempty list `[a, b, .., y, z]`:
/// `a * b * .. * y * z * y * .. * b * a`, multiplied from the right.
/// Applied to a state, it acts as `a` first, `z` in the middle and `a` last.
pub open spec fn join<S: Scalar>(gs: Seq<Seq<Seq<S>>>) -> Seq<Seq<S>> {
    descend(gs, (gs.len() - 1) as nat)
}

/// The conjugates of the entries of `v`.
pub open spec fn conj_vector<S: Conjugate>(v: Seq<S>) -> Seq<S> {
    Seq::new(v.len(), |i: int| v[i].star())
}

/// The sum of the squared magnitudes of the entries of `v`: the sum of the
/// products `conj(v[i]) * v[i]`.
pub open spec fn norm_sqr<S: Conjugate>(v: Seq<S>) -> S {
    dot(conj_vector(v), v)
}

/// The conjugate transpose of a square matrix.
pub open spec fn adjoint<S: Conjugate>(m: Seq<Seq<S>>) -> Seq<Seq<S>> {
    Seq::new(m.len(), |i: int| Seq::new(m.len(), |j: int| m[j][i].star()))
}

/// A square matrix whose conjugate transpose is its inverse.
pub open spec fn unitary<S: Conjugate>(m: Seq<Seq<S>>) -> bool {
    is_square(m, m.len()) && mat_mul(adjoint(m), m) == identity::<S>(m.len())
}

} // verus!
