//! The standard gates in exact arithmetic: each is its own inverse and
//! unitary, wherever the scalars they are written with are what their names
//! say.

use crate::algebra::{
    adjoint, column, dot, identity, is_square, mat_mul, products, sum, unitary, Conjugate, Scalar,
};
use crate::gates::{
    cnot_gate, h_gate, i1_gate, i2_gate, standard_table_over, swap_gate, table_lookup, x_gate,
    y_gate, z_gate, Table, Units,
};
use crate::laws::{built_from_involutions, built_from_unitaries, uses_gates_with};
use crate::program::InstructionView;
use crate::ring::{
    involutory, lemma_one_times, lemma_sum_single, lemma_zero_plus, lemma_zero_times, Semiring,
    StarSemiring,
};
use vstd::prelude::*;

verus! {

/// The units are what their names say: `h` and `minus_h` sum to zero and
/// twice the square of `h` is one, `i` and `minus_i` sum to zero and the
/// square of `i` and one sum to zero, one and `minus_one` sum to zero.
pub open spec fn exact_units<S: Scalar>(u: Units<S>) -> bool {
    &&& u.h.plus(u.minus_h) == S::zero()
    &&& u.h.times(u.h).plus(u.h.times(u.h)) == S::one()
    &&& u.i.plus(u.minus_i) == S::zero()
    &&& u.i.times(u.i).plus(S::one()) == S::zero()
    &&& S::one().plus(u.minus_one) == S::zero()
}

/// The units have the conjugates of numbers so named: the real ones are
/// their own conjugates, and `i` and `minus_i` are each other's.
pub open spec fn conjugate_units<S: Conjugate>(u: Units<S>) -> bool {
    &&& u.h.star() == u.h
    &&& u.minus_h.star() == u.minus_h
    &&& u.i.star() == u.minus_i
    &&& u.minus_i.star() == u.i
    &&& u.minus_one.star() == u.minus_one
}

/// Two numbers that each sum to zero with a third are equal.
pub proof fn lemma_cancel<S: Semiring>(a: S, b: S, c: S)
    requires
        a.plus(b) == S::zero(),
        c.plus(b) == S::zero(),
    ensures
        a == c,
{
    S::plus_zero(a);
    S::plus_commutative(c, b);
    S::plus_associative(a, b, c);
    lemma_zero_plus(c);
}

/// The dot product of two rows of two entries.
pub proof fn lemma_dot_two<S: Semiring>(a: Seq<S>, b: Seq<S>)
    requires
        a.len() == 2,
        b.len() == 2,
    ensures
        dot(a, b) == a[0].times(b[0]).plus(a[1].times(b[1])),
{
    let p = products(a, b);
    assert(p.drop_last().drop_last() =~= Seq::<S>::empty());
    assert(sum(p.drop_last()) == sum(p.drop_last().drop_last()).plus(p[0]));
    lemma_zero_plus(p[0]);
}

/// The matrix with a one in row `i` at column `pi[i]` and zero elsewhere.
pub open spec fn permutation_matrix<S: Scalar>(pi: Seq<int>) -> Seq<Seq<S>> {
    Seq::new(
        pi.len(),
        |i: int|
            Seq::new(
                pi.len(),
                |j: int|
                    if j == pi[i] {
                        S::one()
                    } else {
                        S::zero()
                    },
            ),
    )
}

/// `pi` exchanges places in pairs: applied twice, it gives each place
/// back.
pub open spec fn is_involution(pi: Seq<int>) -> bool {
    forall|i: int| 0 <= i < pi.len() ==> 0 <= #[trigger] pi[i] < pi.len() && pi[pi[i]] == i
}

/// The matrix of a permutation that exchanges places in pairs is its own
/// inverse.
pub proof fn lemma_permutation_involutory<S: Semiring>(pi: Seq<int>)
    requires
        is_involution(pi),
    ensures
        involutory(permutation_matrix::<S>(pi)),
{
    let n = pi.len();
    let p = permutation_matrix::<S>(pi);
    assert forall|i: int, j: int| 0 <= i < n && 0 <= j < n implies #[trigger] mat_mul(p, p)[i][j]
        == identity::<S>(n)[i][j] by {
        let terms = products(p[i], column(p, j));
        assert(0 <= pi[i] < n && pi[pi[i]] == i);
        assert forall|k: int| 0 <= k < n && k != pi[i] implies terms[k] == S::zero() by {
            lemma_zero_times(p[k][j]);
        }
        lemma_sum_single(terms, pi[i]);
        lemma_one_times(p[pi[i]][j]);
        assert(0 <= pi[j] < n && pi[pi[j]] == j);
    }
    assert(mat_mul(p, p) =~~= identity::<S>(n));
}

/// The matrix of a permutation that exchanges places in pairs is its own
/// conjugate transpose.
pub proof fn lemma_permutation_self_adjoint<S: StarSemiring>(pi: Seq<int>)
    requires
        is_involution(pi),
    ensures
        adjoint(permutation_matrix::<S>(pi)) == permutation_matrix::<S>(pi),
{
    let n = pi.len();
    let p = permutation_matrix::<S>(pi);
    S::conj_one();
    S::conj_zero();
    assert forall|i: int, j: int| 0 <= i < n && 0 <= j < n implies #[trigger] adjoint(p)[i][j]
        == p[i][j] by {
        assert(0 <= pi[i] < n && pi[pi[i]] == i);
        assert(0 <= pi[j] < n && pi[pi[j]] == j);
    }
    assert(adjoint(p) =~~= p);
}

/// `x`, `i1`, `cnot`, `swap` and `i2` are their own inverses.
pub proof fn lemma_permutation_gates_involutory<S: Semiring>()
    ensures
        involutory(x_gate::<S>()),
        involutory(i1_gate::<S>()),
        involutory(cnot_gate::<S>()),
        involutory(swap_gate::<S>()),
        involutory(i2_gate::<S>()),
{
    lemma_permutation_involutory::<S>(seq![1, 0]);
    assert(x_gate::<S>() =~~= permutation_matrix::<S>(seq![1, 0]));
    lemma_permutation_involutory::<S>(seq![0, 1]);
    assert(i1_gate::<S>() =~~= permutation_matrix::<S>(seq![0, 1]));
    lemma_permutation_involutory::<S>(seq![0, 1, 3, 2]);
    assert(cnot_gate::<S>() =~~= permutation_matrix::<S>(seq![0, 1, 3, 2]));
    lemma_permutation_involutory::<S>(seq![0, 2, 1, 3]);
    assert(swap_gate::<S>() =~~= permutation_matrix::<S>(seq![0, 2, 1, 3]));
}

/// `x`, `i1`, `cnot`, `swap` and `i2` are unitary.
pub proof fn lemma_permutation_gates_unitary<S: StarSemiring>()
    ensures
        unitary(x_gate::<S>()),
        unitary(i1_gate::<S>()),
        unitary(cnot_gate::<S>()),
        unitary(swap_gate::<S>()),
        unitary(i2_gate::<S>()),
{
    lemma_permutation_gates_involutory::<S>();
    lemma_permutation_self_adjoint::<S>(seq![1, 0]);
    assert(x_gate::<S>() =~~= permutation_matrix::<S>(seq![1, 0]));
    lemma_permutation_self_adjoint::<S>(seq![0, 1]);
    assert(i1_gate::<S>() =~~= permutation_matrix::<S>(seq![0, 1]));
    lemma_permutation_self_adjoint::<S>(seq![0, 1, 3, 2]);
    assert(cnot_gate::<S>() =~~= permutation_matrix::<S>(seq![0, 1, 3, 2]));
    lemma_permutation_self_adjoint::<S>(seq![0, 2, 1, 3]);
    assert(swap_gate::<S>() =~~= permutation_matrix::<S>(seq![0, 2, 1, 3]));
}

/// The square of a matrix of size 2, entry by entry.
pub proof fn lemma_square_two<S: Semiring>(g: Seq<Seq<S>>)
    requires
        is_square(g, 2),
    ensures
        mat_mul(g, g)[0][0] == g[0][0].times(g[0][0]).plus(g[0][1].times(g[1][0])),
        mat_mul(g, g)[0][1] == g[0][0].times(g[0][1]).plus(g[0][1].times(g[1][1])),
        mat_mul(g, g)[1][0] == g[1][0].times(g[0][0]).plus(g[1][1].times(g[1][0])),
        mat_mul(g, g)[1][1] == g[1][0].times(g[0][1]).plus(g[1][1].times(g[1][1])),
{
    lemma_dot_two(g[0], column(g, 0));
    lemma_dot_two(g[0], column(g, 1));
    lemma_dot_two(g[1], column(g, 0));
    lemma_dot_two(g[1], column(g, 1));
}

/// Hadamard is its own inverse.
pub proof fn lemma_h_involutory<S: Semiring>(u: Units<S>)
    requires
        exact_units(u),
    ensures
        involutory(h_gate(u)),
{
    let g = h_gate(u);
    let h = u.h;
    let n = u.minus_h;
    lemma_square_two(g);
    S::distributive(h, h, n);
    S::times_zero(h);
    S::times_commutative(n, h);
    S::plus_commutative(h, n);
    S::distributive(n, n, h);
    S::times_zero(n);
    lemma_cancel(n.times(n), n.times(h), h.times(h));
    assert(mat_mul(g, g) =~~= identity::<S>(2));
}

/// Pauli Z is its own inverse.
pub proof fn lemma_z_involutory<S: Semiring>(u: Units<S>)
    requires
        exact_units(u),
    ensures
        involutory(z_gate(u)),
{
    let g = z_gate(u);
    let m = u.minus_one;
    let l = S::one();
    let o = S::zero();
    lemma_square_two(g);
    S::times_one(l);
    S::times_zero(o);
    S::times_zero(l);
    S::times_zero(m);
    lemma_zero_times(m);
    lemma_zero_times(l);
    S::plus_zero(l);
    S::plus_zero(o);
    lemma_zero_plus(m.times(m));
    S::plus_commutative(l, m);
    S::distributive(m, m, l);
    S::times_one(m);
    lemma_cancel(m.times(m), m, l);
    assert(mat_mul(g, g) =~~= identity::<S>(2));
}

/// Pauli Y is its own inverse.
pub proof fn lemma_y_involutory<S: Semiring>(u: Units<S>)
    requires
        exact_units(u),
    ensures
        involutory(y_gate(u)),
{
    let g = y_gate(u);
    let i = u.i;
    let n = u.minus_i;
    let l = S::one();
    let o = S::zero();
    lemma_square_two(g);
    S::times_zero(o);
    S::times_zero(n);
    S::times_zero(i);
    lemma_zero_times(n);
    lemma_zero_times(i);
    S::plus_zero(o);
    S::plus_zero(i.times(n));
    lemma_zero_plus(n.times(i));
    S::times_commutative(n, i);
    S::plus_commutative(i, n);
    S::distributive(i, n, i);
    S::plus_commutative(i.times(i), l);
    lemma_cancel(i.times(n), i.times(i), l);
    assert(mat_mul(g, g) =~~= identity::<S>(2));
}

/// Hadamard, Pauli Y and Pauli Z are unitary.
pub proof fn lemma_unit_gates_unitary<S: StarSemiring>(u: Units<S>)
    requires
        exact_units(u),
        conjugate_units(u),
    ensures
        unitary(h_gate(u)),
        unitary(y_gate(u)),
        unitary(z_gate(u)),
{
    S::conj_one();
    S::conj_zero();
    lemma_h_involutory(u);
    lemma_y_involutory(u);
    lemma_z_involutory(u);
    assert(adjoint(h_gate(u)) =~~= h_gate(u));
    assert(adjoint(y_gate(u)) =~~= y_gate(u));
    assert(adjoint(z_gate(u)) =~~= z_gate(u));
}

/// What the standard table holds under a name is one of the standard
/// gates.
pub proof fn lemma_standard_lookup<S: Scalar>(u: Units<S>, name: Seq<char>)
    ensures
        match table_lookup(standard_table_over(u), name) {
            None => true,
            Some(g) => g == cnot_gate::<S>() || g == h_gate(u) || g == i1_gate::<S>() || g
                == i2_gate::<S>() || g == swap_gate::<S>() || g == x_gate::<S>() || g == y_gate(u)
                || g == z_gate(u),
        },
{
    reveal_with_fuel(table_lookup, 9);
    let t = standard_table_over(u);
    assert(t.drop_first().len() == 7);
}

/// In exact arithmetic, every program is built from gates that are their
/// own inverses where its gates are those of the standard table.
pub proof fn law_standard_gates_involutory<S: Semiring>(
    u: Units<S>,
    program: Seq<InstructionView>,
)
    requires
        exact_units(u),
    ensures
        built_from_involutions(standard_table_over(u), program),
{
    lemma_permutation_gates_involutory::<S>();
    lemma_h_involutory(u);
    lemma_y_involutory(u);
    lemma_z_involutory(u);
    let t = standard_table_over(u);
    assert forall|k: int| 0 <= k < program.len() implies uses_gates_with(
        t,
        #[trigger] program[k],
        |gate: Seq<Seq<S>>| involutory(gate),
    ) by {
        match program[k] {
            InstructionView::Malformed => {},
            InstructionView::Single(name, _) => {
                lemma_standard_lookup(u, name);
            },
            InstructionView::Double(name, _, _) => {
                lemma_standard_lookup(u, name);
                lemma_standard_lookup(u, "swap"@);
            },
        }
    }
}

/// In exact arithmetic, every program is built from unitary gates where
/// its gates are those of the standard table.
pub proof fn law_standard_gates_unitary<S: StarSemiring>(
    u: Units<S>,
    program: Seq<InstructionView>,
)
    requires
        exact_units(u),
        conjugate_units(u),
    ensures
        built_from_unitaries(standard_table_over(u), program),
{
    lemma_permutation_gates_unitary::<S>();
    lemma_unit_gates_unitary(u);
    let t = standard_table_over(u);
    assert forall|k: int| 0 <= k < program.len() implies uses_gates_with(
        t,
        #[trigger] program[k],
        |gate: Seq<Seq<S>>| unitary(gate),
    ) by {
        match program[k] {
            InstructionView::Malformed => {},
            InstructionView::Single(name, _) => {
                lemma_standard_lookup(u, name);
            },
            InstructionView::Double(name, _, _) => {
                lemma_standard_lookup(u, name);
                lemma_standard_lookup(u, "swap"@);
            },
        }
    }
}

} // verus!
