//! Unitary operators keep the sum of the squared magnitudes of a state, in
//! exact arithmetic.

use crate::algebra::{
    adjoint, apply, ascend, column, conj_vector, descend, identity, is_square, join, lift,
    lift_factors, lift_slots, mat_mul, norm_sqr, products, sum, tensor, tensor_chain, unitary,
    Conjugate,
};
use crate::ring::{
    lemma_apply_identity, lemma_apply_product, lemma_dot_associative, lemma_identity_left,
    lemma_quotient_below, lemma_tensor_identities, lemma_tensor_product_mul,
    lemma_tensor_square, row_times, StarSemiring,
};
use vstd::prelude::*;

verus! {

/// The conjugate of a sum is the sum of the conjugates.
pub proof fn lemma_conj_sum<S: StarSemiring>(s: Seq<S>)
    ensures
        sum(s).star() == sum(conj_vector(s)),
    decreases s.len(),
{
    if s.len() == 0 {
        S::conj_zero();
    } else {
        lemma_conj_sum(s.drop_last());
        S::conj_plus(sum(s.drop_last()), s.last());
        assert(conj_vector(s).drop_last() =~= conj_vector(s.drop_last()));
    }
}

/// The conjugate of `m * v` is `conj(v) * adjoint(m)`.
pub proof fn lemma_conj_apply<S: StarSemiring>(m: Seq<Seq<S>>, v: Seq<S>)
    requires
        is_square(m, m.len()),
        v.len() == m.len(),
    ensures
        conj_vector(apply(m, v)) == row_times(conj_vector(v), adjoint(m)),
{
    let n = m.len();
    assert forall|i: int| 0 <= i < n implies #[trigger] conj_vector(apply(m, v))[i] == row_times(
        conj_vector(v),
        adjoint(m),
    )[i] by {
        let terms = products(m[i], v);
        lemma_conj_sum(terms);
        let other = products(conj_vector(v), column(adjoint(m), i));
        assert forall|k: int| 0 <= k < n implies #[trigger] conj_vector(terms)[k] == other[k] by {
            S::conj_times(m[i][k], v[k]);
            S::times_commutative(m[i][k].star(), v[k].star());
        }
        assert(conj_vector(terms) =~= other);
    }
    assert(conj_vector(apply(m, v)) =~= row_times(conj_vector(v), adjoint(m)));
}

/// A unitary operator keeps the sum of the squared magnitudes.
pub proof fn lemma_unitary_keeps_norm<S: StarSemiring>(u: Seq<Seq<S>>, v: Seq<S>)
    requires
        unitary(u),
        v.len() == u.len(),
    ensures
        norm_sqr(apply(u, v)) == norm_sqr(v),
{
    lemma_conj_apply(u, v);
    lemma_dot_associative(conj_vector(v), adjoint(u), apply(u, v));
    lemma_apply_product(adjoint(u), u, v);
    lemma_apply_identity(v);
}

/// An operator that keeps the sum of the squared magnitudes of every state
/// of its size.
pub open spec fn keeps_norm<S: Conjugate>(m: Seq<Seq<S>>) -> bool {
    &&& is_square(m, m.len())
    &&& forall|v: Seq<S>| v.len() == m.len() ==> #[trigger] norm_sqr(apply(m, v)) == norm_sqr(v)
}

/// The product of two operators that keep the norm keeps the norm.
pub proof fn lemma_product_keeps_norm<S: StarSemiring>(a: Seq<Seq<S>>, b: Seq<Seq<S>>)
    requires
        keeps_norm(a),
        keeps_norm(b),
        a.len() == b.len(),
    ensures
        keeps_norm(mat_mul(a, b)),
        mat_mul(a, b).len() == a.len(),
{
    assert forall|v: Seq<S>| v.len() == a.len() implies #[trigger] norm_sqr(
        apply(mat_mul(a, b), v),
    ) == norm_sqr(v) by {
        lemma_apply_product(a, b, v);
        assert(norm_sqr(apply(b, v)) == norm_sqr(v));
        assert(norm_sqr(apply(a, apply(b, v))) == norm_sqr(apply(b, v)));
    }
}

/// A unitary operator keeps the norm of every state.
pub proof fn lemma_unitary_is_isometry<S: StarSemiring>(u: Seq<Seq<S>>)
    requires
        unitary(u),
    ensures
        keeps_norm(u),
{
    assert forall|v: Seq<S>| v.len() == u.len() implies #[trigger] norm_sqr(apply(u, v))
        == norm_sqr(v) by {
        lemma_unitary_keeps_norm(u, v);
    }
}

/// The identity is unitary.
pub proof fn lemma_identity_unitary<S: StarSemiring>(n: nat)
    ensures
        unitary(identity::<S>(n)),
{
    let id = identity::<S>(n);
    S::conj_zero();
    S::conj_one();
    assert(adjoint(id) =~~= id);
    lemma_identity_left(id);
}

/// The conjugate transpose of a Kronecker product is the Kronecker product
/// of the conjugate transposes.
pub proof fn lemma_adjoint_tensor<S: StarSemiring>(a: Seq<Seq<S>>, b: Seq<Seq<S>>)
    requires
        is_square(a, a.len()),
        is_square(b, b.len()),
    ensures
        adjoint(tensor(a, b)) == tensor(adjoint(a), adjoint(b)),
{
    let m = a.len() as int;
    let n = b.len() as int;
    let size = m * n;
    lemma_tensor_square(a, b);
    let left = adjoint(tensor(a, b));
    let right = tensor(adjoint(a), adjoint(b));
    assert forall|r: int, c: int| 0 <= r < size && 0 <= c < size implies #[trigger] left[r][c]
        == right[r][c] by {
        lemma_quotient_below(r, m, n);
        lemma_quotient_below(c, m, n);
        S::conj_times(a[c / n][r / n], b[c % n][r % n]);
    }
    assert(left =~~= right);
}

/// The Kronecker product of two unitary matrices is unitary.
pub proof fn lemma_tensor_unitary<S: StarSemiring>(a: Seq<Seq<S>>, b: Seq<Seq<S>>)
    requires
        unitary(a),
        unitary(b),
    ensures
        unitary(tensor(a, b)),
{
    lemma_tensor_square(a, b);
    lemma_adjoint_tensor(a, b);
    lemma_tensor_product_mul(adjoint(a), adjoint(b), a, b);
    lemma_tensor_identities::<S>(a.len(), b.len());
}

/// A Kronecker product of unitary matrices is unitary.
pub proof fn lemma_chain_unitary<S: StarSemiring>(fs: Seq<Seq<Seq<S>>>)
    requires
        fs.len() >= 1,
        forall|i: int| 0 <= i < fs.len() ==> unitary(#[trigger] fs[i]),
    ensures
        unitary(tensor_chain(fs)),
    decreases fs.len(),
{
    if fs.len() >= 2 {
        let f0 = fs.drop_last();
        assert forall|i: int| 0 <= i < f0.len() implies unitary(#[trigger] f0[i]) by {
            assert(f0[i] == fs[i]);
        }
        lemma_chain_unitary(f0);
        assert(fs.last() == fs[fs.len() - 1]);
        lemma_tensor_unitary(tensor_chain(f0), fs.last());
    } else {
        assert(unitary(fs[0]));
    }
}

/// A unitary gate, lifted to the whole register, is unitary.
pub proof fn lemma_lift_unitary<S: StarSemiring>(gate: Seq<Seq<S>>, line: nat, qubits: nat)
    requires
        unitary(gate),
        line < lift_slots(gate, qubits),
    ensures
        unitary(lift(gate, line, qubits)),
{
    let fs = lift_factors(gate, line, qubits);
    lemma_identity_unitary::<S>(2);
    lemma_chain_unitary(fs);
}

/// Every operator of the list keeps the norm and has size `d`.
pub open spec fn all_keep_norm<S: Conjugate>(gs: Seq<Seq<Seq<S>>>, d: nat) -> bool {
    forall|i: int| 0 <= i < gs.len() ==> keeps_norm(#[trigger] gs[i]) && gs[i].len() == d
}

/// `ascend` of operators that keep the norm keeps the norm.
pub proof fn lemma_ascend_keeps_norm<S: StarSemiring>(gs: Seq<Seq<Seq<S>>>, i: nat, d: nat)
    requires
        all_keep_norm(gs, d),
        i < gs.len(),
    ensures
        keeps_norm(ascend(gs, i)),
        ascend(gs, i).len() == d,
    decreases i,
{
    if i > 0 {
        lemma_ascend_keeps_norm(gs, (i - 1) as nat, d);
        lemma_product_keeps_norm(gs[i as int], ascend(gs, (i - 1) as nat));
    }
}

/// `descend` of operators that keep the norm keeps the norm.
pub proof fn lemma_descend_keeps_norm<S: StarSemiring>(gs: Seq<Seq<Seq<S>>>, i: nat, d: nat)
    requires
        all_keep_norm(gs, d),
        i < gs.len(),
    ensures
        keeps_norm(descend(gs, i)),
        descend(gs, i).len() == d,
    decreases i,
{
    if i == 0 {
        lemma_ascend_keeps_norm(gs, (gs.len() - 1) as nat, d);
    } else {
        lemma_descend_keeps_norm(gs, (i - 1) as nat, d);
        lemma_product_keeps_norm(gs[gs.len() - 1 - i], descend(gs, (i - 1) as nat));
    }
}

/// The palindromic product of operators that keep the norm keeps the norm.
pub proof fn lemma_join_keeps_norm<S: StarSemiring>(gs: Seq<Seq<Seq<S>>>, d: nat)
    requires
        gs.len() >= 1,
        all_keep_norm(gs, d),
    ensures
        keeps_norm(join(gs)),
        join(gs).len() == d,
{
    lemma_descend_keeps_norm(gs, (gs.len() - 1) as nat, d);
}

} // verus!
