//! Scalars that obey the laws of arithmetic, and what follows from the laws
//! for sums and for products of matrices.
//!
//! The complex numbers obey these laws. Floating-point numbers do not: their
//! sums and products are rounded. What is proved here of the algebra is
//! therefore true of the machine in exact arithmetic, and true of its
//! floating-point states up to rounding only.

use crate::algebra::{
    apply, ascend, column, descend, dot, identity, is_square, join, lift, lift_factors,
    lift_slots, mat_mul, products, sum, tensor, tensor_chain, Conjugate, Scalar,
};
use vstd::arithmetic::div_mod::{
    lemma_fundamental_div_mod, lemma_fundamental_div_mod_converse,
};
use vstd::arithmetic::mul::{
    lemma_mul_is_associative, lemma_mul_is_distributive_add,
    lemma_mul_is_distributive_add_other_way, lemma_mul_is_distributive_sub,
    lemma_mul_is_distributive_sub_other_way,
};
use vstd::prelude::*;

verus! {

/// The laws of a commutative semiring.
pub trait Semiring: Scalar {
    proof fn plus_associative(a: Self, b: Self, c: Self)
        ensures
            a.plus(b).plus(c) == a.plus(b.plus(c)),
    ;

    proof fn plus_commutative(a: Self, b: Self)
        ensures
            a.plus(b) == b.plus(a),
    ;

    proof fn plus_zero(a: Self)
        ensures
            a.plus(Self::zero()) == a,
    ;

    proof fn times_associative(a: Self, b: Self, c: Self)
        ensures
            a.times(b).times(c) == a.times(b.times(c)),
    ;

    proof fn times_commutative(a: Self, b: Self)
        ensures
            a.times(b) == b.times(a),
    ;

    proof fn times_one(a: Self)
        ensures
            a.times(Self::one()) == a,
    ;

    proof fn times_zero(a: Self)
        ensures
            a.times(Self::zero()) == Self::zero(),
    ;

    proof fn distributive(a: Self, b: Self, c: Self)
        ensures
            a.times(b.plus(c)) == a.times(b).plus(a.times(c)),
    ;
}

/// The laws of conjugation in a commutative semiring.
pub trait StarSemiring: Semiring + Conjugate {
    proof fn conj_plus(a: Self, b: Self)
        ensures
            a.plus(b).star() == a.star().plus(b.star()),
    ;

    proof fn conj_times(a: Self, b: Self)
        ensures
            a.times(b).star() == a.star().times(b.star()),
    ;

    proof fn conj_zero()
        ensures
            Self::zero().star() == Self::zero(),
    ;

    proof fn conj_one()
        ensures
            Self::one().star() == Self::one(),
    ;
}

impl Scalar for int {
    open spec fn zero() -> int {
        0
    }

    open spec fn one() -> int {
        1
    }

    open spec fn plus(self, other: int) -> int {
        self + other
    }

    open spec fn times(self, other: int) -> int {
        self * other
    }
}

impl Semiring for int {
    proof fn plus_associative(a: int, b: int, c: int) {
    }

    proof fn plus_commutative(a: int, b: int) {
    }

    proof fn plus_zero(a: int) {
    }

    proof fn times_associative(a: int, b: int, c: int) {
        assert((a * b) * c == a * (b * c)) by (nonlinear_arith);
    }

    proof fn times_commutative(a: int, b: int) {
        assert(a * b == b * a) by (nonlinear_arith);
    }

    proof fn times_one(a: int) {
    }

    proof fn times_zero(a: int) {
    }

    proof fn distributive(a: int, b: int, c: int) {
        assert(a * (b + c) == a * b + a * c) by (nonlinear_arith);
    }
}

impl Conjugate for int {
    open spec fn star(self) -> int {
        self
    }
}

impl StarSemiring for int {
    proof fn conj_plus(a: int, b: int) {
    }

    proof fn conj_times(a: int, b: int) {
    }

    proof fn conj_zero() {
    }

    proof fn conj_one() {
    }
}

/// A complex number whose parts are integers, computed with exactly.
pub ghost struct Gaussian {
    pub re: int,
    pub im: int,
}

impl Scalar for Gaussian {
    open spec fn zero() -> Gaussian {
        Gaussian { re: 0, im: 0 }
    }

    open spec fn one() -> Gaussian {
        Gaussian { re: 1, im: 0 }
    }

    open spec fn plus(self, other: Gaussian) -> Gaussian {
        Gaussian { re: self.re + other.re, im: self.im + other.im }
    }

    open spec fn times(self, other: Gaussian) -> Gaussian {
        Gaussian {
            re: self.re * other.re - self.im * other.im,
            im: self.re * other.im + self.im * other.re,
        }
    }
}

impl Conjugate for Gaussian {
    open spec fn star(self) -> Gaussian {
        Gaussian { re: self.re, im: -self.im }
    }
}

impl Semiring for Gaussian {
    proof fn plus_associative(a: Gaussian, b: Gaussian, c: Gaussian) {
    }

    proof fn plus_commutative(a: Gaussian, b: Gaussian) {
    }

    proof fn plus_zero(a: Gaussian) {
    }

    proof fn times_associative(a: Gaussian, b: Gaussian, c: Gaussian) {
        let (x, y) = (a.re, a.im);
        let (u, v) = (b.re, b.im);
        let (s, t) = (c.re, c.im);
        lemma_mul_is_associative(x, u, s);
        lemma_mul_is_associative(x, u, t);
        lemma_mul_is_associative(x, v, s);
        lemma_mul_is_associative(x, v, t);
        lemma_mul_is_associative(y, u, s);
        lemma_mul_is_associative(y, u, t);
        lemma_mul_is_associative(y, v, s);
        lemma_mul_is_associative(y, v, t);
        lemma_mul_is_distributive_sub_other_way(s, x * u, y * v);
        lemma_mul_is_distributive_add_other_way(t, x * v, y * u);
        lemma_mul_is_distributive_sub_other_way(t, x * u, y * v);
        lemma_mul_is_distributive_add_other_way(s, x * v, y * u);
        lemma_mul_is_distributive_sub(x, u * s, v * t);
        lemma_mul_is_distributive_add(y, u * t, v * s);
        lemma_mul_is_distributive_add(x, u * t, v * s);
        lemma_mul_is_distributive_sub(y, u * s, v * t);
    }

    proof fn times_commutative(a: Gaussian, b: Gaussian) {
        assert(a.re * b.re - a.im * b.im == b.re * a.re - b.im * a.im) by (nonlinear_arith);
        assert(a.re * b.im + a.im * b.re == b.re * a.im + b.im * a.re) by (nonlinear_arith);
    }

    proof fn times_one(a: Gaussian) {
        assert(a.re * 1 - a.im * 0 == a.re) by (nonlinear_arith);
        assert(a.re * 0 + a.im * 1 == a.im) by (nonlinear_arith);
    }

    proof fn times_zero(a: Gaussian) {
        assert(a.re * 0 - a.im * 0 == 0) by (nonlinear_arith);
        assert(a.re * 0 + a.im * 0 == 0) by (nonlinear_arith);
    }

    proof fn distributive(a: Gaussian, b: Gaussian, c: Gaussian) {
        assert(a.re * (b.re + c.re) - a.im * (b.im + c.im) == (a.re * b.re - a.im * b.im) + (a.re
            * c.re - a.im * c.im)) by (nonlinear_arith);
        assert(a.re * (b.im + c.im) + a.im * (b.re + c.re) == (a.re * b.im + a.im * b.re) + (a.re
            * c.im + a.im * c.re)) by (nonlinear_arith);
    }
}

impl StarSemiring for Gaussian {
    proof fn conj_plus(a: Gaussian, b: Gaussian) {
    }

    proof fn conj_times(a: Gaussian, b: Gaussian) {
        assert(a.re * b.re - a.im * b.im == a.re * b.re - (-a.im) * (-b.im)) by (nonlinear_arith);
        assert(-(a.re * b.im + a.im * b.re) == a.re * (-b.im) + (-a.im) * b.re)
            by (nonlinear_arith);
    }

    proof fn conj_zero() {
    }

    proof fn conj_one() {
    }
}

/// `(w + x) + (y + z) == (w + y) + (x + z)`.
pub proof fn lemma_plus_interchange<S: Semiring>(w: S, x: S, y: S, z: S)
    ensures
        w.plus(x).plus(y.plus(z)) == w.plus(y).plus(x.plus(z)),
{
    S::plus_associative(w, x, y.plus(z));
    S::plus_associative(x, y, z);
    S::plus_commutative(x, y);
    S::plus_associative(y, x, z);
    S::plus_associative(w, y, x.plus(z));
}

/// `(w * x) * (y * z) == (w * y) * (x * z)`.
pub proof fn lemma_times_interchange<S: Semiring>(w: S, x: S, y: S, z: S)
    ensures
        w.times(x).times(y.times(z)) == w.times(y).times(x.times(z)),
{
    S::times_associative(w, x, y.times(z));
    S::times_associative(x, y, z);
    S::times_commutative(x, y);
    S::times_associative(y, x, z);
    S::times_associative(w, y, x.times(z));
}

/// `zero + a == a`.
pub proof fn lemma_zero_plus<S: Semiring>(a: S)
    ensures
        S::zero().plus(a) == a,
{
    S::plus_commutative(S::zero(), a);
    S::plus_zero(a);
}

/// `one * a == a`.
pub proof fn lemma_one_times<S: Semiring>(a: S)
    ensures
        S::one().times(a) == a,
{
    S::times_commutative(S::one(), a);
    S::times_one(a);
}

/// `zero * a == zero`.
pub proof fn lemma_zero_times<S: Semiring>(a: S)
    ensures
        S::zero().times(a) == S::zero(),
{
    S::times_commutative(S::zero(), a);
    S::times_zero(a);
}

/// `(a + b) * c == a * c + b * c`.
pub proof fn lemma_distributive_right<S: Semiring>(a: S, b: S, c: S)
    ensures
        a.plus(b).times(c) == a.times(c).plus(b.times(c)),
{
    S::times_commutative(a.plus(b), c);
    S::distributive(c, a, b);
    S::times_commutative(c, a);
    S::times_commutative(c, b);
}

/// A sum of zeros is zero.
pub proof fn lemma_sum_zeros<S: Semiring>(s: Seq<S>)
    requires
        forall|k: int| 0 <= k < s.len() ==> s[k] == S::zero(),
    ensures
        sum(s) == S::zero(),
    decreases s.len(),
{
    if s.len() > 0 {
        lemma_sum_zeros(s.drop_last());
        S::plus_zero(S::zero());
    }
}

/// A sum with one term that may differ from zero is that term.
pub proof fn lemma_sum_single<S: Semiring>(s: Seq<S>, i: int)
    requires
        0 <= i < s.len(),
        forall|k: int| 0 <= k < s.len() && k != i ==> s[k] == S::zero(),
    ensures
        sum(s) == s[i],
    decreases s.len(),
{
    if i == s.len() - 1 {
        lemma_sum_zeros(s.drop_last());
        lemma_zero_plus(s[i]);
    } else {
        lemma_sum_single(s.drop_last(), i);
        S::plus_zero(s[i]);
    }
}

/// The sum of two lists, one after the other, is the sum of their sums.
pub proof fn lemma_sum_concat<S: Semiring>(a: Seq<S>, b: Seq<S>)
    ensures
        sum(a + b) == sum(a).plus(sum(b)),
    decreases b.len(),
{
    if b.len() == 0 {
        assert(a + b =~= a);
        S::plus_zero(sum(a));
    } else {
        assert((a + b).drop_last() =~= a + b.drop_last());
        lemma_sum_concat(a, b.drop_last());
        S::plus_associative(sum(a), sum(b.drop_last()), b.last());
    }
}

/// The sums `a[k] + b[k]`.
pub open spec fn pointwise_plus<S: Scalar>(a: Seq<S>, b: Seq<S>) -> Seq<S> {
    Seq::new(a.len(), |k: int| a[k].plus(b[k]))
}

/// The sum of the sums `a[k] + b[k]` is the sum of `a` plus the sum of `b`.
pub proof fn lemma_sum_pointwise<S: Semiring>(a: Seq<S>, b: Seq<S>)
    requires
        a.len() == b.len(),
    ensures
        sum(pointwise_plus(a, b)) == sum(a).plus(sum(b)),
    decreases a.len(),
{
    if a.len() == 0 {
        S::plus_zero(S::zero());
    } else {
        let p = pointwise_plus(a, b);
        assert(p.drop_last() =~= pointwise_plus(a.drop_last(), b.drop_last()));
        lemma_sum_pointwise(a.drop_last(), b.drop_last());
        lemma_plus_interchange(sum(a.drop_last()), sum(b.drop_last()), a.last(), b.last());
    }
}

/// The products `c * a[k]`.
pub open spec fn scaled<S: Scalar>(c: S, a: Seq<S>) -> Seq<S> {
    Seq::new(a.len(), |k: int| c.times(a[k]))
}

/// The products `a[k] * c`.
pub open spec fn scaled_right<S: Scalar>(a: Seq<S>, c: S) -> Seq<S> {
    Seq::new(a.len(), |k: int| a[k].times(c))
}

/// The sum of the products `c * a[k]` is `c` times the sum of `a`.
pub proof fn lemma_sum_scaled<S: Semiring>(c: S, a: Seq<S>)
    ensures
        sum(scaled(c, a)) == c.times(sum(a)),
    decreases a.len(),
{
    if a.len() == 0 {
        S::times_zero(c);
    } else {
        assert(scaled(c, a).drop_last() =~= scaled(c, a.drop_last()));
        lemma_sum_scaled(c, a.drop_last());
        S::distributive(c, sum(a.drop_last()), a.last());
    }
}

/// The sum of the products `a[k] * c` is the sum of `a` times `c`.
pub proof fn lemma_sum_scaled_right<S: Semiring>(a: Seq<S>, c: S)
    ensures
        sum(scaled_right(a, c)) == sum(a).times(c),
{
    assert forall|k: int| 0 <= k < a.len() implies #[trigger] scaled_right(a, c)[k] == scaled(
        c,
        a,
    )[k] by {
        S::times_commutative(a[k], c);
    }
    assert(scaled_right(a, c) =~= scaled(c, a));
    lemma_sum_scaled(c, a);
    S::times_commutative(c, sum(a));
}

/// The sums of the rows of a grid.
pub open spec fn row_sums<S: Scalar>(g: Seq<Seq<S>>) -> Seq<S> {
    Seq::new(g.len(), |i: int| sum(g[i]))
}

/// The sums of the first `n` columns of a grid.
pub open spec fn column_sums<S: Scalar>(g: Seq<Seq<S>>, n: nat) -> Seq<S> {
    Seq::new(n, |j: int| sum(column(g, j)))
}

/// Summing a grid by rows gives what summing it by columns gives.
pub proof fn lemma_sum_grid<S: Semiring>(g: Seq<Seq<S>>, n: nat)
    requires
        forall|i: int| 0 <= i < g.len() ==> (#[trigger] g[i]).len() == n,
    ensures
        sum(row_sums(g)) == sum(column_sums(g, n)),
    decreases g.len(),
{
    if g.len() == 0 {
        assert forall|j: int| 0 <= j < n implies #[trigger] column_sums(g, n)[j] == S::zero() by {
            assert(column(g, j) =~= Seq::<S>::empty());
        }
        lemma_sum_zeros(column_sums(g, n));
    } else {
        let rest = g.drop_last();
        let last = g.last();
        lemma_sum_grid(rest, n);
        assert forall|j: int| 0 <= j < n implies #[trigger] column_sums(g, n)[j] == pointwise_plus(
            column_sums(rest, n),
            last,
        )[j] by {
            assert(column(g, j).drop_last() =~= column(rest, j));
        }
        assert(column_sums(g, n) =~= pointwise_plus(column_sums(rest, n), last));
        lemma_sum_pointwise(column_sums(rest, n), last);
        assert(row_sums(g).drop_last() =~= row_sums(rest));
    }
}

/// The row `x * m`: entry `k` is the dot product of `x` and column `k`.
pub open spec fn row_times<S: Scalar>(x: Seq<S>, m: Seq<Seq<S>>) -> Seq<S> {
    Seq::new(m.len(), |k: int| dot(x, column(m, k)))
}

/// `(x * m) . y == x . (m * y)`.
pub proof fn lemma_dot_associative<S: Semiring>(x: Seq<S>, m: Seq<Seq<S>>, y: Seq<S>)
    requires
        is_square(m, x.len()),
        y.len() == x.len(),
    ensures
        dot(row_times(x, m), y) == dot(x, apply(m, y)),
{
    let n = x.len();
    let g = Seq::new(n, |l: int| Seq::new(n, |k: int| x[l].times(m[l][k].times(y[k]))));
    assert forall|l: int| 0 <= l < n implies #[trigger] products(x, apply(m, y))[l] == row_sums(
        g,
    )[l] by {
        lemma_sum_scaled(x[l], products(m[l], y));
        assert(scaled(x[l], products(m[l], y)) =~= g[l]);
    }
    assert(products(x, apply(m, y)) =~= row_sums(g));
    assert forall|k: int| 0 <= k < n implies #[trigger] products(row_times(x, m), y)[k]
        == column_sums(g, n)[k] by {
        let terms = products(x, column(m, k));
        lemma_sum_scaled_right(terms, y[k]);
        assert forall|l: int| 0 <= l < n implies #[trigger] scaled_right(terms, y[k])[l] == column(
            g,
            k,
        )[l] by {
            S::times_associative(x[l], m[l][k], y[k]);
        }
        assert(scaled_right(terms, y[k]) =~= column(g, k));
    }
    assert(products(row_times(x, m), y) =~= column_sums(g, n));
    lemma_sum_grid(g, n);
}

/// The product of two square matrices of one size is square.
pub proof fn lemma_mat_mul_square<S: Scalar>(a: Seq<Seq<S>>, b: Seq<Seq<S>>)
    ensures
        is_square(mat_mul(a, b), a.len()),
{
}

/// `(a * b) * c == a * (b * c)`.
pub proof fn lemma_mat_mul_associative<S: Semiring>(
    a: Seq<Seq<S>>,
    b: Seq<Seq<S>>,
    c: Seq<Seq<S>>,
)
    requires
        is_square(a, a.len()),
        is_square(b, a.len()),
        is_square(c, a.len()),
    ensures
        mat_mul(mat_mul(a, b), c) == mat_mul(a, mat_mul(b, c)),
{
    let n = a.len();
    assert forall|i: int, j: int| 0 <= i < n && 0 <= j < n implies #[trigger] mat_mul(
        mat_mul(a, b),
        c,
    )[i][j] == mat_mul(a, mat_mul(b, c))[i][j] by {
        assert(mat_mul(a, b)[i] =~= row_times(a[i], b));
        lemma_dot_associative(a[i], b, column(c, j));
        assert(column(mat_mul(b, c), j) =~= apply(b, column(c, j)));
    }
    assert(mat_mul(mat_mul(a, b), c) =~~= mat_mul(a, mat_mul(b, c)));
}

/// `(a * b) * v == a * (b * v)`.
pub proof fn lemma_apply_product<S: Semiring>(a: Seq<Seq<S>>, b: Seq<Seq<S>>, v: Seq<S>)
    requires
        is_square(a, a.len()),
        is_square(b, a.len()),
        v.len() == a.len(),
    ensures
        apply(mat_mul(a, b), v) == apply(a, apply(b, v)),
{
    let n = a.len();
    assert forall|i: int| 0 <= i < n implies #[trigger] apply(mat_mul(a, b), v)[i] == apply(
        a,
        apply(b, v),
    )[i] by {
        assert(mat_mul(a, b)[i] =~= row_times(a[i], b));
        lemma_dot_associative(a[i], b, v);
    }
    assert(apply(mat_mul(a, b), v) =~= apply(a, apply(b, v)));
}

/// `identity * a == a`.
pub proof fn lemma_identity_left<S: Semiring>(a: Seq<Seq<S>>)
    requires
        is_square(a, a.len()),
    ensures
        mat_mul(identity::<S>(a.len()), a) == a,
{
    let n = a.len();
    let id = identity::<S>(n);
    assert forall|i: int, j: int| 0 <= i < n && 0 <= j < n implies #[trigger] mat_mul(
        id,
        a,
    )[i][j] == a[i][j] by {
        let terms = products(id[i], column(a, j));
        assert forall|k: int| 0 <= k < n && k != i implies terms[k] == S::zero() by {
            lemma_zero_times(a[k][j]);
        }
        lemma_one_times(a[i][j]);
        lemma_sum_single(terms, i);
    }
    assert(mat_mul(id, a) =~~= a);
}

/// `a * identity == a`.
pub proof fn lemma_identity_right<S: Semiring>(a: Seq<Seq<S>>)
    requires
        is_square(a, a.len()),
    ensures
        mat_mul(a, identity::<S>(a.len())) == a,
{
    let n = a.len();
    let id = identity::<S>(n);
    assert forall|i: int, j: int| 0 <= i < n && 0 <= j < n implies #[trigger] mat_mul(
        a,
        id,
    )[i][j] == a[i][j] by {
        let terms = products(a[i], column(id, j));
        assert forall|k: int| 0 <= k < n && k != j implies terms[k] == S::zero() by {
            S::times_zero(a[i][k]);
        }
        S::times_one(a[i][j]);
        lemma_sum_single(terms, j);
    }
    assert(mat_mul(a, id) =~~= a);
}

/// `identity * v == v`.
pub proof fn lemma_apply_identity<S: Semiring>(v: Seq<S>)
    ensures
        apply(identity::<S>(v.len()), v) == v,
{
    let n = v.len();
    let id = identity::<S>(n);
    assert forall|i: int| 0 <= i < n implies #[trigger] apply(id, v)[i] == v[i] by {
        let terms = products(id[i], v);
        assert forall|k: int| 0 <= k < n && k != i implies terms[k] == S::zero() by {
            lemma_zero_times(v[k]);
        }
        lemma_one_times(v[i]);
        lemma_sum_single(terms, i);
    }
    assert(apply(id, v) =~= v);
}

/// The products `a[k / n] * b[k % n]`, with `n` the length of `b`: every
/// entry of `a` times every entry of `b`.
pub open spec fn grid_products<S: Scalar>(a: Seq<S>, b: Seq<S>) -> Seq<S> {
    let n = b.len() as int;
    Seq::new(a.len() * b.len(), |k: int| a[k / n].times(b[k % n]))
}

/// Where `k` is `q * n + j` with `j` below `n`, its quotient by `n` is `q`
/// and its remainder is `j`.
pub proof fn lemma_join_index(q: int, j: int, n: int)
    requires
        0 <= q,
        0 <= j < n,
    ensures
        (q * n + j) / n == q,
        (q * n + j) % n == j,
{
    assert(q * n + j == n * q + j) by (nonlinear_arith);
    lemma_fundamental_div_mod_converse(q * n + j, n, q, j);
}

/// Where `r` is below `m * n`, its quotient by `n` is below `m`.
pub proof fn lemma_quotient_below(r: int, m: int, n: int)
    requires
        0 <= r < m * n,
        0 <= m,
        0 <= n,
    ensures
        0 < n,
        0 <= r / n < m,
        0 <= r % n < n,
        r == (r / n) * n + r % n,
{
    crate::matrix::lemma_split_index(r, m, n);
    lemma_fundamental_div_mod(r, n);
    assert(n * (r / n) == (r / n) * n) by (nonlinear_arith);
}

/// The sum of every entry of `a` times every entry of `b` is the sum of
/// `a` times the sum of `b`.
pub proof fn lemma_sum_grid_products<S: Semiring>(a: Seq<S>, b: Seq<S>)
    ensures
        sum(grid_products(a, b)) == sum(a).times(sum(b)),
    decreases a.len(),
{
    let n = b.len() as int;
    if a.len() == 0 {
        assert(a.len() * b.len() == 0) by (nonlinear_arith)
            requires
                a.len() == 0,
        ;
        lemma_zero_times(sum(b));
    } else {
        let rest = a.drop_last();
        let x = a.last();
        let m = a.len() as int;
        assert((m - 1) * n + n == m * n) by (nonlinear_arith);
        assert(0 <= (m - 1) * n) by (nonlinear_arith)
            requires
                1 <= m,
                0 <= n,
        ;
        let whole = grid_products(a, b);
        let parts = grid_products(rest, b) + scaled(x, b);
        assert(whole.len() == parts.len());
        assert forall|k: int| 0 <= k < whole.len() implies whole[k] == parts[k] by {
            if k < (m - 1) * n {
                lemma_quotient_below(k, m - 1, n);
            } else {
                let j = k - (m - 1) * n;
                lemma_join_index(m - 1, j, n);
            }
        }
        assert(whole =~= parts);
        lemma_sum_concat(grid_products(rest, b), scaled(x, b));
        lemma_sum_grid_products(rest, b);
        lemma_sum_scaled(x, b);
        lemma_distributive_right(sum(rest), x, sum(b));
    }
}

/// The Kronecker product of two square matrices is square.
pub proof fn lemma_tensor_square<S: Scalar>(a: Seq<Seq<S>>, b: Seq<Seq<S>>)
    ensures
        is_square(tensor(a, b), a.len() * b.len()),
{
    assert(a.len() * b.len() >= 0) by (nonlinear_arith);
}

/// `(a x b) * (c x d) == (a * c) x (b * d)`.
pub proof fn lemma_tensor_product_mul<S: Semiring>(
    a: Seq<Seq<S>>,
    b: Seq<Seq<S>>,
    c: Seq<Seq<S>>,
    d: Seq<Seq<S>>,
)
    requires
        is_square(a, a.len()),
        is_square(c, a.len()),
        is_square(b, b.len()),
        is_square(d, b.len()),
    ensures
        mat_mul(tensor(a, b), tensor(c, d)) == tensor(mat_mul(a, c), mat_mul(b, d)),
{
    let m = a.len() as int;
    let n = b.len() as int;
    let size = m * n;
    lemma_tensor_square(a, b);
    lemma_tensor_square(c, d);
    let left = mat_mul(tensor(a, b), tensor(c, d));
    let right = tensor(mat_mul(a, c), mat_mul(b, d));
    assert(left.len() == size);
    assert(right.len() == size);
    assert forall|r: int, col: int| 0 <= r < size && 0 <= col < size implies #[trigger] left[r][col]
        == right[r][col] by {
        lemma_quotient_below(r, m, n);
        lemma_quotient_below(col, m, n);
        let pa = products(a[r / n], column(c, col / n));
        let pb = products(b[r % n], column(d, col % n));
        let terms = products(tensor(a, b)[r], column(tensor(c, d), col));
        assert(terms.len() == size);
        assert forall|k: int| 0 <= k < size implies #[trigger] terms[k] == grid_products(pa, pb)[k] by {
            lemma_quotient_below(k, m, n);
            lemma_times_interchange(
                a[r / n][k / n],
                b[r % n][k % n],
                c[k / n][col / n],
                d[k % n][col % n],
            );
        }
        assert(terms =~= grid_products(pa, pb));
        lemma_sum_grid_products(pa, pb);
    }
    assert(left =~~= right);
}

/// `identity(m) x identity(n) == identity(m * n)`.
pub proof fn lemma_tensor_identities<S: Semiring>(m: nat, n: nat)
    ensures
        tensor(identity::<S>(m), identity::<S>(n)) == identity::<S>(m * n),
{
    let size = (m * n) as int;
    let t = tensor(identity::<S>(m), identity::<S>(n));
    assert(m * n >= 0) by (nonlinear_arith);
    assert forall|r: int, c: int| 0 <= r < size && 0 <= c < size implies #[trigger] t[r][c]
        == identity::<S>(m * n)[r][c] by {
        lemma_quotient_below(r, m as int, n as int);
        lemma_quotient_below(c, m as int, n as int);
        let x = identity::<S>(m)[r / (n as int)][c / (n as int)];
        let y = identity::<S>(n)[r % (n as int)][c % (n as int)];
        if r == c {
            S::times_one(S::one());
        } else if r / (n as int) != c / (n as int) {
            lemma_zero_times(y);
        } else {
            S::times_zero(x);
        }
    }
    assert(t =~~= identity::<S>(m * n));
}

/// Every matrix of the list is square.
pub open spec fn all_square<S>(fs: Seq<Seq<Seq<S>>>) -> bool {
    forall|i: int| 0 <= i < fs.len() ==> is_square(#[trigger] fs[i], fs[i].len())
}

/// The two lists have matrices of the same sizes at the same places.
pub open spec fn same_sizes<S>(fs: Seq<Seq<Seq<S>>>, gs: Seq<Seq<Seq<S>>>) -> bool {
    &&& fs.len() == gs.len()
    &&& forall|i: int| 0 <= i < fs.len() ==> (#[trigger] fs[i]).len() == (#[trigger] gs[i]).len()
}

/// The products `fs[i] * gs[i]`.
pub open spec fn pairwise_mul<S: Scalar>(fs: Seq<Seq<Seq<S>>>, gs: Seq<Seq<Seq<S>>>) -> Seq<
    Seq<Seq<S>>,
> {
    Seq::new(fs.len(), |i: int| mat_mul(fs[i], gs[i]))
}

/// A Kronecker product of square matrices is square, and its size rests
/// on the sizes of the matrices alone.
pub proof fn lemma_chain_square<S: Scalar>(fs: Seq<Seq<Seq<S>>>, gs: Seq<Seq<Seq<S>>>)
    requires
        all_square(fs),
        same_sizes(fs, gs),
    ensures
        is_square(tensor_chain(fs), tensor_chain(fs).len()),
        tensor_chain(fs).len() == tensor_chain(gs).len(),
    decreases fs.len(),
{
    if fs.len() >= 2 {
        assert(all_square(fs.drop_last())) by {
            assert forall|i: int| 0 <= i < fs.drop_last().len() implies is_square(
                #[trigger] fs.drop_last()[i],
                fs.drop_last()[i].len(),
            ) by {
                assert(fs.drop_last()[i] == fs[i]);
            }
        }
        assert(same_sizes(fs.drop_last(), gs.drop_last())) by {
            assert forall|i: int| 0 <= i < fs.drop_last().len() implies (
            #[trigger] fs.drop_last()[i]).len() == (#[trigger] gs.drop_last()[i]).len() by {
                assert(fs.drop_last()[i] == fs[i]);
                assert(gs.drop_last()[i] == gs[i]);
            }
        }
        lemma_chain_square(fs.drop_last(), gs.drop_last());
        lemma_tensor_square(tensor_chain(fs.drop_last()), fs.last());
        assert(fs.last() == fs[fs.len() - 1]);
        assert(gs.last() == gs[gs.len() - 1]);
    } else if fs.len() == 1 {
        assert(fs[0].len() == gs[0].len());
    }
}

/// The product of two Kronecker products, factor by factor.
pub proof fn lemma_chain_mul<S: Semiring>(fs: Seq<Seq<Seq<S>>>, gs: Seq<Seq<Seq<S>>>)
    requires
        fs.len() >= 1,
        all_square(fs),
        all_square(gs),
        same_sizes(fs, gs),
    ensures
        mat_mul(tensor_chain(fs), tensor_chain(gs)) == tensor_chain(pairwise_mul(fs, gs)),
    decreases fs.len(),
{
    let ps = pairwise_mul(fs, gs);
    if fs.len() >= 2 {
        let f0 = fs.drop_last();
        let g0 = gs.drop_last();
        assert(all_square(f0)) by {
            assert forall|i: int| 0 <= i < f0.len() implies is_square(
                #[trigger] f0[i],
                f0[i].len(),
            ) by {
                assert(f0[i] == fs[i]);
            }
        }
        assert(all_square(g0)) by {
            assert forall|i: int| 0 <= i < g0.len() implies is_square(
                #[trigger] g0[i],
                g0[i].len(),
            ) by {
                assert(g0[i] == gs[i]);
            }
        }
        assert(same_sizes(f0, g0)) by {
            assert forall|i: int| 0 <= i < f0.len() implies (#[trigger] f0[i]).len() == (
            #[trigger] g0[i]).len() by {
                assert(f0[i] == fs[i]);
                assert(g0[i] == gs[i]);
            }
        }
        lemma_chain_mul(f0, g0);
        lemma_chain_square(f0, g0);
        assert(same_sizes(g0, f0));
        lemma_chain_square(g0, f0);
        let last = fs.len() - 1;
        assert(fs.last() == fs[last]);
        assert(gs.last() == gs[last]);
        lemma_tensor_product_mul(tensor_chain(f0), fs.last(), tensor_chain(g0), gs.last());
        assert(ps.drop_last() =~= pairwise_mul(f0, g0));
    }
}

/// A Kronecker product of identities is an identity.
pub proof fn lemma_chain_identity<S: Semiring>(fs: Seq<Seq<Seq<S>>>)
    requires
        fs.len() >= 1,
        forall|i: int| 0 <= i < fs.len() ==> (#[trigger] fs[i]) == identity::<S>(fs[i].len()),
    ensures
        tensor_chain(fs) == identity::<S>(tensor_chain(fs).len()),
    decreases fs.len(),
{
    if fs.len() >= 2 {
        let f0 = fs.drop_last();
        assert forall|i: int| 0 <= i < f0.len() implies (#[trigger] f0[i]) == identity::<S>(
            f0[i].len(),
        ) by {
            assert(f0[i] == fs[i]);
        }
        lemma_chain_identity(f0);
        assert(fs.last() == fs[fs.len() - 1]);
        lemma_tensor_identities::<S>(tensor_chain(f0).len(), fs.last().len());
        assert(tensor_chain(f0).len() * fs.last().len() >= 0) by (nonlinear_arith);
    }
}

/// A matrix that is its own inverse.
pub open spec fn involutory<S: Scalar>(m: Seq<Seq<S>>) -> bool {
    is_square(m, m.len()) && mat_mul(m, m) == identity::<S>(m.len())
}

/// A gate that is its own inverse, lifted to the whole register, is its
/// own inverse.
pub proof fn lemma_lift_involutory<S: Semiring>(gate: Seq<Seq<S>>, line: nat, qubits: nat)
    requires
        involutory(gate),
        line < lift_slots(gate, qubits),
    ensures
        involutory(lift(gate, line, qubits)),
{
    let fs = lift_factors(gate, line, qubits);
    let ps = pairwise_mul(fs, fs);
    assert(all_square(fs));
    assert(same_sizes(fs, fs));
    lemma_chain_mul(fs, fs);
    lemma_chain_square(fs, fs);
    assert forall|i: int| 0 <= i < ps.len() implies (#[trigger] ps[i]) == identity::<S>(
        ps[i].len(),
    ) by {
        if fs[i] != gate {
            lemma_identity_left(identity::<S>(2));
        }
    }
    lemma_chain_identity(ps);
    assert(same_sizes(ps, fs));
    assert(all_square(ps)) by {
        assert forall|i: int| 0 <= i < ps.len() implies is_square(#[trigger] ps[i], ps[i].len()) by {
            lemma_mat_mul_square(fs[i], fs[i]);
        }
    }
    lemma_chain_square(ps, fs);
}

/// The product of a list of matrices of size `d`, multiplied from the
/// right: `list[0] * (list[1] * (... * identity))`.
pub open spec fn product_of<S: Scalar>(list: Seq<Seq<Seq<S>>>, d: nat) -> Seq<Seq<S>>
    decreases list.len(),
{
    if list.len() == 0 {
        identity::<S>(d)
    } else {
        mat_mul(list[0], product_of(list.drop_first(), d))
    }
}

/// Every matrix of the list is square of size `d`.
pub open spec fn all_of_size<S>(list: Seq<Seq<Seq<S>>>, d: nat) -> bool {
    forall|i: int| 0 <= i < list.len() ==> is_square(#[trigger] list[i], d)
}

/// The product of a list of square matrices of size `d` is square of size
/// `d`.
pub proof fn lemma_product_square<S: Scalar>(list: Seq<Seq<Seq<S>>>, d: nat)
    requires
        all_of_size(list, d),
    ensures
        is_square(product_of(list, d), d),
    decreases list.len(),
{
    if list.len() > 0 {
        assert(is_square(list[0], d));
    }
}

/// The product of two lists, one after the other, is the product of their
/// products.
pub proof fn lemma_product_concat<S: Semiring>(
    x: Seq<Seq<Seq<S>>>,
    y: Seq<Seq<Seq<S>>>,
    d: nat,
)
    requires
        all_of_size(x, d),
        all_of_size(y, d),
    ensures
        product_of(x + y, d) == mat_mul(product_of(x, d), product_of(y, d)),
    decreases x.len(),
{
    lemma_product_square(y, d);
    if x.len() == 0 {
        assert(x + y =~= y);
        lemma_identity_left(product_of(y, d));
    } else {
        let rest = x.drop_first();
        assert(all_of_size(rest, d)) by {
            assert forall|i: int| 0 <= i < rest.len() implies is_square(#[trigger] rest[i], d) by {
                assert(rest[i] == x[i + 1]);
            }
        }
        assert((x + y).drop_first() =~= rest + y);
        lemma_product_concat(rest, y, d);
        lemma_product_square(rest, d);
        assert(is_square(x[0], d));
        lemma_mat_mul_associative(x[0], product_of(rest, d), product_of(y, d));
    }
}

/// The product of a list of one matrix is that matrix.
pub proof fn lemma_product_one<S: Semiring>(m: Seq<Seq<S>>, d: nat)
    requires
        is_square(m, d),
    ensures
        product_of(seq![m], d) == m,
{
    let list = seq![m];
    assert(list.drop_first() =~= Seq::<Seq<Seq<S>>>::empty());
    assert(product_of(list.drop_first(), d) == identity::<S>(d));
    assert(list[0] == m);
    assert(product_of(list, d) == mat_mul(m, identity::<S>(d)));
    lemma_identity_right(m);
}

/// `left + [middle] + left` read backwards: a list that reads the same
/// both ways.
pub open spec fn palindrome<S>(left: Seq<Seq<Seq<S>>>, middle: Seq<Seq<S>>) -> Seq<Seq<Seq<S>>> {
    left + seq![middle] + left.reverse()
}

/// The product of a palindrome of matrices that are their own inverses is
/// its own inverse.
pub proof fn lemma_palindrome_involutory<S: Semiring>(
    left: Seq<Seq<Seq<S>>>,
    middle: Seq<Seq<S>>,
    d: nat,
)
    requires
        all_of_size(left, d),
        forall|i: int| 0 <= i < left.len() ==> involutory(#[trigger] left[i]),
        is_square(middle, d),
        involutory(middle),
    ensures
        is_square(product_of(palindrome(left, middle), d), d),
        involutory(product_of(palindrome(left, middle), d)),
    decreases left.len(),
{
    let pal = palindrome(left, middle);
    if left.len() == 0 {
        assert(pal =~= seq![middle]);
        lemma_product_one(middle, d);
    } else {
        let g = left[0];
        let rest = left.drop_first();
        let inner = palindrome(rest, middle);
        assert(is_square(g, d));
        assert(involutory(g));
        assert(all_of_size(rest, d)) by {
            assert forall|i: int| 0 <= i < rest.len() implies is_square(#[trigger] rest[i], d) by {
                assert(rest[i] == left[i + 1]);
            }
        }
        assert forall|i: int| 0 <= i < rest.len() implies involutory(#[trigger] rest[i]) by {
            assert(rest[i] == left[i + 1]);
        }
        lemma_palindrome_involutory(rest, middle, d);
        let p = product_of(inner, d);
        assert(all_of_size(inner, d)) by {
            assert forall|i: int| 0 <= i < inner.len() implies is_square(#[trigger] inner[i], d) by {
                if i < rest.len() {
                    assert(inner[i] == rest[i]);
                } else if i == rest.len() {
                    assert(inner[i] == middle);
                } else {
                    assert(inner[i] == rest[rest.len() - 1 - (i - rest.len() - 1)]);
                }
            }
        }
        assert(pal =~= seq![g] + (inner + seq![g]));
        assert(pal.drop_first() =~= inner + seq![g]);
        assert(all_of_size(seq![g], d));
        lemma_product_concat(inner, seq![g], d);
        lemma_product_one(g, d);
        // The product is `g * (p * g)`; its square folds up from the middle.
        let pg = mat_mul(p, g);
        let whole = mat_mul(g, pg);
        assert(product_of(pal, d) == whole);
        lemma_mat_mul_square(p, g);
        lemma_mat_mul_square(g, pg);
        let id = identity::<S>(d);
        // (g * pg) * (g * pg) == g * (pg * (g * pg))
        lemma_mat_mul_associative(g, pg, whole);
        // pg * (g * pg) == (pg * g) * pg
        lemma_mat_mul_associative(pg, g, pg);
        // pg * g == p * (g * g) == p
        lemma_mat_mul_associative(p, g, g);
        lemma_identity_right(p);
        // p * (p * g) == (p * p) * g == g
        lemma_mat_mul_associative(p, p, g);
        lemma_identity_left(g);
        assert(mat_mul(pg, g) == p);
        assert(mat_mul(p, pg) == g);
        assert(mat_mul(pg, whole) == g);
        assert(mat_mul(whole, whole) == id);
    }
}

/// The matrices `gs[i], gs[i - 1], .., gs[0]`.
pub open spec fn descending<S>(gs: Seq<Seq<Seq<S>>>, i: int) -> Seq<Seq<Seq<S>>> {
    Seq::new((i + 1) as nat, |t: int| gs[i - t])
}

/// `ascend` is the product of a descending list.
pub proof fn lemma_ascend_product<S: Semiring>(gs: Seq<Seq<Seq<S>>>, i: nat, d: nat)
    requires
        all_of_size(gs, d),
        i < gs.len(),
    ensures
        ascend(gs, i) == product_of(descending(gs, i as int), d),
    decreases i,
{
    let list = descending(gs, i as int);
    if i == 0 {
        assert(list =~= seq![gs[0]]);
        lemma_product_one(gs[0], d);
    } else {
        lemma_ascend_product(gs, (i - 1) as nat, d);
        assert(list.drop_first() =~= descending(gs, i - 1));
    }
}

/// `descend` is the product of a rising list followed by the whole list
/// descending.
pub proof fn lemma_descend_product<S: Semiring>(gs: Seq<Seq<Seq<S>>>, i: nat, d: nat)
    requires
        all_of_size(gs, d),
        i < gs.len(),
    ensures
        descend(gs, i) == product_of(
            gs.subrange(gs.len() - 1 - i, gs.len() - 1) + descending(gs, gs.len() - 1),
            d,
        ),
    decreases i,
{
    let k = gs.len() - 1;
    let list = gs.subrange(k - i, k) + descending(gs, k);
    if i == 0 {
        lemma_ascend_product(gs, k as nat, d);
        assert(list =~= descending(gs, k));
    } else {
        lemma_descend_product(gs, (i - 1) as nat, d);
        assert(list.drop_first() =~= gs.subrange(k - i + 1, k) + descending(gs, k));
    }
}

/// The palindromic product of operators that are their own inverses is its
/// own inverse.
pub proof fn lemma_join_involutory<S: Semiring>(gs: Seq<Seq<Seq<S>>>, d: nat)
    requires
        gs.len() >= 1,
        all_of_size(gs, d),
        forall|i: int| 0 <= i < gs.len() ==> involutory(#[trigger] gs[i]),
    ensures
        is_square(join(gs), d),
        involutory(join(gs)),
{
    let k = gs.len() - 1;
    let left = gs.subrange(0, k);
    lemma_descend_product(gs, k as nat, d);
    assert(gs.subrange(0, k) + descending(gs, k) =~= palindrome(left, gs[k]));
    assert(all_of_size(left, d)) by {
        assert forall|i: int| 0 <= i < left.len() implies is_square(#[trigger] left[i], d) by {
            assert(left[i] == gs[i]);
        }
    }
    assert forall|i: int| 0 <= i < left.len() implies involutory(#[trigger] left[i]) by {
        assert(left[i] == gs[i]);
    }
    lemma_palindrome_involutory(left, gs[k], d);
}

} // verus!
