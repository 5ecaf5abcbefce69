//! Dense square matrices of complex numbers, and the three products the
//! machine is built from: matrix by matrix, matrix by vector, and the
//! Kronecker product.

use crate::algebra::{apply, column, dot, is_square, mat_mul, products, sum, tensor, Scalar};
use crate::complex::{c0, Complex};
use vstd::prelude::*;

verus! {

/// A matrix, held row by row.
#[derive(Clone, Debug)]
pub struct Matrix {
    pub rows: Vec<Vec<Complex>>,
}

impl View for Matrix {
    type V = Seq<Seq<Complex>>;

    open spec fn view(&self) -> Seq<Seq<Complex>> {
        Seq::new(self.rows@.len(), |i: int| self.rows@[i]@)
    }
}

impl Matrix {
    /// The matrix is square: it has as many entries in each row as it has
    /// rows.
    pub open spec fn wf(&self) -> bool {
        is_square(self@, self@.len())
    }

    /// The number of rows.
    pub fn dim(&self) -> (n: usize)
        ensures
            n == self@.len(),
    {
        self.rows.len()
    }

    /// Whether the matrix is a gate: square, of size 2 or 4.
    pub fn is_gate(&self) -> (r: bool)
        ensures
            r == (is_square(self@, 2) || is_square(self@, 4)),
    {
        let n = self.rows.len();
        if n != 2 && n != 4 {
            return false;
        }
        let mut i: usize = 0;
        while i < n
            invariant
                n == self.rows@.len(),
                n == 2 || n == 4,
                i <= n,
                forall|k: int| 0 <= k < i ==> (#[trigger] self@[k]).len() == n,
            decreases n - i,
        {
            if self.rows[i].len() != n {
                assert(self@[i as int].len() != n);
                return false;
            }
            i += 1;
        }
        true
    }

    /// A matrix with the same entries.
    pub fn copy(&self) -> (r: Matrix)
        ensures
            r@ == self@,
    {
        let n = self.rows.len();
        let mut rows: Vec<Vec<Complex>> = Vec::new();
        let mut i: usize = 0;
        while i < n
            invariant
                n == self.rows@.len(),
                i <= n,
                rows@.len() == i,
                forall|k: int| 0 <= k < i ==> (#[trigger] rows@[k])@ == self.rows@[k]@,
            decreases n - i,
        {
            let width = self.rows[i].len();
            let mut row: Vec<Complex> = Vec::new();
            let mut j: usize = 0;
            while j < width
                invariant
                    i < n,
                    n == self.rows@.len(),
                    width == self.rows@[i as int]@.len(),
                    j <= width,
                    row@.len() == j,
                    forall|k: int| 0 <= k < j ==> #[trigger] row@[k] == self.rows@[i as int]@[k],
                decreases width - j,
            {
                row.push(self.rows[i][j]);
                j += 1;
            }
            assert(row@ =~= self.rows@[i as int]@);
            rows.push(row);
            i += 1;
        }
        let r = Matrix { rows };
        assert(r@ =~= self@);
        r
    }

    /// The entry in row `i` and column `j`.
    pub fn get(&self, i: usize, j: usize) -> (c: Complex)
        requires
            i < self@.len(),
            j < self@[i as int].len(),
        ensures
            c == self@[i as int][j as int],
    {
        self.rows[i][j]
    }
}

/// Adding one more term to a sum taken from the left.
pub proof fn lemma_sum_take<S: Scalar>(s: Seq<S>, k: int)
    requires
        0 <= k < s.len(),
    ensures
        sum(s.take(k + 1)) == sum(s.take(k)).plus(s[k]),
{
    assert(s.take(k + 1).drop_last() =~= s.take(k));
}

/// Where `r` is below `m * n`, it splits into a quotient below `m` and a
/// remainder below `n`.
pub proof fn lemma_split_index(r: int, m: int, n: int)
    requires
        0 <= r < m * n,
        0 <= m,
        0 <= n,
    ensures
        0 < n,
        0 <= r / n < m,
        0 <= r % n < n,
{
    assert(0 < n) by (nonlinear_arith)
        requires
            0 <= r < m * n,
            0 <= n,
    ;
    vstd::arithmetic::div_mod::lemma_fundamental_div_mod(r, n);
    vstd::arithmetic::div_mod::lemma_mod_bound(r, n);
    assert(0 <= r / n < m) by (nonlinear_arith)
        requires
            0 <= r < m * n,
            0 < n,
            r == n * (r / n) + r % n,
            0 <= r % n < n,
    ;
}

/// The Kronecker product of `a` and `b`.
pub fn tensor_product(a: &Matrix, b: &Matrix) -> (r: Matrix)
    requires
        a.wf(),
        b.wf(),
        a@.len() * b@.len() <= usize::MAX,
    ensures
        r.wf(),
        r@ == tensor(a@, b@),
{
    let b_dim = b.dim();
    let a_dim = a.dim();
    let size = a_dim * b_dim;
    let mut rows: Vec<Vec<Complex>> = Vec::new();
    let mut rdx: usize = 0;
    while rdx < size
        invariant
            a.wf(),
            b.wf(),
            b_dim == b@.len(),
            a_dim == a@.len(),
            size == a_dim * b_dim,
            rdx <= size,
            rows@.len() == rdx,
            forall|i: int| 0 <= i < rdx ==> (#[trigger] rows@[i])@ == tensor(a@, b@)[i],
        decreases size - rdx,
    {
        proof {
            lemma_split_index(rdx as int, a_dim as int, b_dim as int);
        }
        let a_i = rdx / b_dim;
        let b_i = rdx % b_dim;
        let mut row: Vec<Complex> = Vec::new();
        let mut cdx: usize = 0;
        while cdx < size
            invariant
                a.wf(),
                b.wf(),
                b_dim == b@.len(),
                a_dim == a@.len(),
                size == a_dim * b_dim,
                rdx < size,
                a_i == rdx as int / b_dim as int,
                b_i == rdx as int % b_dim as int,
                a_i < a_dim,
                b_i < b_dim,
                cdx <= size,
                row@.len() == cdx,
                forall|j: int| 0 <= j < cdx ==> #[trigger] row@[j] == tensor(a@, b@)[rdx as int][j],
            decreases size - cdx,
        {
            proof {
                lemma_split_index(cdx as int, a_dim as int, b_dim as int);
            }
            let a_j = cdx / b_dim;
            let b_j = cdx % b_dim;
            let item = a.get(a_i, a_j).mul(b.get(b_i, b_j));
            row.push(item);
            cdx += 1;
        }
        assert(row@ =~= tensor(a@, b@)[rdx as int]);
        rows.push(row);
        rdx += 1;
    }
    let r = Matrix { rows };
    assert(r@ =~= tensor(a@, b@));
    r
}

/// The dot product of two vectors of one length.
pub fn inner_product(a: &Vec<Complex>, b: &Vec<Complex>) -> (r: Complex)
    requires
        a@.len() == b@.len(),
    ensures
        r == dot(a@, b@),
{
    let n = a.len();
    let mut val = c0();
    let mut k: usize = 0;
    while k < n
        invariant
            n == a@.len(),
            n == b@.len(),
            k <= n,
            val == sum(products(a@, b@).take(k as int)),
        decreases n - k,
    {
        proof {
            lemma_sum_take(products(a@, b@), k as int);
        }
        val = val.add(a[k].mul(b[k]));
        k += 1;
    }
    assert(products(a@, b@).take(n as int) =~= products(a@, b@));
    val
}

/// The columns of `m`, each read from the top.
pub fn columns(m: &Matrix) -> (r: Vec<Vec<Complex>>)
    requires
        m.wf(),
    ensures
        r@.len() == m@.len(),
        forall|j: int| 0 <= j < r@.len() ==> (#[trigger] r@[j])@ == column(m@, j),
{
    let n = m.dim();
    let mut cols: Vec<Vec<Complex>> = Vec::new();
    let mut j: usize = 0;
    while j < n
        invariant
            m.wf(),
            n == m@.len(),
            j <= n,
            cols@.len() == j,
            forall|c: int| 0 <= c < j ==> (#[trigger] cols@[c])@ == column(m@, c),
        decreases n - j,
    {
        let mut col: Vec<Complex> = Vec::new();
        let mut k: usize = 0;
        while k < n
            invariant
                m.wf(),
                n == m@.len(),
                j < n,
                k <= n,
                col@.len() == k,
                forall|i: int| 0 <= i < k ==> #[trigger] col@[i] == m@[i][j as int],
            decreases n - k,
        {
            col.push(m.get(k, j));
            k += 1;
        }
        assert(col@ =~= column(m@, j as int));
        cols.push(col);
        j += 1;
    }
    cols
}

/// The matrix product `this * other`.
pub fn mul(this: &Matrix, other: &Matrix) -> (r: Matrix)
    requires
        this.wf(),
        other.wf(),
        this@.len() == other@.len(),
    ensures
        r.wf(),
        r@ == mat_mul(this@, other@),
{
    let size = this.dim();
    let cols = columns(other);
    let mut rows: Vec<Vec<Complex>> = Vec::new();
    let mut i: usize = 0;
    while i < size
        invariant
            this.wf(),
            size == this@.len(),
            size == other@.len(),
            cols@.len() == size,
            forall|j: int| 0 <= j < size ==> (#[trigger] cols@[j])@ == column(other@, j),
            i <= size,
            rows@.len() == i,
            forall|k: int| 0 <= k < i ==> (#[trigger] rows@[k])@ == mat_mul(this@, other@)[k],
        decreases size - i,
    {
        let mut row: Vec<Complex> = Vec::new();
        let mut j: usize = 0;
        while j < size
            invariant
                this.wf(),
                size == this@.len(),
                size == other@.len(),
                cols@.len() == size,
                forall|c: int| 0 <= c < size ==> (#[trigger] cols@[c])@ == column(other@, c),
                i < size,
                j <= size,
                row@.len() == j,
                forall|c: int|
                    0 <= c < j ==> #[trigger] row@[c] == mat_mul(this@, other@)[i as int][c],
            decreases size - j,
        {
            assert(this@[i as int] == this.rows@[i as int]@);
            assert(cols@[j as int]@ == column(other@, j as int));
            let val = inner_product(&this.rows[i], &cols[j]);
            row.push(val);
            j += 1;
        }
        assert(row@ =~= mat_mul(this@, other@)[i as int]);
        rows.push(row);
        i += 1;
    }
    let r = Matrix { rows };
    assert(r@ =~= mat_mul(this@, other@));
    r
}

/// The vector `gate * state`.
pub fn dot_product(gate: &Matrix, state: &Vec<Complex>) -> (r: Vec<Complex>)
    requires
        gate.wf(),
        gate@.len() == state@.len(),
    ensures
        r@ == apply(gate@, state@),
{
    let size = gate.dim();
    let mut ret: Vec<Complex> = Vec::new();
    let mut i: usize = 0;
    while i < size
        invariant
            gate.wf(),
            size == gate@.len(),
            size == state@.len(),
            i <= size,
            ret@.len() == i,
            forall|k: int| 0 <= k < i ==> #[trigger] ret@[k] == apply(gate@, state@)[k],
        decreases size - i,
    {
        assert(gate@[i as int] == gate.rows@[i as int]@);
        let val = inner_product(&gate.rows[i], state);
        ret.push(val);
        i += 1;
    }
    assert(ret@ =~= apply(gate@, state@));
    ret
}

} // verus!
