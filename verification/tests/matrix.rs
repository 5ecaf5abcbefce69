use num_complex::Complex64;
use qvm::complex::{c0, c1};
use qvm::matrix::{columns, inner_product, mul};
use qvm::{dot_product, join_gates, lift_gate, pow, tensor_product, vecify, vecify2, zero, Complex, Matrix};

fn c(re: f64, im: f64) -> Complex {
    Complex::new(re.to_bits(), im.to_bits())
}

fn r(re: f64) -> Complex {
    c(re, 0.0)
}

fn floats(m: &Matrix) -> Vec<Vec<(f64, f64)>> {
    m.rows
        .iter()
        .map(|row| row.iter().map(|z| (f64::from_bits(z.re), f64::from_bits(z.im))).collect())
        .collect()
}

fn reals(m: &Matrix) -> Vec<Vec<f64>> {
    m.rows.iter().map(|row| row.iter().map(|z| f64::from_bits(z.re)).collect()).collect()
}

fn real_matrix(rows: &[&[f64]]) -> Matrix {
    Matrix { rows: rows.iter().map(|row| row.iter().map(|&x| r(x)).collect()).collect() }
}

fn x_matrix() -> Matrix {
    vecify([[c0(), c1()], [c1(), c0()]])
}

fn swap_matrix() -> Matrix {
    let (o, l) = (c0(), c1());
    vecify2([[l, o, o, o], [o, o, l, o], [o, l, o, o], [o, o, o, l]])
}

#[test]
fn vecify_keeps_the_entries() {
    let m = vecify([[r(1.0), r(2.0)], [r(3.0), r(4.0)]]);
    assert_eq!(reals(&m), vec![vec![1.0, 2.0], vec![3.0, 4.0]]);
    assert_eq!(m.dim(), 2);
    assert_eq!(f64::from_bits(m.get(1, 0).re), 3.0);
}

#[test]
fn vecify2_keeps_the_entries() {
    let mut a = [[c0(); 4]; 4];
    for i in 0..4 {
        for j in 0..4 {
            a[i][j] = r((4 * i + j) as f64);
        }
    }
    let m = vecify2(a);
    assert_eq!(m.dim(), 4);
    for i in 0..4 {
        for j in 0..4 {
            assert_eq!(f64::from_bits(m.get(i, j).re), (4 * i + j) as f64);
        }
    }
}

#[test]
fn is_gate_wants_a_square_of_size_two_or_four() {
    assert!(x_matrix().is_gate());
    assert!(swap_matrix().is_gate());
    assert!(!real_matrix(&[&[1.0]]).is_gate());
    assert!(!real_matrix(&[&[1.0, 0.0, 0.0], &[0.0, 1.0, 0.0], &[0.0, 0.0, 1.0]]).is_gate());
    assert!(!real_matrix(&[&[1.0, 0.0], &[0.0]]).is_gate());
    assert!(!real_matrix(&[&[1.0, 0.0, 0.0], &[0.0, 1.0, 0.0]]).is_gate());
    assert!(!Matrix { rows: vec![] }.is_gate());
}

#[test]
fn copy_has_the_same_entries() {
    let m = real_matrix(&[&[1.0, 2.0], &[3.0, 4.0]]);
    assert_eq!(reals(&m.copy()), reals(&m));
}

#[test]
fn tensor_product_follows_the_index_formula() {
    let a = real_matrix(&[&[1.0, 2.0], &[3.0, 4.0]]);
    let b = real_matrix(&[&[0.0, 5.0], &[6.0, 7.0]]);
    let t = tensor_product(&a, &b);
    assert_eq!(
        reals(&t),
        vec![
            vec![0.0, 5.0, 0.0, 10.0],
            vec![6.0, 7.0, 12.0, 14.0],
            vec![0.0, 15.0, 0.0, 20.0],
            vec![18.0, 21.0, 24.0, 28.0],
        ]
    );
}

#[test]
fn tensor_product_is_not_commutative() {
    let a = real_matrix(&[&[1.0, 2.0], &[3.0, 4.0]]);
    let b = real_matrix(&[&[0.0, 5.0], &[6.0, 7.0]]);
    assert_ne!(reals(&tensor_product(&a, &b)), reals(&tensor_product(&b, &a)));
}

#[test]
fn tensor_product_of_sizes_two_and_four() {
    let a = x_matrix();
    let b = swap_matrix();
    let t = tensor_product(&a, &b);
    assert_eq!(t.dim(), 8);
    for row in 0..8 {
        for col in 0..8 {
            let want = f64::from_bits(a.get(row / 4, col / 4).re) * f64::from_bits(b.get(row % 4, col % 4).re);
            assert_eq!(f64::from_bits(t.get(row, col).re), want);
        }
    }
}

#[test]
fn tensor_product_with_an_empty_matrix_is_empty() {
    let empty = Matrix { rows: vec![] };
    assert_eq!(tensor_product(&x_matrix(), &empty).dim(), 0);
    assert_eq!(tensor_product(&empty, &x_matrix()).dim(), 0);
}

#[test]
fn mul_is_the_matrix_product() {
    let a = real_matrix(&[&[1.0, 2.0], &[3.0, 4.0]]);
    let b = real_matrix(&[&[5.0, 6.0], &[7.0, 8.0]]);
    assert_eq!(reals(&mul(&a, &b)), vec![vec![19.0, 22.0], vec![43.0, 50.0]]);
    assert_eq!(reals(&mul(&b, &a)), vec![vec![23.0, 34.0], vec![31.0, 46.0]]);
}

#[test]
fn mul_sums_from_the_left_as_num_complex_does() {
    let values = [0.1, 0.2, 0.3, 1e16, -1e16, 0.7, 1.1, -0.3, 0.9];
    let a = Matrix {
        rows: (0..3).map(|i| (0..3).map(|j| c(values[3 * i + j], values[8 - j])).collect()).collect(),
    };
    let b = Matrix {
        rows: (0..3).map(|i| (0..3).map(|j| c(values[(i + 2 * j) % 9], values[(5 * i + j) % 9])).collect()).collect(),
    };
    let got = mul(&a, &b);
    for i in 0..3 {
        for j in 0..3 {
            let mut want = Complex64::new(0.0, 0.0);
            for k in 0..3 {
                let x = a.get(i, k);
                let y = b.get(k, j);
                want += Complex64::new(f64::from_bits(x.re), f64::from_bits(x.im))
                    * Complex64::new(f64::from_bits(y.re), f64::from_bits(y.im));
            }
            assert_eq!(floats(&got)[i][j], (want.re, want.im));
        }
    }
}

#[test]
fn columns_reads_from_the_top() {
    let a = real_matrix(&[&[1.0, 2.0], &[3.0, 4.0]]);
    let cols = columns(&a);
    let reals: Vec<Vec<f64>> =
        cols.iter().map(|col| col.iter().map(|z| f64::from_bits(z.re)).collect()).collect();
    assert_eq!(reals, vec![vec![1.0, 3.0], vec![2.0, 4.0]]);
}

#[test]
fn inner_product_is_the_sum_of_products() {
    let a = vec![r(1.0), r(2.0), r(3.0)];
    let b = vec![r(4.0), r(5.0), r(6.0)];
    assert_eq!(f64::from_bits(inner_product(&a, &b).re), 32.0);
    assert_eq!(f64::from_bits(inner_product(&vec![], &vec![]).re), 0.0);
}

#[test]
fn dot_product_applies_a_matrix_to_a_vector() {
    let a = real_matrix(&[&[1.0, 2.0], &[3.0, 4.0]]);
    let v = vec![r(5.0), r(6.0)];
    let got: Vec<f64> = dot_product(&a, &v).iter().map(|z| f64::from_bits(z.re)).collect();
    assert_eq!(got, vec![17.0, 39.0]);
}

#[test]
fn pow_is_the_power() {
    assert_eq!(pow(2, 0), 1);
    assert_eq!(pow(2, 8), 256);
    assert_eq!(pow(3, 4), 81);
    assert_eq!(pow(0, 0), 1);
    assert_eq!(pow(0, 5), 0);
    assert_eq!(pow(1, 1000), 1);
    assert_eq!(pow(2, 31), 1 << 31);
}

#[test]
fn zero_is_the_clear_state() {
    let state = zero(3);
    assert_eq!(state.len(), 8);
    assert_eq!(f64::from_bits(state[0].re), 1.0);
    for k in 1..8 {
        assert_eq!((state[k].re, state[k].im), (0, 0));
    }
    assert_eq!(zero(0).len(), 1);
}

#[test]
fn lift_gate_flips_the_bit_of_its_line() {
    // Line q is bit q of the index of a basis state.
    for qubits in 1..5usize {
        for line in 0..qubits {
            let op = lift_gate(line, &x_matrix(), qubits);
            let size = 1usize << qubits;
            assert_eq!(op.dim(), size);
            for row in 0..size {
                for col in 0..size {
                    let want = if row == col ^ (1 << line) { 1.0 } else { 0.0 };
                    assert_eq!(f64::from_bits(op.get(row, col).re), want);
                }
            }
        }
    }
}

#[test]
fn lift_gate_of_a_gate_on_two_lines() {
    // The swap on lines k and k + 1 exchanges bits k and k + 1.
    for qubits in 2..5usize {
        for line in 0..qubits - 1 {
            let op = lift_gate(line, &swap_matrix(), qubits);
            let size = 1usize << qubits;
            assert_eq!(op.dim(), size);
            for col in 0..size {
                let low = (col >> line) & 1;
                let high = (col >> (line + 1)) & 1;
                let image = (col & !(3 << line)) | (low << (line + 1)) | (high << line);
                for row in 0..size {
                    let want = if row == image { 1.0 } else { 0.0 };
                    assert_eq!(f64::from_bits(op.get(row, col).re), want);
                }
            }
        }
    }
}

#[test]
fn lift_gate_is_the_chain_of_tensor_products() {
    let g = real_matrix(&[&[1.0, 2.0], &[3.0, 4.0]]);
    let id = real_matrix(&[&[1.0, 0.0], &[0.0, 1.0]]);
    // Three lines, the one in the middle: identity x g x identity.
    let want = tensor_product(&tensor_product(&id, &g), &id);
    assert_eq!(floats(&lift_gate(1, &g, 3)), floats(&want));
    // Line 0 is the last factor, line 2 the first.
    let want = tensor_product(&tensor_product(&id, &id), &g);
    assert_eq!(floats(&lift_gate(0, &g, 3)), floats(&want));
    let want = tensor_product(&tensor_product(&g, &id), &id);
    assert_eq!(floats(&lift_gate(2, &g, 3)), floats(&want));
}

#[test]
fn lift_gate_on_the_whole_register_is_that_gate() {
    let g = real_matrix(&[&[1.0, 2.0], &[3.0, 4.0]]);
    assert_eq!(floats(&lift_gate(0, &g, 1)), floats(&g));
    assert_eq!(floats(&lift_gate(0, &swap_matrix(), 2)), floats(&swap_matrix()));
}

#[test]
fn join_gates_is_the_palindromic_product() {
    let a = real_matrix(&[&[1.0, 2.0], &[3.0, 4.0]]);
    let b = real_matrix(&[&[0.0, 1.0], &[1.0, 1.0]]);
    let z = real_matrix(&[&[2.0, 0.0], &[1.0, 3.0]]);
    // [a, b, z] gives a * b * z * b * a.
    let want = mul(&a, &mul(&b, &mul(&z, &mul(&b, &a))));
    assert_eq!(floats(&join_gates(&vec![a.copy(), b.copy(), z.copy()])), floats(&want));
    // [a, z] gives a * z * a.
    let want = mul(&a, &mul(&z, &a));
    assert_eq!(floats(&join_gates(&vec![a.copy(), z.copy()])), floats(&want));
    assert_eq!(reals(&want), vec![vec![22.0, 32.0], vec![46.0, 68.0]]);
    // A list of one operator gives that operator.
    assert_eq!(floats(&join_gates(&vec![a.copy()])), floats(&a));
}
