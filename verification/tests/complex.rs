use num_complex::Complex64;
use qvm::complex::{c0, c1, canonical_bits, ci, EPSILON_BITS, NAN_BITS, ONE_BITS};
use qvm::gates::H_BITS;
use qvm::{eq, is_zero, Complex};

fn c(re: f64, im: f64) -> Complex {
    Complex::new(re.to_bits(), im.to_bits())
}

fn parts(z: Complex) -> (f64, f64) {
    (f64::from_bits(z.re), f64::from_bits(z.im))
}

fn bits_of(z: Complex64) -> (u64, u64) {
    (z.re.to_bits(), z.im.to_bits())
}

const EPS: f64 = 1.1920928955078125e-7;

const SAMPLES: [(f64, f64); 8] = [
    (0.0, 0.0),
    (1.0, 0.0),
    (0.0, 1.0),
    (-1.5, 2.25),
    (0.1, 0.2),
    (1e300, -1e300),
    (-0.0, 3.0),
    (0.7071067811865475, -0.7071067811865475),
];

#[test]
fn new_keeps_the_encodings() {
    let z = Complex::new(3, 4);
    assert_eq!((z.re, z.im), (3, 4));
}

#[test]
fn constants_are_zero_one_and_i() {
    assert_eq!(parts(c0()), (0.0, 0.0));
    assert_eq!(parts(c1()), (1.0, 0.0));
    assert_eq!(parts(ci()), (0.0, 1.0));
    assert_eq!(ONE_BITS, 1.0f64.to_bits());
    assert_eq!(EPSILON_BITS, (f32::EPSILON as f64).to_bits());
    assert_eq!(f64::from_bits(EPSILON_BITS), 1.1920928955078125e-7);
}

#[test]
fn add_is_the_sum_of_num_complex() {
    for &(a, b) in SAMPLES.iter() {
        for &(x, y) in SAMPLES.iter() {
            let got = c(a, b).add(c(x, y));
            let want = Complex64::new(a, b) + Complex64::new(x, y);
            assert_eq!((got.re, got.im), bits_of(want));
        }
    }
}

#[test]
fn add_exact_value() {
    let got = c(1.5, -2.0).add(c(0.25, 4.0));
    assert_eq!(parts(got), (1.75, 2.0));
}

#[test]
fn mul_is_the_product_of_num_complex() {
    for &(a, b) in SAMPLES.iter() {
        for &(x, y) in SAMPLES.iter() {
            let got = c(a, b).mul(c(x, y));
            let want = Complex64::new(a, b) * Complex64::new(x, y);
            if want.re.is_nan() {
                assert_eq!(got.re, NAN_BITS);
            } else {
                assert_eq!(got.re, want.re.to_bits());
            }
            if want.im.is_nan() {
                assert_eq!(got.im, NAN_BITS);
            } else {
                assert_eq!(got.im, want.im.to_bits());
            }
        }
    }
}

#[test]
fn mul_exact_value() {
    // (1 + 2i)(3 + 4i) = (3 - 8) + (4 + 6)i
    let got = c(1.0, 2.0).mul(c(3.0, 4.0));
    assert_eq!(parts(got), (-5.0, 10.0));
}

#[test]
fn mul_of_i_by_i_is_minus_one() {
    let got = ci().mul(ci());
    assert_eq!(parts(got), (-1.0, 0.0));
}

#[test]
fn nan_results_have_one_encoding() {
    let inf = f64::INFINITY;
    let sum = c(inf, 0.0).add(c(-inf, 0.0));
    assert_eq!(sum.re, NAN_BITS);
    let odd_nan = 0x7ff0_0000_0000_0001u64;
    let kept = Complex::new(odd_nan, 0).add(c(1.0, 1.0));
    assert_eq!(kept.re, NAN_BITS);
    assert_eq!(f64::from_bits(kept.im), 1.0);
}

#[test]
fn canonical_bits_touches_nan_only() {
    assert_eq!(canonical_bits(0x7ff0_0000_0000_0001), NAN_BITS);
    assert_eq!(canonical_bits(0xfff8_0000_0000_0000), NAN_BITS);
    assert_eq!(canonical_bits(f64::INFINITY.to_bits()), f64::INFINITY.to_bits());
    assert_eq!(canonical_bits(f64::NEG_INFINITY.to_bits()), f64::NEG_INFINITY.to_bits());
    assert_eq!(canonical_bits((-0.0f64).to_bits()), (-0.0f64).to_bits());
    assert_eq!(canonical_bits(2.5f64.to_bits()), 2.5f64.to_bits());
}

#[test]
fn neg_is_the_negation_of_num_complex() {
    for &(a, b) in SAMPLES.iter() {
        let got = c(a, b).neg();
        let want = -Complex64::new(a, b);
        assert_eq!((got.re, got.im), bits_of(want));
    }
}

#[test]
fn conj_is_the_conjugate_of_num_complex() {
    for &(a, b) in SAMPLES.iter() {
        let got = c(a, b).conj();
        let want = Complex64::new(a, b).conj();
        assert_eq!((got.re, got.im), bits_of(want));
    }
}

#[test]
fn norm_is_the_squared_magnitude() {
    let got = c(3.0, 4.0).norm();
    assert_eq!(parts(got), (25.0, 0.0));
    for &(a, b) in SAMPLES.iter() {
        let got = c(a, b).norm();
        let want = Complex64::new(a, b) * Complex64::new(a, b).conj();
        if !want.re.is_nan() && !want.im.is_nan() {
            assert_eq!((got.re, got.im), bits_of(want));
        }
    }
}

#[test]
fn repr_writes_both_parts() {
    assert_eq!(c(1.0, 2.0).repr(), "<1+2i>");
    assert_eq!(c(0.5, -0.25).repr(), "<0.5+-0.25i>");
    assert_eq!(c(f64::NAN, 0.0).repr(), "<NaN+0i>");
    assert_eq!(c(1.0, 2.0).repr(), format!("<{}+{}i>", 1.0f64, 2.0f64));
}

#[test]
fn is_zero_is_the_test_on_magnitudes() {
    let values = [
        0.0,
        -0.0,
        1e-13,
        -1e-13,
        1.19e-7,
        1.1920928955078125e-7,
        -1.1920928955078125e-7,
        1.1920928955078128e-7,
        1e-6,
        1.0,
        -1.0,
        f64::MIN_POSITIVE,
        5e-324,
        f64::INFINITY,
        f64::NEG_INFINITY,
        f64::NAN,
    ];
    for &re in values.iter() {
        for &im in values.iter() {
            let want = re.abs() < EPS && im.abs() < EPS;
            assert_eq!(is_zero(c(re, im)), want, "{} {}", re, im);
        }
    }
}

#[test]
fn is_zero_edge_values() {
    assert!(is_zero(c(0.0, 0.0)));
    assert!(is_zero(c(-1e-7, 1e-7)));
    assert!(!is_zero(c(EPS, 0.0)));
    assert!(!is_zero(c(0.0, -EPS)));
    assert!(!is_zero(c(1e-6, 0.0)));
    assert!(!is_zero(c(f64::NAN, 0.0)));
}

#[test]
fn h_is_one_over_the_root_of_two() {
    let h = 1.0 / Complex64::new(2.0, 0.0).sqrt();
    assert_eq!(h.re.to_bits(), H_BITS);
    assert_eq!(h.im.to_bits(), 0);
    assert_eq!(f64::from_bits(H_BITS), 0.7071067811865475);
}

#[test]
fn eq_is_the_test_on_the_difference() {
    let values = [
        0.0,
        -0.0,
        1.0,
        1.0 + 1e-8,
        1.0 + EPS,
        1.0 + 2e-7,
        1.0 - 5e-8,
        -1.0,
        1e-13,
        -1e-13,
        1e300,
        -1e300,
        f64::MAX,
        f64::MIN,
        f64::INFINITY,
        f64::NEG_INFINITY,
        f64::NAN,
    ];
    for &a in values.iter() {
        for &b in values.iter() {
            assert_eq!(eq(a.to_bits(), b.to_bits()), (a - b).abs() < EPS, "{} {}", a, b);
        }
    }
}

#[test]
fn eq_edge_values() {
    assert!(eq(1.0f64.to_bits(), 1.0f64.to_bits()));
    assert!(eq(0.5f64.to_bits(), (0.5f64 + 1e-7).to_bits()));
    assert!(!eq(0.5f64.to_bits(), (0.5f64 + 2e-7).to_bits()));
    assert!(!eq(1.0f64.to_bits(), 2.0f64.to_bits()));
    assert!(!eq(f64::NAN.to_bits(), f64::NAN.to_bits()));
    assert!(!eq(f64::INFINITY.to_bits(), f64::INFINITY.to_bits()));
}
