//! Complex amplitudes.
//!
//! An amplitude is a pair of IEEE-754 doubles, each held as its 64-bit
//! encoding, so that the values this library computes with are plain
//! integers. The arithmetic itself is done by `num_complex` on the doubles
//! that the encodings stand for.

use crate::algebra::{Conjugate, Scalar};
use num_complex::{Complex64, ComplexFloat};
use vstd::prelude::*;

verus! {

/// The type of the parts of a `Complex64`.
pub(crate) type Real = <Complex64 as ComplexFloat>::Real;

/// The sign bit of a double.
pub const SIGN_BIT: u64 = 0x8000_0000_0000_0000;

/// Every bit of a double but its sign.
pub const MAGNITUDE_MASK: u64 = 0x7fff_ffff_ffff_ffff;

/// The encoding of positive infinity; a greater magnitude is a NaN.
pub const INFINITY_BITS: u64 = 0x7ff0_0000_0000_0000;

/// The one NaN encoding that arithmetic results are reduced to.
pub const NAN_BITS: u64 = 0x7ff8_0000_0000_0000;

/// The encoding of `1.0`.
pub const ONE_BITS: u64 = 0x3ff0_0000_0000_0000;

/// The encoding of `2^-23`, about `1.2e-7`, below which a magnitude
/// counts as zero.
pub const EPSILON_BITS: u64 = 0x3e80_0000_0000_0000;

/// The encoding of the magnitude of the double that `bits` encodes.
pub open spec fn magnitude(bits: u64) -> u64 {
    bits & MAGNITUDE_MASK
}

/// `bits`, or `NAN_BITS` where `bits` encodes a NaN.
pub open spec fn canonical(bits: u64) -> u64 {
    if magnitude(bits) > INFINITY_BITS {
        NAN_BITS
    } else {
        bits
    }
}

/// A complex number: the encodings of its real and imaginary parts.
#[derive(Clone, Copy, Debug)]
pub struct Complex {
    pub re: u64,
    pub im: u64,
}

/// The sum of two doubles as IEEE-754 rounds it, by encodings; `NAN_BITS`
/// where the sum is a NaN.
pub uninterp spec fn real_sum(a: u64, b: u64) -> u64;

/// The difference of two doubles as IEEE-754 rounds it, by encodings;
/// `NAN_BITS` where the difference is a NaN.
pub uninterp spec fn real_difference(a: u64, b: u64) -> u64;

/// The product of two doubles as IEEE-754 rounds it, by encodings;
/// `NAN_BITS` where the product is a NaN.
pub uninterp spec fn real_product(a: u64, b: u64) -> u64;

/// The sum of two complex numbers: `(a + c) + i (b + d)`.
pub open spec fn complex_sum(a: Complex, b: Complex) -> Complex {
    Complex { re: real_sum(a.re, b.re), im: real_sum(a.im, b.im) }
}

/// The product of two complex numbers: `(a*c - b*d) + i (a*d + b*c)`.
pub open spec fn complex_product(a: Complex, b: Complex) -> Complex {
    Complex {
        re: real_difference(real_product(a.re, b.re), real_product(a.im, b.im)),
        im: real_sum(real_product(a.re, b.im), real_product(a.im, b.re)),
    }
}

impl Scalar for Complex {
    open spec fn zero() -> Complex {
        Complex { re: 0, im: 0 }
    }

    open spec fn one() -> Complex {
        Complex { re: ONE_BITS, im: 0 }
    }

    open spec fn plus(self, other: Complex) -> Complex {
        complex_sum(self, other)
    }

    open spec fn times(self, other: Complex) -> Complex {
        complex_product(self, other)
    }
}

/// The text that `Display` gives for the double that `bits` encodes.
pub uninterp spec fn real_display(bits: u64) -> Seq<char>;

/// The text that `Display` of `num_complex` gives for a complex number.
pub uninterp spec fn complex_display(c: Complex) -> Seq<char>;

impl Conjugate for Complex {
    open spec fn star(self) -> Complex {
        self.conjugate()
    }
}

/// `Add` of `num_complex::Complex<T>` on doubles, which adds the real
/// parts and the imaginary parts. IEEE-754 fixes the result of an addition
/// but for the encoding of a NaN, so the claim is made of the result with
/// its NaNs reduced.
#[verifier::external_body]
fn float_add(a: Complex, b: Complex) -> (r: Complex)
    ensures
        canonical(r.re) == real_sum(a.re, b.re),
        canonical(r.im) == real_sum(a.im, b.im),
{
    let x = Complex64::new(Real::from_bits(a.re), Real::from_bits(a.im));
    let y = Complex64::new(Real::from_bits(b.re), Real::from_bits(b.im));
    let s = x + y;
    Complex { re: s.re.to_bits(), im: s.im.to_bits() }
}

/// `Mul` of `num_complex::Complex<T>` on doubles, which computes
/// `re * re - im * im` and `re * im + im * re` of its operands in this
/// order, each operation rounded by itself. As for `float_add`, the claim
/// is made of the result with its NaNs reduced.
#[verifier::external_body]
fn float_mul(a: Complex, b: Complex) -> (r: Complex)
    ensures
        canonical(r.re) == real_difference(real_product(a.re, b.re), real_product(a.im, b.im)),
        canonical(r.im) == real_sum(real_product(a.re, b.im), real_product(a.im, b.re)),
{
    let x = Complex64::new(Real::from_bits(a.re), Real::from_bits(a.im));
    let y = Complex64::new(Real::from_bits(b.re), Real::from_bits(b.im));
    let p = x * y;
    Complex { re: p.re.to_bits(), im: p.im.to_bits() }
}

/// The subtraction of doubles, `a - b`, which IEEE-754 fixes but for the
/// encoding of a NaN.
#[verifier::external_body]
fn float_sub(a: u64, b: u64) -> (r: u64)
    ensures
        canonical(r) == real_difference(a, b),
{
    (Real::from_bits(a) - Real::from_bits(b)).to_bits()
}

/// `Display` of a double, which std defines on the value alone: every NaN
/// is written the same way.
#[verifier::external_body]
fn real_text(bits: u64) -> (r: String)
    ensures
        r@ == real_display(bits),
{
    format!("{}", Real::from_bits(bits))
}

/// `Display` of `num_complex::Complex<T>` on doubles, which writes the two
/// parts by their own `Display`, joined by the sign of the imaginary part
/// and closed by `i`.
#[verifier::external_body]
pub(crate) fn complex_text(c: Complex) -> (r: String)
    ensures
        r@ == complex_display(c),
{
    format!("{}", Complex64::new(Real::from_bits(c.re), Real::from_bits(c.im)))
}

/// The number zero.
pub fn c0() -> (r: Complex)
    ensures
        r == Complex::zero(),
{
    Complex { re: 0, im: 0 }
}

/// The number one.
pub fn c1() -> (r: Complex)
    ensures
        r == Complex::one(),
{
    Complex { re: ONE_BITS, im: 0 }
}

/// The imaginary unit.
pub fn ci() -> (r: Complex)
    ensures
        r == (Complex { re: 0, im: ONE_BITS }),
{
    Complex { re: 0, im: ONE_BITS }
}

/// `bits`, or `NAN_BITS` where `bits` encodes a NaN.
pub fn canonical_bits(bits: u64) -> (r: u64)
    ensures
        r == canonical(bits),
{
    if bits & MAGNITUDE_MASK > INFINITY_BITS {
        NAN_BITS
    } else {
        bits
    }
}

impl Complex {
    /// The complex number with the given encoded parts.
    pub fn new(re: u64, im: u64) -> (r: Complex)
        ensures
            r == (Complex { re, im }),
    {
        Complex { re, im }
    }

    /// The sum of two complex numbers.
    pub fn add(self, other: Complex) -> (r: Complex)
        ensures
            r == self.plus(other),
    {
        let s = float_add(self, other);
        Complex { re: canonical_bits(s.re), im: canonical_bits(s.im) }
    }

    /// The product of two complex numbers.
    pub fn mul(self, other: Complex) -> (r: Complex)
        ensures
            r == self.times(other),
    {
        let p = float_mul(self, other);
        Complex { re: canonical_bits(p.re), im: canonical_bits(p.im) }
    }

    /// The number with both parts negated: each sign bit is flipped.
    pub open spec fn negated(self) -> Complex {
        Complex { re: self.re ^ SIGN_BIT, im: self.im ^ SIGN_BIT }
    }

    /// The conjugate: the sign bit of the imaginary part is flipped.
    pub open spec fn conjugate(self) -> Complex {
        Complex { re: self.re, im: self.im ^ SIGN_BIT }
    }

    /// `-self`.
    pub fn neg(self) -> (r: Complex)
        ensures
            r == self.negated(),
    {
        Complex { re: self.re ^ SIGN_BIT, im: self.im ^ SIGN_BIT }
    }

    /// The complex conjugate of `self`.
    pub fn conj(&self) -> (r: Complex)
        ensures
            r == self.conjugate(),
    {
        Complex { re: self.re, im: self.im ^ SIGN_BIT }
    }

    /// `self` times its conjugate: the squared magnitude, as a complex
    /// number.
    pub fn norm(self) -> (r: Complex)
        ensures
            r == self.times(self.conjugate()),
    {
        self.mul(self.conj())
    }

    /// The text `<re+imi>`, each part written as `Display` writes a double.
    pub fn repr(&self) -> (r: String)
        ensures
            r@ == seq!['<'] + real_display(self.re) + seq!['+'] + real_display(self.im) + seq![
                'i',
                '>',
            ],
    {
        let mut text = String::from_str("<");
        text.append(real_text(self.re).as_str());
        text.append("+");
        text.append(real_text(self.im).as_str());
        text.append("i>");
        proof {
            reveal_strlit("<");
            reveal_strlit("+");
            reveal_strlit("i>");
        }
        text
    }
}

/// Whether both parts of `c` are smaller in magnitude than `2^-23`.
///
/// Doubles of one sign are ordered as their encodings are, and a NaN has a
/// greater magnitude than any number, so the test is made on the encodings.
pub open spec fn near_zero(c: Complex) -> bool {
    magnitude(c.re) < EPSILON_BITS && magnitude(c.im) < EPSILON_BITS
}

/// Whether two doubles, given by their encodings, differ by less than
/// `2^-23`.
pub open spec fn near(a: u64, b: u64) -> bool {
    magnitude(real_difference(a, b)) < EPSILON_BITS
}

/// Whether the doubles that `a` and `b` encode are equal within `2^-23`.
pub fn eq(a: u64, b: u64) -> (r: bool)
    ensures
        r == near(a, b),
{
    (canonical_bits(float_sub(a, b)) & MAGNITUDE_MASK) < EPSILON_BITS
}

/// Whether `c` is zero within `2^-23` in each part.
pub fn is_zero(c: Complex) -> (r: bool)
    ensures
        r == near_zero(c),
{
    (c.re & MAGNITUDE_MASK) < EPSILON_BITS && (c.im & MAGNITUDE_MASK) < EPSILON_BITS
}

} // verus!
