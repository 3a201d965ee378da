//! The scalar type of the library and the trusted arithmetic on it.
//!
//! A [`Real`] holds a `noisy_float::types::N64`: a double-precision IEEE
//! number that the crate promises is never NaN.  Verus refuses a declaration
//! of noisy_float's generic wrapper type, so the number is held in a field
//! that Verus does not read.  Verified code never looks inside one; every
//! operation goes through a wrapper below, and what a wrapper returns is
//! pinned to an uninterpreted name (`radd_of`, `rmul_of`, ...), so that
//! equal inputs are known to give equal results.
//!
//! The operations are total on the type.  Where the raw IEEE result of an
//! operation would be NaN - possible only with infinite operands, which
//! overflow can produce - the wrapper stores zero instead, so no value of
//! [`Real`] ever holds NaN and noisy_float's checker is never tripped.
//! The trigonometric results come from the platform's libm; they are fixed
//! functions of the argument within any one build, which is all the names
//! claim, though their exact bits can differ between platforms.

use vstd::prelude::*;

verus! {

/// A scalar: an IEEE double that is never NaN, treated as an opaque value.
#[verifier::external_body]
pub struct Real {
    n: noisy_float::types::N64,
}

impl Clone for Real {
    /// Relies on the field being a plain copyable double.
    #[verifier::external_body]
    fn clone(&self) -> (r: Real)
        ensures
            r == *self,
    {
        Real { n: self.n }
    }
}

impl Copy for Real {

}

/// What addition of two scalars returns: the IEEE sum, or zero where that
/// is not a number.
pub uninterp spec fn radd_of(a: Real, b: Real) -> Real;

/// What subtraction of two scalars returns: the IEEE difference, or zero
/// where that is not a number.
pub uninterp spec fn rsub_of(a: Real, b: Real) -> Real;

/// What multiplication of two scalars returns: the IEEE product, or zero
/// where that is not a number.
pub uninterp spec fn rmul_of(a: Real, b: Real) -> Real;

/// What division of two scalars returns: the IEEE quotient, or zero where
/// that is not a number.
pub uninterp spec fn rdiv_of(a: Real, b: Real) -> Real;

/// What the absolute value of a scalar is.
pub uninterp spec fn rabs_of(a: Real) -> Real;

/// What the conversion of a machine integer to a scalar returns.
pub uninterp spec fn rof_int(v: int) -> Real;

/// What the order test `a < b` on scalars returns.
pub uninterp spec fn rlt_of(a: Real, b: Real) -> bool;

/// What the equality test `a == b` on scalars returns.
pub uninterp spec fn req_of(a: Real, b: Real) -> bool;

/// What the square root of a scalar is.
pub uninterp spec fn rsqrt_of(a: Real) -> Real;

/// What the sine of a scalar is; zero for the infinities.
pub uninterp spec fn rsin_of(a: Real) -> Real;

/// What the cosine of a scalar is; zero for the infinities.
pub uninterp spec fn rcos_of(a: Real) -> Real;

/// What the arcsine of a scalar is.
pub uninterp spec fn rasin_of(a: Real) -> Real;

/// What the two-argument arctangent of a pair of scalars is.
pub uninterp spec fn ratan2_of(y: Real, x: Real) -> Real;

/// What the bit pattern of the double behind a scalar is.
pub uninterp spec fn rbits_of(a: Real) -> u64;

/// A scalar that the order test does not place below zero.
pub open spec fn rnonneg(a: Real) -> bool {
    !rlt_of(a, rof_int(0))
}

/// Relies on the addition of doubles; a sum that is not a number (only
/// infinities of opposite sign) becomes zero, so the operation is total.
/// A sum of two values not below zero is not below zero.
#[verifier::external_body]
pub fn radd(a: Real, b: Real) -> (r: Real)
    ensures
        r == radd_of(a, b),
        rnonneg(a) && rnonneg(b) ==> rnonneg(r),
{
    match noisy_float::types::N64::try_new(a.n.raw() + b.n.raw()) {
        Some(n) => Real { n },
        None => Real { n: num_traits::Zero::zero() },
    }
}

/// Relies on the subtraction of doubles; a difference that is not a number
/// (only equal infinities) becomes zero, so the operation is total.
#[verifier::external_body]
pub fn rsub(a: Real, b: Real) -> (r: Real)
    ensures
        r == rsub_of(a, b),
{
    match noisy_float::types::N64::try_new(a.n.raw() - b.n.raw()) {
        Some(n) => Real { n },
        None => Real { n: num_traits::Zero::zero() },
    }
}

/// Relies on the multiplication of doubles; a product that is not a number
/// (only zero times an infinity) becomes zero, so the operation is total.
/// A square is not below zero.
#[verifier::external_body]
pub fn rmul(a: Real, b: Real) -> (r: Real)
    ensures
        r == rmul_of(a, b),
        a == b ==> rnonneg(r),
{
    match noisy_float::types::N64::try_new(a.n.raw() * b.n.raw()) {
        Some(n) => Real { n },
        None => Real { n: num_traits::Zero::zero() },
    }
}

/// Relies on the division of doubles; a quotient that is not a number
/// (zero over zero, or infinity over infinity) becomes zero, so the
/// operation is total.  A zero divisor is kept out of verified callers all
/// the same: there the quotient would carry no meaning.
#[verifier::external_body]
pub fn rdiv(a: Real, b: Real) -> (r: Real)
    requires
        !req_of(b, rof_int(0)),
    ensures
        r == rdiv_of(a, b),
{
    match noisy_float::types::N64::try_new(a.n.raw() / b.n.raw()) {
        Some(n) => Real { n },
        None => Real { n: num_traits::Zero::zero() },
    }
}

/// Relies on f64::abs through noisy_float; an absolute value is not below
/// zero.
#[verifier::external_body]
pub fn rabs(a: Real) -> (r: Real)
    ensures
        r == rabs_of(a),
        rnonneg(r),
{
    Real { n: num_traits::Float::abs(a.n) }
}

/// Relies on the conversion of a 64-bit integer to the nearest double
/// (num_traits::NumCast), which is exact below 2^53; only zero converts to
/// a double that equals zero, and the double keeps the integer's sign.
#[verifier::external_body]
pub fn rint(v: i64) -> (r: Real)
    ensures
        r == rof_int(v as int),
        req_of(r, rof_int(0)) <==> v == 0,
        rnonneg(r) <==> v >= 0,
{
    Real { n: <noisy_float::types::N64 as num_traits::NumCast>::from(v).unwrap() }
}

/// Relies on the `<` of checked doubles, which is total since NaN is kept
/// out.
#[verifier::external_body]
pub fn rlt(a: Real, b: Real) -> (r: bool)
    ensures
        r == rlt_of(a, b),
{
    a.n < b.n
}

/// Relies on the `==` of checked doubles; one value equals itself.
#[verifier::external_body]
pub fn req(a: Real, b: Real) -> (r: bool)
    ensures
        r == req_of(a, b),
        a == b ==> r,
{
    a.n == b.n
}

/// Relies on f64::sqrt through noisy_float; an argument below zero is kept
/// out because its square root is not a number.
#[verifier::external_body]
pub fn rsqrt(a: Real) -> (r: Real)
    requires
        rnonneg(a),
    ensures
        r == rsqrt_of(a),
{
    Real { n: num_traits::Float::sqrt(a.n) }
}

/// Relies on f64::sin; the sine of an infinity is not a number and becomes
/// zero, so the operation is total.
#[verifier::external_body]
pub fn rsin(a: Real) -> (r: Real)
    ensures
        r == rsin_of(a),
{
    match noisy_float::types::N64::try_new(a.n.raw().sin()) {
        Some(n) => Real { n },
        None => Real { n: num_traits::Zero::zero() },
    }
}

/// Relies on f64::cos; the cosine of an infinity is not a number and
/// becomes zero, so the operation is total.
#[verifier::external_body]
pub fn rcos(a: Real) -> (r: Real)
    ensures
        r == rcos_of(a),
{
    match noisy_float::types::N64::try_new(a.n.raw().cos()) {
        Some(n) => Real { n },
        None => Real { n: num_traits::Zero::zero() },
    }
}

/// Relies on f64::asin through noisy_float; the argument must be one, minus
/// one, or strictly between them in the double order, else the arcsine is
/// not a number.
#[verifier::external_body]
pub fn rasin(a: Real) -> (r: Real)
    requires
        a == rof_int(1) || a == rof_int(-1) || (!rlt_of(rof_int(1), a) && !rlt_of(
            a,
            rof_int(-1),
        )),
    ensures
        r == rasin_of(a),
{
    Real { n: num_traits::Float::asin(a.n) }
}

/// Relies on f64::atan2 through noisy_float, which is a number for every
/// pair of non-NaN arguments.
#[verifier::external_body]
pub fn ratan2(y: Real, x: Real) -> (r: Real)
    ensures
        r == ratan2_of(y, x),
{
    Real { n: num_traits::Float::atan2(y.n, x.n) }
}

/// Relies on f64::to_bits; hands the bit pattern of the double out, for
/// callers outside the library that need the plain number back.
#[verifier::external_body]
pub fn rbits(a: Real) -> (r: u64)
    ensures
        r == rbits_of(a),
{
    a.n.raw().to_bits()
}

} // verus!
