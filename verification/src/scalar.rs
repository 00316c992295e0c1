//! Complex numbers as bit patterns.
//!
//! A real number is carried as the 64 bits of its IEEE 754 double-precision
//! encoding: one sign bit, eleven exponent bits, fifty-two fraction bits. The
//! questions this library asks of a number (is it zero, is it a number at
//! all, is it at most another) are answered from the bits alone.

use vstd::prelude::*;

verus! {

/// The sign bit of an encoded real; alone, it encodes negative zero.
pub const SIGN_BIT: u64 = 0x8000_0000_0000_0000;

/// The encoding of positive infinity. Every larger unsigned pattern is not a
/// number.
pub const INFINITY_BITS: u64 = 0x7FF0_0000_0000_0000;

/// The encoding with its sign bit cleared.
pub open spec fn unsigned_part(bits: u64) -> u64 {
    if bits >= SIGN_BIT {
        (bits - SIGN_BIT) as u64
    } else {
        bits
    }
}

/// Whether the pattern encodes positive or negative zero.
pub open spec fn real_is_zero(bits: u64) -> bool {
    unsigned_part(bits) == 0
}

/// Whether the pattern encodes no number.
pub open spec fn real_is_nan(bits: u64) -> bool {
    unsigned_part(bits) > INFINITY_BITS
}

/// The place of an encoded number on the number line: patterns of numbers
/// are ordered as the numbers they encode, and both zeros share a place.
pub open spec fn real_rank(bits: u64) -> int {
    if bits >= SIGN_BIT {
        -(unsigned_part(bits) as int)
    } else {
        bits as int
    }
}

/// Numeric equality of two encoded reals: both are numbers and stand at the
/// same place.
pub open spec fn real_eq(a: u64, b: u64) -> bool {
    !real_is_nan(a) && !real_is_nan(b) && real_rank(a) == real_rank(b)
}

/// Numeric `a <= b` of two encoded reals: both are numbers and `a` does not
/// stand after `b`.
pub open spec fn real_le(a: u64, b: u64) -> bool {
    !real_is_nan(a) && !real_is_nan(b) && real_rank(a) <= real_rank(b)
}

/// Clears the sign bit.
pub fn clear_sign(bits: u64) -> (out: u64)
    ensures
        out == unsigned_part(bits),
{
    if bits >= SIGN_BIT {
        bits - SIGN_BIT
    } else {
        bits
    }
}

/// Tells whether an encoded real is zero of either sign.
pub fn is_zero_real(bits: u64) -> (out: bool)
    ensures
        out == real_is_zero(bits),
{
    clear_sign(bits) == 0
}

/// Tells whether the pattern encodes no number.
pub fn is_nan_real(bits: u64) -> (out: bool)
    ensures
        out == real_is_nan(bits),
{
    clear_sign(bits) > INFINITY_BITS
}

/// Numeric equality of two encoded reals.
pub fn eq_real(a: u64, b: u64) -> (out: bool)
    ensures
        out == real_eq(a, b),
{
    if is_nan_real(a) || is_nan_real(b) {
        false
    } else if a == b {
        true
    } else {
        is_zero_real(a) && is_zero_real(b)
    }
}

/// Numeric `a <= b` of two encoded reals.
pub fn le_real(a: u64, b: u64) -> (out: bool)
    ensures
        out == real_le(a, b),
{
    if is_nan_real(a) || is_nan_real(b) {
        false
    } else if a >= SIGN_BIT {
        if b >= SIGN_BIT {
            clear_sign(b) <= clear_sign(a)
        } else {
            true
        }
    } else if b >= SIGN_BIT {
        a == 0 && clear_sign(b) == 0
    } else {
        a <= b
    }
}

/// A complex number: the encodings of its real and imaginary parts.
#[derive(Clone, Copy, Debug, PartialEq, Eq, Structural)]
pub struct Complex {
    pub re: u64,
    pub im: u64,
}

impl Complex {
    /// Both parts are zero.
    pub open spec fn zero(self) -> bool {
        real_is_zero(self.re) && real_is_zero(self.im)
    }

    /// Both numbers are numerically equal, part by part. Their difference
    /// is then zero, and dividing by it is a division by zero.
    pub open spec fn coincides(self, other: Complex) -> bool {
        real_eq(self.re, other.re) && real_eq(self.im, other.im)
    }

    /// Builds a complex number from the encodings of its parts.
    pub fn new(re: u64, im: u64) -> (out: Complex)
        ensures
            out.re == re,
            out.im == im,
    {
        Complex { re, im }
    }

    /// Tells whether the number is zero.
    pub fn is_zero(&self) -> (out: bool)
        ensures
            out == self.zero(),
    {
        is_zero_real(self.re) && is_zero_real(self.im)
    }

    /// Tells whether two numbers are numerically equal.
    pub fn same_as(&self, other: &Complex) -> (out: bool)
        ensures
            out == self.coincides(*other),
    {
        eq_real(self.re, other.re) && eq_real(self.im, other.im)
    }
}

/// Coinciding does not depend on the order in which two numbers are taken.
pub proof fn lemma_coincides_symmetric(a: Complex, b: Complex)
    ensures
        a.coincides(b) == b.coincides(a),
{
}

/// On numbers, `<=` is a total preorder whose two-sided case is equality:
/// every number is at most itself, of two numbers one is at most the other,
/// and two numbers are equal exactly when each is at most the other.
pub proof fn lemma_real_le_total(a: u64, b: u64)
    requires
        !real_is_nan(a),
        !real_is_nan(b),
    ensures
        real_le(a, a),
        real_le(a, b) || real_le(b, a),
        real_eq(a, b) <==> real_le(a, b) && real_le(b, a),
{
}

/// `<=` is transitive.
pub proof fn lemma_real_le_transitive(a: u64, b: u64, c: u64)
    requires
        real_le(a, b),
        real_le(b, c),
    ensures
        real_le(a, c),
{
}

/// What is not a number is neither zero, nor equal to anything, nor at most
/// or at least anything.
pub proof fn lemma_nan_is_unordered(a: u64, b: u64)
    requires
        real_is_nan(a),
    ensures
        !real_is_zero(a),
        !real_eq(a, b),
        !real_eq(b, a),
        !real_le(a, b),
        !real_le(b, a),
{
}

} // verus!
