//! The arithmetic that the classifiers ask of their number type, and the
//! words in which the library states what it computed with it.
//!
//! The library fixes which operations are applied to which values, and in
//! which order; what each operation returns is the implementor's business.
//! Nothing is assumed of the results. A contract therefore does not say
//! that a result is a certain number, but that it is what the number type
//! gave for a certain expression: `is_sum(a, b, r)` holds when `r` is a
//! value that `a.plus(b)` can return. For a number type whose operations
//! are functions of their arguments, this determines the result.
//!
//! Numbers are compared by the library itself, on the bit patterns that the
//! number type gives for them: those of IEEE 754 double precision, with one
//! sign bit, eleven exponent bits and fifty-two fraction bits.

use vstd::prelude::*;

verus! {

/// A number type that the classifiers can compute with. No operation may
/// panic.
pub trait Scalar: Copy {
    /// The number that stands for `n`.
    fn from_count(n: usize) -> Self;

    /// The number with the bit pattern `bits` in IEEE 754 double precision.
    fn from_bits(bits: u64) -> Self;

    /// `self + rhs`.
    fn plus(self, rhs: Self) -> Self;

    /// `self - rhs`.
    fn minus(self, rhs: Self) -> Self;

    /// `self * rhs`.
    fn times(self, rhs: Self) -> Self;

    /// `self / rhs`.
    fn over(self, rhs: Self) -> Self;

    /// The natural logarithm of `self`.
    fn ln(self) -> Self;

    /// The exponential of `self`.
    fn exp(self) -> Self;

    /// The square root of `self`.
    fn sqrt(self) -> Self;

    /// The bit pattern of `self` in IEEE 754 double precision.
    fn bits(self) -> u64;
}

/// `r` is what the number type gave for the count `n`.
pub open spec fn is_count<S: Scalar>(n: usize, r: S) -> bool {
    call_ensures(S::from_count, (n,), r)
}

/// `r` is what the number type gave for the bit pattern `bits`.
pub open spec fn is_from_bits<S: Scalar>(bits: u64, r: S) -> bool {
    call_ensures(S::from_bits, (bits,), r)
}

/// The bit pattern of pi, the ratio of a circle's circumference to its
/// diameter: that of the double-precision number nearest to it.
pub const PI: u64 = 0x4009_21fb_5444_2d18;

/// `r` is what the number type gave for pi.
pub open spec fn is_pi<S: Scalar>(r: S) -> bool {
    is_from_bits(PI, r)
}

/// The bit pattern of one billionth: that of the double-precision number
/// nearest to it.
pub const SMALL_NUMBER: u64 = 0x3e11_2e0b_e826_d695;

/// `r` is what the number type gave for one billionth.
pub open spec fn is_small_number<S: Scalar>(r: S) -> bool {
    is_from_bits(SMALL_NUMBER, r)
}

/// `r` is what the number type gave for `a + b`.
pub open spec fn is_sum<S: Scalar>(a: S, b: S, r: S) -> bool {
    call_ensures(S::plus, (a, b), r)
}

/// `r` is what the number type gave for `a - b`.
pub open spec fn is_difference<S: Scalar>(a: S, b: S, r: S) -> bool {
    call_ensures(S::minus, (a, b), r)
}

/// `r` is what the number type gave for `a * b`.
pub open spec fn is_product<S: Scalar>(a: S, b: S, r: S) -> bool {
    call_ensures(S::times, (a, b), r)
}

/// `r` is what the number type gave for `a / b`.
pub open spec fn is_quotient<S: Scalar>(a: S, b: S, r: S) -> bool {
    call_ensures(S::over, (a, b), r)
}

/// `r` is what the number type gave for the natural logarithm of `a`.
pub open spec fn is_ln<S: Scalar>(a: S, r: S) -> bool {
    call_ensures(S::ln, (a,), r)
}

/// `r` is what the number type gave for the exponential of `a`.
pub open spec fn is_exp<S: Scalar>(a: S, r: S) -> bool {
    call_ensures(S::exp, (a,), r)
}

/// `r` is what the number type gave for the square root of `a`.
pub open spec fn is_sqrt<S: Scalar>(a: S, r: S) -> bool {
    call_ensures(S::sqrt, (a,), r)
}

/// `bits` is what the number type gave for the bit pattern of `a`.
pub open spec fn is_bits<S: Scalar>(a: S, bits: u64) -> bool {
    call_ensures(S::bits, (a,), bits)
}

/// All bits of a pattern but the sign bit.
pub const MAGNITUDE: u64 = 0x7fff_ffff_ffff_ffff;

/// The magnitude of infinity: all exponent bits set, no fraction bit.
pub const INFINITY: u64 = 0x7ff0_0000_0000_0000;

/// The pattern without its sign bit.
pub open spec fn magnitude_of(bits: u64) -> u64 {
    bits & MAGNITUDE
}

/// Whether the sign bit of the pattern is set.
pub open spec fn has_sign(bits: u64) -> bool {
    bits > MAGNITUDE
}

/// Whether the pattern is not a number: beyond infinity in magnitude.
pub open spec fn nan_bits(bits: u64) -> bool {
    magnitude_of(bits) > INFINITY
}

/// Whether the pattern is a zero, of either sign.
pub open spec fn zero_bits(bits: u64) -> bool {
    magnitude_of(bits) == 0
}

/// Whether the pattern is a number strictly greater than zero.
pub open spec fn positive_bits(bits: u64) -> bool {
    !has_sign(bits) && !zero_bits(bits) && !nan_bits(bits)
}

/// Whether the pattern is a number strictly less than zero.
pub open spec fn negative_bits(bits: u64) -> bool {
    has_sign(bits) && !zero_bits(bits) && !nan_bits(bits)
}

/// The rank of the pattern: an integer that orders patterns as their
/// numbers are ordered. The two zeros share rank zero, a number above zero
/// has its magnitude as rank and a number below zero the negative of it, so
/// that minus infinity is the least number and infinity the greatest. What
/// is not a number ranks below every number.
pub open spec fn rank_of_bits(bits: u64) -> int {
    if nan_bits(bits) {
        i64::MIN as int
    } else if has_sign(bits) {
        -(magnitude_of(bits) as int)
    } else {
        magnitude_of(bits) as int
    }
}

/// The pattern without its sign bit.
pub fn magnitude(bits: u64) -> (magnitude: u64)
    ensures
        magnitude == magnitude_of(bits),
        magnitude <= MAGNITUDE,
{
    assert(bits & 0x7fff_ffff_ffff_ffff <= 0x7fff_ffff_ffff_ffff) by (bit_vector);
    bits & MAGNITUDE
}

/// Whether the pattern is a zero, of either sign.
pub fn zero(bits: u64) -> (verdict: bool)
    ensures
        verdict == zero_bits(bits),
{
    magnitude(bits) == 0
}

/// Whether the pattern is a number strictly greater than zero.
pub fn positive(bits: u64) -> (verdict: bool)
    ensures
        verdict == positive_bits(bits),
{
    let size: u64 = magnitude(bits);
    bits <= MAGNITUDE && size != 0 && size <= INFINITY
}

/// Whether the pattern is a number strictly less than zero.
pub fn negative(bits: u64) -> (verdict: bool)
    ensures
        verdict == negative_bits(bits),
{
    let size: u64 = magnitude(bits);
    bits > MAGNITUDE && size != 0 && size <= INFINITY
}

/// The rank of the pattern.
pub fn rank(bits: u64) -> (rank: i64)
    ensures
        rank == rank_of_bits(bits),
{
    let size: u64 = magnitude(bits);
    if size > INFINITY {
        i64::MIN
    } else if bits > MAGNITUDE {
        -(size as i64)
    } else {
        size as i64
    }
}

/// `verdict` says whether `a` is strictly greater than zero, by its bits.
pub open spec fn tells_positive<S: Scalar>(a: S, verdict: bool) -> bool {
    exists|bits: u64| #![trigger is_bits(a, bits)] is_bits(a, bits) && verdict == positive_bits(bits)
}

/// `verdict` says whether `a` is strictly less than zero, by its bits.
pub open spec fn tells_negative<S: Scalar>(a: S, verdict: bool) -> bool {
    exists|bits: u64| #![trigger is_bits(a, bits)] is_bits(a, bits) && verdict == negative_bits(bits)
}

/// `verdict` says whether `a` is zero, by its bits.
pub open spec fn tells_zero<S: Scalar>(a: S, verdict: bool) -> bool {
    exists|bits: u64| #![trigger is_bits(a, bits)] is_bits(a, bits) && verdict == zero_bits(bits)
}

/// `r` is the rank of `a`, by its bits.
pub open spec fn is_rank<S: Scalar>(a: S, r: i64) -> bool {
    exists|bits: u64| #![trigger is_bits(a, bits)] is_bits(a, bits) && r == rank_of_bits(bits)
}

/// Whether `a` is strictly greater than zero.
pub fn is_positive<S: Scalar>(a: S) -> (verdict: bool)
    ensures
        tells_positive(a, verdict),
{
    let bits: u64 = a.bits();
    assert(is_bits(a, bits));
    positive(bits)
}

/// Whether `a` is strictly less than zero.
pub fn is_negative<S: Scalar>(a: S) -> (verdict: bool)
    ensures
        tells_negative(a, verdict),
{
    let bits: u64 = a.bits();
    assert(is_bits(a, bits));
    negative(bits)
}

/// Whether `a` is zero.
pub fn is_zero<S: Scalar>(a: S) -> (verdict: bool)
    ensures
        tells_zero(a, verdict),
{
    let bits: u64 = a.bits();
    assert(is_bits(a, bits));
    zero(bits)
}

/// The rank of `a`.
pub fn rank_of<S: Scalar>(a: S) -> (r: i64)
    ensures
        is_rank(a, r),
{
    let bits: u64 = a.bits();
    assert(is_bits(a, bits));
    rank(bits)
}

/// Whether every operation of the number type is a function of its
/// arguments: the same arguments never give two results.
pub open spec fn functional<S: Scalar>() -> bool {
    &&& forall|n: usize, r: S, s: S| #![trigger is_count(n, r), is_count(n, s)]
        is_count(n, r) && is_count(n, s) ==> r == s
    &&& forall|bits: u64, r: S, s: S| #![trigger is_from_bits(bits, r), is_from_bits(bits, s)]
        is_from_bits(bits, r) && is_from_bits(bits, s) ==> r == s
    &&& forall|a: S, b: S, r: S, s: S| #![trigger is_sum(a, b, r), is_sum(a, b, s)]
        is_sum(a, b, r) && is_sum(a, b, s) ==> r == s
    &&& forall|a: S, b: S, r: S, s: S| #![trigger is_difference(a, b, r), is_difference(a, b, s)]
        is_difference(a, b, r) && is_difference(a, b, s) ==> r == s
    &&& forall|a: S, b: S, r: S, s: S| #![trigger is_product(a, b, r), is_product(a, b, s)]
        is_product(a, b, r) && is_product(a, b, s) ==> r == s
    &&& forall|a: S, b: S, r: S, s: S| #![trigger is_quotient(a, b, r), is_quotient(a, b, s)]
        is_quotient(a, b, r) && is_quotient(a, b, s) ==> r == s
    &&& forall|a: S, r: S, s: S| #![trigger is_ln(a, r), is_ln(a, s)]
        is_ln(a, r) && is_ln(a, s) ==> r == s
    &&& forall|a: S, r: S, s: S| #![trigger is_exp(a, r), is_exp(a, s)]
        is_exp(a, r) && is_exp(a, s) ==> r == s
    &&& forall|a: S, r: S, s: S| #![trigger is_sqrt(a, r), is_sqrt(a, s)]
        is_sqrt(a, r) && is_sqrt(a, s) ==> r == s
    &&& forall|a: S, r: u64, s: u64| #![trigger is_bits(a, r), is_bits(a, s)]
        is_bits(a, r) && is_bits(a, s) ==> r == s
}

/// Whether `value` reads numbers as whole numbers in such a way that the
/// number type counts, adds and multiplies exactly.
pub open spec fn exact_on_integers<S: Scalar>(value: spec_fn(S) -> int) -> bool {
    &&& forall|n: usize, r: S| #[trigger] is_count(n, r) ==> value(r) == n
    &&& forall|a: S, b: S, r: S| #[trigger] is_sum(a, b, r) ==> value(r) == value(a) + value(b)
    &&& forall|a: S, b: S, r: S|
        #[trigger] is_product(a, b, r) ==> value(r) == value(a) * value(b)
}

} // verus!
