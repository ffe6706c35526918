use vstd::prelude::*;

verus! {

/// The element type of every tensor.
///
/// The engine never computes with scalars itself: elementary arithmetic is a
/// boundary consumed from collaborators (for example a backend whose scalars
/// are IEEE-754 floats, where anomalies such as infinities and NaNs are
/// ordinary values, not errors). Each executable method is therefore paired
/// with an abstract spec function, and every contract in this crate speaks of
/// scalars only through those spec functions. An implementation decides what
/// the operations mean; the engine's theorems hold for any implementation
/// that satisfies the (purely definitional) method contracts.
pub trait Scalar: Sized + Copy {
    /// The additive identity used to zero-fill gradient buffers.
    spec fn zero_s() -> Self;

    /// The multiplicative unit.
    spec fn one_s() -> Self;

    /// One half, used by loss derivations that halve a square.
    spec fn half_s() -> Self;

    /// The scalar standing for a count of elements (used to divide by the
    /// size of a reduced axis).
    spec fn of_count_s(n: usize) -> Self;

    spec fn add_s(a: Self, b: Self) -> Self;

    spec fn sub_s(a: Self, b: Self) -> Self;

    spec fn mul_s(a: Self, b: Self) -> Self;

    spec fn div_s(a: Self, b: Self) -> Self;

    spec fn neg_s(a: Self) -> Self;

    spec fn abs_s(a: Self) -> Self;

    spec fn sqrt_s(a: Self) -> Self;

    spec fn exp_s(a: Self) -> Self;

    spec fn ln_s(a: Self) -> Self;

    /// The sign of `a` (for floats: `signum`).
    spec fn sign_s(a: Self) -> Self;

    /// `a` raised to the power `b`.
    spec fn pow_s(a: Self, b: Self) -> Self;

    /// The larger of two scalars.
    spec fn max_s(a: Self, b: Self) -> Self;

    /// Whether two scalars compare equal (for floats: IEEE equality).
    spec fn eq_s(a: Self, b: Self) -> bool;

    /// Whether `a` compares strictly below `b`.
    spec fn lt_s(a: Self, b: Self) -> bool;

    fn zero() -> (r: Self)
        ensures
            r == Self::zero_s(),
    ;

    fn one() -> (r: Self)
        ensures
            r == Self::one_s(),
    ;

    fn half() -> (r: Self)
        ensures
            r == Self::half_s(),
    ;

    fn of_count(n: usize) -> (r: Self)
        ensures
            r == Self::of_count_s(n),
    ;

    fn add(a: Self, b: Self) -> (r: Self)
        ensures
            r == Self::add_s(a, b),
    ;

    fn sub(a: Self, b: Self) -> (r: Self)
        ensures
            r == Self::sub_s(a, b),
    ;

    fn mul(a: Self, b: Self) -> (r: Self)
        ensures
            r == Self::mul_s(a, b),
    ;

    fn div(a: Self, b: Self) -> (r: Self)
        ensures
            r == Self::div_s(a, b),
    ;

    fn neg(a: Self) -> (r: Self)
        ensures
            r == Self::neg_s(a),
    ;

    fn abs_v(a: Self) -> (r: Self)
        ensures
            r == Self::abs_s(a),
    ;

    fn sqrt_v(a: Self) -> (r: Self)
        ensures
            r == Self::sqrt_s(a),
    ;

    fn exp_v(a: Self) -> (r: Self)
        ensures
            r == Self::exp_s(a),
    ;

    fn ln_v(a: Self) -> (r: Self)
        ensures
            r == Self::ln_s(a),
    ;

    fn sign_v(a: Self) -> (r: Self)
        ensures
            r == Self::sign_s(a),
    ;

    fn pow_v(a: Self, b: Self) -> (r: Self)
        ensures
            r == Self::pow_s(a, b),
    ;

    fn max_v(a: Self, b: Self) -> (r: Self)
        ensures
            r == Self::max_s(a, b),
    ;

    fn eq_v(a: Self, b: Self) -> (r: bool)
        ensures
            r == Self::eq_s(a, b),
    ;

    fn lt_v(a: Self, b: Self) -> (r: bool)
        ensures
            r == Self::lt_s(a, b),
    ;
}

} // verus!
