use crate::scalar::Scalar;
use vstd::prelude::*;

verus! {

/// A scalar function applied element by element by the unary device map.
/// Each differentiable unary operation names one kind for its forward value
/// and one for the local derivative it bakes into the tape at forward time.
#[derive(Clone, Copy)]
pub enum UnaryKind<S> {
    Exp,
    Ln,
    Sqrt,
    Abs,
    Neg,
    /// `x * x`.
    Square,
    /// The sign of `x` (derivative of `Abs`).
    Sign,
    /// `1 / x` (derivative of `Ln`).
    Recip,
    /// `0.5 / sqrt(x)` (derivative of `Sqrt`).
    HalfRsqrt,
    /// The constant `c`, whatever the element.
    Konst(S),
    /// `x * c` (scaling by a scalar).
    MulBy(S),
    /// `x / c` (division by a scalar).
    DivBy(S),
    /// `c * x` (derivative of `Square` with `c` two, of `MulBy` and such).
    CMul(S),
    /// `x` raised to the constant power `c`.
    PowBy(S),
    /// `c * x^(c - 1)` (derivative of `PowBy`).
    DPowBy(S),
}

/// A two-argument scalar function applied across two equal-shaped buffers by
/// the binary device map. Besides plain arithmetic these carry the baked
/// forms that losses need: a Huber term with its threshold, and the
/// numerically stable binary-cross-entropy term, each with its two partial
/// derivatives.
#[derive(Clone, Copy)]
pub enum BinaryKind<S> {
    Add,
    Sub,
    Mul,
    Div,
    /// The constant `c`, whatever the elements (a baked derivative of one).
    BKonst(S),
    /// The first argument (derivative of `Mul` in its second).
    BFst,
    /// The second argument (derivative of `Mul` in its first).
    BSnd,
    /// `1 / y` (derivative of `Div` in its first argument).
    BRecipSnd,
    /// `-((x / y) / y)` (derivative of `Div` in its second argument).
    BNegQuotSnd,
    /// Huber error with threshold `c`: `0.5 (x-y)^2` inside the threshold,
    /// `|x-y| c - 0.5 c^2` outside.
    HuberF(S),
    /// Its derivative in `x`: zero at `x == y`, `x - y` inside the
    /// threshold, `sign(x-y) c` outside.
    HuberDx(S),
    /// Its derivative in `y`, the mirror image.
    HuberDy(S),
    /// Binary cross entropy of logit `x` against probability `y`, in the
    /// stable form `max(x, 0) - x y + ln(1 + exp(-|x|))`.
    BceF,
    /// Its derivative in the logit: `1 - y - 1 / (1 + exp(x))`.
    BceDx,
    /// Its derivative in the probability: `-x`.
    BceDy,
}

pub open spec fn un_apply_s<S: Scalar>(k: UnaryKind<S>, x: S) -> S {
    match k {
        UnaryKind::Exp => S::exp_s(x),
        UnaryKind::Ln => S::ln_s(x),
        UnaryKind::Sqrt => S::sqrt_s(x),
        UnaryKind::Abs => S::abs_s(x),
        UnaryKind::Neg => S::neg_s(x),
        UnaryKind::Square => S::mul_s(x, x),
        UnaryKind::Sign => S::sign_s(x),
        UnaryKind::Recip => S::div_s(S::one_s(), x),
        UnaryKind::HalfRsqrt => S::div_s(S::half_s(), S::sqrt_s(x)),
        UnaryKind::Konst(c) => c,
        UnaryKind::MulBy(c) => S::mul_s(x, c),
        UnaryKind::DivBy(c) => S::div_s(x, c),
        UnaryKind::CMul(c) => S::mul_s(c, x),
        UnaryKind::PowBy(c) => S::pow_s(x, c),
        UnaryKind::DPowBy(c) => S::mul_s(c, S::pow_s(x, S::sub_s(c, S::one_s()))),
    }
}

pub open spec fn bin_apply_s<S: Scalar>(k: BinaryKind<S>, x: S, y: S) -> S {
    match k {
        BinaryKind::Add => S::add_s(x, y),
        BinaryKind::Sub => S::sub_s(x, y),
        BinaryKind::Mul => S::mul_s(x, y),
        BinaryKind::Div => S::div_s(x, y),
        BinaryKind::BKonst(c) => c,
        BinaryKind::BFst => x,
        BinaryKind::BSnd => y,
        BinaryKind::BRecipSnd => S::div_s(S::one_s(), y),
        BinaryKind::BNegQuotSnd => S::neg_s(S::div_s(S::div_s(x, y), y)),
        BinaryKind::HuberF(c) => if S::lt_s(S::abs_s(S::sub_s(x, y)), c) {
            S::mul_s(S::mul_s(S::sub_s(x, y), S::sub_s(x, y)), S::half_s())
        } else {
            S::sub_s(
                S::mul_s(S::abs_s(S::sub_s(x, y)), c),
                S::mul_s(S::mul_s(S::half_s(), c), c),
            )
        },
        BinaryKind::HuberDx(c) => if S::eq_s(S::sub_s(x, y), S::zero_s()) {
            S::zero_s()
        } else if S::lt_s(S::abs_s(S::sub_s(x, y)), c) {
            S::sub_s(x, y)
        } else {
            S::mul_s(S::sign_s(S::sub_s(x, y)), c)
        },
        BinaryKind::HuberDy(c) => if S::eq_s(S::sub_s(x, y), S::zero_s()) {
            S::zero_s()
        } else if S::lt_s(S::abs_s(S::sub_s(x, y)), c) {
            S::sub_s(y, x)
        } else {
            S::mul_s(S::sign_s(S::sub_s(y, x)), c)
        },
        BinaryKind::BceF => S::add_s(
            S::sub_s(S::max_s(x, S::zero_s()), S::mul_s(x, y)),
            S::ln_s(S::add_s(S::one_s(), S::exp_s(S::neg_s(S::abs_s(x))))),
        ),
        BinaryKind::BceDx => S::sub_s(
            S::sub_s(S::one_s(), y),
            S::div_s(S::one_s(), S::add_s(S::one_s(), S::exp_s(x))),
        ),
        BinaryKind::BceDy => S::neg_s(x),
    }
}

pub fn un_apply<S: Scalar>(k: &UnaryKind<S>, x: S) -> (r: S)
    ensures
        r == un_apply_s(*k, x),
{
    match k {
        UnaryKind::Exp => S::exp_v(x),
        UnaryKind::Ln => S::ln_v(x),
        UnaryKind::Sqrt => S::sqrt_v(x),
        UnaryKind::Abs => S::abs_v(x),
        UnaryKind::Neg => S::neg(x),
        UnaryKind::Square => S::mul(x, x),
        UnaryKind::Sign => S::sign_v(x),
        UnaryKind::Recip => S::div(S::one(), x),
        UnaryKind::HalfRsqrt => S::div(S::half(), S::sqrt_v(x)),
        UnaryKind::Konst(c) => *c,
        UnaryKind::MulBy(c) => S::mul(x, *c),
        UnaryKind::DivBy(c) => S::div(x, *c),
        UnaryKind::CMul(c) => S::mul(*c, x),
        UnaryKind::PowBy(c) => S::pow_v(x, *c),
        UnaryKind::DPowBy(c) => S::mul(*c, S::pow_v(x, S::sub(*c, S::one()))),
    }
}

pub fn bin_apply<S: Scalar>(k: &BinaryKind<S>, x: S, y: S) -> (r: S)
    ensures
        r == bin_apply_s(*k, x, y),
{
    match k {
        BinaryKind::Add => S::add(x, y),
        BinaryKind::Sub => S::sub(x, y),
        BinaryKind::Mul => S::mul(x, y),
        BinaryKind::Div => S::div(x, y),
        BinaryKind::BKonst(c) => *c,
        BinaryKind::BFst => x,
        BinaryKind::BSnd => y,
        BinaryKind::BRecipSnd => S::div(S::one(), y),
        BinaryKind::BNegQuotSnd => S::neg(S::div(S::div(x, y), y)),
        BinaryKind::HuberF(c) => {
            let d = S::sub(x, y);
            if S::lt_v(S::abs_v(d), *c) {
                S::mul(S::mul(d, d), S::half())
            } else {
                S::sub(S::mul(S::abs_v(d), *c), S::mul(S::mul(S::half(), *c), *c))
            }
        },
        BinaryKind::HuberDx(c) => {
            let d = S::sub(x, y);
            if S::eq_v(d, S::zero()) {
                S::zero()
            } else if S::lt_v(S::abs_v(d), *c) {
                d
            } else {
                S::mul(S::sign_v(d), *c)
            }
        },
        BinaryKind::HuberDy(c) => {
            let d = S::sub(x, y);
            if S::eq_v(d, S::zero()) {
                S::zero()
            } else if S::lt_v(S::abs_v(d), *c) {
                S::sub(y, x)
            } else {
                S::mul(S::sign_v(S::sub(y, x)), *c)
            }
        },
        BinaryKind::BceF => S::add(
            S::sub(S::max_v(x, S::zero()), S::mul(x, y)),
            S::ln_v(S::add(S::one(), S::exp_v(S::neg(S::abs_v(x))))),
        ),
        BinaryKind::BceDx => S::sub(
            S::sub(S::one(), y),
            S::div(S::one(), S::add(S::one(), S::exp_v(x))),
        ),
        BinaryKind::BceDy => S::neg(x),
    }
}

} // verus!
