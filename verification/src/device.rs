use crate::axes::{lemma_o_of_bound, lemma_sx_bound, o_of, sx};
use crate::kinds::{bin_apply, bin_apply_s, un_apply, un_apply_s, BinaryKind, UnaryKind};
use crate::scalar::Scalar;
use vstd::prelude::*;

verus! {

/// The fold, by addition from zero, of the first `a_cnt` elements of the
/// fiber over reduced position `o` in a source laid out as
/// `(outer, k, inner)`. This is what a sum reduction leaves at `o`.
pub open spec fn fiber_sum<S: Scalar>(src: Seq<S>, o: int, a_cnt: int, k: int, inner: int) -> S
    decreases a_cnt,
{
    if a_cnt <= 0 {
        S::zero_s()
    } else {
        S::add_s(fiber_sum(src, o, a_cnt - 1, k, inner), src[sx(o, a_cnt - 1, k, inner)])
    }
}

/// The fold, by the two-place maximum seeded with the fiber's first element,
/// of the first `a_cnt` elements of the fiber over `o`. This is what a max
/// reduction leaves at `o`.
pub open spec fn fiber_max<S: Scalar>(src: Seq<S>, o: int, a_cnt: int, k: int, inner: int) -> S
    decreases a_cnt,
{
    if a_cnt <= 1 {
        src[sx(o, 0, k, inner)]
    } else {
        S::max_s(fiber_max(src, o, a_cnt - 1, k, inner), src[sx(o, a_cnt - 1, k, inner)])
    }
}

/// The fold, by addition from zero, of a whole buffer in index order: the
/// value of a reduction over every axis.
pub open spec fn sum_all<S: Scalar>(s: Seq<S>) -> S
    decreases s.len(),
{
    if s.len() == 0 {
        S::zero_s()
    } else {
        S::add_s(sum_all(s.drop_last()), s.last())
    }
}

/// Reducing over every axis is the plain left fold of the buffer.
pub proof fn lemma_fiber_sum_all<S: Scalar>(s: Seq<S>, cnt: int)
    requires
        0 <= cnt <= s.len(),
    ensures
        fiber_sum(s, 0, cnt, s.len() as int, 1) == sum_all(s.take(cnt)),
    decreases cnt,
{
    if cnt > 0 {
        lemma_fiber_sum_all(s, cnt - 1);
        assert(0int / 1int == 0 && 0int % 1int == 0) by (nonlinear_arith);
        assert(sx(0, cnt - 1, s.len() as int, 1) == cnt - 1);
        assert(s.take(cnt).drop_last() =~= s.take(cnt - 1));
        assert(s.take(cnt).last() == s[cnt - 1]);
    }
}

/// Reading past a gradient buffer yields zero; in a well-formed run the
/// index is always in range and this padding is never seen.
pub open spec fn gpad<S: Scalar>(g: Seq<S>, i: int) -> S {
    if 0 <= i < g.len() {
        g[i]
    } else {
        S::zero_s()
    }
}

/// Applies a scalar function element by element into a fresh equal-shaped
/// buffer.
pub fn unary_map_buf<S: Scalar>(k: UnaryKind<S>, src: &Vec<S>) -> (out: Vec<S>)
    ensures
        out@.len() == src@.len(),
        forall|i: int| 0 <= i < src@.len() ==> out@[i] == un_apply_s(k, src@[i]),
{
    let mut out: Vec<S> = Vec::new();
    let mut i: usize = 0;
    while i < src.len()
        invariant
            0 <= i <= src@.len(),
            out@.len() == i,
            forall|t: int| 0 <= t < i ==> out@[t] == un_apply_s(k, src@[t]),
        decreases src@.len() - i,
    {
        out.push(un_apply(&k, src[i]));
        i += 1;
    }
    out
}

/// Applies a two-argument scalar function across two equal-shaped buffers.
pub fn binary_map_buf<S: Scalar>(k: BinaryKind<S>, a: &Vec<S>, b: &Vec<S>) -> (out: Vec<S>)
    requires
        a@.len() == b@.len(),
    ensures
        out@.len() == a@.len(),
        forall|i: int| 0 <= i < a@.len() ==> out@[i] == bin_apply_s(k, a@[i], b@[i]),
{
    let mut out: Vec<S> = Vec::new();
    let mut i: usize = 0;
    while i < a.len()
        invariant
            0 <= i <= a@.len(),
            a@.len() == b@.len(),
            out@.len() == i,
            forall|t: int| 0 <= t < i ==> out@[t] == bin_apply_s(k, a@[t], b@[t]),
        decreases a@.len() - i,
    {
        out.push(bin_apply(&k, a[i], b[i]));
        i += 1;
    }
    out
}

/// Folds a source buffer down to the reduced shape by addition, fiber by
/// fiber.
pub fn reduce_sum_buf<S: Scalar>(src: &Vec<S>, outer: usize, k: usize, inner: usize) -> (out: Vec<
    S,
>)
    requires
        outer >= 1,
        k >= 1,
        inner >= 1,
        src@.len() == outer * k * inner,
    ensures
        out@.len() == outer * inner,
        forall|o: int|
            0 <= o < outer * inner ==> out@[o] == fiber_sum(
                src@,
                o,
                k as int,
                k as int,
                inner as int,
            ),
{
    proof {
        assert(k * inner <= outer * k * inner && outer * inner <= outer * k * inner && 1 <= outer
            * inner && 1 <= k * inner) by (nonlinear_arith)
            requires outer >= 1 && k >= 1 && inner >= 1;
    }
    let srclen: usize = src.len();
    let on: usize = outer * inner;
    let mut out: Vec<S> = Vec::new();
    let mut o: usize = 0;
    while o < on
        invariant
            outer >= 1 && k >= 1 && inner >= 1,
            src@.len() == outer * k * inner,
            srclen == src@.len(),
            on == outer * inner,
            on <= src@.len(),
            0 <= o <= on,
            out@.len() == o,
            forall|t: int|
                0 <= t < o ==> out@[t] == fiber_sum(src@, t, k as int, k as int, inner as int),
        decreases on - o,
    {
        let mut acc = S::zero();
        let mut a: usize = 0;
        while a < k
            invariant
                outer >= 1 && k >= 1 && inner >= 1,
                src@.len() == outer * k * inner,
                srclen == src@.len(),
                on == outer * inner,
                0 <= o < on,
                0 <= a <= k,
                acc == fiber_sum(src@, o as int, a as int, k as int, inner as int),
            decreases k - a,
        {
            proof {
                lemma_sx_bound(o as int, a as int, outer as int, k as int, inner as int);
            }
            let j = (o / inner) * (k * inner) + a * inner + (o % inner);
            acc = S::add(acc, src[j]);
            a += 1;
        }
        out.push(acc);
        o += 1;
    }
    out
}

/// Folds a source buffer down to the reduced shape by gathering each fiber's
/// maximum.
pub fn reduce_max_buf<S: Scalar>(src: &Vec<S>, outer: usize, k: usize, inner: usize) -> (out: Vec<
    S,
>)
    requires
        outer >= 1,
        k >= 1,
        inner >= 1,
        src@.len() == outer * k * inner,
    ensures
        out@.len() == outer * inner,
        forall|o: int|
            0 <= o < outer * inner ==> out@[o] == fiber_max(
                src@,
                o,
                k as int,
                k as int,
                inner as int,
            ),
{
    proof {
        assert(k * inner <= outer * k * inner && outer * inner <= outer * k * inner && 1 <= outer
            * inner && 1 <= k * inner) by (nonlinear_arith)
            requires outer >= 1 && k >= 1 && inner >= 1;
    }
    let srclen: usize = src.len();
    let on: usize = outer * inner;
    let mut out: Vec<S> = Vec::new();
    let mut o: usize = 0;
    while o < on
        invariant
            outer >= 1 && k >= 1 && inner >= 1,
            src@.len() == outer * k * inner,
            srclen == src@.len(),
            on == outer * inner,
            on <= src@.len(),
            0 <= o <= on,
            out@.len() == o,
            forall|t: int|
                0 <= t < o ==> out@[t] == fiber_max(src@, t, k as int, k as int, inner as int),
        decreases on - o,
    {
        proof {
            lemma_sx_bound(o as int, 0, outer as int, k as int, inner as int);
        }
        let j0 = (o / inner) * (k * inner) + (o % inner);
        let mut acc = src[j0];
        let mut a: usize = 1;
        while a < k
            invariant
                outer >= 1 && k >= 1 && inner >= 1,
                src@.len() == outer * k * inner,
                srclen == src@.len(),
                on == outer * inner,
                0 <= o < on,
                1 <= a <= k,
                acc == fiber_max(src@, o as int, a as int, k as int, inner as int),
            decreases k - a,
        {
            proof {
                lemma_sx_bound(o as int, a as int, outer as int, k as int, inner as int);
            }
            let j = (o / inner) * (k * inner) + a * inner + (o % inner);
            acc = S::max_v(acc, src[j]);
            a += 1;
        }
        out.push(acc);
        o += 1;
    }
    out
}

/// Writes the equality indicator of a source against its broadcast reduced
/// maxima: one where the source element attains its fiber's reduced value,
/// zero elsewhere. The source's own values are no longer needed once the
/// comparison is made, so the result replaces them as the local derivative.
pub fn eq_indicator_buf<S: Scalar>(
    src: &Vec<S>,
    red: &Vec<S>,
    outer: usize,
    k: usize,
    inner: usize,
) -> (out: Vec<S>)
    requires
        outer >= 1,
        k >= 1,
        inner >= 1,
        src@.len() == outer * k * inner,
        red@.len() == outer * inner,
    ensures
        out@.len() == src@.len(),
        forall|j: int|
            0 <= j < src@.len() ==> out@[j] == (if S::eq_s(
                src@[j],
                red@[o_of(j, k as int, inner as int)],
            ) {
                S::one_s()
            } else {
                S::zero_s()
            }),
{
    proof {
        assert(k * inner <= outer * k * inner && outer * inner <= outer * k * inner && 1 <= outer
            * inner && 1 <= k * inner) by (nonlinear_arith)
            requires outer >= 1 && k >= 1 && inner >= 1;
    }
    let srclen: usize = src.len();
    let m: usize = k * inner;
    let mut out: Vec<S> = Vec::new();
    let mut j: usize = 0;
    while j < src.len()
        invariant
            outer >= 1 && k >= 1 && inner >= 1,
            src@.len() == outer * k * inner,
            srclen == src@.len(),
            red@.len() == outer * inner,
            m == k * inner,
            1 <= m,
            outer * inner <= src@.len(),
            0 <= j <= src@.len(),
            out@.len() == j,
            forall|t: int|
                0 <= t < j ==> out@[t] == (if S::eq_s(
                    src@[t],
                    red@[o_of(t, k as int, inner as int)],
                ) {
                    S::one_s()
                } else {
                    S::zero_s()
                }),
        decreases src@.len() - j,
    {
        proof {
            lemma_o_of_bound(j as int, outer as int, k as int, inner as int);
        }
        let o = (j / m) * inner + (j % inner);
        let e = if S::eq_v(src[j], red[o]) {
            S::one()
        } else {
            S::zero()
        };
        out.push(e);
        j += 1;
    }
    out
}

/// Expands a reduced buffer back across the source shape: position `j`
/// receives the reduced element its fiber folded into.
pub fn broadcast_buf<S: Scalar>(red: &Vec<S>, outer: usize, k: usize, inner: usize) -> (out: Vec<
    S,
>)
    requires
        outer >= 1,
        k >= 1,
        inner >= 1,
        red@.len() == outer * inner,
        outer * k * inner <= usize::MAX,
    ensures
        out@.len() == outer * k * inner,
        forall|j: int|
            0 <= j < out@.len() ==> out@[j] == red@[o_of(j, k as int, inner as int)],
{
    proof {
        assert(k * inner <= outer * k * inner && outer * inner <= outer * k * inner && 1 <= outer
            * inner && 1 <= k * inner) by (nonlinear_arith)
            requires outer >= 1 && k >= 1 && inner >= 1;
    }
    let m: usize = k * inner;
    proof {
        assert(outer * m == outer * k * inner) by (nonlinear_arith)
            requires m == k * inner;
    }
    let n: usize = outer * m;
    let mut out: Vec<S> = Vec::new();
    let mut j: usize = 0;
    while j < n
        invariant
            outer >= 1 && k >= 1 && inner >= 1,
            red@.len() == outer * inner,
            m == k * inner,
            1 <= m,
            n == outer * k * inner,
            outer * inner <= n,
            0 <= j <= n,
            out@.len() == j,
            forall|t: int|
                0 <= t < j ==> out@[t] == red@[o_of(t, k as int, inner as int)],
        decreases n - j,
    {
        proof {
            lemma_o_of_bound(j as int, outer as int, k as int, inner as int);
        }
        let o = (j / m) * inner + (j % inner);
        out.push(red[o]);
        j += 1;
    }
    out
}

/// The backward counterpart of a reduction, total over any geometry: scales
/// the broadcast output gradient by the recorded per-element coefficients.
/// Positions that a (necessarily malformed) geometry would send outside the
/// gradient buffer read the zero padding instead of faulting.
pub fn bcast_mul_buf<S: Scalar>(coef: &Vec<S>, g: &Vec<S>, k: usize, inner: usize) -> (out: Vec<
    S,
>)
    ensures
        out@.len() == coef@.len(),
        forall|j: int|
            0 <= j < coef@.len() ==> out@[j] == S::mul_s(
                coef@[j],
                gpad(g@, o_of(j, k as int, inner as int)),
            ),
{
    let ku = k as u128;
    let iu = inner as u128;
    proof {
        assert(ku * iu <= 0xFFFF_FFFF_FFFF_FFFFu128 * 0xFFFF_FFFF_FFFF_FFFFu128)
            by (nonlinear_arith)
            requires ku <= 0xFFFF_FFFF_FFFF_FFFFu128 && iu <= 0xFFFF_FFFF_FFFF_FFFFu128;
    }
    let m = ku * iu;
    let mut out: Vec<S> = Vec::new();
    let mut j: usize = 0;
    while j < coef.len()
        invariant
            ku == k && iu == inner,
            m == ku * iu,
            0 <= j <= coef@.len(),
            out@.len() == j,
            forall|t: int|
                0 <= t < j ==> out@[t] == S::mul_s(
                    coef@[t],
                    gpad(g@, o_of(t, k as int, inner as int)),
                ),
        decreases coef@.len() - j,
    {
        let o: u128 = if m == 0 {
            0
        } else {
            proof {
                vstd::arithmetic::div_mod::lemma_div_pos_is_pos(j as int, m as int);
                vstd::arithmetic::div_mod::lemma_div_nonincreasing(j as int, m as int);
                assert((j as u128 / m) * iu <= 0xFFFF_FFFF_FFFF_FFFFu128
                    * 0xFFFF_FFFF_FFFF_FFFFu128) by (nonlinear_arith)
                    requires
                        0 <= j as u128 / m <= 0xFFFF_FFFF_FFFF_FFFFu128 && iu
                            <= 0xFFFF_FFFF_FFFF_FFFFu128,
                ;
            }
            (j as u128 / m) * iu + (j as u128 % iu)
        };
        proof {
            if k >= 1 && inner >= 1 {
                assert(m >= 1) by (nonlinear_arith)
                    requires ku >= 1 && iu >= 1 && m == ku * iu;
                assert(o == o_of(j as int, k as int, inner as int));
            } else {
                assert(m == 0) by (nonlinear_arith)
                    requires ku * iu == m && (ku == 0 || iu == 0);
                assert(o == o_of(j as int, k as int, inner as int));
            }
        }
        let gv = if o < g.len() as u128 {
            g[o as usize]
        } else {
            S::zero()
        };
        out.push(S::mul(coef[j], gv));
        j += 1;
    }
    out
}

} // verus!
