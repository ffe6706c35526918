//! Standard loss functions, each a thin composition of the differentiable
//! core ops: an elementwise error term followed by a mean over every axis.
//! Each returns a traced scalar ready for `backward`.

use crate::axes::{red_inner, red_k, AxisSel, TensorError};
use crate::device::{fiber_sum, lemma_fiber_sum_all, sum_all};
use crate::kinds::{un_apply_s, BinaryKind, UnaryKind};
use crate::ops::{
    bin_map_s, binary_entry_ok, binary_map, div_scalar, lemma_tape_grown_trans, mean,
    spread_entry_ok, sqrt, square, tape_grown, unary_entry_ok,
};
use crate::scalar::Scalar;
use crate::tensor::{wf, Tensor, Traced};
use crate::tensor::IdGen;
use vstd::prelude::*;

verus! {

/// The mean of a buffer: its in-order sum divided by its element count.
pub open spec fn mean_all_s<S: Scalar>(s: Seq<S>) -> S {
    S::div_s(sum_all(s), S::of_count_s(s.len() as usize))
}

/// The elementwise squared difference of two buffers.
pub open spec fn sq_diff_s<S: Scalar>(p: Seq<S>, t: Seq<S>) -> Seq<S> {
    Seq::new(
        p.len(),
        |i: int| S::mul_s(S::sub_s(p[i], t[i]), S::sub_s(p[i], t[i])),
    )
}

/// Mean squared error: `mean(square(pred - targ))`.
pub open spec fn mse_spec<S: Scalar>(p: Seq<S>, t: Seq<S>) -> S {
    mean_all_s(sq_diff_s(p, t))
}

/// Mean absolute error: `mean(abs(pred - targ))`.
pub open spec fn mae_spec<S: Scalar>(p: Seq<S>, t: Seq<S>) -> S {
    mean_all_s(Seq::new(p.len(), |i: int| S::abs_s(S::sub_s(p[i], t[i]))))
}

/// Huber loss: the mean of the elementwise Huber error with threshold
/// `delta`.
pub open spec fn huber_spec<S: Scalar>(p: Seq<S>, t: Seq<S>, delta: S) -> S {
    mean_all_s(bin_map_s(BinaryKind::HuberF(delta), p, t))
}

/// Binary cross entropy with logits, in the numerically stable form that
/// never exponentiates a positive logit.
pub open spec fn bce_spec<S: Scalar>(p: Seq<S>, t: Seq<S>) -> S {
    mean_all_s(bin_map_s(BinaryKind::BceF, p, t))
}

/// The backward entry a mean over every axis records behind an error term
/// of `n` elements: the output gradient spread back evenly, each source
/// position weighted by one over the element count.
pub open spec fn mean_all_entry_ok<S: Scalar>(
    op: crate::tensor::BwdOp<S>,
    x_id: u64,
    n: int,
    out_id: u64,
) -> bool {
    spread_entry_ok(
        op,
        x_id,
        Seq::new(n as nat, |j: int| S::div_s(S::one_s(), S::of_count_s(n as usize))),
        n,
        1,
        1,
        out_id,
    )
}

/// What every loss in this module promises beyond its value: a well-formed
/// traced scalar under a fresh identity, the operand's tape ownership
/// carried over with `n` entries recorded behind the old ones.
pub open spec fn loss_post<S: Scalar>(
    pred: Traced<S>,
    r: Traced<S>,
    n0: u64,
    n1: u64,
    n_ops: int,
) -> bool {
    &&& wf(r.val)
    &&& r.val.dims@.len() == 0
    &&& r.val.data@.len() == 1
    &&& r.val.id == n0 + n_ops - 1
    &&& n1 == n0 + n_ops
    &&& tape_grown(pred, r, n_ops)
}

/// The mean over every axis equals `mean_all_s` of the buffer.
proof fn lemma_mean_all<S: Scalar>(t: Traced<S>, r: Traced<S>)
    requires
        wf(t.val),
        r.val.data@.len() == 1,
        r.val.data@[0] == S::div_s(
            fiber_sum(
                t.val.data@,
                0,
                red_k(AxisSel::AllAx, t.val.dims@),
                red_k(AxisSel::AllAx, t.val.dims@),
                red_inner(AxisSel::AllAx, t.val.dims@),
            ),
            S::of_count_s(red_k(AxisSel::AllAx, t.val.dims@) as usize),
        ),
    ensures
        r.val.data@ == seq![mean_all_s(t.val.data@)],
{
    let s = t.val.data@;
    lemma_fiber_sum_all(s, s.len() as int);
    assert(s.take(s.len() as int) =~= s);
    assert(r.val.data@ =~= seq![mean_all_s(t.val.data@)]);
}

/// Mean squared error of a prediction against a plain target:
/// `mean(square(pred - targ))`.
pub fn mse_loss<S: Scalar>(gen: &mut IdGen, pred: Traced<S>, targ: &Tensor<S>) -> (r: Result<
    Traced<S>,
    TensorError,
>)
    requires
        wf(pred.val),
        wf(*targ),
        old(gen).next <= u64::MAX - 3,
    ensures
        r is Ok <==> pred.val.dims@ == targ.dims@,
        r is Err ==> final(gen).next == old(gen).next,
        r matches Ok(rt) ==> loss_post(pred, rt, old(gen).next, final(gen).next, 3)
            && rt.val.data@ == seq![mse_spec(pred.val.data@, targ.data@)],
        r matches Ok(rt) ==> match rt.tape {
            Some(b) => b.ops@.len() >= 3 && binary_entry_ok(
                b.ops@[b.ops@.len() - 3],
                pred.val.id,
                bin_map_s(BinaryKind::BKonst(S::one_s()), pred.val.data@, targ.data@),
                targ.id,
                bin_map_s(
                    BinaryKind::BKonst(S::neg_s(S::one_s())),
                    pred.val.data@,
                    targ.data@,
                ),
                old(gen).next,
            ) && unary_entry_ok(
                b.ops@[b.ops@.len() - 2],
                old(gen).next,
                Seq::new(
                    pred.val.data@.len(),
                    |i: int|
                        S::mul_s(
                            S::add_s(S::one_s(), S::one_s()),
                            S::sub_s(pred.val.data@[i], targ.data@[i]),
                        ),
                ),
                (old(gen).next + 1) as u64,
            ) && mean_all_entry_ok(
                b.ops@.last(),
                (old(gen).next + 1) as u64,
                pred.val.data@.len() as int,
                (old(gen).next + 2) as u64,
            ),
            None => true,
        },
{
    let ghost p = pred.val.data@;
    let ghost pt = pred;
    let d = match crate::ops::sub(gen, pred, targ) {
        Ok(d) => d,
        Err(e) => {
            return Err(e);
        },
    };
    let sq = square(gen, d);
    let ghost dt = d;
    let ghost sqt = sq;
    let m = match mean(gen, sq, AxisSel::AllAx) {
        Ok(m) => m,
        Err(e) => {
            return Err(e);
        },
    };
    proof {
        assert(sqt.val.data@ =~= sq_diff_s(p, targ.data@));
        lemma_mean_all(sqt, m);
        lemma_tape_grown_trans(pt, dt, sqt, 1, 1);
        lemma_tape_grown_trans(pt, sqt, m, 2, 1);
        lemma_loss_entries(pt, sqt, m);
        let mt = m;
        match (dt.tape, sqt.tape, mt.tape) {
            (Some(a1), Some(a2), Some(b)) => {
                let l1 = a1.ops@.len() as int;
                let l2 = a2.ops@.len() as int;
                assert(a2.ops@.take(l1)[l1 - 1] == a2.ops@[l1 - 1]);
                assert(b.ops@.take(l2)[l1 - 1] == b.ops@[l1 - 1]);
                assert(b.ops@.take(l2)[l2 - 1] == b.ops@[l2 - 1]);
                assert(Seq::new(
                    dt.val.data@.len(),
                    |i: int|
                        un_apply_s(
                            UnaryKind::CMul(S::add_s(S::one_s(), S::one_s())),
                            dt.val.data@[i],
                        ),
                ) =~= Seq::new(
                    p.len(),
                    |i: int|
                        S::mul_s(
                            S::add_s(S::one_s(), S::one_s()),
                            S::sub_s(p[i], targ.data@[i]),
                        ),
                ));
            },
            _ => {},
        }
    }
    Ok(m)
}

/// Root mean square error: `sqrt(mse_loss(pred, targ))`.
pub fn rmse_loss<S: Scalar>(gen: &mut IdGen, pred: Traced<S>, targ: &Tensor<S>) -> (r: Result<
    Traced<S>,
    TensorError,
>)
    requires
        wf(pred.val),
        wf(*targ),
        old(gen).next <= u64::MAX - 4,
    ensures
        r is Ok <==> pred.val.dims@ == targ.dims@,
        r is Err ==> final(gen).next == old(gen).next,
        r matches Ok(rt) ==> loss_post(pred, rt, old(gen).next, final(gen).next, 4)
            && rt.val.data@ == seq![S::sqrt_s(mse_spec(pred.val.data@, targ.data@))],
        r matches Ok(rt) ==> match rt.tape {
            Some(b) => b.ops@.len() >= 1 && unary_entry_ok(
                b.ops@.last(),
                (old(gen).next + 2) as u64,
                seq![S::div_s(S::half_s(), S::sqrt_s(mse_spec(pred.val.data@, targ.data@)))],
                (old(gen).next + 3) as u64,
            ),
            None => true,
        },
{
    let ghost pt = pred;
    let m = match mse_loss(gen, pred, targ) {
        Ok(m) => m,
        Err(e) => {
            return Err(e);
        },
    };
    let ghost mt = m;
    let s = sqrt(gen, m);
    proof {
        lemma_tape_grown_trans(pt, mt, s, 3, 1);
        assert(s.val.data@ =~= seq![S::sqrt_s(mse_spec(pt.val.data@, targ.data@))]);
        let st = s;
        match st.tape {
            Some(b) => {
                assert(Seq::new(
                    mt.val.data@.len(),
                    |i: int| un_apply_s(UnaryKind::HalfRsqrt, mt.val.data@[i]),
                ) =~= seq![
                    S::div_s(S::half_s(), S::sqrt_s(mse_spec(pt.val.data@, targ.data@))),
                ]);
            },
            None => {},
        }
    }
    Ok(s)
}

/// Mean absolute error: `mean(abs(pred - targ))`.
pub fn mae_loss<S: Scalar>(gen: &mut IdGen, pred: Traced<S>, targ: &Tensor<S>) -> (r: Result<
    Traced<S>,
    TensorError,
>)
    requires
        wf(pred.val),
        wf(*targ),
        old(gen).next <= u64::MAX - 3,
    ensures
        r is Ok <==> pred.val.dims@ == targ.dims@,
        r is Err ==> final(gen).next == old(gen).next,
        r matches Ok(rt) ==> loss_post(pred, rt, old(gen).next, final(gen).next, 3)
            && rt.val.data@ == seq![mae_spec(pred.val.data@, targ.data@)],
        r matches Ok(rt) ==> match rt.tape {
            Some(b) => b.ops@.len() >= 3 && binary_entry_ok(
                b.ops@[b.ops@.len() - 3],
                pred.val.id,
                bin_map_s(BinaryKind::BKonst(S::one_s()), pred.val.data@, targ.data@),
                targ.id,
                bin_map_s(
                    BinaryKind::BKonst(S::neg_s(S::one_s())),
                    pred.val.data@,
                    targ.data@,
                ),
                old(gen).next,
            ) && unary_entry_ok(
                b.ops@[b.ops@.len() - 2],
                old(gen).next,
                Seq::new(
                    pred.val.data@.len(),
                    |i: int| S::sign_s(S::sub_s(pred.val.data@[i], targ.data@[i])),
                ),
                (old(gen).next + 1) as u64,
            ) && mean_all_entry_ok(
                b.ops@.last(),
                (old(gen).next + 1) as u64,
                pred.val.data@.len() as int,
                (old(gen).next + 2) as u64,
            ),
            None => true,
        },
{
    let ghost p = pred.val.data@;
    let ghost pt = pred;
    let d = match crate::ops::sub(gen, pred, targ) {
        Ok(d) => d,
        Err(e) => {
            return Err(e);
        },
    };
    let ghost dt = d;
    let a = crate::ops::abs(gen, d);
    let ghost at = a;
    let m = match mean(gen, a, AxisSel::AllAx) {
        Ok(m) => m,
        Err(e) => {
            return Err(e);
        },
    };
    proof {
        assert(at.val.data@ =~= Seq::new(p.len(), |i: int| S::abs_s(S::sub_s(p[i], targ.data@[i]))));
        lemma_mean_all(at, m);
        lemma_tape_grown_trans(pt, dt, at, 1, 1);
        lemma_tape_grown_trans(pt, at, m, 2, 1);
        lemma_loss_entries(pt, at, m);
        let mt = m;
        match (dt.tape, at.tape, mt.tape) {
            (Some(a1), Some(a2), Some(b)) => {
                let l1 = a1.ops@.len() as int;
                let l2 = a2.ops@.len() as int;
                assert(a2.ops@.take(l1)[l1 - 1] == a2.ops@[l1 - 1]);
                assert(b.ops@.take(l2)[l1 - 1] == b.ops@[l1 - 1]);
                assert(b.ops@.take(l2)[l2 - 1] == b.ops@[l2 - 1]);
                assert(Seq::new(
                    dt.val.data@.len(),
                    |i: int| un_apply_s(UnaryKind::Sign, dt.val.data@[i]),
                ) =~= Seq::new(
                    p.len(),
                    |i: int| S::sign_s(S::sub_s(p[i], targ.data@[i])),
                ));
            },
            _ => {},
        }
    }
    Ok(m)
}

/// Huber loss: squared error inside the `delta` threshold, absolute error
/// beyond it, averaged over every element.
pub fn huber_loss<S: Scalar>(
    gen: &mut IdGen,
    pred: Traced<S>,
    targ: &Tensor<S>,
    delta: S,
) -> (r: Result<Traced<S>, TensorError>)
    requires
        wf(pred.val),
        wf(*targ),
        old(gen).next <= u64::MAX - 2,
    ensures
        r is Ok <==> pred.val.dims@ == targ.dims@,
        r is Err ==> final(gen).next == old(gen).next,
        r matches Ok(rt) ==> loss_post(pred, rt, old(gen).next, final(gen).next, 2)
            && rt.val.data@ == seq![huber_spec(pred.val.data@, targ.data@, delta)],
        r matches Ok(rt) ==> match rt.tape {
            Some(b) => b.ops@.len() >= 2 && binary_entry_ok(
                b.ops@[b.ops@.len() - 2],
                pred.val.id,
                bin_map_s(BinaryKind::HuberDx(delta), pred.val.data@, targ.data@),
                targ.id,
                bin_map_s(BinaryKind::HuberDy(delta), pred.val.data@, targ.data@),
                old(gen).next,
            ) && mean_all_entry_ok(
                b.ops@.last(),
                old(gen).next,
                pred.val.data@.len() as int,
                (old(gen).next + 1) as u64,
            ),
            None => true,
        },
{
    let ghost pt = pred;
    let e = match binary_map(
        gen,
        pred,
        targ,
        BinaryKind::HuberF(delta),
        BinaryKind::HuberDx(delta),
        BinaryKind::HuberDy(delta),
    ) {
        Ok(e) => e,
        Err(er) => {
            return Err(er);
        },
    };
    let ghost et = e;
    let m = match mean(gen, e, AxisSel::AllAx) {
        Ok(m) => m,
        Err(er) => {
            return Err(er);
        },
    };
    proof {
        lemma_mean_all(et, m);
        lemma_tape_grown_trans(pt, et, m, 1, 1);
        lemma_loss_entries(pt, et, m);
    }
    Ok(m)
}

/// The last two recorded entries of an error-then-mean loss are the error
/// term's binary entry and the mean's spread entry.
proof fn lemma_loss_entries<S: Scalar>(pt: Traced<S>, et: Traced<S>, m: Traced<S>)
    requires
        wf(pt.val),
        wf(et.val),
        et.val.dims@ == pt.val.dims@,
        et.val.data@.len() == pt.val.data@.len(),
        match et.tape {
            Some(x) => x.ops@.len() >= 1,
            None => true,
        },
        tape_grown(et, m, 1),
        match m.tape {
            Some(b) => spread_entry_ok(
                b.ops@.last(),
                et.val.id,
                Seq::new(
                    et.val.data@.len(),
                    |j: int|
                        S::div_s(
                            S::one_s(),
                            S::of_count_s(red_k(AxisSel::AllAx, et.val.dims@) as usize),
                        ),
                ),
                red_k(AxisSel::AllAx, et.val.dims@),
                red_inner(AxisSel::AllAx, et.val.dims@),
                1,
                m.val.id,
            ),
            None => true,
        },
    ensures
        match (et.tape, m.tape) {
            (Some(be), Some(b)) => b.ops@.len() >= 2 && b.ops@[b.ops@.len() - 2]
                == be.ops@.last() && mean_all_entry_ok(
                b.ops@.last(),
                et.val.id,
                pt.val.data@.len() as int,
                m.val.id,
            ),
            (None, None) => true,
            _ => false,
        },
{
    match (et.tape, m.tape) {
        (Some(be), Some(b)) => {
            let l = be.ops@.len() as int;
            assert(b.ops@.take(l)[l - 1] == b.ops@[l - 1]);
            assert(red_k(AxisSel::AllAx, et.val.dims@) == pt.val.data@.len());
            assert(Seq::new(
                et.val.data@.len(),
                |j: int|
                    S::div_s(
                        S::one_s(),
                        S::of_count_s(red_k(AxisSel::AllAx, et.val.dims@) as usize),
                    ),
            ) =~= Seq::new(
                pt.val.data@.len(),
                |j: int| S::div_s(S::one_s(), S::of_count_s(pt.val.data@.len() as usize)),
            ));
        },
        _ => {},
    }
}

/// Smooth L1 loss: the Huber loss with threshold `beta`, divided by `beta`.
pub fn smooth_l1_loss<S: Scalar>(
    gen: &mut IdGen,
    pred: Traced<S>,
    targ: &Tensor<S>,
    beta: S,
) -> (r: Result<Traced<S>, TensorError>)
    requires
        wf(pred.val),
        wf(*targ),
        old(gen).next <= u64::MAX - 3,
    ensures
        r is Ok <==> pred.val.dims@ == targ.dims@,
        r is Err ==> final(gen).next == old(gen).next,
        r matches Ok(rt) ==> loss_post(pred, rt, old(gen).next, final(gen).next, 3)
            && rt.val.data@ == seq![
                S::div_s(huber_spec(pred.val.data@, targ.data@, beta), beta),
            ],
        r matches Ok(rt) ==> match rt.tape {
            Some(b) => b.ops@.len() >= 3 && binary_entry_ok(
                b.ops@[b.ops@.len() - 3],
                pred.val.id,
                bin_map_s(BinaryKind::HuberDx(beta), pred.val.data@, targ.data@),
                targ.id,
                bin_map_s(BinaryKind::HuberDy(beta), pred.val.data@, targ.data@),
                old(gen).next,
            ) && mean_all_entry_ok(
                b.ops@[b.ops@.len() - 2],
                old(gen).next,
                pred.val.data@.len() as int,
                (old(gen).next + 1) as u64,
            ) && unary_entry_ok(
                b.ops@.last(),
                (old(gen).next + 1) as u64,
                seq![S::div_s(S::one_s(), beta)],
                (old(gen).next + 2) as u64,
            ),
            None => true,
        },
{
    let ghost pt = pred;
    let h = match huber_loss(gen, pred, targ, beta) {
        Ok(h) => h,
        Err(e) => {
            return Err(e);
        },
    };
    let ghost ht = h;
    let d = div_scalar(gen, h, beta);
    proof {
        lemma_tape_grown_trans(pt, ht, d, 2, 1);
        assert(d.val.data@ =~= seq![
            S::div_s(huber_spec(pt.val.data@, targ.data@, beta), beta),
        ]);
        let dt2 = d;
        match (ht.tape, dt2.tape) {
            (Some(bh), Some(b)) => {
                let lh = bh.ops@.len() as int;
                assert(b.ops@.take(lh)[lh - 1] == b.ops@[lh - 1]);
                assert(b.ops@.take(lh)[lh - 2] == b.ops@[lh - 2]);
                assert(Seq::new(
                    ht.val.data@.len(),
                    |i: int|
                        un_apply_s(
                            UnaryKind::Konst(S::div_s(S::one_s(), beta)),
                            ht.val.data@[i],
                        ),
                ) =~= seq![S::div_s(S::one_s(), beta)]);
            },
            _ => {},
        }
    }
    Ok(d)
}

/// Binary cross entropy with logits against target probabilities, averaged
/// over every element. The stable reformulation
/// `max(x, 0) - x y + ln(1 + exp(-|x|))` keeps the loss and its gradients
/// finite however large a logit grows.
pub fn binary_cross_entropy_with_logits_loss<S: Scalar>(
    gen: &mut IdGen,
    logits: Traced<S>,
    target_probs: &Tensor<S>,
) -> (r: Result<Traced<S>, TensorError>)
    requires
        wf(logits.val),
        wf(*target_probs),
        old(gen).next <= u64::MAX - 2,
    ensures
        r is Ok <==> logits.val.dims@ == target_probs.dims@,
        r is Err ==> final(gen).next == old(gen).next,
        r matches Ok(rt) ==> loss_post(logits, rt, old(gen).next, final(gen).next, 2)
            && rt.val.data@ == seq![bce_spec(logits.val.data@, target_probs.data@)],
        r matches Ok(rt) ==> match rt.tape {
            Some(b) => b.ops@.len() >= 2 && binary_entry_ok(
                b.ops@[b.ops@.len() - 2],
                logits.val.id,
                bin_map_s(BinaryKind::BceDx, logits.val.data@, target_probs.data@),
                target_probs.id,
                bin_map_s(BinaryKind::BceDy, logits.val.data@, target_probs.data@),
                old(gen).next,
            ) && mean_all_entry_ok(
                b.ops@.last(),
                old(gen).next,
                logits.val.data@.len() as int,
                (old(gen).next + 1) as u64,
            ),
            None => true,
        },
{
    let ghost pt = logits;
    let e = match binary_map(
        gen,
        logits,
        target_probs,
        BinaryKind::BceF,
        BinaryKind::BceDx,
        BinaryKind::BceDy,
    ) {
        Ok(e) => e,
        Err(er) => {
            return Err(er);
        },
    };
    let ghost et = e;
    let m = match mean(gen, e, AxisSel::AllAx) {
        Ok(m) => m,
        Err(er) => {
            return Err(er);
        },
    };
    proof {
        lemma_mean_all(et, m);
        lemma_tape_grown_trans(pt, et, m, 1, 1);
        lemma_loss_entries(pt, et, m);
    }
    Ok(m)
}

} // verus!
