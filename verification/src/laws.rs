//! The engine's cross-cutting guarantees, stated and proved once over the
//! backward-pass semantics: order-independent gradient accumulation, the
//! even split of a max reduction's gradient among its ties, and the
//! reduce/broadcast inverse laws.

use crate::axes::{lemma_o_of_bound, lemma_o_of_sx, o_of, red_dims, sel_pos, sel_valid, sx, AxisSel};
use crate::device::{fiber_max, fiber_sum, gpad};
use crate::ops::spread_entry_ok;
use crate::ops::max_tie_coefs;
use crate::scalar::Scalar;
use crate::store::{add_into_s, apply_s, contrib_sp, contrib_u, ensure_s, lemma_sidx_first, lemma_sidx_none, lemma_sidx_range, sget, sidx, StoreView};
use crate::tensor::BwdOp;
use vstd::prelude::*;

verus! {

/// Appending an entry for an absent identity changes only that identity's
/// gradient.
pub proof fn lemma_sget_push<S>(st: StoreView<S>, id: u64, v: Seq<S>, q: u64)
    requires
        sidx(st, id) < 0,
    ensures
        sget(st.push((id, v)), q) == if q == id {
            Some(v)
        } else {
            sget(st, q)
        },
{
    let st1 = st.push((id, v));
    lemma_sidx_range(st, id);
    lemma_sidx_range(st, q);
    if q == id {
        lemma_sidx_first(st1, q, st.len() as int);
    } else {
        if sidx(st, q) >= 0 {
            lemma_sidx_first(st1, q, sidx(st, q));
        } else {
            lemma_sidx_none(st1, q);
        }
    }
}

/// Rewriting the entry that holds `id` changes only that identity's
/// gradient.
pub proof fn lemma_sget_update<S>(st: StoreView<S>, i: int, id: u64, v: Seq<S>, q: u64)
    requires
        0 <= i < st.len(),
        st[i].0 == id,
        i == sidx(st, id),
    ensures
        sget(st.update(i, (id, v)), q) == if q == id {
            Some(v)
        } else {
            sget(st, q)
        },
{
    let st1 = st.update(i, (id, v));
    lemma_sidx_range(st, id);
    lemma_sidx_range(st, q);
    if q == id {
        lemma_sidx_first(st1, q, i);
    } else {
        if sidx(st, q) >= 0 {
            lemma_sidx_first(st1, q, sidx(st, q));
        } else {
            lemma_sidx_none(st1, q);
        }
    }
}

/// What `add_into_s` does to each identity: the target's entry grows by the
/// contribution elementwise (zero-filled at `n` first if absent); every
/// other identity is untouched.
pub proof fn lemma_add_into_sget<S: Scalar>(st: StoreView<S>, id: u64, n: int, c: Seq<S>, q: u64)
    ensures
        q != id ==> sget(add_into_s(st, id, n, c), q) == sget(st, q),
        q == id ==> sget(add_into_s(st, id, n, c), q) == Some(
            {
                let v = if sget(st, id) is Some {
                    sget(st, id)->Some_0
                } else {
                    crate::store::zeros_s::<S>(n)
                };
                Seq::new(v.len(), |t: int| S::add_s(v[t], gpad(c, t)))
            },
        ),
{
    let st1 = ensure_s(st, id, n);
    lemma_sidx_range(st, id);
    if sidx(st, id) < 0 {
        lemma_sget_push(st, id, crate::store::zeros_s::<S>(n), q);
        lemma_sget_push(st, id, crate::store::zeros_s::<S>(n), id);
        lemma_sidx_first(st1, id, st.len() as int);
    }
    lemma_sidx_range(st1, id);
    let i = sidx(st1, id);
    let v = st1[i].1;
    lemma_sget_update(st1, i, id, Seq::new(v.len(), |t: int| S::add_s(v[t], gpad(c, t))), q);
    if sidx(st, id) >= 0 {
        assert(st1 == st);
    }
}

/// Accumulation commutativity: a tensor consumed by two independent
/// downstream branches ends with the sum of both branches' contributions,
/// whichever branch's entry runs first — up to the order in which scalar
/// addition is applied, which the premises make immaterial. Independence
/// means neither branch's output is the shared input, and the two gradient
/// buffers agree in length, as two derivatives of one tensor always do.
pub proof fn lemma_accumulation_commutes<S: Scalar>(
    st: StoreView<S>,
    u1: BwdOp<S>,
    u2: BwdOp<S>,
    x: u64,
    d1: Seq<S>,
    o1: u64,
    d2: Seq<S>,
    o2: u64,
    q: u64,
)
    requires
        crate::ops::unary_entry_ok(u1, x, d1, o1),
        crate::ops::unary_entry_ok(u2, x, d2, o2),
        o1 != x,
        o2 != x,
        o1 != o2,
        d1.len() == d2.len(),
        // the caveat of floating-point addition order: addition commutes
        // and reassociates on the values at hand
        forall|a: S, b: S| #[trigger] S::add_s(a, b) == S::add_s(b, a),
        forall|a: S, b: S, c: S|
            #[trigger] S::add_s(S::add_s(a, b), c) == S::add_s(a, S::add_s(b, c)),
    ensures
        sget(apply_s(apply_s(st, u1), u2), q) == sget(apply_s(apply_s(st, u2), u1), q),
{
    let n = d1.len() as int;
    let s1 = apply_s(st, u1);
    let s2 = apply_s(st, u2);
    let s12 = apply_s(s1, u2);
    let s21 = apply_s(s2, u1);
    lemma_apply_unary_sget(st, u1, x, d1, o1, q);
    lemma_apply_unary_sget(st, u2, x, d2, o2, q);
    lemma_apply_unary_sget(s1, u2, x, d2, o2, q);
    lemma_apply_unary_sget(s2, u1, x, d1, o1, q);
    lemma_apply_unary_sget(st, u1, x, d1, o1, o2);
    lemma_apply_unary_sget(st, u2, x, d2, o2, o1);
    let v0 = read_of(st, x, n);
    let g1 = read_of(st, o1, n);
    let g2 = read_of(st, o2, n);
    let c1 = contrib_u(d1, g1);
    let c2 = contrib_u(d2, g2);
    let vx1 = read_of(s1, x, n);
    let vx2 = read_of(s2, x, n);
    assert(vx1 == Seq::new(v0.len(), |t: int| S::add_s(v0[t], gpad(c1, t))));
    assert(vx2 == Seq::new(v0.len(), |t: int| S::add_s(v0[t], gpad(c2, t))));
    assert(read_of(s1, o2, n) == g2);
    assert(read_of(s2, o1, n) == g1);
    assert(contrib_u(d2, read_of(s1, o2, n)) == c2);
    assert(contrib_u(d1, read_of(s2, o1, n)) == c1);
    let via1 = sget(s12, x)->Some_0;
    let via2 = sget(s21, x)->Some_0;
    assert(via1 == Seq::new(vx1.len(), |t: int| S::add_s(vx1[t], gpad(c2, t))));
    assert(via2 == Seq::new(vx2.len(), |t: int| S::add_s(vx2[t], gpad(c1, t))));
    assert forall|t: int| 0 <= t < via1.len() implies via1[t] == via2[t] by {
        assert(via1[t] == S::add_s(S::add_s(v0[t], gpad(c1, t)), gpad(c2, t)));
        assert(via2[t] == S::add_s(S::add_s(v0[t], gpad(c2, t)), gpad(c1, t)));
        assert(S::add_s(S::add_s(v0[t], gpad(c1, t)), gpad(c2, t)) == S::add_s(
            S::add_s(v0[t], gpad(c2, t)),
            gpad(c1, t),
        ));
    }
    assert(via1 =~= via2);
    if q == x {
    } else if q == o1 {
        assert(sget(s12, o1) == sget(s1, o1));
        assert(sget(s21, o1) == Some(read_of(s2, o1, n)));
    } else if q == o2 {
        assert(sget(s21, o2) == sget(s2, o2));
        assert(sget(s12, o2) == Some(read_of(s1, o2, n)));
    }
}

/// The gradient an identity reads mid-pass: its recorded entry, or fresh
/// zeros of the op's length on first touch.
pub open spec fn read_of<S: Scalar>(st: StoreView<S>, id: u64, n: int) -> Seq<S> {
    if sget(st, id) is Some {
        sget(st, id)->Some_0
    } else {
        crate::store::zeros_s::<S>(n)
    }
}

/// Making sure an entry exists changes nothing that is already recorded.
pub proof fn lemma_ensure_sget<S: Scalar>(st: StoreView<S>, id: u64, n: int, q: u64)
    ensures
        q != id ==> sget(ensure_s(st, id, n), q) == sget(st, q),
        q == id ==> sget(ensure_s(st, id, n), q) == Some(read_of(st, id, n)),
{
    lemma_sidx_range(st, id);
    if sidx(st, id) < 0 {
        lemma_sget_push(st, id, crate::store::zeros_s::<S>(n), q);
        lemma_sget_push(st, id, crate::store::zeros_s::<S>(n), id);
    }
}

/// What one unary backward entry does to each identity: the consumed
/// input's entry grows elementwise by the contribution of `d` against `g`,
/// the output's gradient at that moment; the output's entry is at most
/// created zero-filled; all others are untouched.
pub proof fn lemma_apply_unary_sget<S: Scalar>(
    st: StoreView<S>,
    u: BwdOp<S>,
    x: u64,
    d: Seq<S>,
    o: u64,
    q: u64,
)
    requires
        crate::ops::unary_entry_ok(u, x, d, o),
        o != x,
    ensures
        sget(apply_s(st, u), x) == Some(
            {
                let v = read_of(st, x, d.len() as int);
                let c = contrib_u(d, read_of(st, o, d.len() as int));
                Seq::new(v.len(), |t: int| S::add_s(v[t], gpad(c, t)))
            },
        ),
        sget(apply_s(st, u), o) == Some(read_of(st, o, d.len() as int)),
        q != x && q != o ==> sget(apply_s(st, u), q) == sget(st, q),
{
    let n = d.len() as int;
    let st1 = ensure_s(st, o, n);
    lemma_ensure_sget(st, o, n, q);
    lemma_ensure_sget(st, o, n, o);
    lemma_ensure_sget(st, o, n, x);
    lemma_sidx_range(st1, o);
    lemma_sidx_range(st, o);
    if sidx(st, o) < 0 {
        lemma_sidx_first(st1, o, st.len() as int);
    }
    let g = st1[sidx(st1, o)].1;
    assert(sget(st1, o) == Some(g));
    assert(g == read_of(st, o, n));
    lemma_add_into_sget(st1, x, n, contrib_u(d, g), q);
    lemma_add_into_sget(st1, x, n, contrib_u(d, g), x);
    lemma_add_into_sget(st1, x, n, contrib_u(d, g), o);
    assert(read_of(st1, x, n) == read_of(st, x, n));
}

/// Max tie distribution: the entry a max reduction records spreads the
/// upstream gradient to *every* source element tied at its fiber's maximum
/// — each tied element receives the identical contribution, the output
/// gradient at its reduced position scaled by one — while an element below
/// the maximum receives it scaled by zero. No tie-break picks a winner.
pub proof fn lemma_max_tie_distribution<S: Scalar>(
    st: StoreView<S>,
    op: BwdOp<S>,
    src: Seq<S>,
    x_id: u64,
    out_id: u64,
    outer: int,
    k: int,
    inner: int,
    vx0: Seq<S>,
    g: Seq<S>,
)
    requires
        spread_entry_ok(op, x_id, max_tie_coefs(src, k, inner), k, inner, outer * inner, out_id),
        x_id != out_id,
        outer >= 1,
        k >= 1,
        inner >= 1,
        src.len() == outer * k * inner,
        sget(st, x_id) == Some(vx0),
        vx0.len() == src.len(),
        sget(st, out_id) == Some(g),
        g.len() == outer * inner,
    ensures
        sget(apply_s(st, op), x_id) matches Some(vx1) && vx1.len() == src.len() && forall|j: int|
            0 <= j < src.len() ==> vx1[j] == S::add_s(
                vx0[j],
                S::mul_s(
                    if S::eq_s(src[j], fiber_max(src, o_of(j, k, inner), k, k, inner)) {
                        S::one_s()
                    } else {
                        S::zero_s()
                    },
                    g[o_of(j, k, inner)],
                ),
            ),
{
    let coef = max_tie_coefs(src, k, inner);
    let n = outer * inner;
    lemma_sidx_range(st, out_id);
    let st1 = ensure_s(st, out_id, n);
    assert(st1 == st);
    let gg = st1[sidx(st1, out_id)].1;
    assert(gg == g);
    let c = contrib_sp(coef, g, k, inner);
    lemma_add_into_sget(st, x_id, coef.len() as int, c, x_id);
    let vx1 = sget(apply_s(st, op), x_id)->Some_0;
    assert forall|j: int| 0 <= j < src.len() implies vx1[j] == S::add_s(
        vx0[j],
        S::mul_s(
            if S::eq_s(src[j], fiber_max(src, o_of(j, k, inner), k, k, inner)) {
                S::one_s()
            } else {
                S::zero_s()
            },
            g[o_of(j, k, inner)],
        ),
    ) by {
        lemma_o_of_bound(j, outer, k, inner);
        assert(gpad(c, j) == c[j]);
        assert(gpad(g, o_of(j, k, inner)) == g[o_of(j, k, inner)]);
    }
}

/// Reduce/broadcast shape inverse, first half: broadcasting a reduced shape
/// back over the reduced axis restores the source shape exactly — for an
/// axis selector by reinserting the axis where it stood, and for a
/// reduction over every axis because the broadcast target is the source
/// shape itself.
pub proof fn lemma_reduce_broadcast_shape(dims: Seq<usize>, sel: AxisSel)
    requires
        sel_valid(sel, dims),
    ensures
        match sel {
            AxisSel::AllAx => red_dims(sel, dims) == Seq::<usize>::empty(),
            _ => red_dims(sel, dims).insert(
                sel_pos(sel, dims),
                dims[sel_pos(sel, dims)],
            ) == dims,
        },
{
    match sel {
        AxisSel::AllAx => {
            assert(red_dims(sel, dims) =~= Seq::<usize>::empty());
        },
        _ => {
            let i = sel_pos(sel, dims);
            assert(dims.remove(i).insert(i, dims[i]) =~= dims);
        },
    }
}

/// The fold of `n` copies of one value by addition from zero.
pub open spec fn rep_add<S: Scalar>(v: S, n: int) -> S
    decreases n,
{
    if n <= 0 {
        S::zero_s()
    } else {
        S::add_s(rep_add(v, n - 1), v)
    }
}

proof fn lemma_fiber_sum_of_broadcast<S: Scalar>(
    y: Seq<S>,
    b: Seq<S>,
    outer: int,
    k: int,
    inner: int,
    o: int,
    a: int,
)
    requires
        outer >= 1,
        k >= 1,
        inner >= 1,
        y.len() == outer * inner,
        b.len() == outer * k * inner,
        forall|j: int| 0 <= j < b.len() ==> b[j] == y[o_of(j, k, inner)],
        0 <= o < outer * inner,
        0 <= a <= k,
    ensures
        fiber_sum(b, o, a, k, inner) == rep_add(y[o], a),
    decreases a,
{
    if a > 0 {
        lemma_fiber_sum_of_broadcast(y, b, outer, k, inner, o, a - 1);
        crate::axes::lemma_sx_bound(o, a - 1, outer, k, inner);
        lemma_o_of_sx(o, a - 1, outer, k, inner);
        assert(b[sx(o, a - 1, k, inner)] == y[o]);
    }
}

/// Reduce/broadcast shape inverse, second half: a mean reduction undoes a
/// broadcast exactly — each fiber of the broadcast holds `k` copies of one
/// reduced element, and dividing their sum by the axis size returns it —
/// whenever the scalar arithmetic divides that `k`-fold sum back out
/// exactly (for floats: when the axis size divides the sum evenly).
pub proof fn lemma_mean_broadcast_round_trip<S: Scalar>(
    y: Seq<S>,
    b: Seq<S>,
    outer: int,
    k: int,
    inner: int,
)
    requires
        outer >= 1,
        k >= 1,
        inner >= 1,
        y.len() == outer * inner,
        b.len() == outer * k * inner,
        forall|j: int| 0 <= j < b.len() ==> b[j] == y[o_of(j, k, inner)],
        forall|v: S|
            #[trigger] S::div_s(rep_add(v, k), S::of_count_s(k as usize)) == v,
    ensures
        forall|o: int|
            0 <= o < y.len() ==> S::div_s(
                fiber_sum(b, o, k, k, inner),
                S::of_count_s(k as usize),
            ) == y[o],
{
    assert forall|o: int| 0 <= o < y.len() implies S::div_s(
        fiber_sum(b, o, k, k, inner),
        S::of_count_s(k as usize),
    ) == y[o] by {
        lemma_fiber_sum_of_broadcast(y, b, outer, k, inner, o, k);
    }
}

} // verus!
