use crate::axes::{
    dims_equal, geom, lemma_o_of_bound, lemma_red_wf, o_of, prod, red_dims, red_inner, red_k,
    red_outer, reduced_dims, sel_valid, AxisSel, TensorError,
};
use crate::device::{
    binary_map_buf, eq_indicator_buf, fiber_max, fiber_sum, reduce_max_buf, reduce_sum_buf,
    unary_map_buf,
};
use crate::kinds::{bin_apply_s, un_apply_s, BinaryKind, UnaryKind};
use crate::scalar::Scalar;
use crate::store::{drain_s, GradStore, StoreView};
use crate::tensor::{dup_data_usize, fill, wf, BwdOp, IdGen, Tensor, Traced};
use vstd::prelude::*;

verus! {

/// The backward entry of a unary op: this input, these baked derivatives,
/// that output.
pub open spec fn unary_entry_ok<S: Scalar>(op: BwdOp<S>, x_id: u64, d: Seq<S>, out_id: u64) -> bool {
    match op {
        BwdOp::Unary { x_id: x, d: dd, out_id: o } => x == x_id && dd@ == d && o == out_id,
        _ => false,
    }
}

/// The backward entry of a binary op, with a baked derivative per operand.
pub open spec fn binary_entry_ok<S: Scalar>(
    op: BwdOp<S>,
    x_id: u64,
    dx: Seq<S>,
    y_id: u64,
    dy: Seq<S>,
    out_id: u64,
) -> bool {
    match op {
        BwdOp::Binary { x_id: x, dx: dxx, y_id: y, dy: dyy, out_id: o } => x == x_id && dxx@ == dx
            && y == y_id && dyy@ == dy && o == out_id,
        _ => false,
    }
}

/// The backward entry of a reduction, with its broadcast geometry and
/// per-source-position coefficients.
pub open spec fn spread_entry_ok<S: Scalar>(
    op: BwdOp<S>,
    x_id: u64,
    coef: Seq<S>,
    k: int,
    inner: int,
    out_len: int,
    out_id: u64,
) -> bool {
    match op {
        BwdOp::Spread { x_id: x, coef: cc, k: kk, inner: ii, out_len: ol, out_id: o } => x == x_id
            && cc@ == coef && kk == k && ii == inner && ol == out_len && o == out_id,
        _ => false,
    }
}

/// The ownership-transfer protocol every differentiable op follows: the
/// output carries a tape exactly when the traced operand did (so a chain on
/// plain values allocates no tape at all), all previously recorded work is
/// kept in order, and exactly `n` new entries are appended behind it.
pub open spec fn tape_grown<S: Scalar>(t: Traced<S>, r: Traced<S>, n: int) -> bool {
    match (t.tape, r.tape) {
        (Some(a), Some(b)) => b.ops@.len() == a.ops@.len() + n && b.ops@.take(a.ops@.len() as int)
            == a.ops@,
        (None, None) => true,
        _ => false,
    }
}

/// Growing a tape twice in sequence keeps the oldest prefix intact.
pub proof fn lemma_tape_grown_trans<S: Scalar>(
    a: Traced<S>,
    b: Traced<S>,
    c: Traced<S>,
    n1: int,
    n2: int,
)
    requires
        tape_grown(a, b, n1),
        tape_grown(b, c, n2),
        n1 >= 0,
        n2 >= 0,
    ensures
        tape_grown(a, c, n1 + n2),
{
    match (a.tape, b.tape, c.tape) {
        (Some(x), Some(y), Some(z)) => {
            let xl = x.ops@.len() as int;
            let yl = y.ops@.len() as int;
            assert(z.ops@.take(xl) =~= z.ops@.take(yl).take(xl));
        },
        _ => {},
    }
}

/// Everything a unary elementwise op promises: the value is the kind `fk`
/// mapped over the input, the output is a fresh identity, and when tracing,
/// one `Unary` entry holding `dk` mapped over the input is appended.
pub open spec fn unary_post<S: Scalar>(
    t: Traced<S>,
    r: Traced<S>,
    n0: u64,
    n1: u64,
    fk: UnaryKind<S>,
    dk: UnaryKind<S>,
) -> bool {
    &&& wf(r.val)
    &&& r.val.dims@ == t.val.dims@
    &&& r.val.data@ == Seq::new(t.val.data@.len(), |i: int| un_apply_s(fk, t.val.data@[i]))
    &&& r.val.id == n0
    &&& n1 == n0 + 1
    &&& tape_grown(t, r, 1)
    &&& match r.tape {
        Some(b) => unary_entry_ok(
            b.ops@.last(),
            t.val.id,
            Seq::new(t.val.data@.len(), |i: int| un_apply_s(dk, t.val.data@[i])),
            r.val.id,
        ),
        None => true,
    }
}

/// The shared body of every unary elementwise op.
pub fn unary_op<S: Scalar>(gen: &mut IdGen, t: Traced<S>, fk: UnaryKind<S>, dk: UnaryKind<S>) -> (r:
    Traced<S>)
    requires
        wf(t.val),
        old(gen).next < u64::MAX,
    ensures
        unary_post(t, r, old(gen).next, final(gen).next, fk, dk),
{
    let out_data = unary_map_buf(fk, &t.val.data);
    let dims = dup_data_usize(&t.val.dims);
    let id = gen.fresh();
    proof {
        assert(out_data@ =~= Seq::new(t.val.data@.len(), |i: int| un_apply_s(fk, t.val.data@[i])));
    }
    match t.tape {
        Some(mut tp) => {
            let dbuf = unary_map_buf(dk, &t.val.data);
            proof {
                assert(dbuf@ =~= Seq::new(
                    t.val.data@.len(),
                    |i: int| un_apply_s(dk, t.val.data@[i]),
                ));
            }
            let ghost ops0 = tp.ops@;
            tp.ops.push(BwdOp::Unary { x_id: t.val.id, d: dbuf, out_id: id });
            proof {
                assert(tp.ops@.take(ops0.len() as int) =~= ops0);
            }
            Traced { val: Tensor { dims, data: out_data, id }, tape: Some(tp) }
        },
        None => Traced { val: Tensor { dims, data: out_data, id }, tape: None },
    }
}

/// Everything a binary elementwise op promises when the shapes agree.
pub open spec fn binary_post<S: Scalar>(
    t: Traced<S>,
    u: Tensor<S>,
    r: Traced<S>,
    n0: u64,
    n1: u64,
    fk: BinaryKind<S>,
    dxk: BinaryKind<S>,
    dyk: BinaryKind<S>,
) -> bool {
    &&& wf(r.val)
    &&& r.val.dims@ == t.val.dims@
    &&& r.val.data@ == bin_map_s(fk, t.val.data@, u.data@)
    &&& r.val.id == n0
    &&& n1 == n0 + 1
    &&& tape_grown(t, r, 1)
    &&& match r.tape {
        Some(b) => binary_entry_ok(
            b.ops@.last(),
            t.val.id,
            bin_map_s(dxk, t.val.data@, u.data@),
            u.id,
            bin_map_s(dyk, t.val.data@, u.data@),
            r.val.id,
        ),
        None => true,
    }
}

/// A binary kind mapped across two equal-length sequences.
pub open spec fn bin_map_s<S: Scalar>(k: BinaryKind<S>, p: Seq<S>, q: Seq<S>) -> Seq<S> {
    Seq::new(p.len(), |i: int| bin_apply_s(k, p[i], q[i]))
}

/// The shared body of every binary elementwise op. The traced operand and
/// the plain operand play different roles on purpose: only one side may own
/// a tape, so none is ever merged or lost. Mismatched shapes are rejected
/// before any buffer is touched.
pub fn binary_map<S: Scalar>(
    gen: &mut IdGen,
    t: Traced<S>,
    u: &Tensor<S>,
    fk: BinaryKind<S>,
    dxk: BinaryKind<S>,
    dyk: BinaryKind<S>,
) -> (r: Result<Traced<S>, TensorError>)
    requires
        wf(t.val),
        wf(*u),
        old(gen).next < u64::MAX,
    ensures
        r is Ok <==> t.val.dims@ == u.dims@,
        r matches Ok(rt) ==> binary_post(t, *u, rt, old(gen).next, final(gen).next, fk, dxk, dyk),
        r is Err ==> final(gen).next == old(gen).next,
{
    if !dims_equal(&t.val.dims, &u.dims) {
        return Err(TensorError::ShapeMismatch);
    }
    let out_data = binary_map_buf(fk, &t.val.data, &u.data);
    let dims = dup_data_usize(&t.val.dims);
    let id = gen.fresh();
    proof {
        assert(out_data@ =~= bin_map_s(fk, t.val.data@, u.data@));
    }
    match t.tape {
        Some(mut tp) => {
            let dx = binary_map_buf(dxk, &t.val.data, &u.data);
            let dy = binary_map_buf(dyk, &t.val.data, &u.data);
            proof {
                assert(dx@ =~= bin_map_s(dxk, t.val.data@, u.data@));
                assert(dy@ =~= bin_map_s(dyk, t.val.data@, u.data@));
            }
            let ghost ops0 = tp.ops@;
            tp.ops.push(BwdOp::Binary { x_id: t.val.id, dx, y_id: u.id, dy, out_id: id });
            proof {
                assert(tp.ops@.take(ops0.len() as int) =~= ops0);
            }
            Ok(Traced { val: Tensor { dims, data: out_data, id }, tape: Some(tp) })
        },
        None => Ok(Traced { val: Tensor { dims, data: out_data, id }, tape: None }),
    }
}

/// What every reduction promises about shape, identity and tape, with the
/// coefficients its `Spread` entry carries; the reduced values themselves
/// are stated by each reduction.
pub open spec fn reduce_post<S: Scalar>(
    t: Traced<S>,
    r: Traced<S>,
    n0: u64,
    n1: u64,
    sel: AxisSel,
    coef: Seq<S>,
) -> bool {
    let dims = t.val.dims@;
    &&& wf(r.val)
    &&& r.val.dims@ == red_dims(sel, dims)
    &&& r.val.data@.len() == red_outer(sel, dims) * red_inner(sel, dims)
    &&& r.val.id == n0
    &&& n1 == n0 + 1
    &&& tape_grown(t, r, 1)
    &&& match r.tape {
        Some(b) => spread_entry_ok(
            b.ops@.last(),
            t.val.id,
            coef,
            red_k(sel, dims),
            red_inner(sel, dims),
            red_outer(sel, dims) * red_inner(sel, dims),
            r.val.id,
        ),
        None => true,
    }
}

/// Reduces by summation over the selected axes. Each reduced element is the
/// in-order fold of its fiber; backward broadcasts the output gradient
/// straight back (coefficient one everywhere).
pub fn sum<S: Scalar>(gen: &mut IdGen, t: Traced<S>, sel: AxisSel) -> (r: Result<
    Traced<S>,
    TensorError,
>)
    requires
        wf(t.val),
        old(gen).next < u64::MAX,
    ensures
        r is Ok <==> sel_valid(sel, t.val.dims@),
        r is Err ==> final(gen).next == old(gen).next,
        r matches Ok(rt) ==> {
            &&& reduce_post(
                t,
                rt,
                old(gen).next,
                final(gen).next,
                sel,
                Seq::new(t.val.data@.len(), |j: int| S::one_s()),
            )
            &&& forall|o: int|
                0 <= o < rt.val.data@.len() ==> rt.val.data@[o] == fiber_sum(
                    t.val.data@,
                    o,
                    red_k(sel, t.val.dims@),
                    red_k(sel, t.val.dims@),
                    red_inner(sel, t.val.dims@),
                )
        },
{
    let srclen = t.val.data.len();
    proof {
        assert(srclen == prod(t.val.dims@));
    }
    let g = match geom(&t.val.dims, sel) {
        Ok(g) => g,
        Err(e) => {
            return Err(e);
        },
    };
    let (outer, k, inner) = g;
    let out_data = reduce_sum_buf(&t.val.data, outer, k, inner);
    let out_dims = reduced_dims(&t.val.dims, sel);
    proof {
        lemma_red_wf(t.val.dims@, sel);
    }
    let id = gen.fresh();
    match t.tape {
        Some(mut tp) => {
            let coef = fill(t.val.data.len(), S::one());
            let ghost ops0 = tp.ops@;
            let out_len = out_data.len();
            tp.ops.push(
                BwdOp::Spread { x_id: t.val.id, coef, k, inner, out_len, out_id: id },
            );
            proof {
                assert(tp.ops@.take(ops0.len() as int) =~= ops0);
            }
            Ok(Traced { val: Tensor { dims: out_dims, data: out_data, id }, tape: Some(tp) })
        },
        None => Ok(Traced { val: Tensor { dims: out_dims, data: out_data, id }, tape: None }),
    }
}

/// Reduces by the arithmetic mean over the selected axes: the fiber sum
/// divided by the axis size. Backward spreads the output gradient evenly,
/// each source position weighted by one over the axis size.
pub fn mean<S: Scalar>(gen: &mut IdGen, t: Traced<S>, sel: AxisSel) -> (r: Result<
    Traced<S>,
    TensorError,
>)
    requires
        wf(t.val),
        old(gen).next < u64::MAX,
    ensures
        r is Ok <==> sel_valid(sel, t.val.dims@),
        r is Err ==> final(gen).next == old(gen).next,
        r matches Ok(rt) ==> {
            &&& reduce_post(
                t,
                rt,
                old(gen).next,
                final(gen).next,
                sel,
                Seq::new(
                    t.val.data@.len(),
                    |j: int|
                        S::div_s(S::one_s(), S::of_count_s(red_k(sel, t.val.dims@) as usize)),
                ),
            )
            &&& forall|o: int|
                0 <= o < rt.val.data@.len() ==> rt.val.data@[o] == S::div_s(
                    fiber_sum(
                        t.val.data@,
                        o,
                        red_k(sel, t.val.dims@),
                        red_k(sel, t.val.dims@),
                        red_inner(sel, t.val.dims@),
                    ),
                    S::of_count_s(red_k(sel, t.val.dims@) as usize),
                )
        },
{
    let srclen = t.val.data.len();
    proof {
        assert(srclen == prod(t.val.dims@));
    }
    let g = match geom(&t.val.dims, sel) {
        Ok(g) => g,
        Err(e) => {
            return Err(e);
        },
    };
    let (outer, k, inner) = g;
    let sums = reduce_sum_buf(&t.val.data, outer, k, inner);
    let kc = S::of_count(k);
    let out_data = unary_map_buf(UnaryKind::DivBy(kc), &sums);
    let out_dims = reduced_dims(&t.val.dims, sel);
    proof {
        lemma_red_wf(t.val.dims@, sel);
    }
    let id = gen.fresh();
    match t.tape {
        Some(mut tp) => {
            let w = S::div(S::one(), kc);
            let coef = fill(t.val.data.len(), w);
            let ghost ops0 = tp.ops@;
            let out_len = out_data.len();
            tp.ops.push(
                BwdOp::Spread { x_id: t.val.id, coef, k, inner, out_len, out_id: id },
            );
            proof {
                assert(tp.ops@.take(ops0.len() as int) =~= ops0);
            }
            Ok(Traced { val: Tensor { dims: out_dims, data: out_data, id }, tape: Some(tp) })
        },
        None => Ok(Traced { val: Tensor { dims: out_dims, data: out_data, id }, tape: None }),
    }
}

/// Reduces by gathering the maximum over the selected axes. Backward
/// distributes the output gradient to *every* element that attains its
/// fiber's maximum, not just the first: the recorded coefficients are the
/// equality indicator of the source against its broadcast maxima, written
/// over a scratch copy of the source, whose raw values are no longer needed
/// once the comparison is made.
pub fn max<S: Scalar>(gen: &mut IdGen, t: Traced<S>, sel: AxisSel) -> (r: Result<
    Traced<S>,
    TensorError,
>)
    requires
        wf(t.val),
        old(gen).next < u64::MAX,
    ensures
        r is Ok <==> sel_valid(sel, t.val.dims@),
        r is Err ==> final(gen).next == old(gen).next,
        r matches Ok(rt) ==> {
            &&& reduce_post(
                t,
                rt,
                old(gen).next,
                final(gen).next,
                sel,
                max_tie_coefs(t.val.data@, red_k(sel, t.val.dims@), red_inner(sel, t.val.dims@)),
            )
            &&& forall|o: int|
                0 <= o < rt.val.data@.len() ==> rt.val.data@[o] == fiber_max(
                    t.val.data@,
                    o,
                    red_k(sel, t.val.dims@),
                    red_k(sel, t.val.dims@),
                    red_inner(sel, t.val.dims@),
                )
        },
{
    let srclen = t.val.data.len();
    proof {
        assert(srclen == prod(t.val.dims@));
    }
    let g = match geom(&t.val.dims, sel) {
        Ok(g) => g,
        Err(e) => {
            return Err(e);
        },
    };
    let (outer, k, inner) = g;
    let out_data = reduce_max_buf(&t.val.data, outer, k, inner);
    let out_dims = reduced_dims(&t.val.dims, sel);
    proof {
        lemma_red_wf(t.val.dims@, sel);
    }
    let id = gen.fresh();
    match t.tape {
        Some(mut tp) => {
            let coef = eq_indicator_buf(&t.val.data, &out_data, outer, k, inner);
            proof {
                assert forall|j: int| 0 <= j < t.val.data@.len() implies coef@[j]
                    == max_tie_coefs(t.val.data@, k as int, inner as int)[j] by {
                    lemma_o_of_bound(j, outer as int, k as int, inner as int);
                }
                assert(coef@ =~= max_tie_coefs(t.val.data@, k as int, inner as int));
            }
            let ghost ops0 = tp.ops@;
            let out_len = out_data.len();
            tp.ops.push(
                BwdOp::Spread { x_id: t.val.id, coef, k, inner, out_len, out_id: id },
            );
            proof {
                assert(tp.ops@.take(ops0.len() as int) =~= ops0);
            }
            Ok(Traced { val: Tensor { dims: out_dims, data: out_data, id }, tape: Some(tp) })
        },
        None => Ok(Traced { val: Tensor { dims: out_dims, data: out_data, id }, tape: None }),
    }
}

/// The even tie split that `max` records: one where a source element equals
/// its fiber's maximum (every tied element, not an arbitrary winner), zero
/// elsewhere.
pub open spec fn max_tie_coefs<S: Scalar>(src: Seq<S>, k: int, inner: int) -> Seq<S> {
    Seq::new(
        src.len(),
        |j: int|
            if S::eq_s(src[j], fiber_max(src, o_of(j, k, inner), k, k, inner)) {
                S::one_s()
            } else {
                S::zero_s()
            },
    )
}

/// The seed of a backward pass: the traced scalar output starts with
/// gradient one with respect to itself.
pub open spec fn seed_s<S: Scalar>(id: u64) -> StoreView<S> {
    seq![(id, seq![S::one_s()])]
}

/// Drains a traced scalar's tape: every recorded entry runs in strict
/// reverse insertion order against a fresh gradient store, which is returned
/// to the caller; the tape is consumed and cannot be replayed. A value that
/// carries no tape has nothing to differentiate, and a non-scalar output has
/// no single gradient to seed — each is reported, not silently accepted.
pub fn backward<S: Scalar>(t: Traced<S>) -> (r: Result<GradStore<S>, TensorError>)
    requires
        wf(t.val),
    ensures
        r is Ok <==> (t.tape is Some && t.val.dims@.len() == 0),
        t.tape is None ==> r == Err::<GradStore<S>, TensorError>(
            TensorError::NothingToDifferentiate,
        ),
        t.tape is Some && t.val.dims@.len() != 0 ==> r == Err::<GradStore<S>, TensorError>(
            TensorError::ShapeMismatch,
        ),
        r matches Ok(store) ==> match t.tape {
            Some(tp) => store@ == drain_s(seed_s::<S>(t.val.id), tp.ops@),
            None => false,
        },
{
    let Traced { val, tape } = t;
    let tp = match tape {
        Some(tp) => tp,
        None => {
            return Err(TensorError::NothingToDifferentiate);
        },
    };
    if val.dims.len() != 0 {
        return Err(TensorError::ShapeMismatch);
    }
    let mut store: GradStore<S> = GradStore::new();
    let mut seedv: Vec<S> = Vec::new();
    seedv.push(S::one());
    store.entries.push((val.id, seedv));
    proof {
        assert(store@ =~~= seed_s::<S>(val.id));
    }
    let mut i = tp.ops.len();
    proof {
        assert(tp.ops@.take(tp.ops@.len() as int) =~= tp.ops@);
    }
    while i > 0
        invariant
            0 <= i <= tp.ops@.len(),
            drain_s(store@, tp.ops@.take(i as int)) == drain_s(seed_s::<S>(val.id), tp.ops@),
        decreases i,
    {
        i = i - 1;
        let ghost pre = store@;
        store.apply(&tp.ops[i]);
        proof {
            assert(tp.ops@.take(i + 1).drop_last() =~= tp.ops@.take(i as int));
            assert(tp.ops@.take(i + 1).last() == tp.ops@[i as int]);
        }
    }
    proof {
        assert(tp.ops@.take(0) =~= Seq::<BwdOp<S>>::empty());
    }
    Ok(store)
}

/// `e^x`, element by element; its own value is its derivative.
pub fn exp<S: Scalar>(gen: &mut IdGen, t: Traced<S>) -> (r: Traced<S>)
    requires
        wf(t.val),
        old(gen).next < u64::MAX,
    ensures
        unary_post(t, r, old(gen).next, final(gen).next, UnaryKind::Exp, UnaryKind::Exp),
{
    unary_op(gen, t, UnaryKind::Exp, UnaryKind::Exp)
}

/// The natural logarithm, element by element; derivative `1/x`.
pub fn ln<S: Scalar>(gen: &mut IdGen, t: Traced<S>) -> (r: Traced<S>)
    requires
        wf(t.val),
        old(gen).next < u64::MAX,
    ensures
        unary_post(t, r, old(gen).next, final(gen).next, UnaryKind::Ln, UnaryKind::Recip),
{
    unary_op(gen, t, UnaryKind::Ln, UnaryKind::Recip)
}

/// The square root, element by element; derivative `0.5 / sqrt(x)`.
pub fn sqrt<S: Scalar>(gen: &mut IdGen, t: Traced<S>) -> (r: Traced<S>)
    requires
        wf(t.val),
        old(gen).next < u64::MAX,
    ensures
        unary_post(t, r, old(gen).next, final(gen).next, UnaryKind::Sqrt, UnaryKind::HalfRsqrt),
{
    unary_op(gen, t, UnaryKind::Sqrt, UnaryKind::HalfRsqrt)
}

/// The absolute value, element by element; derivative the sign.
pub fn abs<S: Scalar>(gen: &mut IdGen, t: Traced<S>) -> (r: Traced<S>)
    requires
        wf(t.val),
        old(gen).next < u64::MAX,
    ensures
        unary_post(t, r, old(gen).next, final(gen).next, UnaryKind::Abs, UnaryKind::Sign),
{
    unary_op(gen, t, UnaryKind::Abs, UnaryKind::Sign)
}

/// Negation, element by element; derivative the constant minus one.
pub fn negate<S: Scalar>(gen: &mut IdGen, t: Traced<S>) -> (r: Traced<S>)
    requires
        wf(t.val),
        old(gen).next < u64::MAX,
    ensures
        unary_post(
            t,
            r,
            old(gen).next,
            final(gen).next,
            UnaryKind::Neg,
            UnaryKind::Konst(S::neg_s(S::one_s())),
        ),
{
    let dk = UnaryKind::Konst(S::neg(S::one()));
    unary_op(gen, t, UnaryKind::Neg, dk)
}

/// The sign of each element; locally constant, so its derivative is zero.
pub fn sign<S: Scalar>(gen: &mut IdGen, t: Traced<S>) -> (r: Traced<S>)
    requires
        wf(t.val),
        old(gen).next < u64::MAX,
    ensures
        unary_post(
            t,
            r,
            old(gen).next,
            final(gen).next,
            UnaryKind::Sign,
            UnaryKind::Konst(S::zero_s()),
        ),
{
    let dk = UnaryKind::Konst(S::zero());
    unary_op(gen, t, UnaryKind::Sign, dk)
}

/// `x * x`, element by element; derivative `2x`.
pub fn square<S: Scalar>(gen: &mut IdGen, t: Traced<S>) -> (r: Traced<S>)
    requires
        wf(t.val),
        old(gen).next < u64::MAX,
    ensures
        unary_post(
            t,
            r,
            old(gen).next,
            final(gen).next,
            UnaryKind::Square,
            UnaryKind::CMul(S::add_s(S::one_s(), S::one_s())),
        ),
{
    let dk = UnaryKind::CMul(S::add(S::one(), S::one()));
    unary_op(gen, t, UnaryKind::Square, dk)
}

/// `x * c`, element by element; derivative the constant `c`.
pub fn mul_scalar<S: Scalar>(gen: &mut IdGen, t: Traced<S>, c: S) -> (r: Traced<S>)
    requires
        wf(t.val),
        old(gen).next < u64::MAX,
    ensures
        unary_post(
            t,
            r,
            old(gen).next,
            final(gen).next,
            UnaryKind::MulBy(c),
            UnaryKind::Konst(c),
        ),
{
    unary_op(gen, t, UnaryKind::MulBy(c), UnaryKind::Konst(c))
}

/// `x / c`, element by element; derivative the constant `1/c`.
pub fn div_scalar<S: Scalar>(gen: &mut IdGen, t: Traced<S>, c: S) -> (r: Traced<S>)
    requires
        wf(t.val),
        old(gen).next < u64::MAX,
    ensures
        unary_post(
            t,
            r,
            old(gen).next,
            final(gen).next,
            UnaryKind::DivBy(c),
            UnaryKind::Konst(S::div_s(S::one_s(), c)),
        ),
{
    let dk = UnaryKind::Konst(S::div(S::one(), c));
    unary_op(gen, t, UnaryKind::DivBy(c), dk)
}

/// `x` to the constant power `c`, element by element; derivative
/// `c * x^(c-1)`.
pub fn powf<S: Scalar>(gen: &mut IdGen, t: Traced<S>, c: S) -> (r: Traced<S>)
    requires
        wf(t.val),
        old(gen).next < u64::MAX,
    ensures
        unary_post(
            t,
            r,
            old(gen).next,
            final(gen).next,
            UnaryKind::PowBy(c),
            UnaryKind::DPowBy(c),
        ),
{
    unary_op(gen, t, UnaryKind::PowBy(c), UnaryKind::DPowBy(c))
}

/// Elementwise addition of a plain operand; both derivatives are one.
pub fn add<S: Scalar>(gen: &mut IdGen, t: Traced<S>, u: &Tensor<S>) -> (r: Result<
    Traced<S>,
    TensorError,
>)
    requires
        wf(t.val),
        wf(*u),
        old(gen).next < u64::MAX,
    ensures
        r is Ok <==> t.val.dims@ == u.dims@,
        r is Err ==> final(gen).next == old(gen).next,
        r matches Ok(rt) ==> binary_post(
            t,
            *u,
            rt,
            old(gen).next,
            final(gen).next,
            BinaryKind::Add,
            BinaryKind::BKonst(S::one_s()),
            BinaryKind::BKonst(S::one_s()),
        ),
{
    let dk = BinaryKind::BKonst(S::one());
    binary_map(gen, t, u, BinaryKind::Add, dk, dk)
}

/// Elementwise subtraction of a plain operand; derivatives one and minus
/// one.
pub fn sub<S: Scalar>(gen: &mut IdGen, t: Traced<S>, u: &Tensor<S>) -> (r: Result<
    Traced<S>,
    TensorError,
>)
    requires
        wf(t.val),
        wf(*u),
        old(gen).next < u64::MAX,
    ensures
        r is Ok <==> t.val.dims@ == u.dims@,
        r is Err ==> final(gen).next == old(gen).next,
        r matches Ok(rt) ==> binary_post(
            t,
            *u,
            rt,
            old(gen).next,
            final(gen).next,
            BinaryKind::Sub,
            BinaryKind::BKonst(S::one_s()),
            BinaryKind::BKonst(S::neg_s(S::one_s())),
        ),
{
    let dxk = BinaryKind::BKonst(S::one());
    let dyk = BinaryKind::BKonst(S::neg(S::one()));
    binary_map(gen, t, u, BinaryKind::Sub, dxk, dyk)
}

/// Elementwise product with a plain operand; each side's derivative is the
/// other side's forward value.
pub fn mul<S: Scalar>(gen: &mut IdGen, t: Traced<S>, u: &Tensor<S>) -> (r: Result<
    Traced<S>,
    TensorError,
>)
    requires
        wf(t.val),
        wf(*u),
        old(gen).next < u64::MAX,
    ensures
        r is Ok <==> t.val.dims@ == u.dims@,
        r is Err ==> final(gen).next == old(gen).next,
        r matches Ok(rt) ==> binary_post(
            t,
            *u,
            rt,
            old(gen).next,
            final(gen).next,
            BinaryKind::Mul,
            BinaryKind::BSnd,
            BinaryKind::BFst,
        ),
{
    binary_map(gen, t, u, BinaryKind::Mul, BinaryKind::BSnd, BinaryKind::BFst)
}

/// Elementwise quotient by a plain operand; derivatives `1/y` and
/// `-(x/y)/y`.
pub fn div<S: Scalar>(gen: &mut IdGen, t: Traced<S>, u: &Tensor<S>) -> (r: Result<
    Traced<S>,
    TensorError,
>)
    requires
        wf(t.val),
        wf(*u),
        old(gen).next < u64::MAX,
    ensures
        r is Ok <==> t.val.dims@ == u.dims@,
        r is Err ==> final(gen).next == old(gen).next,
        r matches Ok(rt) ==> binary_post(
            t,
            *u,
            rt,
            old(gen).next,
            final(gen).next,
            BinaryKind::Div,
            BinaryKind::BRecipSnd,
            BinaryKind::BNegQuotSnd,
        ),
{
    binary_map(gen, t, u, BinaryKind::Div, BinaryKind::BRecipSnd, BinaryKind::BNegQuotSnd)
}

} // verus!
