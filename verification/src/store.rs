use crate::axes::o_of;
use crate::device::{bcast_mul_buf, gpad};
use crate::scalar::Scalar;
use crate::tensor::{fill, BwdOp, Tensor};
use vstd::prelude::*;

verus! {

/// The store's mathematical content: identity/gradient-buffer pairs in the
/// order their entries were created.
pub type StoreView<S> = Seq<(u64, Seq<S>)>;

/// The position of the entry keyed by `id`, or a negative value when there
/// is none. Keys are never duplicated, since an entry is only ever created
/// when none exists.
pub open spec fn sidx<S>(st: StoreView<S>, id: u64) -> int
    decreases st.len(),
{
    if st.len() == 0 {
        -1
    } else if st[0].0 == id {
        0
    } else {
        let r = sidx(st.skip(1), id);
        if r < 0 {
            -1
        } else {
            r + 1
        }
    }
}

/// The gradient recorded for `id`, if that identity was ever touched.
pub open spec fn sget<S>(st: StoreView<S>, id: u64) -> Option<Seq<S>> {
    if sidx(st, id) >= 0 {
        Some(st[sidx(st, id)].1)
    } else {
        None
    }
}

/// A zero-filled gradient buffer of length `n`.
pub open spec fn zeros_s<S: Scalar>(n: int) -> Seq<S> {
    Seq::new(n as nat, |i: int| S::zero_s())
}

/// The store with an entry for `id` present: untouched if one exists,
/// otherwise extended by a fresh zero-filled buffer of length `n`.
pub open spec fn ensure_s<S: Scalar>(st: StoreView<S>, id: u64, n: int) -> StoreView<S> {
    if sidx(st, id) >= 0 {
        st
    } else {
        st.push((id, zeros_s(n)))
    }
}

/// The elementwise contribution `d[i] * g[i]` of a unary or binary entry.
pub open spec fn contrib_u<S: Scalar>(d: Seq<S>, g: Seq<S>) -> Seq<S> {
    Seq::new(d.len(), |i: int| S::mul_s(d[i], gpad(g, i)))
}

/// The contribution of a reduction entry: the reduced gradient broadcast
/// back over the source positions and scaled by the recorded coefficients.
pub open spec fn contrib_sp<S: Scalar>(coef: Seq<S>, g: Seq<S>, k: int, inner: int) -> Seq<S> {
    Seq::new(coef.len(), |j: int| S::mul_s(coef[j], gpad(g, o_of(j, k, inner))))
}

/// The store after adding `c` into the entry for `id` (created zero-filled
/// at length `n` if absent): accumulation, never overwrite.
pub open spec fn add_into_s<S: Scalar>(st: StoreView<S>, id: u64, n: int, c: Seq<S>) -> StoreView<
    S,
> {
    let st1 = ensure_s(st, id, n);
    let i = sidx(st1, id);
    let v = st1[i].1;
    st1.update(i, (id, Seq::new(v.len(), |t: int| S::add_s(v[t], gpad(c, t)))))
}

/// The store after one recorded backward entry runs: the output's
/// accumulated gradient is read (its entry created zero-filled if absent),
/// the local contribution is formed from the baked derivatives, and it is
/// added into each input's entry.
pub open spec fn apply_s<S: Scalar>(st: StoreView<S>, op: BwdOp<S>) -> StoreView<S> {
    match op {
        BwdOp::Unary { x_id, d, out_id } => {
            let st1 = ensure_s(st, out_id, d@.len() as int);
            let g = st1[sidx(st1, out_id)].1;
            add_into_s(st1, x_id, d@.len() as int, contrib_u(d@, g))
        },
        BwdOp::Binary { x_id, dx, y_id, dy, out_id } => {
            let st1 = ensure_s(st, out_id, dx@.len() as int);
            let g = st1[sidx(st1, out_id)].1;
            let st2 = add_into_s(st1, x_id, dx@.len() as int, contrib_u(dx@, g));
            add_into_s(st2, y_id, dy@.len() as int, contrib_u(dy@, g))
        },
        BwdOp::Spread { x_id, coef, k, inner, out_len, out_id } => {
            let st1 = ensure_s(st, out_id, out_len as int);
            let g = st1[sidx(st1, out_id)].1;
            add_into_s(st1, x_id, coef@.len() as int, contrib_sp(coef@, g, k as int, inner as int))
        },
    }
}

/// The store a tape leaves behind: entries run in strict reverse insertion
/// order, the last recorded first.
pub open spec fn drain_s<S: Scalar>(st: StoreView<S>, ops: Seq<BwdOp<S>>) -> StoreView<S>
    decreases ops.len(),
{
    if ops.len() == 0 {
        st
    } else {
        drain_s(apply_s(st, ops.last()), ops.drop_last())
    }
}

pub proof fn lemma_sidx_range<S>(st: StoreView<S>, id: u64)
    ensures
        -1 <= sidx(st, id) < st.len(),
        sidx(st, id) >= 0 ==> st[sidx(st, id)].0 == id,
        sidx(st, id) < 0 ==> forall|t: int| 0 <= t < st.len() ==> st[t].0 != id,
        forall|t: int| 0 <= t < sidx(st, id) ==> st[t].0 != id,
    decreases st.len(),
{
    if st.len() > 0 && st[0].0 != id {
        lemma_sidx_range(st.skip(1), id);
        assert(forall|t: int| 1 <= t < st.len() ==> st[t] == st.skip(1)[t - 1]);
    }
}

/// `sidx` finds exactly the first entry carrying `id`.
pub proof fn lemma_sidx_first<S>(st: StoreView<S>, id: u64, i: int)
    requires
        0 <= i < st.len(),
        st[i].0 == id,
        forall|t: int| 0 <= t < i ==> st[t].0 != id,
    ensures
        sidx(st, id) == i,
    decreases st.len(),
{
    if i == 0 {
    } else {
        assert(st[0].0 != id);
        assert(forall|t: int| 0 <= t < i - 1 ==> st.skip(1)[t] == st[t + 1]);
        lemma_sidx_first(st.skip(1), id, i - 1);
    }
}

/// When no entry carries `id`, `sidx` reports none.
pub proof fn lemma_sidx_none<S>(st: StoreView<S>, id: u64)
    requires
        forall|t: int| 0 <= t < st.len() ==> st[t].0 != id,
    ensures
        sidx(st, id) == -1,
    decreases st.len(),
{
    if st.len() > 0 {
        assert(forall|t: int| 0 <= t < st.skip(1).len() ==> st.skip(1)[t] == st[t + 1]);
        lemma_sidx_none(st.skip(1), id);
    }
}

/// The identity-keyed mapping of accumulated gradient buffers that one
/// backward pass produces. Entries appear lazily, zero-initialized, the
/// first time an identity is touched; every write afterwards is additive,
/// because a tensor may feed several consumers whose gradients must sum.
#[derive(Debug)]
pub struct GradStore<S: Scalar> {
    pub entries: Vec<(u64, Vec<S>)>,
}

impl<S: Scalar> View for GradStore<S> {
    type V = StoreView<S>;

    open spec fn view(&self) -> StoreView<S> {
        Seq::new(self.entries@.len(), |i: int| (self.entries@[i].0, self.entries@[i].1@))
    }
}

impl<S: Scalar> GradStore<S> {
    pub fn new() -> (r: GradStore<S>)
        ensures
            r@ == StoreView::<S>::empty(),
    {
        let r = GradStore { entries: Vec::new() };
        proof {
            assert(r@ =~= StoreView::<S>::empty());
        }
        r
    }

    /// The position of the entry for `id`, if that identity has one.
    pub fn find_idx(&self, id: u64) -> (r: Option<usize>)
        ensures
            r matches Some(i) ==> 0 <= i < self@.len() && i == sidx(self@, id),
            r is None ==> sidx(self@, id) == -1,
    {
        let n = self.entries.len();
        let mut i: usize = 0;
        while i < n
            invariant
                n == self.entries@.len(),
                self@.len() == self.entries@.len(),
                0 <= i <= n,
                forall|t: int| 0 <= t < i ==> self@[t].0 != id,
                forall|t: int| 0 <= t < n ==> self@[t].0 == self.entries@[t].0,
            decreases n - i,
        {
            if self.entries[i].0 == id {
                proof {
                    lemma_sidx_first(self@, id, i as int);
                }
                return Some(i);
            }
            i += 1;
        }
        proof {
            lemma_sidx_none(self@, id);
        }
        None
    }

    /// Makes sure `id` has an entry, creating it zero-filled at length `n`
    /// if absent, and says where it sits.
    pub fn ensure_entry(&mut self, id: u64, n: usize) -> (idx: usize)
        ensures
            final(self)@ == ensure_s(old(self)@, id, n as int),
            0 <= idx < final(self)@.len(),
            idx == sidx(final(self)@, id),
            final(self)@[idx as int].0 == id,
    {
        let r = self.find_idx(id);
        match r {
            Some(i) => {
                proof {
                    lemma_sidx_range(self@, id);
                }
                i
            },
            None => {
                let z = fill(n, S::zero());
                let ghost old_view = self@;
                proof {
                    lemma_sidx_range(old_view, id);
                }
                self.entries.push((id, z));
                proof {
                    assert(self@ =~~= old_view.push((id, zeros_s::<S>(n as int))));
                    assert(forall|t: int|
                        0 <= t < old_view.len() ==> self@[t].0 == old_view[t].0);
                    lemma_sidx_first(self@, id, old_view.len() as int);
                }
                self.entries.len() - 1
            },
        }
    }

    /// A copy of the gradient accumulated so far for `id`, its entry created
    /// zero-filled at length `n` if this is the first touch.
    pub fn read_grad(&mut self, id: u64, n: usize) -> (g: Vec<S>)
        ensures
            final(self)@ == ensure_s(old(self)@, id, n as int),
            g@ == final(self)@[sidx(final(self)@, id)].1,
    {
        let idx = self.ensure_entry(id, n);
        crate::tensor::dup_data(&self.entries[idx].1)
    }

    /// Adds the contribution `c` into the entry for `id` (created
    /// zero-filled at length `n` if absent), element by element.
    pub fn add_into(&mut self, id: u64, n: usize, c: &Vec<S>)
        ensures
            final(self)@ == add_into_s(old(self)@, id, n as int, c@),
    {
        let idx = self.ensure_entry(id, n);
        let ghost st1 = self@;
        let vlen = self.entries[idx].1.len();
        let mut nv: Vec<S> = Vec::new();
        let mut i: usize = 0;
        while i < vlen
            invariant
                0 <= idx < self.entries@.len(),
                vlen == self.entries@[idx as int].1@.len(),
                0 <= i <= vlen,
                nv@.len() == i,
                st1 == self@,
                st1[idx as int].1 == self.entries@[idx as int].1@,
                forall|t: int|
                    0 <= t < i ==> nv@[t] == S::add_s(
                        self.entries@[idx as int].1@[t],
                        gpad(c@, t),
                    ),
            decreases vlen - i,
        {
            let add_on = if i < c.len() {
                c[i]
            } else {
                S::zero()
            };
            nv.push(S::add(self.entries[idx].1[i], add_on));
            i += 1;
        }
        self.entries[idx] = (id, nv);
        proof {
            let v = st1[idx as int].1;
            assert(self@ =~~= st1.update(
                idx as int,
                (id, Seq::new(v.len(), |t: int| S::add_s(v[t], gpad(c@, t)))),
            ));
        }
    }

    /// Runs one recorded backward entry against this store.
    pub fn apply(&mut self, op: &BwdOp<S>)
        ensures
            final(self)@ == apply_s(old(self)@, *op),
    {
        match op {
            BwdOp::Unary { x_id, d, out_id } => {
                let g = self.read_grad(*out_id, d.len());
                let c = mul_pad_buf(d, &g);
                self.add_into(*x_id, d.len(), &c);
            },
            BwdOp::Binary { x_id, dx, y_id, dy, out_id } => {
                let g = self.read_grad(*out_id, dx.len());
                let cx = mul_pad_buf(dx, &g);
                self.add_into(*x_id, dx.len(), &cx);
                let cy = mul_pad_buf(dy, &g);
                self.add_into(*y_id, dy.len(), &cy);
            },
            BwdOp::Spread { x_id, coef, k, inner, out_len, out_id } => {
                let g = self.read_grad(*out_id, *out_len);
                let c = bcast_mul_buf(coef, &g, *k, *inner);
                proof {
                    assert(c@ =~= contrib_sp(coef@, g@, *k as int, *inner as int));
                }
                self.add_into(*x_id, coef.len(), &c);
            },
        }
    }

    /// The gradient accumulated for this tensor's identity, or nothing when
    /// the backward pass never touched it — an explicit "no gradient
    /// recorded", distinct from a gradient that is exactly zero.
    pub fn ref_gradient(&self, t: &Tensor<S>) -> (r: Option<&Vec<S>>)
        ensures
            r matches Some(v) ==> sget(self@, t.id) == Some(v@),
            r is None ==> sget(self@, t.id) is None,
    {
        match self.find_idx(t.id) {
            Some(i) => Some(&self.entries[i].1),
            None => None,
        }
    }
}

/// The elementwise product of a derivative buffer with a gradient buffer of
/// (in any well-formed run) the same length; a short gradient reads zeros.
pub fn mul_pad_buf<S: Scalar>(d: &Vec<S>, g: &Vec<S>) -> (out: Vec<S>)
    ensures
        out@ == contrib_u(d@, g@),
{
    let mut out: Vec<S> = Vec::new();
    let mut i: usize = 0;
    while i < d.len()
        invariant
            0 <= i <= d@.len(),
            out@.len() == i,
            forall|t: int| 0 <= t < i ==> out@[t] == S::mul_s(d@[t], gpad(g@, t)),
        decreases d@.len() - i,
    {
        let gv = if i < g.len() {
            g[i]
        } else {
            S::zero()
        };
        out.push(S::mul(d[i], gv));
        i += 1;
    }
    proof {
        assert(out@ =~= contrib_u(d@, g@));
    }
    out
}

} // verus!
