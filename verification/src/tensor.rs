use crate::axes::{dims_pos, prod, TensorError};
use crate::scalar::Scalar;
use vstd::prelude::*;

verus! {

/// Hands out the identity tokens that key the gradient store. Identities are
/// an arena index, never compared by value: two tensors with equal contents
/// and different tokens are distinct entities. Every token drawn from one
/// generator is distinct from every other drawn from it.
pub struct IdGen {
    pub next: u64,
}

impl IdGen {
    pub fn new() -> (r: IdGen)
        ensures
            r.next == 0,
    {
        IdGen { next: 0 }
    }

    /// Draws a fresh identity.
    pub fn fresh(&mut self) -> (r: u64)
        requires
            old(self).next < u64::MAX,
        ensures
            r == old(self).next,
            final(self).next == old(self).next + 1,
    {
        let r = self.next;
        self.next = self.next + 1;
        r
    }
}

/// A fixed-shape value: a contiguous buffer of scalars laid out by `dims`
/// (row-major), plus the identity token assigned at construction. The shape
/// never mutates. A tensor value by itself knows nothing of gradients.
pub struct Tensor<S: Scalar> {
    pub dims: Vec<usize>,
    pub data: Vec<S>,
    pub id: u64,
}

/// The shape invariant every constructed tensor has: positive dimension
/// sizes, and a buffer of exactly the shape's element count.
pub open spec fn wf<S: Scalar>(t: Tensor<S>) -> bool {
    &&& dims_pos(t.dims@)
    &&& t.data@.len() == prod(t.dims@)
}

/// One recorded unit of backward work. Each entry captures the identities of
/// its forward operands and the local derivatives baked at forward time; when
/// applied it reads the output's accumulated gradient and adds the local
/// contribution into each input's entry — never overwriting, since a tensor
/// may feed several consumers whose gradients must sum.
pub enum BwdOp<S: Scalar> {
    /// From a unary elementwise op: adds `d[i] * g_out[i]` into the input's
    /// gradient.
    Unary { x_id: u64, d: Vec<S>, out_id: u64 },
    /// From a binary elementwise op: adds `dx[i] * g_out[i]` into the first
    /// operand's gradient and `dy[i] * g_out[i]` into the second's.
    Binary { x_id: u64, dx: Vec<S>, y_id: u64, dy: Vec<S>, out_id: u64 },
    /// From a reduction over an axis laid out as `(outer, k, inner)`:
    /// broadcasts the reduced output gradient back across the source shape,
    /// scaling each source position `j` by `coef[j]` (an even weight for
    /// mean, one for sum, the tie indicator for max).
    Spread { x_id: u64, coef: Vec<S>, k: usize, inner: usize, out_len: usize, out_id: u64 },
}

/// The ordered log of backward work recorded during a traced forward pass.
/// It grows by one entry per differentiable op and is drained exactly once,
/// in strict reverse insertion order, by `backward`.
pub struct Tape<S: Scalar> {
    pub ops: Vec<BwdOp<S>>,
}

/// A tensor value together with the tape it owns while tracing. At most one
/// live tape exists per computation: binary operations take their second
/// operand as a plain `&Tensor`, so two tapes can never meet and none is ever
/// silently dropped. With no tape the value behaves as a plain,
/// non-differentiable one.
pub struct Traced<S: Scalar> {
    pub val: Tensor<S>,
    pub tape: Option<Tape<S>>,
}

/// An element-for-element copy of a buffer.
pub fn dup_data<S: Scalar>(v: &Vec<S>) -> (r: Vec<S>)
    ensures
        r@ == v@,
{
    let mut r: Vec<S> = Vec::new();
    let mut i: usize = 0;
    while i < v.len()
        invariant
            0 <= i <= v@.len(),
            r@ == v@.take(i as int),
        decreases v@.len() - i,
    {
        r.push(v[i]);
        proof {
            assert(r@ =~= v@.take(i + 1));
        }
        i += 1;
    }
    proof {
        assert(r@ =~= v@);
    }
    r
}

/// A buffer of `n` copies of one scalar.
pub fn fill<S: Scalar>(n: usize, x: S) -> (r: Vec<S>)
    ensures
        r@ == Seq::new(n as nat, |i: int| x),
{
    let mut r: Vec<S> = Vec::new();
    let mut i: usize = 0;
    while i < n
        invariant
            0 <= i <= n,
            r@ == Seq::new(i as nat, |t: int| x),
        decreases n - i,
    {
        r.push(x);
        proof {
            assert(r@ =~= Seq::new((i + 1) as nat, |t: int| x));
        }
        i += 1;
    }
    r
}

impl<S: Scalar> Tensor<S> {
    /// Builds a tensor from raw data and its construction-time shape, drawing
    /// a fresh identity. The shape is validated here, once, so that no later
    /// op touches a buffer whose length disagrees with its dimensions:
    /// a zero dimension or a length mismatch is a `ShapeMismatch`.
    pub fn new(gen: &mut IdGen, dims: Vec<usize>, data: Vec<S>) -> (r: Result<
        Tensor<S>,
        TensorError,
    >)
        requires
            old(gen).next < u64::MAX,
        ensures
            r is Ok <==> (dims_pos(dims@) && data@.len() == prod(dims@)),
            r matches Ok(t) ==> t.dims@ == dims@ && t.data@ == data@ && t.id == old(gen).next
                && wf(t) && final(gen).next == old(gen).next + 1,
            r is Err ==> final(gen).next == old(gen).next,
    {
        let n = data.len();
        let mut count: usize = 1;
        let mut i: usize = 0;
        while i < dims.len()
            invariant
                0 <= i <= dims@.len(),
                count == prod(dims@.take(i as int)),
                dims_pos(dims@.take(i as int)),
                count >= 1,
                n == data@.len(),
            decreases dims@.len() - i,
        {
            if dims[i] == 0 {
                return Err(TensorError::ShapeMismatch);
            }
            proof {
                crate::axes::lemma_prod_take_succ(dims@, i as int);
                assert(dims_pos(dims@.take(i + 1)));
            }
            let d = dims[i];
            if count > usize::MAX / d {
                // The would-be element count cannot even index a buffer on
                // this machine, so no data length can match it.
                proof {
                    let m = usize::MAX as int;
                    vstd::arithmetic::div_mod::lemma_fundamental_div_mod(m, d as int);
                    vstd::arithmetic::mul::lemma_mul_inequality(
                        m / (d as int) + 1,
                        count as int,
                        d as int,
                    );
                    assert((m / (d as int) + 1) * (d as int) == (d as int) * (m / (d as int))
                        + (d as int)) by (nonlinear_arith);
                    assert(count * d > usize::MAX);
                    if prod(dims@) == data@.len() && dims_pos(dims@) {
                        crate::axes::lemma_prod_take_le(dims@, i + 1);
                    }
                }
                return Err(TensorError::ShapeMismatch);
            }
            proof {
                let m = usize::MAX as int;
                vstd::arithmetic::div_mod::lemma_fundamental_div_mod(m, d as int);
                vstd::arithmetic::mul::lemma_mul_inequality(
                    count as int,
                    m / (d as int),
                    d as int,
                );
                assert((m / (d as int)) * (d as int) == (d as int) * (m / (d as int)))
                    by (nonlinear_arith);
                assert(count * d >= 1) by (nonlinear_arith)
                    requires count >= 1 && d >= 1;
            }
            count = count * d;
            i += 1;
        }
        proof {
            assert(dims@.take(dims@.len() as int) =~= dims@);
        }
        if count != n {
            return Err(TensorError::ShapeMismatch);
        }
        let id = gen.fresh();
        Ok(Tensor { dims, data, id })
    }

    /// Starts tracing: a copy of this value, under the same identity, now
    /// carrying a fresh empty tape. This is the only way a tape is created;
    /// every differentiable op afterwards appends to it.
    pub fn trace(&self) -> (r: Traced<S>)
        ensures
            r.val.dims@ == self.dims@,
            r.val.data@ == self.data@,
            r.val.id == self.id,
            r.tape matches Some(tp) && tp.ops@.len() == 0,
    {
        Traced {
            val: Tensor { dims: dup_data_usize(&self.dims), data: dup_data(&self.data), id: self.id },
            tape: Some(Tape { ops: Vec::new() }),
        }
    }

    /// A copy of this value carrying no tape: ops on it compute forward
    /// values only and record no backward work.
    pub fn no_trace(&self) -> (r: Traced<S>)
        ensures
            r.val.dims@ == self.dims@,
            r.val.data@ == self.data@,
            r.val.id == self.id,
            r.tape is None,
    {
        Traced {
            val: Tensor { dims: dup_data_usize(&self.dims), data: dup_data(&self.data), id: self.id },
            tape: None,
        }
    }

    /// The dimension sizes, for callers that inspect a result's shape.
    pub fn shape(&self) -> (r: &Vec<usize>)
        ensures
            r@ == self.dims@,
    {
        &self.dims
    }

    /// The flat row-major buffer of this tensor's elements.
    pub fn buf(&self) -> (r: &Vec<S>)
        ensures
            r@ == self.data@,
    {
        &self.data
    }
}

/// An element-for-element copy of a dimension vector.
pub fn dup_data_usize(v: &Vec<usize>) -> (r: Vec<usize>)
    ensures
        r@ == v@,
{
    let mut r: Vec<usize> = Vec::new();
    let mut i: usize = 0;
    while i < v.len()
        invariant
            0 <= i <= v@.len(),
            r@ == v@.take(i as int),
        decreases v@.len() - i,
    {
        r.push(v[i]);
        proof {
            assert(r@ =~= v@.take(i + 1));
        }
        i += 1;
    }
    proof {
        assert(r@ =~= v@);
    }
    r
}

impl<S: Scalar> Traced<S> {
    /// The value this traced tensor holds.
    pub fn value(&self) -> (r: &Tensor<S>)
        ensures
            r == self.val,
    {
        &self.val
    }

    /// Whether this value currently records backward work.
    pub fn is_tracing(&self) -> (r: bool)
        ensures
            r == (self.tape is Some),
    {
        self.tape.is_some()
    }
}

} // verus!
