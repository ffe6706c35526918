use vstd::arithmetic::div_mod::{
    lemma_fundamental_div_mod, lemma_fundamental_div_mod_converse,
};
use vstd::arithmetic::mul::{lemma_mul_inequality, lemma_mul_strictly_positive};
use vstd::prelude::*;

verus! {

/// The error taxonomy of the engine.
#[derive(Clone, Copy, Debug, PartialEq, Eq, Structural)]
pub enum TensorError {
    /// Operands or an axis selector are incompatible with the shapes at hand.
    /// Raised before any buffer is touched.
    ShapeMismatch,
    /// A backward pass was requested on a value that carries no tape, so
    /// there is no recorded work to differentiate. (A drained tape cannot be
    /// replayed at all: `backward` consumes it by move.)
    NothingToDifferentiate,
}

/// Designates which dimensions of a shape a reduction or broadcast acts over:
/// one axis by position, the last axis, or every axis at once.
#[derive(Clone, Copy, Debug, PartialEq, Eq, Structural)]
pub enum AxisSel {
    /// The single axis at this position.
    Ax(usize),
    /// The last axis, whatever the rank.
    LastAx,
    /// Every axis: the reduction collapses the tensor to a scalar.
    AllAx,
}

/// The number of elements of a buffer with these dimension sizes.
pub open spec fn prod(dims: Seq<usize>) -> int
    decreases dims.len(),
{
    if dims.len() == 0 {
        1
    } else {
        prod(dims.drop_last()) * dims.last()
    }
}

/// All dimension sizes are positive, as every tensor shape requires.
pub open spec fn dims_pos(dims: Seq<usize>) -> bool {
    forall|i: int| 0 <= i < dims.len() ==> dims[i] >= 1
}

/// Whether the selector names axes that exist in a shape of these dimensions.
pub open spec fn sel_valid(sel: AxisSel, dims: Seq<usize>) -> bool {
    match sel {
        AxisSel::Ax(i) => i < dims.len(),
        AxisSel::LastAx => dims.len() >= 1,
        AxisSel::AllAx => true,
    }
}

/// The position of the reduced axis, for the selectors that name one.
pub open spec fn sel_pos(sel: AxisSel, dims: Seq<usize>) -> int {
    match sel {
        AxisSel::Ax(i) => i as int,
        AxisSel::LastAx => dims.len() - 1,
        AxisSel::AllAx => 0,
    }
}

/// Product of the dimensions before the reduced axis.
pub open spec fn red_outer(sel: AxisSel, dims: Seq<usize>) -> int {
    match sel {
        AxisSel::AllAx => 1,
        _ => prod(dims.take(sel_pos(sel, dims))),
    }
}

/// Size of the reduced axis (for `AllAx`, the whole element count).
pub open spec fn red_k(sel: AxisSel, dims: Seq<usize>) -> int {
    match sel {
        AxisSel::AllAx => prod(dims),
        _ => dims[sel_pos(sel, dims)] as int,
    }
}

/// Product of the dimensions after the reduced axis.
pub open spec fn red_inner(sel: AxisSel, dims: Seq<usize>) -> int {
    match sel {
        AxisSel::AllAx => 1,
        _ => prod(dims.skip(sel_pos(sel, dims) + 1)),
    }
}

/// The shape left after reducing over the selector: the selected axis is
/// removed; reducing over every axis leaves the scalar shape.
pub open spec fn red_dims(sel: AxisSel, dims: Seq<usize>) -> Seq<usize> {
    match sel {
        AxisSel::AllAx => Seq::empty(),
        _ => dims.remove(sel_pos(sel, dims)),
    }
}

/// The flat position, in the source buffer, of the element at offset `a`
/// along the reduced axis of the fiber over reduced position `o`.
pub open spec fn sx(o: int, a: int, k: int, inner: int) -> int {
    (o / inner) * (k * inner) + a * inner + (o % inner)
}

/// The reduced position that the flat source position `j` maps to: the
/// element correspondence of broadcasting, inverse to `sx`. Degenerate
/// geometry (a zero axis) is mapped to position zero so the function is
/// total; no constructed tensor has such a shape.
pub open spec fn o_of(j: int, k: int, inner: int) -> int {
    if k <= 0 || inner <= 0 {
        0
    } else {
        (j / (k * inner)) * inner + (j % inner)
    }
}

pub proof fn lemma_prod_pos(dims: Seq<usize>)
    requires
        dims_pos(dims),
    ensures
        prod(dims) >= 1,
    decreases dims.len(),
{
    if dims.len() > 0 {
        assert(dims_pos(dims.drop_last()));
        lemma_prod_pos(dims.drop_last());
        lemma_mul_strictly_positive(prod(dims.drop_last()), dims.last() as int);
    }
}

pub proof fn lemma_prod_take_succ(dims: Seq<usize>, i: int)
    requires
        0 <= i < dims.len(),
    ensures
        prod(dims.take(i + 1)) == prod(dims.take(i)) * dims[i],
{
    assert(dims.take(i + 1).drop_last() =~= dims.take(i));
    assert(dims.take(i + 1).last() == dims[i]);
}

/// A shape's element count splits at any axis into outer, axis and inner
/// parts.
pub proof fn lemma_prod_split(dims: Seq<usize>, i: int)
    requires
        0 <= i < dims.len(),
    ensures
        prod(dims) == prod(dims.take(i)) * dims[i] * prod(dims.skip(i + 1)),
    decreases dims.len(),
{
    if i + 1 == dims.len() {
        assert(dims.take(i) =~= dims.drop_last());
        assert(dims.skip(i + 1) =~= Seq::<usize>::empty());
        assert(prod(dims.skip(i + 1)) == 1);
        assert(prod(dims) == prod(dims.take(i)) * dims[i]);
        assert(prod(dims.take(i)) * dims[i] * 1 == prod(dims.take(i)) * dims[i])
            by (nonlinear_arith);
    } else {
        let d = dims.drop_last();
        lemma_prod_split(d, i);
        assert(d.take(i) =~= dims.take(i));
        assert(dims.skip(i + 1).drop_last() =~= d.skip(i + 1));
        assert(dims.skip(i + 1).last() == dims.last());
        assert(prod(dims.skip(i + 1)) == prod(d.skip(i + 1)) * dims.last());
        assert(prod(dims) == prod(d) * dims.last());
        assert(prod(d) * dims.last() == (prod(d.take(i)) * d[i] * prod(d.skip(i + 1)))
            * dims.last());
        assert((prod(dims.take(i)) * dims[i] * prod(d.skip(i + 1))) * dims.last()
            == prod(dims.take(i)) * dims[i] * (prod(d.skip(i + 1)) * dims.last()))
            by (nonlinear_arith);
    }
}

/// With positive dimensions, the product of a prefix never exceeds the whole.
pub proof fn lemma_prod_take_le(dims: Seq<usize>, i: int)
    requires
        dims_pos(dims),
        0 <= i <= dims.len(),
    ensures
        1 <= prod(dims.take(i)) <= prod(dims),
    decreases dims.len() - i,
{
    assert(dims_pos(dims.take(i)));
    lemma_prod_pos(dims.take(i));
    if i == dims.len() {
        assert(dims.take(i) =~= dims);
    } else {
        lemma_prod_take_succ(dims, i);
        assert(prod(dims.take(i)) * 1 <= prod(dims.take(i)) * dims[i]) by (nonlinear_arith)
            requires prod(dims.take(i)) >= 1 && dims[i] >= 1;
        lemma_prod_take_le(dims, i + 1);
    }
}

/// A buffer's element count is multiplicative in a split of its shape.
pub proof fn lemma_prod_concat(s1: Seq<usize>, s2: Seq<usize>)
    ensures
        prod(s1 + s2) == prod(s1) * prod(s2),
    decreases s2.len(),
{
    if s2.len() == 0 {
        assert(s1 + s2 =~= s1);
        assert(prod(s1) * 1 == prod(s1)) by (nonlinear_arith);
    } else {
        assert((s1 + s2).drop_last() =~= s1 + s2.drop_last());
        assert((s1 + s2).last() == s2.last());
        lemma_prod_concat(s1, s2.drop_last());
        assert((prod(s1) * prod(s2.drop_last())) * s2.last() == prod(s1) * (prod(s2.drop_last())
            * s2.last())) by (nonlinear_arith);
    }
}

/// Removing the reduced axis from a shape leaves the outer-times-inner
/// element count.
pub proof fn lemma_prod_remove(dims: Seq<usize>, i: int)
    requires
        0 <= i < dims.len(),
    ensures
        prod(dims.remove(i)) == prod(dims.take(i)) * prod(dims.skip(i + 1)),
{
    assert(dims.remove(i) =~= dims.take(i) + dims.skip(i + 1));
    lemma_prod_concat(dims.take(i), dims.skip(i + 1));
}

/// Dividing a position below `outer * inner` by `inner` lands below `outer`.
pub proof fn lemma_div_lt(o: int, inner: int, outer: int)
    requires
        inner >= 1,
        0 <= o < outer * inner,
    ensures
        0 <= o / inner < outer,
        0 <= o % inner < inner,
{
    lemma_fundamental_div_mod(o, inner);
    assert(0 <= o / inner) by (nonlinear_arith)
        requires inner >= 1 && o >= 0;
    if o / inner >= outer {
        lemma_mul_inequality(outer, o / inner, inner);
        assert(outer * inner <= (o / inner) * inner);
        assert(inner * (o / inner) == (o / inner) * inner) by (nonlinear_arith);
    }
}

/// The fiber position `sx(o, a, ..)` stays inside the source buffer.
pub proof fn lemma_sx_bound(o: int, a: int, outer: int, k: int, inner: int)
    requires
        k >= 1,
        inner >= 1,
        outer >= 1,
        0 <= o < outer * inner,
        0 <= a < k,
    ensures
        0 <= sx(o, a, k, inner) < outer * k * inner,
        k * inner <= outer * k * inner,
        outer * inner <= outer * k * inner,
        0 <= o / inner < outer,
        0 <= o % inner < inner,
        (o / inner) * (k * inner) >= 0,
        a * inner >= 0,
{
    lemma_div_lt(o, inner, outer);
    let p = o / inner;
    let q = o % inner;
    assert(p * (k * inner) >= 0) by (nonlinear_arith)
        requires p >= 0 && k >= 1 && inner >= 1;
    assert(a * inner >= 0) by (nonlinear_arith)
        requires a >= 0 && inner >= 1;
    assert(outer * inner <= outer * k * inner) by (nonlinear_arith)
        requires outer >= 1 && k >= 1 && inner >= 1;
    assert(sx(o, a, k, inner) == p * (k * inner) + a * inner + q);
    assert(p * (k * inner) + a * inner + q >= 0) by (nonlinear_arith)
        requires p >= 0 && a >= 0 && q >= 0 && k >= 1 && inner >= 1;
    assert(p * (k * inner) + a * inner + q < outer * k * inner) by (nonlinear_arith)
        requires
            0 <= p < outer && 0 <= a < k && 0 <= q < inner && k >= 1 && inner >= 1;
    assert(k * inner <= outer * k * inner) by (nonlinear_arith)
        requires outer >= 1 && k >= 1 && inner >= 1;
}

/// Broadcasting maps every source position to a reduced position in range.
pub proof fn lemma_o_of_bound(j: int, outer: int, k: int, inner: int)
    requires
        k >= 1,
        inner >= 1,
        outer >= 1,
        0 <= j < outer * k * inner,
    ensures
        0 <= o_of(j, k, inner) < outer * inner,
        (j / (k * inner)) * inner >= 0,
        0 <= j % inner < inner,
        0 <= j / (k * inner) < outer,
{
    assert(outer * k * inner == outer * (k * inner)) by (nonlinear_arith);
    assert(k * inner >= 1) by (nonlinear_arith)
        requires k >= 1 && inner >= 1;
    lemma_div_lt(j, k * inner, outer);
    let p = j / (k * inner);
    lemma_fundamental_div_mod(j, inner);
    assert(0 <= j % inner < inner) by (nonlinear_arith)
        requires inner >= 1 && j >= 0;
    assert(p * inner + (j % inner) < outer * inner) by (nonlinear_arith)
        requires 0 <= p < outer && 0 <= j % inner < inner && inner >= 1;
    assert(p * inner >= 0) by (nonlinear_arith)
        requires p >= 0 && inner >= 1;
}

/// `o_of` inverts `sx`: the element at offset `a` of the fiber over `o` maps
/// back to `o`. This is the correspondence that reduce and broadcast share.
pub proof fn lemma_o_of_sx(o: int, a: int, outer: int, k: int, inner: int)
    requires
        k >= 1,
        inner >= 1,
        outer >= 1,
        0 <= o < outer * inner,
        0 <= a < k,
    ensures
        o_of(sx(o, a, k, inner), k, inner) == o,
{
    lemma_div_lt(o, inner, outer);
    let p = o / inner;
    let q = o % inner;
    let j = sx(o, a, k, inner);
    assert(j == p * (k * inner) + a * inner + q);
    assert(0 <= a * inner + q < k * inner) by (nonlinear_arith)
        requires 0 <= a < k && 0 <= q < inner && inner >= 1;
    assert(k * inner >= 1) by (nonlinear_arith)
        requires k >= 1 && inner >= 1;
    lemma_fundamental_div_mod_converse(j, k * inner, p, a * inner + q);
    assert(j / (k * inner) == p);
    assert(j == (p * k + a) * inner + q) by (nonlinear_arith)
        requires j == p * (k * inner) + a * inner + q;
    lemma_fundamental_div_mod_converse(j, inner, p * k + a, q);
    assert(j % inner == q);
    lemma_fundamental_div_mod(o, inner);
}

/// The reduced shape is well formed and its element count is the source's
/// outer times inner part.
pub proof fn lemma_red_wf(dims: Seq<usize>, sel: AxisSel)
    requires
        dims_pos(dims),
        sel_valid(sel, dims),
    ensures
        dims_pos(red_dims(sel, dims)),
        prod(red_dims(sel, dims)) == red_outer(sel, dims) * red_inner(sel, dims),
{
    match sel {
        AxisSel::AllAx => {
            assert(red_dims(sel, dims) =~= Seq::<usize>::empty());
        },
        _ => {
            let i = sel_pos(sel, dims);
            lemma_prod_remove(dims, i);
            assert(dims_pos(dims.remove(i)));
            if sel is LastAx {
                assert(dims.skip(i + 1) =~= Seq::<usize>::empty());
            }
        },
    }
}

/// Compares two dimension vectors element by element.
pub fn dims_equal(a: &Vec<usize>, b: &Vec<usize>) -> (r: bool)
    ensures
        r == (a@ == b@),
{
    if a.len() != b.len() {
        assert(a@ != b@);
        return false;
    }
    let n = a.len();
    let mut i: usize = 0;
    while i < n
        invariant
            n == a@.len() == b@.len(),
            0 <= i <= n,
            forall|t: int| 0 <= t < i ==> a@[t] == b@[t],
        decreases n - i,
    {
        if a[i] != b[i] {
            return false;
        }
        i += 1;
    }
    assert(a@ =~= b@);
    true
}

/// Product of `dims[lo..hi]`, used to lay out reductions.
pub fn prod_range(dims: &Vec<usize>, lo: usize, hi: usize) -> (r: usize)
    requires
        lo <= hi <= dims@.len(),
        dims_pos(dims@),
        prod(dims@) <= usize::MAX,
    ensures
        r == prod(dims@.subrange(lo as int, hi as int)),
        r >= 1,
{
    let s = Ghost(dims@.subrange(lo as int, hi as int));
    proof {
        assert(dims_pos(s@));
    }
    let mut acc: usize = 1;
    let mut j: usize = lo;
    while j < hi
        invariant
            lo <= j <= hi <= dims@.len(),
            dims_pos(dims@),
            prod(dims@) <= usize::MAX,
            s@ == dims@.subrange(lo as int, hi as int),
            dims_pos(s@),
            acc == prod(s@.take(j - lo)),
            acc >= 1,
        decreases hi - j,
    {
        proof {
            lemma_prod_take_succ(s@, j - lo);
            assert(s@[j - lo] == dims@[j as int]);
            lemma_prod_take_le(s@, j - lo + 1);
            lemma_subrange_prod_le(dims@, lo as int, hi as int);
        }
        acc = acc * dims[j];
        j += 1;
    }
    proof {
        assert(s@.take(hi - lo) =~= s@);
    }
    acc
}

/// With positive dimensions, a contiguous slice's product never exceeds the
/// whole shape's.
pub proof fn lemma_subrange_prod_le(dims: Seq<usize>, lo: int, hi: int)
    requires
        dims_pos(dims),
        0 <= lo <= hi <= dims.len(),
    ensures
        1 <= prod(dims.subrange(lo, hi)) <= prod(dims),
    decreases dims.len() - hi,
{
    assert(dims_pos(dims.subrange(lo, hi)));
    lemma_prod_pos(dims.subrange(lo, hi));
    if hi == dims.len() {
        if lo == 0 {
            assert(dims.subrange(lo, hi) =~= dims);
        } else {
            lemma_subrange_prod_skip(dims, lo);
        }
    } else {
        let sub1 = dims.subrange(lo, hi + 1);
        assert(sub1.drop_last() =~= dims.subrange(lo, hi));
        assert(prod(sub1) == prod(dims.subrange(lo, hi)) * sub1.last());
        assert(prod(dims.subrange(lo, hi)) * 1 <= prod(dims.subrange(lo, hi)) * sub1.last())
            by (nonlinear_arith)
            requires prod(dims.subrange(lo, hi)) >= 1 && sub1.last() >= 1;
        lemma_subrange_prod_le(dims, lo, hi + 1);
    }
}

proof fn lemma_subrange_prod_skip(dims: Seq<usize>, lo: int)
    requires
        dims_pos(dims),
        0 < lo <= dims.len(),
    ensures
        prod(dims.subrange(lo, dims.len() as int)) <= prod(dims),
{
    lemma_prod_split(dims, lo - 1);
    assert(dims.skip(lo) =~= dims.subrange(lo, dims.len() as int));
    let a = prod(dims.take(lo - 1));
    let b = dims[lo - 1] as int;
    let c = prod(dims.skip(lo));
    assert(dims_pos(dims.take(lo - 1)));
    lemma_prod_pos(dims.take(lo - 1));
    assert(dims_pos(dims.skip(lo)));
    lemma_prod_pos(dims.skip(lo));
    assert(c <= a * b * c) by (nonlinear_arith)
        requires a >= 1 && b >= 1 && c >= 1;
}

/// Lays a reduction out as (outer, axis size, inner) strides, or reports the
/// selector as incompatible with the shape.
pub fn geom(dims: &Vec<usize>, sel: AxisSel) -> (r: Result<(usize, usize, usize), TensorError>)
    requires
        dims_pos(dims@),
        prod(dims@) <= usize::MAX,
    ensures
        r is Ok <==> sel_valid(sel, dims@),
        r matches Ok(g) ==> g.0 == red_outer(sel, dims@) && g.1 == red_k(sel, dims@)
            && g.2 == red_inner(sel, dims@) && g.0 >= 1 && g.1 >= 1 && g.2 >= 1
            && g.0 * g.1 * g.2 == prod(dims@),
{
    match sel {
        AxisSel::AllAx => {
            let total = prod_range(dims, 0, dims.len());
            proof {
                assert(dims@.subrange(0, dims@.len() as int) =~= dims@);
            }
            Ok((1, total, 1))
        },
        AxisSel::Ax(i) => {
            if i >= dims.len() {
                return Err(TensorError::ShapeMismatch);
            }
            let outer = prod_range(dims, 0, i);
            let k = dims[i];
            let inner = prod_range(dims, i + 1, dims.len());
            proof {
                assert(dims@.subrange(0, i as int) =~= dims@.take(i as int));
                assert(dims@.subrange(i + 1, dims@.len() as int) =~= dims@.skip(i + 1));
                lemma_prod_split(dims@, i as int);
            }
            Ok((outer, k, inner))
        },
        AxisSel::LastAx => {
            if dims.len() == 0 {
                return Err(TensorError::ShapeMismatch);
            }
            let i = dims.len() - 1;
            let outer = prod_range(dims, 0, i);
            let k = dims[i];
            proof {
                assert(dims@.subrange(0, i as int) =~= dims@.take(i as int));
                assert(dims@.skip(i + 1) =~= Seq::<usize>::empty());
                lemma_prod_split(dims@, i as int);
            }
            Ok((outer, k, 1))
        },
    }
}

/// The reduced shape: the selected axis removed, or the scalar shape for a
/// reduction over every axis.
pub fn reduced_dims(dims: &Vec<usize>, sel: AxisSel) -> (r: Vec<usize>)
    requires
        sel_valid(sel, dims@),
    ensures
        r@ == red_dims(sel, dims@),
{
    let mut out: Vec<usize> = Vec::new();
    match sel {
        AxisSel::AllAx => {
            proof {
                assert(out@ =~= red_dims(sel, dims@));
            }
        },
        _ => {
            let pos = if let AxisSel::Ax(i) = sel {
                i
            } else {
                dims.len() - 1
            };
            let mut j: usize = 0;
            while j < dims.len()
                invariant
                    pos < dims@.len(),
                    0 <= j <= dims@.len(),
                    pos == sel_pos(sel, dims@),
                    out@ == if j <= pos {
                        dims@.subrange(0, j as int)
                    } else {
                        dims@.subrange(0, pos as int) + dims@.subrange(pos + 1, j as int)
                    },
                decreases dims@.len() - j,
            {
                if j != pos {
                    out.push(dims[j]);
                }
                proof {
                    if j + 1 <= pos {
                        assert(out@ =~= dims@.subrange(0, j + 1));
                    } else {
                        assert(out@ =~= dims@.subrange(0, pos as int)
                            + dims@.subrange(pos + 1, j + 1));
                    }
                }
                j += 1;
            }
            proof {
                assert(out@ =~= dims@.remove(pos as int));
            }
        },
    }
    out
}

} // verus!
