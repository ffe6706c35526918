use autograd::axes::{AxisSel, TensorError};
use autograd::device::{broadcast_buf, reduce_sum_buf, unary_map_buf};
use autograd::kinds::UnaryKind;
use autograd::losses::{
    binary_cross_entropy_with_logits_loss, huber_loss, mae_loss, mse_loss, rmse_loss,
    smooth_l1_loss,
};
use autograd::ops;
use autograd::scalar::Scalar;
use autograd::tensor::{IdGen, Tensor};

/// The IEEE-754 single-precision backend: the collaborator-supplied scalar
/// arithmetic the engine is generic over.
#[derive(Clone, Copy, PartialEq, Debug)]
struct F(f32);

impl Scalar for F {
    fn zero_s() -> F {
        F(0.0)
    }
    fn one_s() -> F {
        F(1.0)
    }
    fn half_s() -> F {
        F(0.5)
    }
    fn of_count_s(n: usize) -> F {
        F(n as f32)
    }
    fn add_s(a: F, b: F) -> F {
        F(a.0 + b.0)
    }
    fn sub_s(a: F, b: F) -> F {
        F(a.0 - b.0)
    }
    fn mul_s(a: F, b: F) -> F {
        F(a.0 * b.0)
    }
    fn div_s(a: F, b: F) -> F {
        F(a.0 / b.0)
    }
    fn neg_s(a: F) -> F {
        F(-a.0)
    }
    fn abs_s(a: F) -> F {
        F(a.0.abs())
    }
    fn sqrt_s(a: F) -> F {
        F(a.0.sqrt())
    }
    fn exp_s(a: F) -> F {
        F(a.0.exp())
    }
    fn ln_s(a: F) -> F {
        F(a.0.ln())
    }
    fn sign_s(a: F) -> F {
        F(a.0.signum())
    }
    fn pow_s(a: F, b: F) -> F {
        F(a.0.powf(b.0))
    }
    fn max_s(a: F, b: F) -> F {
        F(a.0.max(b.0))
    }
    fn eq_s(a: F, b: F) -> bool {
        a.0 == b.0
    }
    fn lt_s(a: F, b: F) -> bool {
        a.0 < b.0
    }
    fn zero() -> F {
        F(0.0)
    }
    fn one() -> F {
        F(1.0)
    }
    fn half() -> F {
        F(0.5)
    }
    fn of_count(n: usize) -> F {
        F(n as f32)
    }
    fn add(a: F, b: F) -> F {
        F(a.0 + b.0)
    }
    fn sub(a: F, b: F) -> F {
        F(a.0 - b.0)
    }
    fn mul(a: F, b: F) -> F {
        F(a.0 * b.0)
    }
    fn div(a: F, b: F) -> F {
        F(a.0 / b.0)
    }
    fn neg(a: F) -> F {
        F(-a.0)
    }
    fn abs_v(a: F) -> F {
        F(a.0.abs())
    }
    fn sqrt_v(a: F) -> F {
        F(a.0.sqrt())
    }
    fn exp_v(a: F) -> F {
        F(a.0.exp())
    }
    fn ln_v(a: F) -> F {
        F(a.0.ln())
    }
    fn sign_v(a: F) -> F {
        F(a.0.signum())
    }
    fn pow_v(a: F, b: F) -> F {
        F(a.0.powf(b.0))
    }
    fn max_v(a: F, b: F) -> F {
        F(a.0.max(b.0))
    }
    fn eq_v(a: F, b: F) -> bool {
        a.0 == b.0
    }
    fn lt_v(a: F, b: F) -> bool {
        a.0 < b.0
    }
}

fn tensor(gen: &mut IdGen, dims: Vec<usize>, xs: &[f32]) -> Tensor<F> {
    let data: Vec<F> = xs.iter().map(|v| F(*v)).collect();
    Tensor::new(gen, dims, data).unwrap()
}

fn zeros(gen: &mut IdGen, dims: Vec<usize>) -> Tensor<F> {
    let n: usize = dims.iter().product();
    Tensor::new(gen, dims, vec![F(0.0); n]).unwrap()
}

fn fv(v: &Vec<F>) -> Vec<f32> {
    v.iter().map(|f| f.0).collect()
}

#[test]
fn test_valids_max_axis() {
    let mut gen = IdGen::new();

    let t = zeros(&mut gen, vec![5]);
    let r = ops::max(&mut gen, t.no_trace(), AxisSel::AllAx).unwrap();
    assert_eq!(r.value().shape(), &Vec::<usize>::new());

    let t = zeros(&mut gen, vec![5, 3]);
    let r = ops::max(&mut gen, t.no_trace(), AxisSel::Ax(0)).unwrap();
    assert_eq!(r.value().shape(), &vec![3usize]);
    let r = ops::max(&mut gen, t.no_trace(), AxisSel::Ax(1)).unwrap();
    assert_eq!(r.value().shape(), &vec![5usize]);

    let t = zeros(&mut gen, vec![7, 5, 3]);
    let r = ops::max(&mut gen, t.no_trace(), AxisSel::Ax(0)).unwrap();
    assert_eq!(r.value().shape(), &vec![5usize, 3]);
    let r = ops::max(&mut gen, t.no_trace(), AxisSel::Ax(1)).unwrap();
    assert_eq!(r.value().shape(), &vec![7usize, 3]);
    let r = ops::max(&mut gen, t.no_trace(), AxisSel::Ax(2)).unwrap();
    assert_eq!(r.value().shape(), &vec![7usize, 5]);
    let r = ops::max(&mut gen, t.no_trace(), AxisSel::LastAx).unwrap();
    assert_eq!(r.value().shape(), &vec![7usize, 5]);

    let t = zeros(&mut gen, vec![9, 7, 5, 3]);
    let r = ops::max(&mut gen, t.no_trace(), AxisSel::Ax(0)).unwrap();
    assert_eq!(r.value().shape(), &vec![7usize, 5, 3]);
    let r = ops::max(&mut gen, t.no_trace(), AxisSel::Ax(1)).unwrap();
    assert_eq!(r.value().shape(), &vec![9usize, 5, 3]);
    let r = ops::max(&mut gen, t.no_trace(), AxisSel::Ax(2)).unwrap();
    assert_eq!(r.value().shape(), &vec![9usize, 7, 3]);
    let r = ops::max(&mut gen, t.no_trace(), AxisSel::Ax(3)).unwrap();
    assert_eq!(r.value().shape(), &vec![9usize, 7, 5]);
}

#[test]
fn test_max_axis_0_2d() {
    let mut gen = IdGen::new();
    let t = tensor(&mut gen, vec![2, 3], &[1.0, 2.0, 2.0, 3.0, -2.0, 2.0]);
    let r = ops::max(&mut gen, t.trace(), AxisSel::Ax(0)).unwrap();
    assert_eq!(fv(r.value().buf()), vec![3.0, 2.0, 2.0]);
    let e = ops::exp(&mut gen, r);
    let m = ops::mean(&mut gen, e, AxisSel::AllAx).unwrap();
    let g = ops::backward(m).unwrap();
    assert_eq!(
        fv(g.ref_gradient(&t).unwrap()),
        vec![0.0, 2.463019, 2.463019, 6.695179, 0.0, 2.463019]
    );
}

#[test]
fn test_max_axis_1_2d() {
    let mut gen = IdGen::new();
    let t = tensor(&mut gen, vec![2, 3], &[1.0, 2.0, 2.0, 3.0, -2.0, 2.0]);
    let r = ops::max(&mut gen, t.trace(), AxisSel::Ax(1)).unwrap();
    assert_eq!(fv(r.value().buf()), vec![2.0, 3.0]);
    let s = ops::sum(&mut gen, r, AxisSel::AllAx).unwrap();
    let g = ops::backward(s).unwrap();
    assert_eq!(
        fv(g.ref_gradient(&t).unwrap()),
        vec![0.0, 1.0, 1.0, 1.0, 0.0, 0.0]
    );
}

#[test]
fn test_mse() {
    let mut gen = IdGen::new();
    let x = tensor(
        &mut gen,
        vec![5],
        &[0.87248087, -0.24252531, -1.0060949, 1.155084, 1.5545048],
    );
    let y = tensor(
        &mut gen,
        vec![5],
        &[-0.90954804, -1.0193185, -0.39221755, 2.2524886, 1.3035554],
    );
    let loss = mse_loss(&mut gen, x.trace(), &y).unwrap();
    assert_eq!(loss.value().buf()[0].0, 1.0846305);
    let g = ops::backward(loss).unwrap();
    assert_eq!(
        fv(g.ref_gradient(&x).unwrap()),
        vec![0.7128116, 0.31071725, -0.24555098, -0.43896183, 0.10037976]
    );
}

#[test]
fn test_mae() {
    let mut gen = IdGen::new();
    let x = tensor(
        &mut gen,
        vec![5],
        &[0.87248087, -0.24252531, -1.0060949, 1.155084, 1.5545048],
    );
    let y = tensor(
        &mut gen,
        vec![5],
        &[-0.90954804, -1.0193186, -0.39221755, 2.2524886, 1.3035554],
    );
    let loss = mae_loss(&mut gen, x.trace(), &y).unwrap();
    assert_eq!(loss.value().buf()[0].0, 0.9042107);
    let g = ops::backward(loss).unwrap();
    assert_eq!(fv(g.ref_gradient(&x).unwrap()), vec![0.2, 0.2, -0.2, -0.2, 0.2]);
}

#[test]
fn test_huber_loss() {
    let mut gen = IdGen::new();
    let x = tensor(
        &mut gen,
        vec![3, 5],
        &[
            1.0095837, -1.0026205, -0.1126093, -0.1539351, -0.3688708, 2.6373475, 0.6761999,
            -1.3586733, 0.486154, -0.6206786, -1.2967702, -0.1273358, 1.3558478, 0.0787393,
            1.0921133,
        ],
    );
    let y = tensor(
        &mut gen,
        vec![3, 5],
        &[
            1.2569424, -1.2246597, 0.7995769, 0.0339246, -0.3688708, 1.472675, 0.8260061,
            0.7839395, -0.0541475, -0.6206786, -2.0449343, 1.8117315, 1.7505344, -1.2522424,
            1.0921133,
        ],
    );
    let loss = huber_loss(&mut gen, x.trace(), &y, F(0.5)).unwrap();
    assert_eq!(loss.value().buf()[0].0, 0.24506615);
    let g = ops::backward(loss).unwrap();
    assert_eq!(
        fv(g.ref_gradient(&x).unwrap()),
        vec![
            -0.016490579, 0.014802615, -0.033333335, -0.012523981, 0.0, 0.033333335,
            -0.0099870805, -0.033333335, 0.033333335, 0.0, 0.033333335, -0.033333335,
            -0.02631244, 0.033333335, 0.0
        ]
    );
    assert_eq!(
        fv(g.ref_gradient(&y).unwrap()),
        vec![
            0.016490579, -0.014802615, 0.033333335, 0.012523981, 0.0, -0.033333335, 0.0099870805,
            0.033333335, -0.033333335, 0.0, -0.033333335, 0.033333335, 0.02631244, -0.033333335,
            0.0
        ]
    );
}

#[test]
fn test_smooth_l1_loss() {
    let mut gen = IdGen::new();
    let x = tensor(
        &mut gen,
        vec![3, 5],
        &[
            1.0095837, -1.0026205, -0.1126093, -0.1539351, -0.3688708, 2.6373475, 0.6761999,
            -1.3586733, 0.486154, -0.6206786, -1.2967702, -0.1273358, 1.3558478, 0.0787393,
            1.0921133,
        ],
    );
    let y = tensor(
        &mut gen,
        vec![3, 5],
        &[
            1.2569424, -1.2246597, 0.7995769, 0.0339246, -0.3688708, 1.472675, 0.8260061,
            0.7839395, -0.0541475, -0.6206786, -2.0449343, 1.8117315, 1.7505344, -1.2522424,
            1.0921133,
        ],
    );
    let loss = smooth_l1_loss(&mut gen, x.trace(), &y, F(0.5)).unwrap();
    assert_eq!(loss.value().buf()[0].0, 0.4901323);
    let g = ops::backward(loss).unwrap();
    assert_eq!(
        fv(g.ref_gradient(&x).unwrap()),
        vec![
            -0.032981157, 0.02960523, -0.06666667, -0.025047962, 0.0, 0.06666667, -0.019974161,
            -0.06666667, 0.06666667, 0.0, 0.06666667, -0.06666667, -0.05262488, 0.06666667, 0.0
        ]
    );
    assert_eq!(
        fv(g.ref_gradient(&y).unwrap()),
        vec![
            0.032981157, -0.02960523, 0.06666667, 0.025047962, 0.0, -0.06666667, 0.019974161,
            0.06666667, -0.06666667, 0.0, -0.06666667, 0.06666667, 0.05262488, -0.06666667, 0.0
        ]
    );
}

#[test]
fn test_bce() {
    let mut gen = IdGen::new();
    let logit = tensor(
        &mut gen,
        vec![3, 3],
        &[
            -0.4092005, -0.6706018, 0.9201696, -1.6583557, 1.6978683, -1.4827578, -0.9571696,
            -1.0971526, 0.8801755,
        ],
    );
    let prob = tensor(
        &mut gen,
        vec![3, 3],
        &[
            0.365251, 0.8322099, 0.482717, 0.168392, 0.7987092, 0.1177533, 0.7026833, 0.5563793,
            0.6429267,
        ],
    );
    let loss = binary_cross_entropy_with_logits_loss(&mut gen, logit.trace(), &prob).unwrap();
    assert_eq!(loss.value().buf()[0].0, 0.7045728);
    let g = ops::backward(loss).unwrap();
    assert_eq!(
        fv(g.ref_gradient(&logit).unwrap()),
        vec![
            0.003761424, -0.054871976, 0.025817735, -0.0009343492, 0.0051718787, 0.0074731046,
            -0.047248676, -0.03401173, 0.0071035423
        ]
    );
    assert_eq!(
        fv(g.ref_gradient(&prob).unwrap()),
        vec![
            0.04546672, 0.07451131, -0.10224107, 0.18426175, -0.18865204, 0.16475087, 0.10635218,
            0.12190584, -0.097797275
        ]
    );
}

#[test]
fn test_bce_wide_range() {
    let mut gen = IdGen::new();
    let logit = tensor(
        &mut gen,
        vec![3, 3],
        &[100.0, 100.0, 100.0, -100.0, -100.0, -100.0, -1.0, 0.0, 1.0],
    );
    let targ = tensor(
        &mut gen,
        vec![3, 3],
        &[0.0, 0.5, 1.0, 0.0, 0.5, 1.0, 0.0, 0.5, 1.0],
    );
    let loss = binary_cross_entropy_with_logits_loss(&mut gen, logit.trace(), &targ).unwrap();
    assert_eq!(loss.value().buf()[0].0, 33.479965);
    let g = ops::backward(loss).unwrap();
    let gl = fv(g.ref_gradient(&logit).unwrap());
    assert_eq!(
        gl,
        vec![
            0.11111111, 0.055555556, 0.0, 0.0, -0.055555556, -0.11111111, 0.029882379, 0.0,
            -0.02988238
        ]
    );
    assert!(gl.iter().all(|v| v.is_finite()));
    let gt = fv(g.ref_gradient(&targ).unwrap());
    assert_eq!(
        gt,
        vec![
            -11.111112, -11.111112, -11.111112, 11.111112, 11.111112, 11.111112, 0.11111111, 0.0,
            -0.11111111
        ]
    );
    assert!(gt.iter().all(|v| v.is_finite()));
}

#[test]
fn test_rmse() {
    let mut gen = IdGen::new();
    let x = tensor(&mut gen, vec![1], &[3.0]);
    let y = tensor(&mut gen, vec![1], &[1.0]);
    let loss = rmse_loss(&mut gen, x.trace(), &y).unwrap();
    assert_eq!(loss.value().buf()[0].0, 2.0);
    let g = ops::backward(loss).unwrap();
    assert_eq!(fv(g.ref_gradient(&x).unwrap()), vec![1.0]);
}

#[test]
fn test_alias_accumulates_both_branches() {
    // One tensor feeds an op twice (traced and plain): the two backward
    // contributions are summed, never overwritten.
    let mut gen = IdGen::new();
    let x = tensor(&mut gen, vec![], &[3.0]);
    let p = ops::mul(&mut gen, x.trace(), &x).unwrap();
    let g = ops::backward(p).unwrap();
    assert_eq!(fv(g.ref_gradient(&x).unwrap()), vec![6.0]);
}

#[test]
fn test_max_tie_split_k1() {
    let mut gen = IdGen::new();
    let t = tensor(&mut gen, vec![2], &[1.0, 2.0]);
    let r = ops::max(&mut gen, t.trace(), AxisSel::AllAx).unwrap();
    assert_eq!(fv(r.value().buf()), vec![2.0]);
    let g = ops::backward(r).unwrap();
    assert_eq!(fv(g.ref_gradient(&t).unwrap()), vec![0.0, 1.0]);
}

#[test]
fn test_max_tie_split_k2() {
    let mut gen = IdGen::new();
    let t = tensor(&mut gen, vec![3], &[5.0, 5.0, 1.0]);
    let r = ops::max(&mut gen, t.trace(), AxisSel::AllAx).unwrap();
    assert_eq!(fv(r.value().buf()), vec![5.0]);
    let g = ops::backward(r).unwrap();
    // every element tied at the maximum receives the upstream gradient
    assert_eq!(fv(g.ref_gradient(&t).unwrap()), vec![1.0, 1.0, 0.0]);
}

#[test]
fn test_max_tie_split_full_axis() {
    let mut gen = IdGen::new();
    let t = tensor(&mut gen, vec![3], &[4.0, 4.0, 4.0]);
    let r = ops::max(&mut gen, t.trace(), AxisSel::AllAx).unwrap();
    let g = ops::backward(r).unwrap();
    assert_eq!(fv(g.ref_gradient(&t).unwrap()), vec![1.0, 1.0, 1.0]);
}

#[test]
fn test_no_trace_purity() {
    let mut gen = IdGen::new();
    let t = tensor(&mut gen, vec![2], &[1.0, 2.0]);
    let a = ops::exp(&mut gen, t.no_trace());
    assert!(!a.is_tracing());
    let b = ops::mean(&mut gen, a, AxisSel::AllAx).unwrap();
    assert!(!b.is_tracing());
    let e = ops::backward(b).unwrap_err();
    assert!(matches!(e, TensorError::NothingToDifferentiate));
}

#[test]
fn test_reduce_broadcast_round_trip() {
    // broadcast(reduce(x, axis), axis) has x's element layout, and a mean
    // reduction recovers a broadcast exactly when the division is exact.
    let y: Vec<F> = vec![F(1.0), F(2.0), F(3.0)];
    let b = broadcast_buf(&y, 1, 2, 3);
    assert_eq!(fv(&b), vec![1.0, 2.0, 3.0, 1.0, 2.0, 3.0]);
    let s = reduce_sum_buf(&b, 1, 2, 3);
    let m = unary_map_buf(UnaryKind::DivBy(F(2.0)), &s);
    assert_eq!(fv(&m), vec![1.0, 2.0, 3.0]);
}

#[test]
fn test_mean_and_sum_axes() {
    let mut gen = IdGen::new();
    let t = tensor(&mut gen, vec![2, 2], &[1.0, 2.0, 3.0, 4.0]);
    let m = ops::mean(&mut gen, t.no_trace(), AxisSel::Ax(0)).unwrap();
    assert_eq!(fv(m.value().buf()), vec![2.0, 3.0]);
    let s = ops::sum(&mut gen, t.no_trace(), AxisSel::Ax(1)).unwrap();
    assert_eq!(fv(s.value().buf()), vec![3.0, 7.0]);
    let s = ops::sum(&mut gen, t.no_trace(), AxisSel::LastAx).unwrap();
    assert_eq!(fv(s.value().buf()), vec![3.0, 7.0]);
    let a = ops::mean(&mut gen, t.no_trace(), AxisSel::AllAx).unwrap();
    assert_eq!(fv(a.value().buf()), vec![2.5]);
}

#[test]
fn test_elementwise_ops_and_gradients() {
    let mut gen = IdGen::new();
    let t = tensor(&mut gen, vec![], &[2.0]);
    let p = ops::powf(&mut gen, t.trace(), F(3.0));
    assert_eq!(fv(p.value().buf()), vec![8.0]);
    let g = ops::backward(p).unwrap();
    assert_eq!(fv(g.ref_gradient(&t).unwrap()), vec![12.0]);

    let l = ops::ln(&mut gen, t.trace());
    let g = ops::backward(l).unwrap();
    assert_eq!(fv(g.ref_gradient(&t).unwrap()), vec![0.5]);

    let n = ops::negate(&mut gen, t.trace());
    assert_eq!(fv(n.value().buf()), vec![-2.0]);
    let g = ops::backward(n).unwrap();
    assert_eq!(fv(g.ref_gradient(&t).unwrap()), vec![-1.0]);

    let d = ops::div_scalar(&mut gen, t.trace(), F(4.0));
    assert_eq!(fv(d.value().buf()), vec![0.5]);
    let g = ops::backward(d).unwrap();
    assert_eq!(fv(g.ref_gradient(&t).unwrap()), vec![0.25]);

    let m = ops::mul_scalar(&mut gen, t.trace(), F(5.0));
    assert_eq!(fv(m.value().buf()), vec![10.0]);
    let g = ops::backward(m).unwrap();
    assert_eq!(fv(g.ref_gradient(&t).unwrap()), vec![5.0]);

    let y = tensor(&mut gen, vec![], &[8.0]);
    let q = ops::div(&mut gen, y.trace(), &t).unwrap();
    assert_eq!(fv(q.value().buf()), vec![4.0]);
    let g = ops::backward(q).unwrap();
    assert_eq!(fv(g.ref_gradient(&y).unwrap()), vec![0.5]);
    assert_eq!(fv(g.ref_gradient(&t).unwrap()), vec![-2.0]);

    let a = ops::add(&mut gen, y.trace(), &t).unwrap();
    assert_eq!(fv(a.value().buf()), vec![10.0]);
    let g = ops::backward(a).unwrap();
    assert_eq!(fv(g.ref_gradient(&t).unwrap()), vec![1.0]);

    let w = tensor(&mut gen, vec![], &[-7.0]);
    let sg = ops::sign(&mut gen, w.trace());
    assert_eq!(fv(sg.value().buf()), vec![-1.0]);
    let g = ops::backward(sg).unwrap();
    assert_eq!(fv(g.ref_gradient(&w).unwrap()), vec![0.0]);

    let v = tensor(&mut gen, vec![], &[9.0]);
    let sq = ops::sqrt(&mut gen, v.trace());
    assert_eq!(fv(sq.value().buf()), vec![3.0]);
    let g = ops::backward(sq).unwrap();
    // derivative of the square root: one half over the root
    assert_eq!(fv(g.ref_gradient(&v).unwrap()), vec![0.5 / 3.0]);
}

#[test]
fn test_shape_errors() {
    let mut gen = IdGen::new();
    // a zero dimension or a mismatched buffer cannot build a tensor
    let bad = Tensor::new(&mut gen, vec![0], vec![F(1.0)]);
    assert!(matches!(bad, Err(TensorError::ShapeMismatch)));
    let bad = Tensor::new(&mut gen, vec![2], vec![F(1.0)]);
    assert!(matches!(bad, Err(TensorError::ShapeMismatch)));

    let x = tensor(&mut gen, vec![2], &[1.0, 2.0]);
    let y = tensor(&mut gen, vec![3], &[1.0, 2.0, 3.0]);
    let r = ops::sub(&mut gen, x.trace(), &y);
    assert!(matches!(r, Err(TensorError::ShapeMismatch)));

    let r = ops::max(&mut gen, x.trace(), AxisSel::Ax(1));
    assert!(matches!(r, Err(TensorError::ShapeMismatch)));

    let r = mse_loss(&mut gen, x.trace(), &y);
    assert!(matches!(r, Err(TensorError::ShapeMismatch)));

    // backward needs a scalar output
    let r = ops::backward(x.trace()).unwrap_err();
    assert!(matches!(r, TensorError::ShapeMismatch));
}

#[test]
fn test_missing_gradient_is_distinct_from_zero() {
    let mut gen = IdGen::new();
    let x = tensor(&mut gen, vec![1], &[1.0]);
    let untouched = tensor(&mut gen, vec![1], &[9.0]);
    let s = ops::sum(&mut gen, x.trace(), AxisSel::AllAx).unwrap();
    let g = ops::backward(s).unwrap();
    assert!(g.ref_gradient(&x).is_some());
    assert!(g.ref_gradient(&untouched).is_none());
}
