use dfdx::dtype::Dtype;
use dfdx::error::Error;
use dfdx::shapes::axes::Axes;
use dfdx::shapes::shape::Shape;
use dfdx::tensor::Tensor;
use dfdx::tensor_ops::broadcast_to::BroadcastTo;
use dfdx::tensor_ops::impl_mean::{mean, sum};
use dfdx::tensor_ops::leaky_relu::leaky_relu;
use dfdx::tensor_ops::ops::{try_binary_op, try_unary_op, BinaryDerivative, UnaryDerivative};
use dfdx::tensor_ops::prelu::prelu;
use dfdx::unique_id::{unique_id, HasUniqueId, IdAllocator};

/// Double precision numbers as tensor elements.
#[derive(Debug, Clone, Copy, PartialEq)]
struct Real(f64);

impl Dtype for Real {
    fn spec_zero() -> Real {
        Real(0.0)
    }
    fn spec_one() -> Real {
        Real(1.0)
    }
    fn spec_plus(self, rhs: Real) -> Real {
        Real(self.0 + rhs.0)
    }
    fn spec_times(self, rhs: Real) -> Real {
        Real(self.0 * rhs.0)
    }
    fn spec_below_zero(self) -> bool {
        self.0 < 0.0
    }
    fn spec_div_count(self, n: usize) -> Real {
        Real(self.0 / n as f64)
    }
    fn zero() -> Real {
        Real(0.0)
    }
    fn one() -> Real {
        Real(1.0)
    }
    fn plus(self, rhs: Real) -> Real {
        Real(self.0 + rhs.0)
    }
    fn times(self, rhs: Real) -> Real {
        Real(self.0 * rhs.0)
    }
    fn below_zero(self) -> bool {
        self.0 < 0.0
    }
    fn div_count(self, n: usize) -> Real {
        Real(self.0 / n as f64)
    }
}

/// The exponential function.
#[derive(Debug, Clone, Copy)]
struct Exp;

impl UnaryDerivative<Real> for Exp {
    fn spec_f(&self, x: Real) -> Real {
        Real(x.0.exp())
    }
    fn spec_df(&self, x: Real) -> Real {
        Real(x.0.exp())
    }
    fn f(&self, x: &Real) -> Real {
        Real(x.0.exp())
    }
    fn df(&self, x: &Real) -> Real {
        Real(x.0.exp())
    }
}

/// The product of two numbers.
#[derive(Debug, Clone, Copy)]
struct Mul;

impl BinaryDerivative<Real> for Mul {
    fn spec_f(&self, x: Real, y: Real) -> Real {
        Real(x.0 * y.0)
    }
    fn spec_dfdx(&self, _x: Real, y: Real) -> Real {
        y
    }
    fn spec_dfdy(&self, x: Real, _y: Real) -> Real {
        x
    }
    fn f(&self, x: &Real, y: &Real) -> Real {
        Real(x.0 * y.0)
    }
    fn dfdx(&self, _x: &Real, y: &Real) -> Real {
        *y
    }
    fn dfdy(&self, x: &Real, _y: &Real) -> Real {
        *x
    }
}

fn reals(values: &[f64]) -> Vec<Real> {
    values.iter().map(|v| Real(*v)).collect()
}

fn floats(values: &[Real]) -> Vec<f64> {
    values.iter().map(|v| v.0).collect()
}

fn shape(dims: &[usize]) -> Shape {
    Shape::new(dims.to_vec()).unwrap()
}

fn axes(idx: &[usize]) -> Axes {
    Axes::new(idx.to_vec()).unwrap()
}

fn tensor(values: &[f64], dims: &[usize], ids: &mut IdAllocator) -> Tensor<Real> {
    Tensor::new(reals(values), shape(dims), ids).unwrap()
}

fn zeros(dims: &[usize], ids: &mut IdAllocator) -> Tensor<Real> {
    let n: usize = dims.iter().product();
    tensor(&vec![0.0; n], dims, ids)
}

fn assert_close(a: &[f64], b: &[f64], tolerance: f64) {
    assert_eq!(a.len(), b.len());
    for i in 0..a.len() {
        assert!((a[i] - b[i]).abs() <= tolerance, "{:?} != {:?}", a, b);
    }
}

#[test]
fn test_leaky_relu_0d() {
    let mut ids = IdAllocator::new();
    let x = tensor(&[-1.0], &[], &mut ids);
    let r = x.leaky_trace().leaky_relu(Real(0.5), &mut ids);
    assert_eq!(r.array(), reals(&[-0.5]));
    let g = r.backward().unwrap();
    assert_eq!(g.read(x.id()).unwrap(), &reals(&[0.5]));
}

#[test]
fn test_leaky_relu_1d() {
    let mut ids = IdAllocator::new();
    let x = tensor(&[-2.0, -1.0, 1.0, 2.0], &[4], &mut ids);
    let r = x.leaky_trace().leaky_relu(Real(0.5), &mut ids);
    assert_eq!(r.array(), reals(&[-1.0, -0.5, 1.0, 2.0]));
    let g = r.sum(&mut ids).backward().unwrap();
    assert_close(
        &floats(g.read(x.id()).unwrap()),
        &[0.5, 0.5, 1.0, 1.0],
        1e-6,
    );
}

#[test]
fn test_leaky_relu_try_and_free_function_agree() {
    let mut ids = IdAllocator::new();
    let x = tensor(&[-2.0, 3.0], &[2], &mut ids);
    let a = leaky_relu(x.duplicate(), Real(0.25), &mut ids);
    let b = x.duplicate().try_leaky_relu(Real(0.25), &mut ids).unwrap();
    assert_eq!(a.array(), reals(&[-0.5, 3.0]));
    assert_eq!(a.array(), b.array());
    assert!(!a.is_traced());
    assert_ne!(a.id(), b.id());
}

#[test]
fn test_prelu_0d() {
    let mut ids = IdAllocator::new();
    let x = tensor(&[-1.0], &[], &mut ids);
    let alpha = tensor(&[0.5], &[], &mut ids);

    let r = x.leaky_trace().prelu(alpha.duplicate(), &mut ids);
    assert_eq!(r.array(), reals(&[-0.5]));
    let g = r.backward().unwrap();
    assert_eq!(g.read(x.id()).unwrap(), &reals(&[0.5]));
    assert_eq!(g.read(alpha.id()).unwrap(), &reals(&[-1.0]));
}

#[test]
fn test_prelu_1d() {
    let mut ids = IdAllocator::new();
    let x = tensor(&[-2.0, -1.0, 1.0, 2.0], &[4], &mut ids);
    let alpha = tensor(&[0.25, 0.5, 0.0, 0.0], &[4], &mut ids);

    let r = prelu(x.leaky_trace(), alpha.duplicate(), &mut ids);
    assert_eq!(r.array(), reals(&[-0.5, -0.5, 1.0, 2.0]));
    let g = r.sum(&mut ids).backward().unwrap();
    assert_eq!(g.read(x.id()).unwrap(), &reals(&[0.25, 0.5, 1.0, 1.0]));
    assert_eq!(g.read(alpha.id()).unwrap(), &reals(&[-2.0, -1.0, 0.0, 0.0]));
}

#[test]
fn test_prelu_rejects_different_shapes() {
    let mut ids = IdAllocator::new();
    let x = tensor(&[-2.0, -1.0], &[2], &mut ids);
    let alpha = tensor(&[0.25, 0.5, 0.0], &[3], &mut ids);
    let before = unique_id(&mut ids);
    assert!(matches!(
        x.try_prelu(alpha, &mut ids),
        Err(Error::ShapeMismatch)
    ));
    // a failed operation takes no id
    assert_eq!(*unique_id(&mut ids), *before + 1);
}

#[test]
fn test_mean_0d() {
    let mut ids = IdAllocator::new();
    let t = tensor(&[3.0], &[], &mut ids);
    let r = t.leaky_trace().mean(&mut ids);
    assert_eq!(r.array(), reals(&[3.0]));
    let gradients = r.backward().unwrap();
    assert_eq!(gradients.read(t.id()).unwrap(), &reals(&[1.0]));
}

#[test]
fn test_mean_1d() {
    let mut ids = IdAllocator::new();
    let t = tensor(&[1.0, 2.0, 3.0], &[3], &mut ids);
    let r = t.leaky_trace().mean(&mut ids);
    assert_eq!(r.array(), reals(&[2.0]));
    let gradients = r.backward().unwrap();
    assert_eq!(gradients.read(t.id()).unwrap(), &reals(&[1.0 / 3.0; 3]));
}

#[test]
fn test_mean_2d() {
    let mut ids = IdAllocator::new();
    let t = tensor(&[1.0, 2.0, 3.0, 4.0, 5.0, 6.0], &[2, 3], &mut ids);
    let r = mean(t.leaky_trace(), &mut ids);
    assert_eq!(r.array(), reals(&[3.5]));
    let gradients = r.backward().unwrap();
    assert_eq!(gradients.read(t.id()).unwrap(), &reals(&[1.0 / 6.0; 6]));
}

#[test]
fn test_mean_3d() {
    let mut ids = IdAllocator::new();
    let t = tensor(&[1.0; 24], &[4, 2, 3], &mut ids);
    let r = t.leaky_trace().mean(&mut ids);
    assert_eq!(r.array(), reals(&[1.0]));
    let gradients = r.backward().unwrap();
    assert_eq!(gradients.read(t.id()).unwrap(), &reals(&[1.0 / 24.0; 24]));
}

#[test]
#[should_panic]
fn test_broadcast_incorrect_dims() {
    let mut ids = IdAllocator::new();
    let a = zeros(&[5], &mut ids);
    let _ = a.try_broadcast_like(&shape(&[3, 7]), &axes(&[0])).unwrap();
}

#[test]
fn test_broadcast_incorrect_dims_is_a_shape_mismatch() {
    let mut ids = IdAllocator::new();
    let a = zeros(&[5], &mut ids);
    assert!(matches!(
        a.try_broadcast_like(&shape(&[3, 7]), &axes(&[0])),
        Err(Error::ShapeMismatch)
    ));
}

fn check_broadcast(src: &[usize], dst: &[usize], along: &[usize]) {
    let mut ids = IdAllocator::new();
    let t = zeros(src, &mut ids);
    let id = *t.id();
    let b = t.broadcast_like(&shape(dst), &axes(along));
    assert_eq!(b.shape(), &shape(dst));
    assert_eq!(b.id(), &id);
    assert_eq!(b.array().len(), dst.iter().product::<usize>());
    for axis in along {
        assert_eq!(b.strides()[*axis], 0);
    }
}

#[test]
fn test_valid_1d_broadcasts() {
    check_broadcast(&[], &[5], &[0]);
    check_broadcast(&[3], &[5, 3], &[0]);
    check_broadcast(&[5], &[5, 3], &[1]);
    check_broadcast(&[5, 7], &[3, 5, 7], &[0]);
    check_broadcast(&[3, 7], &[3, 5, 7], &[1]);
    check_broadcast(&[3, 5], &[3, 5, 7], &[2]);
    check_broadcast(&[3, 5], &[3, 5, 7], &[2]);
    check_broadcast(&[5, 7, 9], &[3, 5, 7, 9], &[0]);
    check_broadcast(&[3, 7, 9], &[3, 5, 7, 9], &[1]);
    check_broadcast(&[3, 5, 9], &[3, 5, 7, 9], &[2]);
    check_broadcast(&[3, 5, 7], &[3, 5, 7, 9], &[3]);
}

#[test]
fn test_valid_2d_broadcasts() {
    check_broadcast(&[], &[5, 3], &[0, 1]);
    check_broadcast(&[3], &[3, 5, 7], &[1, 2]);
    check_broadcast(&[5], &[3, 5, 7], &[0, 2]);
    check_broadcast(&[7], &[3, 5, 7], &[0, 1]);
    check_broadcast(&[3, 5], &[3, 5, 7, 9], &[2, 3]);
    check_broadcast(&[3, 7], &[3, 5, 7, 9], &[1, 3]);
    check_broadcast(&[3, 9], &[3, 5, 7, 9], &[1, 2]);
    check_broadcast(&[5, 7], &[3, 5, 7, 9], &[0, 3]);
    check_broadcast(&[5, 9], &[3, 5, 7, 9], &[0, 2]);
    check_broadcast(&[7, 9], &[3, 5, 7, 9], &[0, 1]);
}

#[test]
fn test_valid_3d_broadcasts() {
    check_broadcast(&[], &[3, 5, 7], &[0, 1, 2]);
    check_broadcast(&[3], &[3, 5, 7, 9], &[1, 2, 3]);
    check_broadcast(&[5], &[3, 5, 7, 9], &[0, 2, 3]);
    check_broadcast(&[7], &[3, 5, 7, 9], &[0, 1, 3]);
    check_broadcast(&[9], &[3, 5, 7, 9], &[0, 1, 2]);
}

#[test]
fn test_broadcast_backwards() {
    let mut ids = IdAllocator::new();
    let a_values = [0.3, -1.2, 0.8];
    let b_values = [
        0.5, -0.4, 1.1, -0.9, 0.2, 0.7, 1.3, -1.5, 0.1, -0.3, 0.6, -0.8, 0.4, 1.0, -0.2,
    ];
    let a = tensor(&a_values, &[3], &mut ids);
    let b = tensor(&b_values, &[5, 3], &mut ids);
    let a_up = a.leaky_trace().broadcast_like(&shape(&[5, 3]), &axes(&[0]));
    let mut repeated = Vec::new();
    for _ in 0..5 {
        repeated.extend_from_slice(&a_values);
    }
    assert_close(&floats(&a_up.array()), &repeated, 1e-4);
    let r = try_binary_op(Mul, a_up, b.duplicate(), &mut ids).unwrap();
    let g = try_unary_op(Exp, r, &mut ids)
        .unwrap()
        .mean(&mut ids)
        .backward()
        .unwrap();

    // a's gradient: (b * (b * a).exp()).sum(0) / 15
    let mut a_grad = [0.0; 3];
    // b's gradient: (a * (b * a).exp()) / 15
    let mut b_grad = [0.0; 15];
    for row in 0..5 {
        for col in 0..3 {
            let (x, y) = (a_values[col], b_values[row * 3 + col]);
            a_grad[col] += y * (x * y).exp() / 15.0;
            b_grad[row * 3 + col] = x * (x * y).exp() / 15.0;
        }
    }
    assert_close(&floats(g.read(a.id()).unwrap()), &a_grad, 1e-4);
    assert_close(&floats(g.read(b.id()).unwrap()), &b_grad, 1e-4);
}

#[test]
fn test_broadcast_summed() {
    let mut ids = IdAllocator::new();
    let a_values = [0.3, -1.2, 0.8];
    let a = tensor(&a_values, &[3], &mut ids);
    let up = a.leaky_trace().broadcast_like(&shape(&[4, 3]), &axes(&[0]));
    let g = try_unary_op(Exp, up, &mut ids)
        .unwrap()
        .mean(&mut ids)
        .backward()
        .unwrap();
    let expected: Vec<f64> = a_values.iter().map(|x| x.exp() / 3.0).collect();
    assert_close(&floats(g.read(a.id()).unwrap()), &expected, 1e-6);
}

#[test]
fn test_broadcast_row_then_sum_restores_the_gradient_shape() {
    // shape (3) to (5, 3) along axis 0: the five rows add up in three slots
    let mut ids = IdAllocator::new();
    let a = tensor(&[1.0, 2.0, 3.0], &[3], &mut ids);
    let up = a.leaky_trace().broadcast_top_dims_like(&shape(&[5, 3]));
    assert_eq!(up.strides(), &vec![0, 1]);
    assert_eq!(up.array().len(), 15);
    let g = sum(up, &mut ids).backward().unwrap();
    assert_eq!(g.read(a.id()).unwrap(), &reals(&[5.0, 5.0, 5.0]));
}

#[test]
fn test_broadcast_bottom_dims_repeats_each_element() {
    let mut ids = IdAllocator::new();
    let a = tensor(&[1.0, 2.0, 3.0], &[3], &mut ids);
    let up = a.duplicate().broadcast_bottom_dims_like(&shape(&[3, 2]));
    assert_eq!(up.array(), reals(&[1.0, 1.0, 2.0, 2.0, 3.0, 3.0]));
    assert!(matches!(
        a.try_broadcast_bottom_dims_like(&shape(&[2, 3])),
        Err(Error::ShapeMismatch)
    ));
}

#[test]
fn test_scalar_broadcast_to_rank_3_and_back() {
    // forward: one number seen 2 * 3 * 4 times; backward: one accumulated value
    let mut ids = IdAllocator::new();
    let x = tensor(&[1.5], &[], &mut ids);
    let up = x
        .leaky_trace()
        .broadcast_like(&shape(&[2, 3, 4]), &axes(&[0, 1, 2]));
    assert_eq!(up.array(), reals(&[1.5; 24]));
    assert_eq!(up.data().len(), 1);
    let total = sum(up, &mut ids);
    assert_eq!(total.array(), reals(&[36.0]));
    let g = total.backward().unwrap();
    assert_eq!(g.read(x.id()).unwrap(), &reals(&[24.0]));
}

#[test]
fn test_gradient_accumulates_over_two_consumers() {
    // x feeds two operations; its gradient is the sum of both contributions
    let mut ids = IdAllocator::new();
    let x = tensor(&[-1.0, 2.0], &[2], &mut ids);
    let left = x.leaky_trace().leaky_relu(Real(0.5), &mut ids);
    let right = x.leaky_trace().leaky_relu(Real(0.25), &mut ids);
    let joined = try_binary_op(Mul, left, right, &mut ids).unwrap();
    let g = joined.sum(&mut ids).backward().unwrap();
    // d/dx (0.5 x * 0.25 x) = 0.25 x for x < 0, d/dx (x * x) = 2 x otherwise
    assert_eq!(g.read(x.id()).unwrap(), &reals(&[-0.25, 4.0]));
}

#[test]
fn test_merge_order_does_not_change_gradients() {
    let mut ids = IdAllocator::new();
    let x = tensor(&[-1.0, 2.0], &[2], &mut ids);
    let y = tensor(&[3.0, -4.0], &[2], &mut ids);
    let fx = x.leaky_trace().leaky_relu(Real(0.5), &mut ids);
    let fy = y.leaky_trace().leaky_relu(Real(0.1), &mut ids);
    let one_way = try_binary_op(Mul, fx, fy, &mut ids)
        .unwrap()
        .sum(&mut ids)
        .backward()
        .unwrap();
    let fx = x.leaky_trace().leaky_relu(Real(0.5), &mut ids);
    let fy = y.leaky_trace().leaky_relu(Real(0.1), &mut ids);
    let other_way = try_binary_op(Mul, fy, fx, &mut ids)
        .unwrap()
        .sum(&mut ids)
        .backward()
        .unwrap();
    assert_eq!(one_way.read(x.id()), other_way.read(x.id()));
    assert_eq!(one_way.read(y.id()), other_way.read(y.id()));
    assert_close(&floats(one_way.read(x.id()).unwrap()), &[1.5, -0.4], 1e-12);
    assert_close(&floats(one_way.read(y.id()).unwrap()), &[-0.5, 0.2], 1e-12);
}

#[test]
fn test_untraced_operations_record_nothing() {
    let mut ids = IdAllocator::new();
    let x = tensor(&[-1.0, 2.0], &[2], &mut ids);
    let r = x.duplicate().leaky_relu(Real(0.5), &mut ids).sum(&mut ids);
    assert!(!r.is_traced());
    assert!(matches!(r.backward(), Err(Error::NonScalarOutput)));
}

#[test]
fn test_backward_needs_a_scalar() {
    let mut ids = IdAllocator::new();
    let x = tensor(&[-1.0, 2.0], &[2], &mut ids);
    let r = x.leaky_trace().leaky_relu(Real(0.5), &mut ids);
    assert!(matches!(r.backward(), Err(Error::NonScalarOutput)));
}

#[test]
fn test_gradient_of_a_tensor_that_took_no_part_is_missing() {
    let mut ids = IdAllocator::new();
    let x = tensor(&[-1.0], &[], &mut ids);
    let other = tensor(&[7.0], &[], &mut ids);
    let g = x
        .leaky_trace()
        .leaky_relu(Real(0.5), &mut ids)
        .backward()
        .unwrap();
    assert_eq!(g.read(other.id()), Err(Error::MissingGradient));
    assert!(g.contains(x.id()));
}

#[test]
fn test_detached_tensor_is_a_leaf() {
    let mut ids = IdAllocator::new();
    let x = tensor(&[-1.0], &[], &mut ids);
    let traced = x.leaky_trace().leaky_relu(Real(0.5), &mut ids);
    assert!(traced.is_traced());
    let (value, tape) = traced.split_tape();
    assert!(!value.is_traced());
    assert_eq!(tape.as_ref().map(|t| t.len()), Some(1));
    let again = value.duplicate().put_tape(tape);
    assert!(again.is_traced());
    assert!(!again.detach().is_traced());
}
