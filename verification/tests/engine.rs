use dfdx::dtype::Dtype;
use dfdx::error::Error;
use dfdx::gradients::Gradients;
use dfdx::nn::activations::ReLU;
use dfdx::nn::module::{CanUpdateWithGradients, GradientProvider, Module, ModuleMut, UnusedTensors};
use dfdx::nn::transformer::encoder::TransformerEncoderBlock;
use dfdx::shapes::axes::Axes;
use dfdx::shapes::broadcasts::{
    BroadcastBottomDimsTo, BroadcastStridesTo, BroadcastTopDimsTo, ReduceBottomDimsTo,
    ReduceStridesTo, ReduceTopDimsTo,
};
use dfdx::shapes::shape::Shape;
use dfdx::shapes::strided::offset_table;
use dfdx::tape::{BackwardOp, InputGrad, OwnedTape, Term};
use dfdx::tensor::Tensor;
use dfdx::tensor_ops::broadcast_to::BroadcastTo;
use dfdx::tensor_ops::leaky_relu::LeakyReLUKernelOp;
use dfdx::tensor_ops::ops::{BinaryDerivative, UnaryDerivative};
use dfdx::tensor_ops::prelu::PReLUKernelOp;
use dfdx::unique_id::{unique_id, HasUniqueId, IdAllocator, UniqueId};

fn shape(dims: &[usize]) -> Shape {
    Shape::new(dims.to_vec()).unwrap()
}

fn axes(idx: &[usize]) -> Axes {
    Axes::new(idx.to_vec()).unwrap()
}

/// The record of an operation that multiplies its input of one element by `coeff`.
fn scale(inp: usize, out: usize, coeff: i64) -> BackwardOp<i64> {
    BackwardOp {
        out: UniqueId(out),
        out_len: 1,
        inputs: vec![InputGrad {
            id: UniqueId(inp),
            len: 1,
            terms: vec![Term {
                inp_index: 0,
                out_index: 0,
                coeff,
            }],
        }],
    }
}

fn seeded(id: usize) -> Gradients<i64> {
    let mut store = Gradients::new();
    store.accumulate(&UniqueId(id), &vec![1]).unwrap();
    store
}

#[test]
fn test_unique_ids_increase() {
    let mut ids = IdAllocator::new();
    let a = unique_id(&mut ids);
    let b = unique_id(&mut ids);
    let c = unique_id(&mut ids);
    assert_eq!(a, UniqueId(0));
    assert_eq!(*b, 1);
    assert_eq!(*c, 2);
    assert_ne!(a, b);
}

#[test]
fn test_integer_elements() {
    assert_eq!(<i64 as Dtype>::zero(), 0);
    assert_eq!(<i64 as Dtype>::one(), 1);
    assert_eq!(3i64.plus(4), 7);
    assert_eq!(i64::MAX.plus(1), i64::MIN);
    assert_eq!(3i64.times(-4), -12);
    assert!((-1i64).below_zero());
    assert!(!0i64.below_zero());
    assert_eq!(7i64.div_count(2), 3);
    assert_eq!((-7i64).div_count(2), -3);
    assert_eq!((-8i64).div_count(2), -4);
    assert_eq!(i64::MIN.div_count(2), i64::MIN / 2);
    assert_eq!(i64::MIN.div_count(1), i64::MIN);
    assert_eq!(i64::MIN.div_count(3), i64::MIN / 3);
    assert_eq!(5i64.div_count(0), 0);
    assert_eq!(5i64.div_count(usize::MAX), 0);
}

#[test]
fn test_leaky_relu_kernel() {
    let op = LeakyReLUKernelOp { alpha: 3i64 };
    assert_eq!(op.f(&-2), -6);
    assert_eq!(op.f(&2), 2);
    assert_eq!(op.f(&0), 0);
    assert_eq!(op.df(&-2), 3);
    assert_eq!(op.df(&2), 1);
    assert_eq!(op.df(&0), 1);
}

#[test]
fn test_prelu_kernel() {
    let op = PReLUKernelOp;
    assert_eq!(op.f(&-2i64, &5), -10);
    assert_eq!(op.f(&2i64, &5), 2);
    assert_eq!(op.dfdx(&-2i64, &5), 5);
    assert_eq!(op.dfdx(&2i64, &5), 1);
    assert_eq!(op.dfdy(&-2i64, &5), -2);
    assert_eq!(op.dfdy(&2i64, &5), 0);
}

#[test]
fn test_shape_limits() {
    assert!(Shape::new(vec![1; 6]).is_some());
    assert!(Shape::new(vec![1; 7]).is_none());
    assert!(Shape::new(vec![usize::MAX, 2]).is_none());
    assert!(Shape::new(vec![usize::MAX, 0, 2]).is_none());
    assert!(Shape::new(vec![usize::MAX, 0]).is_some());
    assert_eq!(Shape::scalar().num_dims(), 0);
    assert_eq!(Shape::scalar().num_elements(), 1);
    assert_eq!(shape(&[2, 0, 4]).num_elements(), 0);
    assert_eq!(shape(&[2, 3, 4]).num_elements(), 24);
    assert_eq!(shape(&[2, 3, 4]).strides(), vec![12, 4, 1]);
    assert_eq!(shape(&[2, 3, 4]).concrete(), vec![2, 3, 4]);
}

#[test]
fn test_axes_limits() {
    assert!(Axes::new(vec![]).is_some());
    assert!(Axes::new(vec![0, 1, 2, 3, 4, 5]).is_some());
    assert!(Axes::new(vec![6]).is_none());
    assert!(Axes::new(vec![1, 1]).is_none());
    assert!(Axes::new(vec![2, 1]).is_none());
    assert_eq!(Axes::range(1, 2), Some(axes(&[1, 2])));
    assert_eq!(Axes::range(0, 0), Some(axes(&[])));
    assert!(Axes::range(5, 2).is_none());
    assert!(axes(&[1, 3]).contains(3));
    assert!(!axes(&[1, 3]).contains(2));
    assert_eq!(axes(&[1, 3]).len(), 2);
}

#[test]
fn test_top_and_bottom_axes() {
    let small = shape(&[3]);
    let large = shape(&[5, 7, 3]);
    assert_eq!(small.broadcast_top_axes(&large), Ok(axes(&[0, 1])));
    assert_eq!(large.reduce_top_axes(&small), Ok(axes(&[0, 1])));
    assert_eq!(small.broadcast_bottom_axes(&large), Ok(axes(&[1, 2])));
    assert_eq!(large.reduce_bottom_axes(&small), Ok(axes(&[1, 2])));
    assert_eq!(large.broadcast_top_axes(&small), Err(Error::ShapeMismatch));
    assert_eq!(small.reduce_bottom_axes(&large), Err(Error::ShapeMismatch));
    assert_eq!(small.broadcast_top_axes(&small), Ok(axes(&[])));
}

#[test]
fn test_reduce_rejects_axes_beyond_the_rank() {
    assert_eq!(
        shape(&[2, 3]).reduced(&axes(&[2])),
        Err(Error::ShapeMismatch)
    );
    assert_eq!(shape(&[2, 3]).reduced(&axes(&[])), Ok(shape(&[2, 3])));
    assert_eq!(shape(&[2, 3]).reduced(&axes(&[0, 1])), Ok(Shape::scalar()));
}

#[test]
fn test_broadcast_strides_reduce_round_trip() {
    let src = shape(&[7, 9]);
    let dst = shape(&[3, 7, 5, 9]);
    let along = axes(&[0, 2]);
    assert_eq!(src.check(&dst, &along), Ok(()));
    let strides = src.broadcast_strides(&src.strides(), &dst, &along).unwrap();
    assert_eq!(strides, vec![0, 9, 0, 1]);
    assert_eq!(dst.reduced(&along), Ok(src));
    // the strides that are left without the broadcast axes are those of the buffer
    assert_eq!(vec![strides[1], strides[3]], shape(&[7, 9]).strides());
}

#[test]
fn test_broadcast_strides_rejects_wrong_ranks() {
    let src = shape(&[7]);
    assert_eq!(
        src.broadcast_strides(&vec![1], &shape(&[3, 7, 5]), &axes(&[0])),
        Err(Error::ShapeMismatch)
    );
    assert_eq!(
        src.broadcast_strides(&vec![1, 1], &shape(&[3, 7]), &axes(&[0])),
        Err(Error::ShapeMismatch)
    );
    assert_eq!(
        src.broadcast_strides(&vec![1], &shape(&[3, 7]), &axes(&[2])),
        Err(Error::ShapeMismatch)
    );
}

#[test]
fn test_offsets_of_views() {
    assert_eq!(offset_table(&vec![2, 3], &vec![3, 1]), vec![0, 1, 2, 3, 4, 5]);
    assert_eq!(offset_table(&vec![2, 3], &vec![0, 1]), vec![0, 1, 2, 0, 1, 2]);
    assert_eq!(offset_table(&vec![2, 3], &vec![1, 0]), vec![0, 0, 0, 1, 1, 1]);
    assert_eq!(offset_table(&vec![], &vec![]), vec![0]);
    assert_eq!(offset_table(&vec![2, 0], &vec![0, 1]), Vec::<usize>::new());
}

#[test]
fn test_tensor_needs_as_many_numbers_as_its_shape() {
    let mut ids = IdAllocator::new();
    assert!(matches!(
        Tensor::new(vec![1i64, 2, 3], shape(&[2, 2]), &mut ids),
        Err(Error::ShapeMismatch)
    ));
    let t = Tensor::new(vec![1i64, 2, 3, 4], shape(&[2, 2]), &mut ids).unwrap();
    assert_eq!(t.id(), &UniqueId(0));
    assert_eq!(t.strides(), &vec![2, 1]);
    assert_eq!(t.data(), &vec![1, 2, 3, 4]);
    assert_eq!(t.offsets(), vec![0, 1, 2, 3]);
}

#[test]
fn test_integer_leaky_relu_backward() {
    let mut ids = IdAllocator::new();
    let x = Tensor::new(vec![-2i64, 5], shape(&[2]), &mut ids).unwrap();
    let r = x.leaky_trace().leaky_relu(3, &mut ids);
    assert_eq!(r.array(), vec![-6, 5]);
    let g = r.sum(&mut ids).backward().unwrap();
    // zero for the empty start, one for the seed and for what is not below zero
    assert_eq!(g.read(x.id()).unwrap(), &vec![3, 1]);
}

#[test]
fn test_gradients_start_at_zero_and_accumulate() {
    let mut store: Gradients<i64> = Gradients::new();
    let id = UniqueId(4);
    assert_eq!(store.read(&id), Err(Error::MissingGradient));
    assert!(!store.contains(&id));
    assert_eq!(*store.get_or_init(&id, 3), vec![0, 0, 0]);
    assert!(store.contains(&id));
    assert_eq!(store.accumulate(&id, &vec![1, 2, 3]), Ok(()));
    assert_eq!(store.accumulate(&id, &vec![10, 20, 30]), Ok(()));
    assert_eq!(store.read(&id), Ok(&vec![11, 22, 33]));
    // a later request does not reset it, and what is written through it stays
    assert_eq!(*store.get_or_init(&id, 3), vec![11, 22, 33]);
    store.get_or_init(&id, 3)[0] = 12;
    assert_eq!(store.read(&id), Ok(&vec![12, 22, 33]));
    store.get_or_init(&id, 3)[0] = 11;
    assert_eq!(store.accumulate(&id, &vec![1]), Err(Error::ShapeMismatch));
    assert_eq!(store.read(&id), Ok(&vec![11, 22, 33]));
    assert_eq!(store.accumulate(&UniqueId(5), &vec![7]), Ok(()));
    assert_eq!(store.read(&UniqueId(5)), Ok(&vec![7]));
}

#[test]
fn test_replay_runs_in_reverse_recording_order() {
    // A -> B -> C: the gradient reaches the leaf only if C runs first, then B, then A
    let mut tape: OwnedTape<i64> = OwnedTape::new();
    tape.record(scale(0, 1, 2));
    tape.record(scale(1, 2, 3));
    tape.record(scale(2, 3, 5));
    assert_eq!(tape.len(), 3);
    let g = tape.execute(seeded(3)).unwrap();
    assert_eq!(g.read(&UniqueId(3)), Ok(&vec![1]));
    assert_eq!(g.read(&UniqueId(2)), Ok(&vec![5]));
    assert_eq!(g.read(&UniqueId(1)), Ok(&vec![15]));
    assert_eq!(g.read(&UniqueId(0)), Ok(&vec![30]));

    // recorded the other way round, nothing but the last step is reached
    let mut tape: OwnedTape<i64> = OwnedTape::new();
    tape.record(scale(2, 3, 5));
    tape.record(scale(1, 2, 3));
    tape.record(scale(0, 1, 2));
    let g = tape.execute(seeded(3)).unwrap();
    assert_eq!(g.read(&UniqueId(2)), Ok(&vec![5]));
    assert_eq!(g.read(&UniqueId(1)), Ok(&vec![0]));
    assert_eq!(g.read(&UniqueId(0)), Ok(&vec![0]));
}

#[test]
fn test_single_operation_applies_once() {
    let mut store = seeded(1);
    assert_eq!(scale(0, 1, 7).apply(&mut store), Ok(()));
    assert_eq!(store.read(&UniqueId(0)), Ok(&vec![7]));
    assert_eq!(scale(0, 1, 7).apply(&mut store), Ok(()));
    assert_eq!(store.read(&UniqueId(0)), Ok(&vec![14]));
}

#[test]
fn test_merged_tape_is_the_concatenation() {
    let mut a: OwnedTape<i64> = OwnedTape::new();
    a.record(scale(0, 2, 2));
    let mut b: OwnedTape<i64> = OwnedTape::new();
    b.record(scale(1, 3, 3));
    let mut merged = a.merge(b);
    assert_eq!(merged.len(), 2);
    // the joining operation: 4 = f(2, 3)
    merged.record(BackwardOp {
        out: UniqueId(4),
        out_len: 1,
        inputs: vec![
            InputGrad {
                id: UniqueId(2),
                len: 1,
                terms: vec![Term {
                    inp_index: 0,
                    out_index: 0,
                    coeff: 5,
                }],
            },
            InputGrad {
                id: UniqueId(3),
                len: 1,
                terms: vec![Term {
                    inp_index: 0,
                    out_index: 0,
                    coeff: 7,
                }],
            },
        ],
    });
    let g = merged.execute(seeded(4)).unwrap();
    assert_eq!(g.read(&UniqueId(0)), Ok(&vec![10]));
    assert_eq!(g.read(&UniqueId(1)), Ok(&vec![21]));
}

#[test]
fn test_replay_reports_a_gradient_of_another_length() {
    let mut tape: OwnedTape<i64> = OwnedTape::new();
    tape.record(BackwardOp {
        out: UniqueId(1),
        out_len: 2,
        inputs: vec![],
    });
    assert!(matches!(
        tape.execute(seeded(1)),
        Err(Error::ShapeMismatch)
    ));

    let mut tape: OwnedTape<i64> = OwnedTape::new();
    tape.record(BackwardOp {
        out: UniqueId(1),
        out_len: 1,
        inputs: vec![InputGrad {
            id: UniqueId(0),
            len: 1,
            terms: vec![Term {
                inp_index: 1,
                out_index: 0,
                coeff: 1,
            }],
        }],
    });
    assert!(matches!(
        tape.execute(seeded(1)),
        Err(Error::ShapeMismatch)
    ));
}

#[test]
fn test_broadcast_keeps_id_buffer_and_tape() {
    let mut ids = IdAllocator::new();
    let x = Tensor::new(vec![1i64, 2, 3], shape(&[3]), &mut ids).unwrap();
    let traced = x.leaky_trace().leaky_relu(2, &mut ids);
    let id = *traced.id();
    let up = traced
        .try_broadcast_top_dims_like(&shape(&[2, 3]))
        .unwrap();
    assert_eq!(up.id(), &id);
    assert_eq!(up.data(), &vec![1, 2, 3]);
    assert!(up.is_traced());
    assert_eq!(up.array(), vec![1, 2, 3, 1, 2, 3]);
}

/// A layer that multiplies by a slope of two where the input is below zero.
struct Leaky;

impl Module<Tensor<i64>> for Leaky {
    type Output = Tensor<i64>;

    fn forward(&self, input: Tensor<i64>, ids: &mut IdAllocator) -> Tensor<i64> {
        input.leaky_relu(2, ids)
    }
}

/// A layer over three tensors that hands the first one on.
struct First;

impl Module<(Tensor<i64>, Tensor<i64>, Tensor<i64>)> for First {
    type Output = Tensor<i64>;

    fn forward(
        &self,
        input: (Tensor<i64>, Tensor<i64>, Tensor<i64>),
        ids: &mut IdAllocator,
    ) -> Tensor<i64> {
        assert!(input.0.is_traced());
        assert!(!input.1.is_traced());
        assert!(!input.2.is_traced());
        input.0.leaky_relu(1, ids)
    }
}

/// A layer over three tensors that gives back a tensor of another shape.
struct Flatten;

impl Module<(Tensor<i64>, Tensor<i64>, Tensor<i64>)> for Flatten {
    type Output = Tensor<i64>;

    fn forward(
        &self,
        input: (Tensor<i64>, Tensor<i64>, Tensor<i64>),
        ids: &mut IdAllocator,
    ) -> Tensor<i64> {
        input.0.sum(ids)
    }
}

#[test]
fn test_encoder_block_keeps_one_tape() {
    let mut ids = IdAllocator::new();
    let block = TransformerEncoderBlock {
        self_attn: First,
        norm1: ReLU,
        ff: Leaky,
        norm2: ReLU,
    };
    let x = Tensor::new(vec![-3i64, 4], shape(&[2]), &mut ids).unwrap();
    let y = block.forward(x.leaky_trace(), &mut ids).unwrap();
    // attention: [-3, 4]; plus the input: [-6, 8]; rectified: [0, 8]; leaky: [0, 8]
    assert_eq!(y.array(), vec![0, 8]);
    assert!(y.is_traced());
    let g = y.sum(&mut ids).backward().unwrap();
    // the first element is cut off by the rectifier, the second arrives twice
    assert_eq!(g.read(x.id()), Ok(&vec![0, 2]));
}

#[test]
fn test_encoder_block_reports_a_changed_shape() {
    let mut ids = IdAllocator::new();
    let mut block = TransformerEncoderBlock {
        self_attn: Flatten,
        norm1: ReLU,
        ff: ReLU,
        norm2: ReLU,
    };
    let x = Tensor::new(vec![-3i64, 4], shape(&[2]), &mut ids).unwrap();
    assert!(matches!(
        block.forward_mut(x.leaky_trace(), &mut ids),
        Err(Error::ShapeMismatch)
    ));
}

#[test]
fn test_gradients_are_handed_out_once() {
    let mut store: Gradients<i64> = Gradients::new();
    store.accumulate(&UniqueId(1), &vec![4, 5]).unwrap();
    assert_eq!(store.gradient(&UniqueId(1)), Some(vec![4, 5]));
    assert_eq!(store.gradient(&UniqueId(1)), None);
    assert_eq!(store.gradient(&UniqueId(2)), None);
    let mut unused = UnusedTensors::default();
    unused.add(&UniqueId(2));
    assert_eq!(unused.ids, vec![UniqueId(2)]);
    let mut block = TransformerEncoderBlock {
        self_attn: ReLU,
        norm1: ReLU,
        ff: ReLU,
        norm2: ReLU,
    };
    store.accumulate(&UniqueId(3), &vec![1]).unwrap();
    CanUpdateWithGradients::<i64>::update(&mut block, &mut store, &mut unused);
    // a block without parameters takes no gradient and misses none
    assert_eq!(store.read(&UniqueId(3)), Ok(&vec![1]));
    assert_eq!(unused.ids, vec![UniqueId(2)]);
}
