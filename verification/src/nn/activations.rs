use super::module::{CanUpdateWithGradients, GradientProvider, Module, UnusedTensors};
use crate::dtype::Dtype;
use crate::tensor::Tensor;
use crate::tensor_ops::leaky_relu::LeakyReLUKernelOp;
use crate::tensor_ops::ops::unary_result;
use crate::unique_id::{id_after, IdAllocator, UniqueId};
use vstd::prelude::*;

verus! {

/// The rectifier as a layer: the leaky rectifier with slope zero.
#[derive(Debug, Default, Clone, Copy)]
pub struct ReLU;

impl<E: Dtype> Module<Tensor<E>> for ReLU {
    type Output = Tensor<E>;

    open spec fn computes(&self, input: Tensor<E>, first: usize, out: Tensor<E>, next: usize) -> bool {
        &&& unary_result(LeakyReLUKernelOp { alpha: E::spec_zero() }, input, out, first)
        &&& next == id_after(first)
    }

    fn forward(&self, input: Tensor<E>, ids: &mut IdAllocator) -> (out: Tensor<E>) {
        input.leaky_relu(E::zero(), ids)
    }
}

/// The rectifier has no parameters: an update leaves everything as it is.
impl<E: Dtype> CanUpdateWithGradients<E> for ReLU {
    open spec fn updates(
        &self,
        grads: Option<Map<usize, Seq<E>>>,
        unused: Seq<UniqueId>,
        after: &Self,
        grads_after: Option<Map<usize, Seq<E>>>,
        unused_after: Seq<UniqueId>,
    ) -> bool {
        grads_after == grads && unused_after == unused
    }

    fn update<G: GradientProvider<E>>(&mut self, grads: &mut G, unused: &mut UnusedTensors) {
    }
}

} // verus!
