use super::ops::{binary_result, try_binary_op, BinaryDerivative};
use crate::dtype::Dtype;
use crate::error::Error;
use crate::tensor::Tensor;
use crate::unique_id::{id_after, IdAllocator};
use vstd::prelude::*;

verus! {

/// The sum of two numbers.
#[derive(Debug, Default, Clone, Copy)]
pub struct AddKernelOp;

impl<E: Dtype> BinaryDerivative<E> for AddKernelOp {
    open spec fn spec_f(&self, x: E, y: E) -> E {
        x.spec_plus(y)
    }

    open spec fn spec_dfdx(&self, x: E, y: E) -> E {
        E::spec_one()
    }

    open spec fn spec_dfdy(&self, x: E, y: E) -> E {
        E::spec_one()
    }

    #[inline(always)]
    fn f(&self, x: &E, y: &E) -> (z: E) {
        x.plus(*y)
    }

    #[inline(always)]
    fn dfdx(&self, x: &E, y: &E) -> (z: E) {
        E::one()
    }

    #[inline(always)]
    fn dfdy(&self, x: &E, y: &E) -> (z: E) {
        E::one()
    }
}

/// The elementwise sum of two tensors. Fails if they do not have the same
/// shape.
pub fn try_add<E: Dtype>(lhs: Tensor<E>, rhs: Tensor<E>, ids: &mut IdAllocator) -> (r: Result<
    Tensor<E>,
    Error,
>)
    ensures
        r is Ok <==> lhs.dims() == rhs.dims(),
        r matches Ok(out) ==> binary_result(AddKernelOp, lhs, rhs, out, old(ids).next_ordinal()),
        r is Ok ==> final(ids).next_ordinal() == id_after(old(ids).next_ordinal()),
        r is Err ==> r == Err::<Tensor<E>, Error>(Error::ShapeMismatch) && *final(ids) == *old(ids),
{
    try_binary_op(AddKernelOp, lhs, rhs, ids)
}

} // verus!
