use super::ops::{binary_result, try_binary_op, BinaryDerivative};
use crate::dtype::Dtype;
use crate::error::Error;
use crate::tensor::Tensor;
use crate::unique_id::{id_after, IdAllocator};
use vstd::prelude::*;

verus! {

/// The function of a number and a slope that leaves a number that is not
/// below zero as it is and multiplies one below zero by the slope.
#[derive(Debug, Default, Clone, Copy)]
pub struct PReLUKernelOp;

impl<E: Dtype> BinaryDerivative<E> for PReLUKernelOp {
    open spec fn spec_f(&self, x: E, alpha: E) -> E {
        if x.spec_below_zero() {
            x.spec_times(alpha)
        } else {
            x
        }
    }

    open spec fn spec_dfdx(&self, x: E, alpha: E) -> E {
        if x.spec_below_zero() {
            alpha
        } else {
            E::spec_one()
        }
    }

    open spec fn spec_dfdy(&self, x: E, alpha: E) -> E {
        if x.spec_below_zero() {
            x
        } else {
            E::spec_zero()
        }
    }

    #[inline(always)]
    fn f(&self, x: &E, alpha: &E) -> (z: E) {
        if x.below_zero() {
            x.times(*alpha)
        } else {
            *x
        }
    }

    #[inline(always)]
    fn dfdx(&self, x: &E, alpha: &E) -> (z: E) {
        if x.below_zero() {
            *alpha
        } else {
            E::one()
        }
    }

    #[inline(always)]
    fn dfdy(&self, x: &E, alpha: &E) -> (z: E) {
        if x.below_zero() {
            *x
        } else {
            E::zero()
        }
    }
}

/// Applies the rectifier with a slope of its own for each element: element by
/// element, `t` below zero is multiplied by `alpha`. The two have one shape.
pub fn prelu<E: Dtype>(t: Tensor<E>, alpha: Tensor<E>, ids: &mut IdAllocator) -> (out: Tensor<E>)
    requires
        t.dims() == alpha.dims(),
    ensures
        binary_result(PReLUKernelOp, t, alpha, out, old(ids).next_ordinal()),
        final(ids).next_ordinal() == id_after(old(ids).next_ordinal()),
{
    t.prelu(alpha, ids)
}

impl<E: Dtype> Tensor<E> {
    /// See [`prelu`].
    pub fn prelu(self, alpha: Tensor<E>, ids: &mut IdAllocator) -> (out: Tensor<E>)
        requires
            self.dims() == alpha.dims(),
        ensures
            binary_result(PReLUKernelOp, self, alpha, out, old(ids).next_ordinal()),
            final(ids).next_ordinal() == id_after(old(ids).next_ordinal()),
    {
        self.try_prelu(alpha, ids).unwrap()
    }

    /// See [`prelu`]. Fails if the two tensors do not have the same shape.
    pub fn try_prelu(self, prob: Tensor<E>, ids: &mut IdAllocator) -> (r: Result<Tensor<E>, Error>)
        ensures
            r is Ok <==> self.dims() == prob.dims(),
            r matches Ok(out) ==> binary_result(
                PReLUKernelOp,
                self,
                prob,
                out,
                old(ids).next_ordinal(),
            ),
            r is Ok ==> final(ids).next_ordinal() == id_after(old(ids).next_ordinal()),
            r is Err ==> r == Err::<Tensor<E>, Error>(Error::ShapeMismatch) && *final(ids) == *old(
                ids,
            ),
    {
        try_binary_op(PReLUKernelOp, self, prob, ids)
    }
}

} // verus!
