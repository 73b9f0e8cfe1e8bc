use super::ops::{try_unary_op, unary_result, UnaryDerivative};
use crate::dtype::Dtype;
use crate::error::Error;
use crate::tensor::Tensor;
use crate::unique_id::{id_after, IdAllocator};
use vstd::prelude::*;

verus! {

/// The function that leaves a number that is not below zero as it is and
/// multiplies one below zero by `alpha`.
#[derive(Debug, Clone, Copy)]
pub struct LeakyReLUKernelOp<E> {
    pub alpha: E,
}

impl<E: Dtype> UnaryDerivative<E> for LeakyReLUKernelOp<E> {
    open spec fn spec_f(&self, x: E) -> E {
        if x.spec_below_zero() {
            x.spec_times(self.alpha)
        } else {
            x
        }
    }

    open spec fn spec_df(&self, x: E) -> E {
        if x.spec_below_zero() {
            self.alpha
        } else {
            E::spec_one()
        }
    }

    #[inline(always)]
    fn f(&self, x: &E) -> (y: E) {
        if x.below_zero() {
            x.times(self.alpha)
        } else {
            *x
        }
    }

    #[inline(always)]
    fn df(&self, x: &E) -> (y: E) {
        if x.below_zero() {
            self.alpha
        } else {
            E::one()
        }
    }
}

/// Applies the leaky rectifier with slope `alpha` to each element of `t`.
pub fn leaky_relu<E: Dtype>(t: Tensor<E>, alpha: E, ids: &mut IdAllocator) -> (out: Tensor<E>)
    ensures
        unary_result(LeakyReLUKernelOp { alpha }, t, out, old(ids).next_ordinal()),
        final(ids).next_ordinal() == id_after(old(ids).next_ordinal()),
{
    t.leaky_relu(alpha, ids)
}

impl<E: Dtype> Tensor<E> {
    /// See [`leaky_relu`].
    pub fn leaky_relu(self, alpha: E, ids: &mut IdAllocator) -> (out: Tensor<E>)
        ensures
            unary_result(LeakyReLUKernelOp { alpha }, self, out, old(ids).next_ordinal()),
            final(ids).next_ordinal() == id_after(old(ids).next_ordinal()),
    {
        self.try_leaky_relu(alpha, ids).unwrap()
    }

    /// See [`leaky_relu`]. It does not fail.
    pub fn try_leaky_relu(self, alpha: E, ids: &mut IdAllocator) -> (r: Result<Tensor<E>, Error>)
        ensures
            r matches Ok(out) && unary_result(
                LeakyReLUKernelOp { alpha },
                self,
                out,
                old(ids).next_ordinal(),
            ),
            final(ids).next_ordinal() == id_after(old(ids).next_ordinal()),
    {
        try_unary_op(LeakyReLUKernelOp { alpha }, self, ids)
    }
}

} // verus!
