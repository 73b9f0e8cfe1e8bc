use crate::dtype::Dtype;
use crate::error::Error;
use crate::nn::module::{
    CanUpdateWithGradients, GradientProvider, Module, ModuleMut, UnusedTensors,
};
use crate::tensor::Tensor;
use crate::tensor_ops::add::{try_add, AddKernelOp};
use crate::tensor_ops::ops::binary_result;
use crate::unique_id::{id_after, IdAllocator, UniqueId};
use vstd::prelude::*;

verus! {

/// A single transformer encoder block
///
/// Generics
/// - `A`: The self attention, a layer over a query, a key and a value.
/// - `N`: The normalization after the attention and after the feedforward
///   network.
/// - `F`: The feedforward network.
#[derive(Clone, Debug, Default)]
pub struct TransformerEncoderBlock<A, N, F> {
    pub self_attn: A,
    pub norm1: N,
    pub ff: F,
    pub norm2: N,
}

impl<A, N, F> TransformerEncoderBlock<A, N, F> {
    /// The first step of the block: the attention sees the input three times,
    /// as query with the tape of the input and as key and value without a
    /// tape, so that the history of the input is on one tape only.
    pub open spec fn attends<E>(
        &self,
        src: Tensor<E>,
        first: usize,
        query: Tensor<E>,
        key: Tensor<E>,
        value: Tensor<E>,
        attended: Tensor<E>,
        next: usize,
    ) -> bool where A: Module<(Tensor<E>, Tensor<E>, Tensor<E>), Output = Tensor<E>> {
        &&& query.same_view(&src) && query.tape() == src.tape()
        &&& key.same_view(&src) && key.tape() is None
        &&& value.same_view(&src) && value.tape() is None
        &&& self.self_attn.computes((query, key, value), first, attended, next)
    }

    /// The rest of the block: the input is added to what the attention
    /// computed, and the sum goes through the first normalization, the
    /// feedforward network and the second normalization.
    pub open spec fn finishes<E: Dtype>(
        &self,
        attended: Tensor<E>,
        residual: Tensor<E>,
        first: usize,
        summed: Tensor<E>,
        normed: Tensor<E>,
        after_norm: usize,
        fed: Tensor<E>,
        after_ff: usize,
        out: Tensor<E>,
        next: usize,
    ) -> bool where
        N: Module<Tensor<E>, Output = Tensor<E>>,
        F: Module<Tensor<E>, Output = Tensor<E>>,
     {
        &&& binary_result(AddKernelOp, attended, residual, summed, first)
        &&& self.norm1.computes(summed, id_after(first), normed, after_norm)
        &&& self.ff.computes(normed, after_norm, fed, after_ff)
        &&& self.norm2.computes(fed, after_ff, out, next)
    }

    /// Whether `out` is what the rest of the block makes of what the attention
    /// computed.
    pub open spec fn completes<E: Dtype>(
        &self,
        attended: Tensor<E>,
        residual: Tensor<E>,
        first: usize,
        out: Tensor<E>,
        next: usize,
    ) -> bool where
        N: Module<Tensor<E>, Output = Tensor<E>>,
        F: Module<Tensor<E>, Output = Tensor<E>>,
     {
        exists|
            summed: Tensor<E>,
            normed: Tensor<E>,
            after_norm: usize,
            fed: Tensor<E>,
            after_ff: usize,
        |
            #[trigger] self.finishes(
                attended,
                residual,
                first,
                summed,
                normed,
                after_norm,
                fed,
                after_ff,
                out,
                next,
            )
    }
}

impl<E: Dtype, A, N, F> Module<Tensor<E>> for TransformerEncoderBlock<A, N, F> where
    A: Module<(Tensor<E>, Tensor<E>, Tensor<E>), Output = Tensor<E>>,
    N: Module<Tensor<E>, Output = Tensor<E>>,
    F: Module<Tensor<E>, Output = Tensor<E>>,
 {
    type Output = Result<Tensor<E>, Error>;

    /// The block fails exactly if the attention changes the shape of its
    /// input, which can then not be added to what the attention computed.
    open spec fn computes(
        &self,
        src: Tensor<E>,
        first: usize,
        out: Result<Tensor<E>, Error>,
        next: usize,
    ) -> bool {
        exists|
            query: Tensor<E>,
            key: Tensor<E>,
            value: Tensor<E>,
            attended: Tensor<E>,
            after_attn: usize,
        |
            {
                &&& #[trigger] self.attends(src, first, query, key, value, attended, after_attn)
                &&& match out {
                    Err(e) => {
                        &&& e == Error::ShapeMismatch
                        &&& attended.dims() != src.dims()
                        &&& next == after_attn
                    },
                    Ok(out) => {
                        &&& attended.dims() == src.dims()
                        &&& self.completes(attended, key, after_attn, out, next)
                    },
                }
            }
    }

    fn forward(&self, src: Tensor<E>, ids: &mut IdAllocator) -> (out: Result<Tensor<E>, Error>) {
        let ghost first = ids.next_ordinal();
        let ghost input = src;
        let (src, tape) = src.split_tape();
        let query = src.duplicate().put_tape(tape);
        let key = src.duplicate();
        let value = src.duplicate();
        let ghost seen = (query, key, value);
        let x = self.self_attn.forward((query, key, value), ids);
        let ghost after_attn = ids.next_ordinal();
        let ghost attended = x;
        assert(self.attends(input, first, seen.0, seen.1, seen.2, attended, after_attn));
        let x = match try_add(x, src, ids) {
            Ok(x) => x,
            Err(e) => {
                assert(self.computes(input, first, Err(e), after_attn));
                return Err(e);
            },
        };
        let ghost summed = x;
        let x = self.norm1.forward(x, ids);
        let ghost normed = x;
        let ghost after_norm = ids.next_ordinal();
        let x = self.ff.forward(x, ids);
        let ghost fed = x;
        let ghost after_ff = ids.next_ordinal();
        let x = self.norm2.forward(x, ids);
        proof {
            let next = ids.next_ordinal();
            assert(self.finishes(
                attended,
                seen.1,
                after_attn,
                summed,
                normed,
                after_norm,
                fed,
                after_ff,
                x,
                next,
            ));
            assert(self.completes(attended, seen.1, after_attn, x, next));
        }
        Ok(x)
    }
}

impl<T, A, N, F> ModuleMut<T> for TransformerEncoderBlock<A, N, F> where Self: Module<T> {
    type Output = <Self as Module<T>>::Output;

    open spec fn computes_mut(
        &self,
        input: T,
        first: usize,
        out: Self::Output,
        next: usize,
        after: &Self,
    ) -> bool {
        self.computes(input, first, out, next) && *after == *self
    }

    fn forward_mut(&mut self, t: T, ids: &mut IdAllocator) -> (out: Self::Output) {
        self.forward(t, ids)
    }
}

impl<E, A, N, F> CanUpdateWithGradients<E> for TransformerEncoderBlock<A, N, F> where
    A: CanUpdateWithGradients<E>,
    N: CanUpdateWithGradients<E>,
    F: CanUpdateWithGradients<E>,
 {
    /// The parts are updated one after the other: the attention, the first
    /// normalization, the feedforward network, the second normalization.
    open spec fn updates(
        &self,
        grads: Option<Map<usize, Seq<E>>>,
        unused: Seq<UniqueId>,
        after: &Self,
        grads_after: Option<Map<usize, Seq<E>>>,
        unused_after: Seq<UniqueId>,
    ) -> bool {
        exists|
            g1: Option<Map<usize, Seq<E>>>,
            u1: Seq<UniqueId>,
            g2: Option<Map<usize, Seq<E>>>,
            u2: Seq<UniqueId>,
            g3: Option<Map<usize, Seq<E>>>,
            u3: Seq<UniqueId>,
        |
            {
                &&& #[trigger] self.self_attn.updates(grads, unused, &after.self_attn, g1, u1)
                &&& #[trigger] self.norm1.updates(g1, u1, &after.norm1, g2, u2)
                &&& #[trigger] self.ff.updates(g2, u2, &after.ff, g3, u3)
                &&& self.norm2.updates(g3, u3, &after.norm2, grads_after, unused_after)
            }
    }

    fn update<G: GradientProvider<E>>(&mut self, grads: &mut G, unused: &mut UnusedTensors) {
        let ghost before = *self;
        let ghost g0 = grads.remaining();
        let ghost u0 = unused.ids@;
        self.self_attn.update(grads, unused);
        let ghost g1 = grads.remaining();
        let ghost u1 = unused.ids@;
        self.norm1.update(grads, unused);
        let ghost g2 = grads.remaining();
        let ghost u2 = unused.ids@;
        self.ff.update(grads, unused);
        let ghost g3 = grads.remaining();
        let ghost u3 = unused.ids@;
        self.norm2.update(grads, unused);
        proof {
            assert(before.self_attn.updates(g0, u0, &self.self_attn, g1, u1));
            assert(before.norm1.updates(g1, u1, &self.norm1, g2, u2));
            assert(before.ff.updates(g2, u2, &self.ff, g3, u3));
            assert(before.norm2.updates(g3, u3, &self.norm2, grads.remaining(), unused.ids@));
        }
    }
}

} // verus!
