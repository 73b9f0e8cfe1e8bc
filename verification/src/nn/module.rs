use crate::dtype::Dtype;
use crate::gradients::Gradients;
use crate::unique_id::{IdAllocator, UniqueId};
use vstd::prelude::*;

verus! {

/// A layer: it computes an output from an input, and gives each tensor it
/// makes an id from the allocator.
pub trait Module<Input> {
    type Output;

    /// Whether `out` is what the layer computes from `input` when `first` is
    /// the ordinal of the first id it takes, and `next` the ordinal of the
    /// first id it leaves. A layer that does not say what it computes admits
    /// every output.
    open spec fn computes(&self, input: Input, first: usize, out: Self::Output, next: usize) -> bool {
        true
    }

    fn forward(&self, input: Input, ids: &mut IdAllocator) -> (out: Self::Output)
        ensures
            self.computes(input, old(ids).next_ordinal(), out, final(ids).next_ordinal()),
    ;
}

/// A layer that may change while it computes.
pub trait ModuleMut<Input> {
    type Output;

    /// Whether `out` is what the layer computes from `input`, and `after` what
    /// it is afterwards; `first` and `next` are as in [`Module::computes`]. A
    /// layer that does not say what it computes admits every outcome.
    open spec fn computes_mut(
        &self,
        input: Input,
        first: usize,
        out: Self::Output,
        next: usize,
        after: &Self,
    ) -> bool {
        true
    }

    fn forward_mut(&mut self, input: Input, ids: &mut IdAllocator) -> (out: Self::Output)
        ensures
            old(self).computes_mut(
                input,
                old(ids).next_ordinal(),
                out,
                final(ids).next_ordinal(),
                final(self),
            ),
    ;
}

/// A source of gradients that hands each gradient out once.
pub trait GradientProvider<E> {
    /// The gradients not handed out yet. `None` for a provider that does not
    /// say what it holds.
    open spec fn remaining(&self) -> Option<Map<usize, Seq<E>>> {
        None
    }

    /// Takes the gradient for `id`, if there is one.
    fn gradient(&mut self, id: &UniqueId) -> (g: Option<Vec<E>>)
        ensures
            old(self).remaining() matches Some(held) ==> {
                &&& g is Some <==> held.contains_key(id.0)
                &&& g matches Some(grad) ==> grad@ == held[id.0]
                &&& final(self).remaining() == Some(held.remove(id.0))
            },
    ;
}

impl<E: Dtype> GradientProvider<E> for Gradients<E> {
    open spec fn remaining(&self) -> Option<Map<usize, Seq<E>>> {
        Some(self@)
    }

    fn gradient(&mut self, id: &UniqueId) -> (g: Option<Vec<E>>) {
        if self.contains(id) {
            Some(self.take_or_init(id, 0))
        } else {
            assert(self@.remove(id.0) =~= self@);
            None
        }
    }
}

/// The ids of the parameters that found no gradient in an update.
#[derive(Debug, Default)]
pub struct UnusedTensors {
    pub ids: Vec<UniqueId>,
}

impl UnusedTensors {
    /// Notes that the parameter with the id `id` found no gradient.
    pub fn add(&mut self, id: &UniqueId)
        ensures
            final(self).ids@ == old(self).ids@.push(*id),
    {
        self.ids.push(*id);
    }
}

/// Something whose parameters can be updated from gradients.
pub trait CanUpdateWithGradients<E> {
    /// Whether an update that finds the gradients `grads` and the unused ids
    /// `unused` turns `self` into `after` and leaves the gradients
    /// `grads_after` and the unused ids `unused_after`. Something that does
    /// not say how it updates admits every outcome.
    open spec fn updates(
        &self,
        grads: Option<Map<usize, Seq<E>>>,
        unused: Seq<UniqueId>,
        after: &Self,
        grads_after: Option<Map<usize, Seq<E>>>,
        unused_after: Seq<UniqueId>,
    ) -> bool {
        true
    }

    /// Updates the parameters: each takes its gradient from `grads`, or is
    /// noted in `unused` if there is none for it.
    fn update<G: GradientProvider<E>>(&mut self, grads: &mut G, unused: &mut UnusedTensors)
        ensures
            old(self).updates(
                old(grads).remaining(),
                old(unused).ids@,
                final(self),
                final(grads).remaining(),
                final(unused).ids@,
            ),
    ;
}

} // verus!
