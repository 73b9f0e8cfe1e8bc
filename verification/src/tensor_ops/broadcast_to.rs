use crate::dtype::Dtype;
use crate::error::Error;
use crate::shapes::axes::{axis_range, lemma_kept_count, lemma_remove_axes_len, Axes};
use crate::shapes::broadcasts::{
    broadcast_relation, broadcast_strides_spec, BroadcastBottomDimsTo, BroadcastStridesTo,
    BroadcastTopDimsTo,
};
use crate::shapes::shape::{volume, Shape};
use crate::shapes::strided::{
    lemma_broadcast_in_bounds, lemma_broadcast_offsets, lemma_offsets_len, source_position,
};
use crate::tensor::Tensor;
use vstd::prelude::*;

verus! {

/// Broadcast self into a new shape.
///
/// A broadcast is a view: it has the id, the buffer and the tape of what it
/// was made from, and stride 0 along each broadcast axis, so that the elements
/// along such an axis are one element of the buffer.
pub trait BroadcastTo: Sized {
    /// The number of dimensions.
    spec fn rank(&self) -> nat;

    /// Whether `self` broadcasts to the shape `dst` along `axes`.
    spec fn can_broadcast_to(&self, dst: Seq<usize>, axes: Seq<usize>) -> bool;

    /// Whether `self` is the broadcast of `src` to the shape `dst` along
    /// `axes`.
    spec fn is_broadcast_of(&self, src: &Self, dst: Seq<usize>, axes: Seq<usize>) -> bool;

    /// Broadcast into shape `dst` along `axes`, which broadcasts to it.
    fn broadcast_like(self, dst: &Shape, axes: &Axes) -> (out: Self)
        requires
            self.can_broadcast_to(dst@, axes@),
        ensures
            out.is_broadcast_of(&self, dst@, axes@),
    ;

    /// Fallible version of [`BroadcastTo::broadcast_like`]
    fn try_broadcast_like(self, dst: &Shape, axes: &Axes) -> (r: Result<Self, Error>)
        ensures
            r is Ok <==> self.can_broadcast_to(dst@, axes@),
            r matches Ok(out) ==> out.is_broadcast_of(&self, dst@, axes@),
            r is Err ==> r == Err::<Self, Error>(Error::ShapeMismatch),
    ;

    /// Same as [`BroadcastTo::broadcast_like`], but the axes to broadcast are
    /// automatically chosen to be the top axes of the output tensor.
    fn broadcast_top_dims_like(self, dst: &Shape) -> (out: Self)
        requires
            self.rank() <= dst@.len(),
            self.can_broadcast_to(dst@, axis_range(0, (dst@.len() - self.rank()) as nat)),
        ensures
            out.is_broadcast_of(&self, dst@, axis_range(0, (dst@.len() - self.rank()) as nat)),
    ;

    /// fallible version of [`BroadcastTo::broadcast_top_dims_like`]
    fn try_broadcast_top_dims_like(self, dst: &Shape) -> (r: Result<Self, Error>)
        ensures
            r is Ok <==> self.rank() <= dst@.len() && self.can_broadcast_to(
                dst@,
                axis_range(0, (dst@.len() - self.rank()) as nat),
            ),
            r matches Ok(out) ==> out.is_broadcast_of(
                &self,
                dst@,
                axis_range(0, (dst@.len() - self.rank()) as nat),
            ),
            r is Err ==> r == Err::<Self, Error>(Error::ShapeMismatch),
    ;

    /// Same as [`BroadcastTo::broadcast_like`], but the axes to broadcast are
    /// automatically chosen to be the bottom axes of the output tensor.
    fn broadcast_bottom_dims_like(self, dst: &Shape) -> (out: Self)
        requires
            self.rank() <= dst@.len(),
            self.can_broadcast_to(
                dst@,
                axis_range(self.rank() as usize, (dst@.len() - self.rank()) as nat),
            ),
        ensures
            out.is_broadcast_of(
                &self,
                dst@,
                axis_range(self.rank() as usize, (dst@.len() - self.rank()) as nat),
            ),
    ;

    /// fallible version of [`BroadcastTo::broadcast_bottom_dims_like`]
    fn try_broadcast_bottom_dims_like(self, dst: &Shape) -> (r: Result<Self, Error>)
        ensures
            r is Ok <==> self.rank() <= dst@.len() && self.can_broadcast_to(
                dst@,
                axis_range(self.rank() as usize, (dst@.len() - self.rank()) as nat),
            ),
            r matches Ok(out) ==> out.is_broadcast_of(
                &self,
                dst@,
                axis_range(self.rank() as usize, (dst@.len() - self.rank()) as nat),
            ),
            r is Err ==> r == Err::<Self, Error>(Error::ShapeMismatch),
    ;
}

impl<E: Dtype> BroadcastTo for Tensor<E> {
    open spec fn rank(&self) -> nat {
        self.dims().len()
    }

    open spec fn can_broadcast_to(&self, dst: Seq<usize>, axes: Seq<usize>) -> bool {
        broadcast_relation(self.dims(), dst, axes)
    }

    open spec fn is_broadcast_of(&self, src: &Self, dst: Seq<usize>, axes: Seq<usize>) -> bool {
        &&& self.ordinal() == src.ordinal()
        &&& self.buffer() == src.buffer()
        &&& self.tape() == src.tape()
        &&& self.dims() == dst
        &&& self.spec_strides() == broadcast_strides_spec(src.spec_strides(), axes, dst.len())
    }

    fn broadcast_like(self, dst: &Shape, axes: &Axes) -> (out: Self) {
        self.try_broadcast_like(dst, axes).unwrap()
    }

    fn try_broadcast_like(self, dst: &Shape, axes: &Axes) -> (r: Result<Self, Error>) {
        match self.shape().check(dst, axes) {
            Ok(()) => {},
            Err(e) => {
                return Err(e);
            },
        }
        proof {
            lemma_kept_count(axes@, dst@.len());
            lemma_remove_axes_len(dst@, axes@);
        }
        let strides = match self.shape().broadcast_strides(self.strides(), dst, axes) {
            Ok(strides) => strides,
            Err(e) => {
                return Err(e);
            },
        };
        let (id, data, _, old_strides, tape) = self.into_parts();
        proof {
            lemma_broadcast_in_bounds(dst@, axes@, old_strides@, data@.len());
        }
        Ok(Tensor::from_parts(id, data, dst.clone(), strides, tape))
    }

    fn broadcast_top_dims_like(self, dst: &Shape) -> (out: Self) {
        self.try_broadcast_top_dims_like(dst).unwrap()
    }

    fn try_broadcast_top_dims_like(self, dst: &Shape) -> (r: Result<Self, Error>) {
        match self.shape().broadcast_top_axes(dst) {
            Ok(axes) => self.try_broadcast_like(dst, &axes),
            Err(e) => Err(e),
        }
    }

    fn broadcast_bottom_dims_like(self, dst: &Shape) -> (out: Self) {
        self.try_broadcast_bottom_dims_like(dst).unwrap()
    }

    fn try_broadcast_bottom_dims_like(self, dst: &Shape) -> (r: Result<Self, Error>) {
        match self.shape().broadcast_bottom_axes(dst) {
            Ok(axes) => self.try_broadcast_like(dst, &axes),
            Err(e) => Err(e),
        }
    }
}

/// Each element of a broadcast is the element of the tensor it was made from
/// at the index without the broadcast axes: the broadcast repeats the elements
/// along the broadcast axes, and copies nothing.
pub proof fn lemma_broadcast_elements<E: Dtype>(
    src: Tensor<E>,
    out: Tensor<E>,
    dst: Seq<usize>,
    axes: Seq<usize>,
    p: int,
)
    requires
        src.wf(),
        src.can_broadcast_to(dst, axes),
        out.is_broadcast_of(&src, dst, axes),
        0 <= p < volume(dst),
    ensures
        out.elements().len() == volume(dst),
        0 <= source_position(dst, axes, p) < src.elements().len(),
        out.elements()[p] == src.elements()[source_position(dst, axes, p)],
{
    lemma_kept_count(axes, dst.len());
    lemma_remove_axes_len(dst, axes);
    lemma_offsets_len(dst, out.spec_strides());
    lemma_offsets_len(src.dims(), src.spec_strides());
    lemma_broadcast_offsets(dst, axes, src.spec_strides(), p);
}

} // verus!
