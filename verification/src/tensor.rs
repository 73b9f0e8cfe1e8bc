use crate::dtype::Dtype;
use crate::error::Error;
use crate::gradients::Gradients;
use crate::shapes::shape::{row_major_strides, volume, Shape};
use crate::shapes::strided::{
    as_ints, lemma_offsets_bound, lemma_span_row_major, offset_table, offsets, view_in_bounds,
};
use crate::tape::{replay, BackwardOpView, OwnedTape};
use crate::unique_id::{id_after, unique_id, HasUniqueId, IdAllocator, UniqueId};
use std::sync::Arc;
use vstd::prelude::*;

verus! {

/// A buffer of `len` ones.
pub open spec fn ones<E: Dtype>(len: nat) -> Seq<E> {
    Seq::new(len, |i: int| E::spec_one())
}

/// The elements of a buffer at the given offsets.
pub open spec fn gather<E>(buf: Seq<E>, offs: Seq<int>) -> Seq<E> {
    Seq::new(offs.len(), |p: int| buf[offs[p]])
}

/// `Arc::clone`: one more handle to the value that `a` holds. The value is not
/// copied.
#[verifier::external_body]
fn share<T>(a: &Arc<T>) -> (r: Arc<T>)
    ensures
        r == *a,
{
    Arc::clone(a)
}

/// A view of a buffer of numbers as an array of some shape, with the id of the
/// buffer and, while the tensor is traced, the tape of the operations that led
/// to it.
///
/// The view stays inside the buffer: no index of the shape leads past its end.
/// Tensors with one id share one buffer, which none of them changes.
pub struct Tensor<E> {
    id: UniqueId,
    data: Arc<Vec<E>>,
    shape: Shape,
    strides: Vec<usize>,
    tape: Option<OwnedTape<E>>,
}

impl<E> Tensor<E> {
    /// The buffer that the tensor is a view of.
    pub closed spec fn buffer(&self) -> Seq<E> {
        self.data@
    }

    /// The sizes of the dimensions.
    pub closed spec fn dims(&self) -> Seq<usize> {
        self.shape@
    }

    /// The stride of each dimension.
    pub closed spec fn spec_strides(&self) -> Seq<usize> {
        self.strides@
    }

    /// The operations recorded on the tape, if the tensor is traced.
    pub closed spec fn tape(&self) -> Option<Seq<BackwardOpView<E>>> {
        match self.tape {
            Some(tape) => Some(tape@),
            None => None,
        }
    }

    /// The ordinal of the id of the buffer.
    pub open spec fn ordinal(&self) -> usize {
        self.spec_id().0
    }

    /// Whether `self` is a view like `other` of an equal buffer with the same
    /// id. Nothing is said of the tapes.
    pub open spec fn same_view(&self, other: &Tensor<E>) -> bool {
        &&& self.ordinal() == other.ordinal()
        &&& self.buffer() == other.buffer()
        &&& self.dims() == other.dims()
        &&& self.spec_strides() == other.spec_strides()
    }

    /// The elements of the tensor in row-major order of their indices.
    pub open spec fn elements(&self) -> Seq<E> {
        gather(self.buffer(), offsets(self.dims(), self.spec_strides()))
    }

    /// The invariant of a tensor: no index of the shape leads past the end of
    /// the buffer.
    #[verifier::type_invariant]
    pub open spec fn wf(&self) -> bool {
        view_in_bounds(self.dims(), self.spec_strides(), self.buffer().len())
    }
}

impl<E> HasUniqueId for Tensor<E> {
    closed spec fn spec_id(&self) -> UniqueId {
        self.id
    }

    fn id(&self) -> (id: &UniqueId) {
        &self.id
    }
}

/// A buffer of `len` ones.
fn one_buffer<E: Dtype>(len: usize) -> (buf: Vec<E>)
    ensures
        buf@ == ones::<E>(len as nat),
{
    let mut buf: Vec<E> = Vec::new();
    let mut i: usize = 0;
    while i < len
        invariant
            i <= len,
            buf@ == ones::<E>(i as nat),
        decreases len - i,
    {
        buf.push(E::one());
        i += 1;
        assert(buf@ =~= ones::<E>(i as nat));
    }
    buf
}

/// A copy of a buffer.
pub(crate) fn copy_buffer<E: Copy>(buf: &Vec<E>) -> (copy: Vec<E>)
    ensures
        copy@ == buf@,
{
    let n = buf.len();
    let mut copy: Vec<E> = Vec::new();
    let mut i: usize = 0;
    while i < n
        invariant
            n == buf.len(),
            i <= n,
            copy@ == buf@.take(i as int),
        decreases n - i,
    {
        copy.push(buf[i]);
        i += 1;
        assert(copy@ =~= buf@.take(i as int));
    }
    assert(buf@.take(n as int) =~= buf@);
    copy
}

impl<E: Dtype> Tensor<E> {
    /// A leaf: an untraced tensor of the given shape over a new buffer with
    /// the given numbers in row-major order.
    ///
    /// Fails if the shape does not have as many elements as there are numbers.
    pub fn new(data: Vec<E>, shape: Shape, ids: &mut IdAllocator) -> (r: Result<Tensor<E>, Error>)
        ensures
            r is Ok <==> data@.len() == volume(shape@),
            r matches Ok(t) ==> {
                &&& t.buffer() == data@
                &&& t.dims() == shape@
                &&& t.spec_strides().len() == shape@.len()
                &&& forall|i: int|
                    0 <= i < shape@.len() ==> t.spec_strides()[i] == row_major_strides(shape@)[i]
                &&& t.tape() is None
                &&& t.ordinal() == old(ids).next_ordinal()
                &&& final(ids).next_ordinal() == id_after(old(ids).next_ordinal())
            },
            r is Err ==> r == Err::<Tensor<E>, Error>(Error::ShapeMismatch) && *final(ids) == *old(
                ids,
            ),
    {
        if data.len() != shape.num_elements() {
            return Err(Error::ShapeMismatch);
        }
        let strides = shape.strides();
        proof {
            if volume(shape@) > 0 {
                lemma_span_row_major(shape@, strides@);
            }
        }
        let id = unique_id(ids);
        Ok(Tensor { id, data: Arc::new(data), shape, strides, tape: None })
    }

    /// Puts a tensor together from its parts.
    pub(crate) fn from_parts(
        id: UniqueId,
        data: Arc<Vec<E>>,
        shape: Shape,
        strides: Vec<usize>,
        tape: Option<OwnedTape<E>>,
    ) -> (t: Tensor<E>)
        requires
            view_in_bounds(shape@, strides@, data@.len()),
        ensures
            t.ordinal() == id.0,
            t.buffer() == data@,
            t.dims() == shape@,
            t.spec_strides() == strides@,
            t.tape() == match tape {
                Some(tape) => Some(tape@),
                None => None,
            },
    {
        Tensor { id, data, shape, strides, tape }
    }

    /// Takes a tensor apart.
    pub(crate) fn into_parts(self) -> (parts: (
        UniqueId,
        Arc<Vec<E>>,
        Shape,
        Vec<usize>,
        Option<OwnedTape<E>>,
    ))
        ensures
            parts.0.0 == self.ordinal(),
            parts.1@ == self.buffer(),
            parts.2@ == self.dims(),
            parts.3@ == self.spec_strides(),
            self.tape() == match parts.4 {
                Some(tape) => Some(tape@),
                None => None,
            },
            view_in_bounds(parts.2@, parts.3@, parts.1@.len()),
    {
        proof {
            use_type_invariant(&self);
        }
        (self.id, self.data, self.shape, self.strides, self.tape)
    }

    /// The shape of the tensor.
    pub fn shape(&self) -> (shape: &Shape)
        ensures
            shape@ == self.dims(),
    {
        &self.shape
    }

    /// The stride of each dimension.
    pub fn strides(&self) -> (strides: &Vec<usize>)
        ensures
            strides@ == self.spec_strides(),
            view_in_bounds(self.dims(), self.spec_strides(), self.buffer().len()),
    {
        proof {
            use_type_invariant(self);
        }
        &self.strides
    }

    /// The buffer that the tensor is a view of.
    pub fn data(&self) -> (data: &Vec<E>)
        ensures
            data@ == self.buffer(),
    {
        &self.data
    }

    /// The offset into the buffer of each element, in row-major order.
    pub fn offsets(&self) -> (table: Vec<usize>)
        ensures
            as_ints(table@) == offsets(self.dims(), self.spec_strides()),
            table@.len() == volume(self.dims()),
            forall|p: int| 0 <= p < table@.len() ==> table@[p] < self.buffer().len(),
    {
        proof {
            use_type_invariant(self);
        }
        let len = self.data.len();
        let table = offset_table(self.shape.dims(), &self.strides);
        proof {
            assert forall|p: int| 0 <= p < table@.len() implies table@[p]
                < self.buffer().len() by {
                lemma_offsets_bound(self.dims(), self.spec_strides(), p);
                assert(as_ints(table@)[p] == table@[p]);
            }
        }
        table
    }

    /// The elements of the tensor in row-major order of their indices.
    pub fn array(&self) -> (elements: Vec<E>)
        ensures
            elements@ == self.elements(),
    {
        let table = self.offsets();
        let n = table.len();
        let mut elements: Vec<E> = Vec::new();
        let mut p: usize = 0;
        while p < n
            invariant
                n == table@.len(),
                p <= n,
                as_ints(table@) == offsets(self.dims(), self.spec_strides()),
                forall|q: int| 0 <= q < table@.len() ==> table@[q] < self.buffer().len(),
                self.data@ == self.buffer(),
                elements@ == self.elements().take(p as int),
            decreases n - p,
        {
            assert(as_ints(table@)[p as int] == table@[p as int]);
            elements.push(self.data[table[p]]);
            p += 1;
            assert(elements@ =~= self.elements().take(p as int));
        }
        assert(self.elements().take(n as int) =~= self.elements());
        elements
    }

    /// Whether the tensor carries a tape.
    pub fn is_traced(&self) -> (b: bool)
        ensures
            b == self.tape() is Some,
    {
        self.tape.is_some()
    }

    /// An untraced tensor with the same id, shape and buffer, which it shares
    /// with `self`.
    pub fn duplicate(&self) -> (t: Tensor<E>)
        ensures
            t.ordinal() == self.ordinal(),
            t.buffer() == self.buffer(),
            t.dims() == self.dims(),
            t.spec_strides() == self.spec_strides(),
            t.tape() is None,
    {
        proof {
            use_type_invariant(self);
        }
        Tensor {
            id: self.id,
            data: share(&self.data),
            shape: self.shape.clone(),
            strides: copy_buffer(&self.strides),
            tape: None,
        }
    }

    /// A traced tensor with the same id, shape and buffer, which it shares with
    /// `self`, and a tape on which nothing is recorded yet.
    pub fn leaky_trace(&self) -> (t: Tensor<E>)
        ensures
            t.ordinal() == self.ordinal(),
            t.buffer() == self.buffer(),
            t.dims() == self.dims(),
            t.spec_strides() == self.spec_strides(),
            t.tape() == Some(Seq::<BackwardOpView<E>>::empty()),
    {
        proof {
            use_type_invariant(self);
        }
        Tensor {
            id: self.id,
            data: share(&self.data),
            shape: self.shape.clone(),
            strides: copy_buffer(&self.strides),
            tape: Some(OwnedTape::new()),
        }
    }

    /// Detaches the tape: the tensor without it, and the tape it carried.
    pub fn split_tape(self) -> (parts: (Tensor<E>, Option<OwnedTape<E>>))
        ensures
            parts.0.ordinal() == self.ordinal(),
            parts.0.buffer() == self.buffer(),
            parts.0.dims() == self.dims(),
            parts.0.spec_strides() == self.spec_strides(),
            parts.0.tape() is None,
            self.tape() == match parts.1 {
                Some(tape) => Some(tape@),
                None => None,
            },
    {
        proof {
            use_type_invariant(&self);
        }
        (
            Tensor {
                id: self.id,
                data: self.data,
                shape: self.shape,
                strides: self.strides,
                tape: None,
            },
            self.tape,
        )
    }

    /// The tensor with `tape` in place of the tape it carried, if any.
    pub fn put_tape(self, tape: Option<OwnedTape<E>>) -> (t: Tensor<E>)
        ensures
            t.ordinal() == self.ordinal(),
            t.buffer() == self.buffer(),
            t.dims() == self.dims(),
            t.spec_strides() == self.spec_strides(),
            t.tape() == match tape {
                Some(tape) => Some(tape@),
                None => None,
            },
    {
        proof {
            use_type_invariant(&self);
        }
        Tensor { id: self.id, data: self.data, shape: self.shape, strides: self.strides, tape }
    }

    /// The tensor without its tape: a leaf, behind which nothing is
    /// differentiated.
    pub fn detach(self) -> (t: Tensor<E>)
        ensures
            t.ordinal() == self.ordinal(),
            t.buffer() == self.buffer(),
            t.dims() == self.dims(),
            t.spec_strides() == self.spec_strides(),
            t.tape() is None,
    {
        self.split_tape().0
    }

    /// The gradients of the tensor with respect to everything recorded on its
    /// tape.
    ///
    /// The gradient of the tensor itself is one. The recorded operations then
    /// run once each, the last recorded first: each reads the gradient
    /// accumulated for its output so far and adds to the gradients of its
    /// inputs.
    ///
    /// Fails with `NonScalarOutput` unless the tensor is a traced scalar, and
    /// with `ShapeMismatch` at the first operation that finds a gradient of
    /// another length than it recorded.
    pub fn backward(self) -> (r: Result<Gradients<E>, Error>)
        ensures
            match r {
                Ok(grads) => {
                    &&& self.dims().len() == 0
                    &&& self.tape() matches Some(ops)
                    &&& replay(Some(seed(self.ordinal(), self.buffer().len())), ops) == Some(
                        grads@,
                    )
                },
                Err(e) => if self.dims().len() == 0 && self.tape() is Some {
                    &&& e == Error::ShapeMismatch
                    &&& replay::<E>(
                        Some(seed(self.ordinal(), self.buffer().len())),
                        self.tape()->0,
                    ) is None
                } else {
                    e == Error::NonScalarOutput
                },
            },
    {
        if self.shape.num_dims() != 0 {
            return Err(Error::NonScalarOutput);
        }
        let n = self.data.len();
        match self.tape {
            None => Err(Error::NonScalarOutput),
            Some(tape) => {
                let mut store: Gradients<E> = Gradients::new();
                store.put(&self.id, one_buffer(n));
                tape.execute(store)
            },
        }
    }
}

/// The store that a backward pass starts from: the gradient of the output
/// with respect to itself, which is one.
pub open spec fn seed<E: Dtype>(id: usize, len: nat) -> Map<usize, Seq<E>> {
    Map::<usize, Seq<E>>::empty().insert(id, ones::<E>(len))
}

} // verus!
