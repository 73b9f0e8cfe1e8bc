use crate::dtype::Dtype;
use crate::error::Error;
use crate::unique_id::UniqueId;
use std::collections::HashMap;
use vstd::prelude::*;

verus! {

/// A buffer of `len` zeros.
pub open spec fn zeros<E: Dtype>(len: nat) -> Seq<E> {
    Seq::new(len, |i: int| E::spec_zero())
}

/// The elementwise sum of two buffers of one length.
pub open spec fn plus_each<E: Dtype>(a: Seq<E>, b: Seq<E>) -> Seq<E> {
    Seq::new(a.len(), |i: int| a[i].spec_plus(b[i]))
}

/// The gradient that a store holds for an id, which is all zeros until
/// something has been written for the id.
pub open spec fn grad_or_zeros<E: Dtype>(store: Map<usize, Seq<E>>, id: usize, len: nat) -> Seq<E> {
    if store.contains_key(id) {
        store[id]
    } else {
        zeros(len)
    }
}

/// A buffer of `len` zeros.
pub fn zero_buffer<E: Dtype>(len: usize) -> (buf: Vec<E>)
    ensures
        buf@ == zeros::<E>(len as nat),
{
    let mut buf: Vec<E> = Vec::new();
    let mut i: usize = 0;
    while i < len
        invariant
            i <= len,
            buf@ == zeros::<E>(i as nat),
        decreases len - i,
    {
        buf.push(E::zero());
        i += 1;
        assert(buf@ =~= zeros::<E>(i as nat));
    }
    buf
}

/// The gradients of one backward pass: for each id that took part, the
/// gradient accumulated for the tensor with that id.
pub struct Gradients<E> {
    grads: HashMap<usize, Vec<E>>,
}

impl<E> View for Gradients<E> {
    type V = Map<usize, Seq<E>>;

    closed spec fn view(&self) -> Map<usize, Seq<E>> {
        Map::new(|k: usize| self.grads@.contains_key(k), |k: usize| self.grads@[k]@)
    }
}

impl<E: Dtype> Gradients<E> {
    /// A store without gradients.
    pub fn new() -> (store: Gradients<E>)
        ensures
            store@ == Map::<usize, Seq<E>>::empty(),
    {
        let store = Gradients { grads: HashMap::new() };
        assert(store@ =~= Map::<usize, Seq<E>>::empty());
        store
    }

    /// Whether a gradient has been written for `id`.
    pub fn contains(&self, id: &UniqueId) -> (b: bool)
        ensures
            b == self@.contains_key(id.0),
    {
        self.grads.contains_key(&id.0)
    }

    /// The gradient for `id`, to read and to write, which is `len` zeros if
    /// none has been written yet. The store holds it afterwards.
    pub fn get_or_init(&mut self, id: &UniqueId, len: usize) -> (grad: &mut Vec<E>)
        ensures
            grad@ == grad_or_zeros(old(self)@, id.0, len as nat),
            final(self)@ == old(self)@.insert(id.0, final(grad)@),
    {
        if !self.grads.contains_key(&id.0) {
            self.grads.insert(id.0, zero_buffer(len));
        }
        self.grads.entry(id.0).or_insert(Vec::new())
    }

    /// Takes the gradient for `id` out of the store, `len` zeros if none has
    /// been written yet.
    pub(crate) fn take_or_init(&mut self, id: &UniqueId, len: usize) -> (buf: Vec<E>)
        ensures
            buf@ == grad_or_zeros(old(self)@, id.0, len as nat),
            final(self)@ == old(self)@.remove(id.0),
    {
        let buf = match self.grads.remove(&id.0) {
            Some(buf) => buf,
            None => zero_buffer(len),
        };
        assert(self@ =~= old(self)@.remove(id.0));
        buf
    }

    /// Makes `buf` the gradient for `id`.
    pub(crate) fn put(&mut self, id: &UniqueId, buf: Vec<E>)
        ensures
            final(self)@ == old(self)@.insert(id.0, buf@),
    {
        let ghost held = buf@;
        self.grads.insert(id.0, buf);
        assert(self@ =~= old(self)@.insert(id.0, held));
    }

    /// Adds `values` elementwise to the gradient for `id`, which counts as all
    /// zeros if none has been written yet.
    ///
    /// Fails, and leaves the store as it is, if the gradient written for `id`
    /// has another length than `values`.
    pub fn accumulate(&mut self, id: &UniqueId, values: &Vec<E>) -> (r: Result<(), Error>)
        ensures
            r is Ok <==> grad_or_zeros(old(self)@, id.0, values@.len()).len() == values@.len(),
            r is Ok ==> final(self)@ == old(self)@.insert(
                id.0,
                plus_each(grad_or_zeros(old(self)@, id.0, values@.len()), values@),
            ),
            r is Err ==> r == Err::<(), Error>(Error::ShapeMismatch) && final(self)@ == old(self)@,
    {
        let n = values.len();
        let mut buf = match self.grads.remove(&id.0) {
            Some(buf) => buf,
            None => zero_buffer(n),
        };
        let ghost start = buf@;
        assert(start == grad_or_zeros(old(self)@, id.0, n as nat));
        if buf.len() != n {
            self.grads.insert(id.0, buf);
            assert(self@ =~= old(self)@);
            return Err(Error::ShapeMismatch);
        }
        let mut i: usize = 0;
        while i < n
            invariant
                i <= n,
                n == values.len(),
                buf@.len() == n,
                start.len() == n,
                forall|k: int| 0 <= k < i ==> buf@[k] == start[k].spec_plus(values@[k]),
                forall|k: int| i <= k < n ==> buf@[k] == start[k],
            decreases n - i,
        {
            let sum = buf[i].plus(values[i]);
            buf.set(i, sum);
            i += 1;
        }
        assert(buf@ =~= plus_each(start, values@));
        self.grads.insert(id.0, buf);
        assert(self@ =~= old(self)@.insert(id.0, plus_each(start, values@)));
        Ok(())
    }

    /// The gradient accumulated for `id`.
    ///
    /// Fails if none was written: the tensor took no part in what was
    /// differentiated.
    pub fn read(&self, id: &UniqueId) -> (r: Result<&Vec<E>, Error>)
        ensures
            r is Ok <==> self@.contains_key(id.0),
            r matches Ok(grad) ==> grad@ == self@[id.0],
            r is Err ==> r == Err::<&Vec<E>, Error>(Error::MissingGradient),
    {
        match self.grads.get(&id.0) {
            Some(grad) => Ok(grad),
            None => Err(Error::MissingGradient),
        }
    }
}

} // verus!
