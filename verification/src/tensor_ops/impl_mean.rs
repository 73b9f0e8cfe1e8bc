use crate::dtype::Dtype;
use crate::shapes::shape::{volume, Shape};
use crate::shapes::strided::{lemma_offsets_len, offsets};
use crate::tape::{BackwardOp, BackwardOpView, InputGrad, InputGradView, Term};
use crate::tensor::Tensor;
use crate::unique_id::{id_after, unique_id, IdAllocator};
use std::sync::Arc;
use vstd::prelude::*;

verus! {

/// The sum of the numbers, added up from the first to the last, starting from
/// zero.
pub open spec fn sum_seq<E: Dtype>(s: Seq<E>) -> E
    decreases s.len(),
{
    if s.len() == 0 {
        E::spec_zero()
    } else {
        sum_seq(s.drop_last()).spec_plus(s.last())
    }
}

/// What a reduction of a whole tensor to one number records: the gradient at
/// each element grows by `coeff` times the gradient of the number.
pub open spec fn reduce_record<E>(t: Tensor<E>, out: usize, coeff: E) -> BackwardOpView<E> {
    let offs = offsets(t.dims(), t.spec_strides());
    BackwardOpView {
        out,
        out_len: 1,
        inputs: seq![
            InputGradView {
                id: t.ordinal(),
                len: t.buffer().len(),
                terms: Seq::new(
                    offs.len(),
                    |p: int| Term { inp_index: offs[p] as usize, out_index: 0, coeff },
                ),
            },
        ],
    }
}

/// What `out` is when it is the reduction of `t` to the number `value`, with
/// `id` the id it was given and `coeff` the derivative of the number with
/// respect to each element.
pub open spec fn scalar_result<E>(t: Tensor<E>, out: Tensor<E>, id: usize, value: E, coeff: E) -> bool {
    &&& out.ordinal() == id
    &&& out.dims() == Seq::<usize>::empty()
    &&& out.spec_strides() == Seq::<usize>::empty()
    &&& out.buffer() == seq![value]
    &&& out.tape() == match t.tape() {
        None => None,
        Some(ops) => Some(ops.push(reduce_record(t, id, coeff))),
    }
}

/// The sum of a buffer, added up from the first to the last.
fn sum_buffer<E: Dtype>(buf: &Vec<E>) -> (total: E)
    ensures
        total == sum_seq(buf@),
{
    let n = buf.len();
    let mut total = E::zero();
    let mut i: usize = 0;
    assert(buf@.take(0) =~= Seq::<E>::empty());
    while i < n
        invariant
            n == buf@.len(),
            i <= n,
            total == sum_seq(buf@.take(i as int)),
        decreases n - i,
    {
        assert(buf@.take(i + 1).drop_last() =~= buf@.take(i as int));
        total = total.plus(buf[i]);
        i += 1;
    }
    assert(buf@.take(n as int) =~= buf@);
    total
}

/// The reduction of `t` to `value`.
fn reduce_all<E: Dtype>(t: Tensor<E>, value: E, coeff: E, ids: &mut IdAllocator) -> (out: Tensor<E>)
    ensures
        scalar_result(t, out, old(ids).next_ordinal(), value, coeff),
        final(ids).next_ordinal() == id_after(old(ids).next_ordinal()),
{
    let offs = t.offsets();
    let (inp_id, data, _, _, tape) = t.into_parts();
    let id = unique_id(ids);
    let tape = match tape {
        None => None,
        Some(tape) => {
            let mut tape = tape;
            let n = offs.len();
            let mut terms: Vec<Term<E>> = Vec::new();
            let ghost target = reduce_record(t, id.0, coeff).inputs[0].terms;
            let mut p: usize = 0;
            while p < n
                invariant
                    n == offs@.len(),
                    p <= n,
                    target.len() == n,
                    forall|q: int|
                        0 <= q < n ==> target[q] == (Term {
                            inp_index: offs@[q],
                            out_index: 0,
                            coeff,
                        }),
                    terms@ == target.take(p as int),
                decreases n - p,
            {
                terms.push(Term { inp_index: offs[p], out_index: 0, coeff });
                p += 1;
                assert(terms@ =~= target.take(p as int));
            }
            assert(target.take(n as int) =~= target);
            let mut inputs: Vec<InputGrad<E>> = Vec::new();
            inputs.push(InputGrad { id: inp_id, len: data.len(), terms });
            let record = BackwardOp { out: id, out_len: 1, inputs };
            assert(record@.inputs =~= reduce_record(t, id.0, coeff).inputs);
            tape.record(record);
            Some(tape)
        },
    };
    let mut out: Vec<E> = Vec::new();
    out.push(value);
    assert(out@ =~= seq![value]);
    Tensor::from_parts(id, Arc::new(out), Shape::scalar(), Vec::new(), tape)
}

/// Sums all the values in `t`, in row-major order of their indices.
///
/// Returns a tensor without dimensions (i.e. one number).
pub fn sum<E: Dtype>(t: Tensor<E>, ids: &mut IdAllocator) -> (out: Tensor<E>)
    ensures
        scalar_result(t, out, old(ids).next_ordinal(), sum_seq(t.elements()), E::spec_one()),
        final(ids).next_ordinal() == id_after(old(ids).next_ordinal()),
{
    let total = sum_buffer(&t.array());
    reduce_all(t, total, E::one(), ids)
}

/// Sums all the values in `t` and divides by number of values.
///
/// Returns a tensor without dimensions (i.e. one number).
pub fn mean<E: Dtype>(t: Tensor<E>, ids: &mut IdAllocator) -> (out: Tensor<E>)
    ensures
        scalar_result(
            t,
            out,
            old(ids).next_ordinal(),
            sum_seq(t.elements()).spec_div_count(volume(t.dims()) as usize),
            E::spec_one().spec_div_count(volume(t.dims()) as usize),
        ),
        final(ids).next_ordinal() == id_after(old(ids).next_ordinal()),
{
    let elements = t.array();
    let n = elements.len();
    proof {
        lemma_offsets_len(t.dims(), t.spec_strides());
    }
    let value = sum_buffer(&elements).div_count(n);
    reduce_all(t, value, E::one().div_count(n), ids)
}

impl<E: Dtype> Tensor<E> {
    /// Calls [`sum()`] on `self`.
    pub fn sum(self, ids: &mut IdAllocator) -> (out: Tensor<E>)
        ensures
            scalar_result(
                self,
                out,
                old(ids).next_ordinal(),
                sum_seq(self.elements()),
                E::spec_one(),
            ),
            final(ids).next_ordinal() == id_after(old(ids).next_ordinal()),
    {
        sum(self, ids)
    }

    /// Calls [`mean()`] on `self`.
    pub fn mean(self, ids: &mut IdAllocator) -> (out: Tensor<E>)
        ensures
            scalar_result(
                self,
                out,
                old(ids).next_ordinal(),
                sum_seq(self.elements()).spec_div_count(volume(self.dims()) as usize),
                E::spec_one().spec_div_count(volume(self.dims()) as usize),
            ),
            final(ids).next_ordinal() == id_after(old(ids).next_ordinal()),
    {
        mean(self, ids)
    }
}

} // verus!
