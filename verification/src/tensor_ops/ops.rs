use crate::dtype::Dtype;
use crate::error::Error;
use crate::shapes::shape::{row_major_strides, volume};
use crate::shapes::strided::{
    as_ints, lemma_offsets_bound, lemma_offsets_len, lemma_span_row_major, offsets,
};
use crate::gradients::{grad_or_zeros, plus_each};
use crate::tape::{
    accumulate_terms, apply_input, apply_inputs, apply_op, replay, BackwardOp,
    BackwardOpView, InputGrad, InputGradView, OwnedTape, Term,
};
use crate::tensor::Tensor;
use crate::unique_id::{id_after, unique_id, IdAllocator};
use std::sync::Arc;
use vstd::prelude::*;

verus! {

/// A function of one number, with its derivative.
pub trait UnaryDerivative<E> {
    spec fn spec_f(&self, x: E) -> E;

    spec fn spec_df(&self, x: E) -> E;

    /// The value of the function at `x`.
    fn f(&self, x: &E) -> (y: E)
        ensures
            y == self.spec_f(*x),
    ;

    /// The derivative of the function at `x`.
    fn df(&self, x: &E) -> (y: E)
        ensures
            y == self.spec_df(*x),
    ;
}

/// The terms of an operation that works element by element: the gradient at
/// each position of the input grows by the coefficient there times the
/// gradient at the same position of the output.
pub open spec fn elementwise_terms<E>(coeffs: Seq<E>) -> Seq<Term<E>> {
    Seq::new(
        coeffs.len(),
        |i: int| Term { inp_index: i as usize, out_index: i as usize, coeff: coeffs[i] },
    )
}

/// What an operation on one tensor records: the derivative of each element of
/// the output with respect to the element of the input it was computed from.
pub open spec fn unary_record<E>(inp: usize, out: usize, derivatives: Seq<E>) -> BackwardOpView<E> {
    BackwardOpView {
        out,
        out_len: derivatives.len(),
        inputs: seq![
            InputGradView {
                id: inp,
                len: derivatives.len(),
                terms: elementwise_terms(derivatives),
            },
        ],
    }
}

/// What `out` is when it is the result of applying `op` to each element of
/// `inp`, with `id` the id it was given.
pub open spec fn unary_result<E, Op: UnaryDerivative<E>>(
    op: Op,
    inp: Tensor<E>,
    out: Tensor<E>,
    id: usize,
) -> bool {
    &&& out.ordinal() == id
    &&& out.dims() == inp.dims()
    &&& out.spec_strides() == inp.spec_strides()
    &&& out.buffer() == inp.buffer().map_values(|x: E| op.spec_f(x))
    &&& out.tape() == match inp.tape() {
        None => None,
        Some(ops) => Some(
            ops.push(
                unary_record(inp.ordinal(), id, inp.buffer().map_values(|x: E| op.spec_df(x))),
            ),
        ),
    }
}

/// The elements of the result of an operation on one tensor are the values of
/// the function at the elements of the tensor, also where the tensor is a
/// broadcast view.
pub proof fn lemma_unary_result_elements<E, Op: UnaryDerivative<E>>(
    op: Op,
    inp: Tensor<E>,
    out: Tensor<E>,
    id: usize,
)
    requires
        inp.wf(),
        unary_result(op, inp, out, id),
    ensures
        out.elements() == inp.elements().map_values(|x: E| op.spec_f(x)),
{
    let offs = offsets(inp.dims(), inp.spec_strides());
    lemma_offsets_len(inp.dims(), inp.spec_strides());
    assert forall|p: int| 0 <= p < offs.len() implies out.elements()[p]
        == inp.elements().map_values(|x: E| op.spec_f(x))[p] by {
        lemma_offsets_bound(inp.dims(), inp.spec_strides(), p);
    }
    assert(out.elements() =~= inp.elements().map_values(|x: E| op.spec_f(x)));
}

/// Applies `op` to each element of `inp`.
///
/// The result is a view like `inp` of a new buffer with a new id. If `inp` is
/// traced, so is the result: its tape is that of `inp` with one more operation,
/// which holds the derivative at each element. An untraced `inp` records
/// nothing.
pub fn try_unary_op<E: Dtype, Op: UnaryDerivative<E>>(
    op: Op,
    inp: Tensor<E>,
    ids: &mut IdAllocator,
) -> (r: Result<Tensor<E>, Error>)
    ensures
        r matches Ok(out) && unary_result(op, inp, out, old(ids).next_ordinal()),
        final(ids).next_ordinal() == id_after(old(ids).next_ordinal()),
{
    let (inp_id, data, shape, strides, tape) = inp.into_parts();
    let n = data.len();
    let id = unique_id(ids);
    let mut out: Vec<E> = Vec::new();
    let mut i: usize = 0;
    while i < n
        invariant
            n == data.len(),
            i <= n,
            out@ == data@.take(i as int).map_values(|x: E| op.spec_f(x)),
        decreases n - i,
    {
        out.push(op.f(&data[i]));
        i += 1;
        assert(out@ =~= data@.take(i as int).map_values(|x: E| op.spec_f(x)));
    }
    assert(data@.take(n as int) =~= data@);
    let tape = match tape {
        None => None,
        Some(tape) => {
            let mut tape = tape;
            let ghost derivatives = data@.map_values(|x: E| op.spec_df(x));
            let mut terms: Vec<Term<E>> = Vec::new();
            let mut i: usize = 0;
            while i < n
                invariant
                    n == data.len(),
                    i <= n,
                    derivatives == data@.map_values(|x: E| op.spec_df(x)),
                    terms@ == elementwise_terms(derivatives.take(i as int)),
                decreases n - i,
            {
                terms.push(Term { inp_index: i, out_index: i, coeff: op.df(&data[i]) });
                i += 1;
                assert(terms@ =~= elementwise_terms(derivatives.take(i as int)));
            }
            assert(derivatives.take(n as int) =~= derivatives);
            let mut inputs: Vec<InputGrad<E>> = Vec::new();
            inputs.push(InputGrad { id: inp_id, len: n, terms });
            let record = BackwardOp { out: id, out_len: n, inputs };
            assert(record@.inputs =~= unary_record(inp_id.0, id.0, derivatives).inputs);
            tape.record(record);
            Some(tape)
        },
    };
    Ok(Tensor::from_parts(id, Arc::new(out), shape, strides, tape))
}

/// What an operation that works element by element adds to the gradient of
/// its input: element by element, the derivative times the gradient of the
/// output.
pub open spec fn contribution<E: Dtype>(derivatives: Seq<E>, g: Seq<E>) -> Seq<E> {
    Seq::new(derivatives.len(), |i: int| derivatives[i].spec_times(g[i]))
}

/// The gradient after the first `j` terms of an operation that works element
/// by element.
proof fn lemma_accumulate_elementwise_prefix<E: Dtype>(
    buf: Seq<E>,
    derivatives: Seq<E>,
    g: Seq<E>,
    j: int,
)
    requires
        buf.len() == derivatives.len(),
        g.len() == derivatives.len(),
        derivatives.len() <= usize::MAX,
        0 <= j <= derivatives.len(),
    ensures
        accumulate_terms(buf, elementwise_terms(derivatives).take(j), g) == Seq::new(
            buf.len(),
            |i: int|
                if i < j {
                    buf[i].spec_plus(derivatives[i].spec_times(g[i]))
                } else {
                    buf[i]
                },
        ),
    decreases j,
{
    let terms = elementwise_terms(derivatives);
    let target = Seq::new(
        buf.len(),
        |i: int|
            if i < j {
                buf[i].spec_plus(derivatives[i].spec_times(g[i]))
            } else {
                buf[i]
            },
    );
    if j == 0 {
        assert(terms.take(0) =~= Seq::<Term<E>>::empty());
        assert(buf =~= target);
    } else {
        lemma_accumulate_elementwise_prefix(buf, derivatives, g, j - 1);
        assert(terms.take(j).drop_last() =~= terms.take(j - 1));
        assert(terms.take(j).last() == terms[j - 1]);
        assert(accumulate_terms(buf, terms.take(j), g) =~= target);
    }
}

/// An operation that works element by element adds its contribution to the
/// gradient of its input element by element.
pub proof fn lemma_accumulate_elementwise<E: Dtype>(buf: Seq<E>, derivatives: Seq<E>, g: Seq<E>)
    requires
        buf.len() == derivatives.len(),
        g.len() == derivatives.len(),
        derivatives.len() <= usize::MAX,
    ensures
        accumulate_terms(buf, elementwise_terms(derivatives), g) == plus_each(
            buf,
            contribution(derivatives, g),
        ),
{
    let terms = elementwise_terms(derivatives);
    lemma_accumulate_elementwise_prefix(buf, derivatives, g, derivatives.len() as int);
    assert(terms.take(derivatives.len() as int) =~= terms);
    assert(accumulate_terms(buf, terms, g) =~= plus_each(buf, contribution(derivatives, g)));
}

/// What the record of an operation on one tensor does when it runs: it adds
/// its contribution to the gradient of its input, which counts as zero if
/// nothing was written for it before.
pub proof fn lemma_unary_record_runs<E: Dtype>(
    store: Map<usize, Seq<E>>,
    inp: usize,
    out: usize,
    derivatives: Seq<E>,
)
    requires
        inp != out,
        derivatives.len() <= usize::MAX,
        grad_or_zeros(store, out, derivatives.len()).len() == derivatives.len(),
        grad_or_zeros(store, inp, derivatives.len()).len() == derivatives.len(),
    ensures
        apply_op(store, unary_record(inp, out, derivatives)) == Some(
            store.insert(out, grad_or_zeros(store, out, derivatives.len())).insert(
                inp,
                plus_each(
                    grad_or_zeros(store, inp, derivatives.len()),
                    contribution(derivatives, grad_or_zeros(store, out, derivatives.len())),
                ),
            ),
        ),
{
    let n = derivatives.len();
    let op = unary_record(inp, out, derivatives);
    let g = grad_or_zeros(store, out, n);
    let seeded = store.insert(out, g);
    let input = op.inputs[0];
    assert(op.inputs.drop_last() =~= Seq::<InputGradView<E>>::empty());
    assert(apply_inputs(Some(seeded), op.inputs.drop_last(), g) == Some(seeded));
    assert(grad_or_zeros(seeded, inp, n) == grad_or_zeros(store, inp, n));
    lemma_accumulate_elementwise(grad_or_zeros(store, inp, n), derivatives, g);
    assert(apply_inputs(Some(seeded), op.inputs, g) == Some(apply_input(seeded, input, g)));
}

/// Accumulation law: where a tensor feeds two operations, its gradient after
/// the backward pass is what it was before, plus what the operation recorded
/// last contributes, plus what the operation recorded first contributes.
/// Neither contribution overwrites the other.
pub proof fn lemma_two_consumers<E: Dtype>(
    store: Map<usize, Seq<E>>,
    inp: usize,
    first_out: usize,
    first: Seq<E>,
    second_out: usize,
    second: Seq<E>,
)
    requires
        inp != first_out,
        inp != second_out,
        first.len() == second.len(),
        first.len() <= usize::MAX,
        grad_or_zeros(store, inp, first.len()).len() == first.len(),
        grad_or_zeros(store, first_out, first.len()).len() == first.len(),
        grad_or_zeros(store, second_out, first.len()).len() == first.len(),
    ensures
        replay(
            Some(store),
            seq![unary_record(inp, first_out, first), unary_record(inp, second_out, second)],
        ) matches Some(grads) && grads[inp] == plus_each(
            plus_each(
                grad_or_zeros(store, inp, first.len()),
                contribution(second, grad_or_zeros(store, second_out, first.len())),
            ),
            contribution(first, grad_or_zeros(store, first_out, first.len())),
        ),
{
    let n = first.len();
    let x = unary_record(inp, first_out, first);
    let y = unary_record(inp, second_out, second);
    let ops = seq![x, y];
    assert(ops.drop_last() =~= seq![x]);
    assert(seq![x].drop_last() =~= Seq::<BackwardOpView<E>>::empty());
    lemma_unary_record_runs(store, inp, second_out, second);
    let after_y = apply_op(store, y)->0;
    assert(grad_or_zeros(after_y, first_out, n) == grad_or_zeros(store, first_out, n));
    lemma_unary_record_runs(after_y, inp, first_out, first);
    assert(replay(Some(store), ops) == replay(apply_op(store, y), seq![x]));
    assert(replay(Some(after_y), seq![x]) == replay(
        apply_op(after_y, x),
        Seq::<BackwardOpView<E>>::empty(),
    ));
}

/// A function of two numbers, with its derivative with respect to each.
pub trait BinaryDerivative<E> {
    spec fn spec_f(&self, x: E, y: E) -> E;

    spec fn spec_dfdx(&self, x: E, y: E) -> E;

    spec fn spec_dfdy(&self, x: E, y: E) -> E;

    /// The value of the function at `x` and `y`.
    fn f(&self, x: &E, y: &E) -> (z: E)
        ensures
            z == self.spec_f(*x, *y),
    ;

    /// The derivative with respect to the first number at `x` and `y`.
    fn dfdx(&self, x: &E, y: &E) -> (z: E)
        ensures
            z == self.spec_dfdx(*x, *y),
    ;

    /// The derivative with respect to the second number at `x` and `y`.
    fn dfdy(&self, x: &E, y: &E) -> (z: E)
        ensures
            z == self.spec_dfdy(*x, *y),
    ;
}

/// The terms of an operation that computes element `p` of its output from the
/// element of the input at offset `offs[p]` of the input's buffer: the gradient
/// at that offset grows by `coeffs[p]` times the gradient at `p` of the output.
/// Elements of a broadcast view that share an offset add up there.
pub open spec fn strided_terms<E>(offs: Seq<int>, coeffs: Seq<E>) -> Seq<Term<E>> {
    Seq::new(
        coeffs.len(),
        |p: int| Term { inp_index: offs[p] as usize, out_index: p as usize, coeff: coeffs[p] },
    )
}

/// The tape of an operation on two tensors: the operations of the first in
/// their order, then those of the second in theirs. The operation is traced if
/// one of the two is.
pub open spec fn merged_tape<E>(
    lhs: Option<Seq<BackwardOpView<E>>>,
    rhs: Option<Seq<BackwardOpView<E>>>,
) -> Option<Seq<BackwardOpView<E>>> {
    match (lhs, rhs) {
        (None, None) => None,
        (Some(a), None) => Some(a),
        (None, Some(b)) => Some(b),
        (Some(a), Some(b)) => Some(a + b),
    }
}

/// What an operation on two tensors records: the derivatives of each element
/// of the output with respect to the two elements it was computed from.
pub open spec fn binary_record<E>(
    lhs: Tensor<E>,
    rhs: Tensor<E>,
    out: usize,
    dfdx: Seq<E>,
    dfdy: Seq<E>,
) -> BackwardOpView<E> {
    BackwardOpView {
        out,
        out_len: dfdx.len(),
        inputs: seq![
            InputGradView {
                id: lhs.ordinal(),
                len: lhs.buffer().len(),
                terms: strided_terms(offsets(lhs.dims(), lhs.spec_strides()), dfdx),
            },
            InputGradView {
                id: rhs.ordinal(),
                len: rhs.buffer().len(),
                terms: strided_terms(offsets(rhs.dims(), rhs.spec_strides()), dfdy),
            },
        ],
    }
}

/// What `out` is when it is the result of applying `op` to the elements of
/// `lhs` and `rhs` pair by pair, with `id` the id it was given.
pub open spec fn binary_result<E, Op: BinaryDerivative<E>>(
    op: Op,
    lhs: Tensor<E>,
    rhs: Tensor<E>,
    out: Tensor<E>,
    id: usize,
) -> bool {
    let x = lhs.elements();
    let y = rhs.elements();
    &&& out.ordinal() == id
    &&& out.dims() == lhs.dims()
    &&& out.spec_strides().len() == lhs.dims().len()
    &&& forall|i: int|
        0 <= i < lhs.dims().len() ==> out.spec_strides()[i] == row_major_strides(lhs.dims())[i]
    &&& out.buffer() == Seq::new(x.len(), |p: int| op.spec_f(x[p], y[p]))
    &&& out.tape() == match merged_tape(lhs.tape(), rhs.tape()) {
        None => None,
        Some(ops) => Some(
            ops.push(
                binary_record(
                    lhs,
                    rhs,
                    id,
                    Seq::new(x.len(), |p: int| op.spec_dfdx(x[p], y[p])),
                    Seq::new(x.len(), |p: int| op.spec_dfdy(x[p], y[p])),
                ),
            ),
        ),
    }
}

/// Whether two lists of dimensions are the same.
pub(crate) fn same_dims(a: &Vec<usize>, b: &Vec<usize>) -> (same: bool)
    ensures
        same == (a@ == b@),
{
    let n = a.len();
    if b.len() != n {
        return false;
    }
    let mut i: usize = 0;
    while i < n
        invariant
            n == a@.len(),
            n == b@.len(),
            i <= n,
            forall|k: int| 0 <= k < i ==> a@[k] == b@[k],
        decreases n - i,
    {
        if a[i] != b[i] {
            return false;
        }
        i += 1;
    }
    assert(a@ =~= b@);
    true
}

/// The terms that lead from each element of an output to the offset of the
/// element of the input it was computed from.
pub(crate) fn build_terms<E: Dtype>(offs: &Vec<usize>, coeffs: &Vec<E>) -> (terms: Vec<Term<E>>)
    requires
        offs@.len() == coeffs@.len(),
    ensures
        terms@ == strided_terms(as_ints(offs@), coeffs@),
{
    let n = coeffs.len();
    let mut terms: Vec<Term<E>> = Vec::new();
    let mut p: usize = 0;
    while p < n
        invariant
            n == coeffs@.len(),
            n == offs@.len(),
            p <= n,
            terms@ == strided_terms(as_ints(offs@), coeffs@).take(p as int),
        decreases n - p,
    {
        terms.push(Term { inp_index: offs[p], out_index: p, coeff: coeffs[p] });
        p += 1;
        assert(terms@ =~= strided_terms(as_ints(offs@), coeffs@).take(p as int));
    }
    assert(strided_terms(as_ints(offs@), coeffs@).take(n as int) =~= strided_terms(
        as_ints(offs@),
        coeffs@,
    ));
    terms
}

/// The tape of an operation on two tensors.
pub(crate) fn merge_tapes<E: Dtype>(lhs: Option<OwnedTape<E>>, rhs: Option<OwnedTape<E>>) -> (r:
    Option<OwnedTape<E>>)
    ensures
        merged_tape(
            match lhs {
                Some(t) => Some(t@),
                None => None,
            },
            match rhs {
                Some(t) => Some(t@),
                None => None,
            },
        ) == match r {
            Some(t) => Some(t@),
            None => None,
        },
{
    match lhs {
        None => rhs,
        Some(a) => match rhs {
            None => Some(a),
            Some(b) => Some(a.merge(b)),
        },
    }
}

/// Applies `op` to the elements of `lhs` and `rhs` pair by pair.
///
/// The result is a contiguous tensor of the shape of the two over a new buffer
/// with a new id. It is traced if one of the two is: its tape is the merged
/// tape of the two with one more operation, which holds the derivatives with
/// respect to both, also to the one that is not traced.
///
/// Fails if the two do not have the same shape.
pub fn try_binary_op<E: Dtype, Op: BinaryDerivative<E>>(
    op: Op,
    lhs: Tensor<E>,
    rhs: Tensor<E>,
    ids: &mut IdAllocator,
) -> (r: Result<Tensor<E>, Error>)
    ensures
        r is Ok <==> lhs.dims() == rhs.dims(),
        r matches Ok(out) ==> binary_result(op, lhs, rhs, out, old(ids).next_ordinal()),
        r is Ok ==> final(ids).next_ordinal() == id_after(old(ids).next_ordinal()),
        r is Err ==> r == Err::<Tensor<E>, Error>(Error::ShapeMismatch) && *final(ids) == *old(ids),
{
    if !same_dims(lhs.shape().dims(), rhs.shape().dims()) {
        return Err(Error::ShapeMismatch);
    }
    let lhs_offs = lhs.offsets();
    let rhs_offs = rhs.offsets();
    let ghost x = lhs.elements();
    let ghost y = rhs.elements();
    let (lhs_id, lhs_data, shape, _, lhs_tape) = lhs.into_parts();
    let (rhs_id, rhs_data, _, _, rhs_tape) = rhs.into_parts();
    let n = lhs_offs.len();
    let id = unique_id(ids);
    let mut out: Vec<E> = Vec::new();
    let mut dfdx: Vec<E> = Vec::new();
    let mut dfdy: Vec<E> = Vec::new();
    let traced = lhs_tape.is_some() || rhs_tape.is_some();
    let mut p: usize = 0;
    while p < n
        invariant
            n == lhs_offs@.len(),
            n == rhs_offs@.len(),
            p <= n,
            x.len() == n,
            y.len() == n,
            forall|q: int| 0 <= q < n ==> lhs_offs@[q] < lhs_data@.len(),
            forall|q: int| 0 <= q < n ==> rhs_offs@[q] < rhs_data@.len(),
            forall|q: int| 0 <= q < n ==> x[q] == lhs_data@[lhs_offs@[q] as int],
            forall|q: int| 0 <= q < n ==> y[q] == rhs_data@[rhs_offs@[q] as int],
            out@ == Seq::new(p as nat, |q: int| op.spec_f(x[q], y[q])),
            traced ==> dfdx@ == Seq::new(p as nat, |q: int| op.spec_dfdx(x[q], y[q])),
            traced ==> dfdy@ == Seq::new(p as nat, |q: int| op.spec_dfdy(x[q], y[q])),
        decreases n - p,
    {
        let a = lhs_data[lhs_offs[p]];
        let b = rhs_data[rhs_offs[p]];
        out.push(op.f(&a, &b));
        if traced {
            dfdx.push(op.dfdx(&a, &b));
            dfdy.push(op.dfdy(&a, &b));
        }
        p += 1;
        assert(out@ =~= Seq::new(p as nat, |q: int| op.spec_f(x[q], y[q])));
        assert(traced ==> dfdx@ =~= Seq::new(p as nat, |q: int| op.spec_dfdx(x[q], y[q])));
        assert(traced ==> dfdy@ =~= Seq::new(p as nat, |q: int| op.spec_dfdy(x[q], y[q])));
    }
    let tape = match merge_tapes(lhs_tape, rhs_tape) {
        None => None,
        Some(tape) => {
            let mut tape = tape;
            let mut inputs: Vec<InputGrad<E>> = Vec::new();
            inputs.push(
                InputGrad {
                    id: lhs_id,
                    len: lhs_data.len(),
                    terms: build_terms(&lhs_offs, &dfdx),
                },
            );
            inputs.push(
                InputGrad {
                    id: rhs_id,
                    len: rhs_data.len(),
                    terms: build_terms(&rhs_offs, &dfdy),
                },
            );
            let record = BackwardOp { out: id, out_len: n, inputs };
            assert(record@.inputs =~= binary_record(lhs, rhs, id.0, dfdx@, dfdy@).inputs);
            tape.record(record);
            Some(tape)
        },
    };
    let strides = shape.strides();
    proof {
        if volume(shape@) > 0 {
            lemma_span_row_major(shape@, strides@);
        }
    }
    Ok(Tensor::from_parts(id, Arc::new(out), shape, strides, tape))
}

} // verus!
