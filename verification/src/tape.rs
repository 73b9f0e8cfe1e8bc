use crate::dtype::Dtype;
use crate::error::Error;
use crate::gradients::{grad_or_zeros, Gradients};
use crate::tensor::copy_buffer;
use crate::unique_id::UniqueId;
use vstd::prelude::*;

verus! {

/// One entry of the derivative of an output with respect to an input: the
/// gradient at `inp_index` of the input grows by `coeff` times the gradient at
/// `out_index` of the output.
#[derive(Debug, Clone, Copy)]
pub struct Term<E> {
    pub inp_index: usize,
    pub out_index: usize,
    pub coeff: E,
}

/// What a recorded operation does to the gradient of one of its inputs.
#[derive(Debug)]
pub struct InputGrad<E> {
    /// The id of the input.
    pub id: UniqueId,
    /// The length of the buffer of the input.
    pub len: usize,
    pub terms: Vec<Term<E>>,
}

/// A recorded operation: how to update the gradients of its inputs from the
/// gradient of its output. It holds what it needs of the forward pass by value.
#[derive(Debug)]
pub struct BackwardOp<E> {
    /// The id of the output.
    pub out: UniqueId,
    /// The length of the buffer of the output.
    pub out_len: usize,
    pub inputs: Vec<InputGrad<E>>,
}

/// What a recorded operation does to the gradient of one of its inputs, as a
/// specification value.
pub struct InputGradView<E> {
    pub id: usize,
    pub len: nat,
    pub terms: Seq<Term<E>>,
}

/// A recorded operation as a specification value.
pub struct BackwardOpView<E> {
    pub out: usize,
    pub out_len: nat,
    pub inputs: Seq<InputGradView<E>>,
}

impl<E> View for InputGrad<E> {
    type V = InputGradView<E>;

    open spec fn view(&self) -> InputGradView<E> {
        InputGradView { id: self.id.0, len: self.len as nat, terms: self.terms@ }
    }
}

impl<E> View for BackwardOp<E> {
    type V = BackwardOpView<E>;

    open spec fn view(&self) -> BackwardOpView<E> {
        BackwardOpView {
            out: self.out.0,
            out_len: self.out_len as nat,
            inputs: self.inputs@.map_values(|input: InputGrad<E>| input@),
        }
    }
}

/// Whether every term stays inside the buffers of its input and output.
pub open spec fn terms_in_range<E>(terms: Seq<Term<E>>, inp_len: nat, out_len: nat) -> bool {
    forall|k: int|
        0 <= k < terms.len() ==> (#[trigger] terms[k]).inp_index < inp_len && terms[k].out_index
            < out_len
}

/// The gradient `buf` of an input after the terms have been added to it one
/// after the other, with `g` the gradient of the output.
pub open spec fn accumulate_terms<E: Dtype>(buf: Seq<E>, terms: Seq<Term<E>>, g: Seq<E>) -> Seq<E>
    decreases terms.len(),
{
    if terms.len() == 0 {
        buf
    } else {
        let before = accumulate_terms(buf, terms.drop_last(), g);
        let t = terms.last();
        before.update(
            t.inp_index as int,
            before[t.inp_index as int].spec_plus(t.coeff.spec_times(g[t.out_index as int])),
        )
    }
}

/// Whether the store can take the update of one input: the gradient it holds
/// for the input, if any, has the recorded length, and the terms stay in range.
pub open spec fn input_ok<E: Dtype>(
    store: Map<usize, Seq<E>>,
    input: InputGradView<E>,
    out_len: nat,
) -> bool {
    &&& grad_or_zeros(store, input.id, input.len).len() == input.len
    &&& terms_in_range(input.terms, input.len, out_len)
}

/// The store after the update of one input.
pub open spec fn apply_input<E: Dtype>(
    store: Map<usize, Seq<E>>,
    input: InputGradView<E>,
    g: Seq<E>,
) -> Map<usize, Seq<E>> {
    store.insert(
        input.id,
        accumulate_terms(grad_or_zeros(store, input.id, input.len), input.terms, g),
    )
}

/// The store after the updates of the inputs in their order, or `None` if the
/// store cannot take one of them.
pub open spec fn apply_inputs<E: Dtype>(
    store: Option<Map<usize, Seq<E>>>,
    inputs: Seq<InputGradView<E>>,
    g: Seq<E>,
) -> Option<Map<usize, Seq<E>>>
    decreases inputs.len(),
{
    if inputs.len() == 0 {
        store
    } else {
        match apply_inputs(store, inputs.drop_last(), g) {
            None => None,
            Some(s) => if input_ok(s, inputs.last(), g.len()) {
                Some(apply_input(s, inputs.last(), g))
            } else {
                None
            },
        }
    }
}

/// The store after one recorded operation has run: it reads the gradient
/// accumulated for its output so far and adds to the gradients of its inputs.
/// `None` if a gradient in the store has another length than the operation
/// recorded, or a term is out of range.
pub open spec fn apply_op<E: Dtype>(store: Map<usize, Seq<E>>, op: BackwardOpView<E>) -> Option<
    Map<usize, Seq<E>>,
> {
    let g = grad_or_zeros(store, op.out, op.out_len);
    if g.len() != op.out_len {
        None
    } else {
        apply_inputs(Some(store.insert(op.out, g)), op.inputs, g)
    }
}

/// The store after the recorded operations have run, the last recorded first.
pub open spec fn replay<E: Dtype>(
    store: Option<Map<usize, Seq<E>>>,
    ops: Seq<BackwardOpView<E>>,
) -> Option<Map<usize, Seq<E>>>
    decreases ops.len(),
{
    if ops.len() == 0 {
        store
    } else {
        match store {
            None => None,
            Some(s) => replay(apply_op(s, ops.last()), ops.drop_last()),
        }
    }
}

/// Once the store cannot take an input, the inputs after it do not run.
pub proof fn lemma_apply_inputs_none<E: Dtype>(
    store: Option<Map<usize, Seq<E>>>,
    inputs: Seq<InputGradView<E>>,
    g: Seq<E>,
    i: int,
)
    requires
        0 <= i <= inputs.len(),
        apply_inputs(store, inputs.take(i), g) is None,
    ensures
        apply_inputs(store, inputs, g) is None,
    decreases inputs.len() - i,
{
    if i < inputs.len() {
        assert(inputs.take(i + 1).drop_last() =~= inputs.take(i));
        lemma_apply_inputs_none(store, inputs, g, i + 1);
    } else {
        assert(inputs.take(i) =~= inputs);
    }
}

/// Nothing runs on a store that an earlier operation could not update.
pub proof fn lemma_replay_none<E: Dtype>(ops: Seq<BackwardOpView<E>>)
    ensures
        replay(None::<Map<usize, Seq<E>>>, ops) is None,
{
}

/// Adding terms to a gradient leaves its length as it is.
pub proof fn lemma_accumulate_terms_len<E: Dtype>(buf: Seq<E>, terms: Seq<Term<E>>, g: Seq<E>)
    requires
        terms_in_range(terms, buf.len(), g.len()),
    ensures
        accumulate_terms(buf, terms, g).len() == buf.len(),
    decreases terms.len(),
{
    if terms.len() > 0 {
        assert forall|k: int| 0 <= k < terms.len() - 1 implies (#[trigger] terms.drop_last()[k]).inp_index
            < buf.len() && terms.drop_last()[k].out_index < g.len() by {
            assert(terms.drop_last()[k] == terms[k]);
        }
        lemma_accumulate_terms_len(buf, terms.drop_last(), g);
    }
}

/// What the element at `slot` of a gradient becomes when terms are added to
/// the gradient: the terms that lead to `slot` add to it one after the other,
/// the others leave it alone.
pub open spec fn slot_total<E: Dtype>(start: E, terms: Seq<Term<E>>, g: Seq<E>, slot: int) -> E
    decreases terms.len(),
{
    if terms.len() == 0 {
        start
    } else {
        let before = slot_total(start, terms.drop_last(), g, slot);
        let t = terms.last();
        if t.inp_index == slot {
            before.spec_plus(t.coeff.spec_times(g[t.out_index as int]))
        } else {
            before
        }
    }
}

/// Each element of a gradient receives exactly the terms that lead to it:
/// where several elements of an output were computed from one element of a
/// buffer, as in a broadcast view, their contributions add up in that element.
pub proof fn lemma_accumulate_terms_slot<E: Dtype>(
    buf: Seq<E>,
    terms: Seq<Term<E>>,
    g: Seq<E>,
    slot: int,
)
    requires
        terms_in_range(terms, buf.len(), g.len()),
        0 <= slot < buf.len(),
    ensures
        accumulate_terms(buf, terms, g)[slot] == slot_total(buf[slot], terms, g, slot),
    decreases terms.len(),
{
    if terms.len() > 0 {
        assert forall|k: int| 0 <= k < terms.len() - 1 implies (#[trigger] terms.drop_last()[k]).inp_index
            < buf.len() && terms.drop_last()[k].out_index < g.len() by {
            assert(terms.drop_last()[k] == terms[k]);
        }
        lemma_accumulate_terms_len(buf, terms.drop_last(), g);
        lemma_accumulate_terms_slot(buf, terms.drop_last(), g, slot);
        assert(terms[terms.len() - 1].inp_index < buf.len());
    }
}

/// The store after one more operation has run, if the operations before it
/// could run.
pub open spec fn step<E: Dtype>(store: Option<Map<usize, Seq<E>>>, op: BackwardOpView<E>) -> Option<
    Map<usize, Seq<E>>,
> {
    match store {
        None => None,
        Some(s) => apply_op(s, op),
    }
}

/// The store after the operations have run in the order of the sequence, the
/// first of the sequence first.
pub open spec fn run_in_order<E: Dtype>(
    store: Option<Map<usize, Seq<E>>>,
    ops: Seq<BackwardOpView<E>>,
) -> Option<Map<usize, Seq<E>>>
    decreases ops.len(),
{
    if ops.len() == 0 {
        store
    } else {
        run_in_order(step(store, ops[0]), ops.drop_first())
    }
}

/// Replay order: a replay runs the recorded operations in the strict reverse
/// of the order in which they were recorded.
pub proof fn lemma_replay_reverses<E: Dtype>(
    store: Option<Map<usize, Seq<E>>>,
    ops: Seq<BackwardOpView<E>>,
)
    ensures
        replay(store, ops) == run_in_order(store, ops.reverse()),
    decreases ops.len(),
{
    if ops.len() > 0 {
        let back = ops.reverse();
        assert(back[0] == ops.last());
        assert(back.drop_first() =~= ops.drop_last().reverse());
        match store {
            None => {
                lemma_replay_none::<E>(ops);
                lemma_replay_reverses(None::<Map<usize, Seq<E>>>, ops.drop_last());
                lemma_replay_none::<E>(ops.drop_last());
            },
            Some(s) => {
                lemma_replay_reverses(apply_op(s, ops.last()), ops.drop_last());
            },
        }
    }
}

/// Replay order on a chain of three: of the operations recorded as `a`, then
/// `b`, then `c`, a replay runs `c` first, then `b`, then `a`.
pub proof fn lemma_replay_chain<E: Dtype>(
    store: Map<usize, Seq<E>>,
    a: BackwardOpView<E>,
    b: BackwardOpView<E>,
    c: BackwardOpView<E>,
)
    ensures
        replay(Some(store), seq![a, b, c]) == step(step(apply_op(store, c), b), a),
{
    let ops = seq![a, b, c];
    assert(ops.drop_last() =~= seq![a, b]);
    assert(seq![a, b].drop_last() =~= seq![a]);
    assert(seq![a].drop_last() =~= Seq::<BackwardOpView<E>>::empty());
    let after_c = apply_op(store, c);
    assert(replay(Some(store), ops) == replay(after_c, seq![a, b]));
    match after_c {
        None => {
            lemma_replay_none::<E>(seq![a, b]);
        },
        Some(s1) => {
            let after_b = apply_op(s1, b);
            assert(replay(after_c, seq![a, b]) == replay(after_b, seq![a]));
            match after_b {
                None => {
                    lemma_replay_none::<E>(seq![a]);
                },
                Some(s2) => {
                    assert(replay(after_b, seq![a]) == replay(
                        apply_op(s2, a),
                        Seq::<BackwardOpView<E>>::empty(),
                    ));
                },
            }
        },
    }
}

/// A replay of a merged tape is a replay of the second tape followed by a
/// replay of the first.
pub proof fn lemma_replay_merged<E: Dtype>(
    store: Option<Map<usize, Seq<E>>>,
    a: Seq<BackwardOpView<E>>,
    b: Seq<BackwardOpView<E>>,
)
    ensures
        replay(store, a + b) == replay(replay(store, b), a),
    decreases b.len(),
{
    if b.len() == 0 {
        assert(a + b =~= a);
    } else {
        assert((a + b).last() == b.last());
        assert((a + b).drop_last() =~= a + b.drop_last());
        match store {
            None => {
                lemma_replay_none::<E>(a + b);
                lemma_replay_none::<E>(b);
                lemma_replay_none::<E>(a);
            },
            Some(s) => {
                lemma_replay_merged(apply_op(s, b.last()), a, b.drop_last());
            },
        }
    }
}

/// Whether two stores hold the same for an id: both nothing, or both the same
/// gradient.
pub open spec fn same_at<E>(a: Map<usize, Seq<E>>, b: Map<usize, Seq<E>>, id: usize) -> bool {
    &&& a.contains_key(id) == b.contains_key(id)
    &&& a.contains_key(id) ==> a[id] == b[id]
}

/// Whether `id` is the id of one of the inputs.
pub open spec fn is_input<E>(inputs: Seq<InputGradView<E>>, id: usize) -> bool {
    exists|i: int| 0 <= i < inputs.len() && (#[trigger] inputs[i]).id == id
}

/// Whether an operation reads or writes the gradient for `id`.
pub open spec fn touches<E>(op: BackwardOpView<E>, id: usize) -> bool {
    op.out == id || is_input(op.inputs, id)
}

/// Two histories are independent if no operation of the one reads or writes a
/// gradient that an operation of the other reads or writes.
pub open spec fn independent<E>(a: Seq<BackwardOpView<E>>, b: Seq<BackwardOpView<E>>) -> bool {
    forall|i: int, j: int, id: usize|
        0 <= i < a.len() && 0 <= j < b.len() ==> !(#[trigger] touches(a[i], id)
            && #[trigger] touches(b[j], id))
}

/// An input among all but the last of the inputs is one of the inputs.
pub proof fn lemma_is_input_drop_last<E>(inputs: Seq<InputGradView<E>>, id: usize)
    requires
        inputs.len() > 0,
        is_input(inputs.drop_last(), id),
    ensures
        is_input(inputs, id),
{
    let front = inputs.drop_last();
    let i = choose|i: int| 0 <= i < front.len() && (#[trigger] front[i]).id == id;
    assert(inputs[i].id == id);
}

/// The updates of inputs depend on the store only at the ids of the inputs,
/// and change it only there.
pub proof fn lemma_apply_inputs_frame<E: Dtype>(
    s1: Map<usize, Seq<E>>,
    s2: Map<usize, Seq<E>>,
    inputs: Seq<InputGradView<E>>,
    g: Seq<E>,
)
    requires
        forall|id: usize| is_input(inputs, id) ==> same_at(s1, s2, id),
    ensures
        apply_inputs(Some(s1), inputs, g) is Some <==> apply_inputs(Some(s2), inputs, g) is Some,
        apply_inputs(Some(s1), inputs, g) matches Some(r1) ==> {
            &&& forall|id: usize| !is_input(inputs, id) ==> same_at(r1, s1, id)
            &&& apply_inputs(Some(s2), inputs, g) matches Some(r2) && forall|id: usize|
                #![trigger same_at(r1, r2, id)]
                same_at(s1, s2, id) ==> same_at(r1, r2, id)
        },
    decreases inputs.len(),
{
    if inputs.len() > 0 {
        let front = inputs.drop_last();
        let last = inputs.last();
        assert forall|id: usize| is_input(front, id) implies same_at(s1, s2, id) by {
            lemma_is_input_drop_last(inputs, id);
        }
        lemma_apply_inputs_frame(s1, s2, front, g);
        assert(is_input(inputs, last.id)) by {
            assert(inputs[inputs.len() - 1].id == last.id);
        }
        match apply_inputs(Some(s1), front, g) {
            None => {},
            Some(front1) => {
                let front2 = apply_inputs(Some(s2), front, g)->0;
                assert(same_at(front1, front2, last.id));
                if input_ok(front1, last, g.len()) {
                    let r1 = apply_input(front1, last, g);
                    let r2 = apply_input(front2, last, g);
                    assert forall|id: usize| !is_input(inputs, id) implies same_at(r1, s1, id) by {
                        if is_input(front, id) {
                            lemma_is_input_drop_last(inputs, id);
                        }
                        assert(same_at(front1, s1, id));
                    }
                    assert forall|id: usize| same_at(s1, s2, id) implies same_at(r1, r2, id) by {
                        assert(same_at(front1, front2, id));
                    }
                }
            },
        }
    }
}

/// An operation depends on the store only at the ids it touches, and changes
/// it only there.
pub proof fn lemma_apply_op_frame<E: Dtype>(
    s1: Map<usize, Seq<E>>,
    s2: Map<usize, Seq<E>>,
    op: BackwardOpView<E>,
)
    requires
        forall|id: usize| touches(op, id) ==> same_at(s1, s2, id),
    ensures
        apply_op(s1, op) is Some <==> apply_op(s2, op) is Some,
        apply_op(s1, op) matches Some(r1) ==> {
            &&& forall|id: usize| !touches(op, id) ==> same_at(r1, s1, id)
            &&& apply_op(s2, op) matches Some(r2) && forall|id: usize|
                #![trigger same_at(r1, r2, id)]
                same_at(s1, s2, id) ==> same_at(r1, r2, id)
        },
{
    assert(touches(op, op.out));
    assert(same_at(s1, s2, op.out));
    let g = grad_or_zeros(s1, op.out, op.out_len);
    assert(g == grad_or_zeros(s2, op.out, op.out_len));
    if g.len() == op.out_len {
        let t1 = s1.insert(op.out, g);
        let t2 = s2.insert(op.out, g);
        assert forall|id: usize| is_input(op.inputs, id) implies same_at(t1, t2, id) by {
            assert(touches(op, id));
        }
        lemma_apply_inputs_frame(t1, t2, op.inputs, g);
        match apply_inputs(Some(t1), op.inputs, g) {
            None => {},
            Some(r1) => {
                let r2 = apply_inputs(Some(t2), op.inputs, g)->0;
                assert forall|id: usize| !touches(op, id) implies same_at(r1, s1, id) by {
                    assert(same_at(r1, t1, id));
                }
                assert forall|id: usize| same_at(s1, s2, id) implies same_at(r1, r2, id) by {
                    assert(same_at(t1, t2, id));
                }
            },
        }
    }
}

/// Two operations that touch no common id can run in either order.
pub proof fn lemma_ops_commute<E: Dtype>(
    store: Option<Map<usize, Seq<E>>>,
    x: BackwardOpView<E>,
    y: BackwardOpView<E>,
)
    requires
        forall|id: usize| !(touches(x, id) && touches(y, id)),
    ensures
        step(step(store, x), y) == step(step(store, y), x),
{
    if let Some(s) = store {
        lemma_apply_op_frame(s, s, x);
        lemma_apply_op_frame(s, s, y);
        match (apply_op(s, x), apply_op(s, y)) {
            (Some(sx), Some(sy)) => {
                assert forall|id: usize| touches(y, id) implies same_at(sx, s, id) by {}
                lemma_apply_op_frame(sx, s, y);
                assert forall|id: usize| touches(x, id) implies same_at(sy, s, id) by {}
                lemma_apply_op_frame(sy, s, x);
                let xy = apply_op(sx, y)->0;
                let yx = apply_op(sy, x)->0;
                assert forall|id: usize|
                    #![trigger xy.dom().contains(id)]
                    #![trigger yx.dom().contains(id)]
                    #![trigger xy[id]]
                    #![trigger yx[id]]
                    xy.dom().contains(id) == yx.dom().contains(id) && (xy.dom().contains(id)
                        ==> xy[id] == yx[id]) by {
                    if touches(y, id) {
                        assert(same_at(sx, s, id));
                        assert(same_at(xy, sy, id));
                        assert(same_at(yx, sy, id));
                    } else if touches(x, id) {
                        assert(same_at(sy, s, id));
                        assert(same_at(yx, sx, id));
                        assert(same_at(xy, sx, id));
                    } else {
                        assert(same_at(xy, sx, id));
                        assert(same_at(sx, s, id));
                        assert(same_at(yx, sy, id));
                        assert(same_at(sy, s, id));
                    }
                }
                assert(xy.dom() =~= yx.dom());
                assert(xy =~= yx);
            },
            (Some(sx), None) => {
                assert forall|id: usize| touches(y, id) implies same_at(sx, s, id) by {}
                lemma_apply_op_frame(sx, s, y);
            },
            (None, Some(sy)) => {
                assert forall|id: usize| touches(x, id) implies same_at(sy, s, id) by {}
                lemma_apply_op_frame(sy, s, x);
            },
            (None, None) => {},
        }
    }
}

/// A replay starts with the operation recorded last.
pub proof fn lemma_replay_last<E: Dtype>(
    store: Option<Map<usize, Seq<E>>>,
    ops: Seq<BackwardOpView<E>>,
)
    requires
        ops.len() > 0,
    ensures
        replay(store, ops) == replay(step(store, ops.last()), ops.drop_last()),
{
    if store is None {
        lemma_replay_none::<E>(ops.drop_last());
    }
}

/// An operation that touches no id that a history touches can run before the
/// replay of the history or after it.
pub proof fn lemma_op_commutes_with_replay<E: Dtype>(
    store: Option<Map<usize, Seq<E>>>,
    x: BackwardOpView<E>,
    b: Seq<BackwardOpView<E>>,
)
    requires
        independent(seq![x], b),
    ensures
        replay(step(store, x), b) == step(replay(store, b), x),
    decreases b.len(),
{
    if b.len() > 0 {
        let last = b.last();
        let rest = b.drop_last();
        lemma_replay_last(step(store, x), b);
        lemma_replay_last(store, b);
        assert forall|id: usize| !(touches(x, id) && touches(last, id)) by {
            assert(seq![x][0] == x);
            assert(b[b.len() - 1] == last);
            if touches(x, id) && touches(last, id) {
                assert(touches(seq![x][0], id) && touches(b[b.len() - 1], id));
            }
        }
        lemma_ops_commute(store, x, last);
        assert(independent(seq![x], rest)) by {
            assert forall|i: int, j: int, id: usize|
                0 <= i < 1 && 0 <= j < rest.len() implies !(#[trigger] touches(seq![x][i], id)
                && #[trigger] touches(rest[j], id)) by {
                assert(rest[j] == b[j]);
            }
        }
        lemma_op_commutes_with_replay(step(store, last), x, rest);
    }
}

/// The replays of two independent histories can run in either order.
pub proof fn lemma_replays_commute<E: Dtype>(
    store: Option<Map<usize, Seq<E>>>,
    a: Seq<BackwardOpView<E>>,
    b: Seq<BackwardOpView<E>>,
)
    requires
        independent(a, b),
    ensures
        replay(replay(store, b), a) == replay(replay(store, a), b),
    decreases a.len(),
{
    if a.len() > 0 {
        let last = a.last();
        let rest = a.drop_last();
        lemma_replay_last(replay(store, b), a);
        lemma_replay_last(store, a);
        assert(independent(seq![last], b)) by {
            assert forall|i: int, j: int, id: usize|
                0 <= i < 1 && 0 <= j < b.len() implies !(#[trigger] touches(seq![last][i], id)
                && #[trigger] touches(b[j], id)) by {
                assert(seq![last][i] == a[a.len() - 1]);
            }
        }
        lemma_op_commutes_with_replay(store, last, b);
        assert(independent(rest, b)) by {
            assert forall|i: int, j: int, id: usize|
                0 <= i < rest.len() && 0 <= j < b.len() implies !(#[trigger] touches(rest[i], id)
                && #[trigger] touches(b[j], id)) by {
                assert(rest[i] == a[i]);
            }
        }
        lemma_replays_commute(step(store, last), rest, b);
    }
}

/// Merge law: where two independent histories are joined by one operation,
/// the gradients are the same whichever history the merged tape holds first,
/// and the same as when the joining operation runs and then each history is
/// replayed on its own.
pub proof fn lemma_merge_order<E: Dtype>(
    store: Option<Map<usize, Seq<E>>>,
    a: Seq<BackwardOpView<E>>,
    b: Seq<BackwardOpView<E>>,
    join: BackwardOpView<E>,
)
    requires
        independent(a, b),
    ensures
        replay(store, (a + b).push(join)) == replay(store, (b + a).push(join)),
        replay(store, (a + b).push(join)) == replay(replay(step(store, join), b), a),
        replay(store, (a + b).push(join)) == replay(replay(step(store, join), a), b),
{
    let first = (a + b).push(join);
    let second = (b + a).push(join);
    assert(first.drop_last() =~= a + b);
    assert(second.drop_last() =~= b + a);
    lemma_replay_last(store, first);
    lemma_replay_last(store, second);
    lemma_replay_merged(step(store, join), a, b);
    lemma_replay_merged(step(store, join), b, a);
    lemma_replays_commute(step(store, join), a, b);
}

impl<E: Dtype> InputGrad<E> {
    /// Adds the terms to the gradient of the input in `store`, with `g` the
    /// gradient of the output.
    fn apply(&self, store: &mut Gradients<E>, g: &Vec<E>) -> (r: Result<(), Error>)
        ensures
            r is Ok <==> input_ok(old(store)@, self@, g@.len()),
            r is Ok ==> final(store)@ == apply_input(old(store)@, self@, g@),
            r is Err ==> r == Err::<(), Error>(Error::ShapeMismatch),
    {
        let mut buf = store.take_or_init(&self.id, self.len);
        let ghost start = buf@;
        if buf.len() != self.len {
            return Err(Error::ShapeMismatch);
        }
        let n = self.terms.len();
        let mut k: usize = 0;
        assert(self.terms@.take(0) =~= Seq::<Term<E>>::empty());
        while k < n
            invariant
                n == self.terms.len(),
                k <= n,
                start.len() == self.len,
                buf@.len() == self.len,
                terms_in_range(self.terms@.take(k as int), self.len as nat, g@.len()),
                buf@ == accumulate_terms(start, self.terms@.take(k as int), g@),
            decreases n - k,
        {
            let t = self.terms[k];
            if t.inp_index >= self.len || t.out_index >= g.len() {
                assert(!terms_in_range(self.terms@, self.len as nat, g@.len())) by {
                    assert(self.terms@[k as int] == t);
                }
                return Err(Error::ShapeMismatch);
            }
            let sum = buf[t.inp_index].plus(t.coeff.times(g[t.out_index]));
            buf.set(t.inp_index, sum);
            proof {
                assert(self.terms@.take(k + 1).drop_last() =~= self.terms@.take(k as int));
                assert(self.terms@.take(k + 1).last() == t);
                assert forall|j: int| 0 <= j < k + 1 implies (#[trigger] self.terms@.take(
                    k + 1,
                )[j]).inp_index < self.len && self.terms@.take(k + 1)[j].out_index
                    < g@.len() by {
                    if j < k {
                        assert(self.terms@.take(k as int)[j] == self.terms@.take(k + 1)[j]);
                    }
                }
            }
            k += 1;
        }
        assert(self.terms@.take(n as int) =~= self.terms@);
        store.put(&self.id, buf);
        assert(store@ =~= apply_input(old(store)@, self@, g@));
        Ok(())
    }
}

impl<E: Dtype> BackwardOp<E> {
    /// Runs the operation on `store`.
    ///
    /// Fails if the store cannot take the update; what the store then holds is
    /// not specified.
    pub fn apply(&self, store: &mut Gradients<E>) -> (r: Result<(), Error>)
        ensures
            r is Ok <==> apply_op(old(store)@, self@) is Some,
            r is Ok ==> Some(final(store)@) == apply_op(old(store)@, self@),
            r is Err ==> r == Err::<(), Error>(Error::ShapeMismatch),
    {
        let g = copy_buffer(store.get_or_init(&self.out, self.out_len));
        if g.len() != self.out_len {
            return Err(Error::ShapeMismatch);
        }
        let ghost seeded = store@;
        let n = self.inputs.len();
        let mut i: usize = 0;
        let ghost inputs = self@.inputs;
        assert(inputs.take(0) =~= Seq::<InputGradView<E>>::empty());
        while i < n
            invariant
                n == self.inputs.len(),
                i <= n,
                inputs == self@.inputs,
                g@.len() == self.out_len,
                g@ == grad_or_zeros(old(store)@, self.out.0, self.out_len as nat),
                seeded == old(store)@.insert(self.out.0, g@),
                Some(store@) == apply_inputs(Some(seeded), inputs.take(i as int), g@),
            decreases n - i,
        {
            proof {
                assert(inputs.take(i + 1).drop_last() =~= inputs.take(i as int));
                assert(inputs.take(i + 1).last() == self.inputs@[i as int]@);
            }
            match self.inputs[i].apply(store, &g) {
                Ok(()) => {},
                Err(e) => {
                    proof {
                        lemma_apply_inputs_none(Some(seeded), inputs, g@, i + 1);
                    }
                    return Err(e);
                },
            }
            i += 1;
        }
        assert(inputs.take(n as int) =~= inputs);
        Ok(())
    }
}

/// The operations recorded during a forward pass, in the order in which they
/// ran.
#[derive(Debug)]
pub struct OwnedTape<E> {
    ops: Vec<BackwardOp<E>>,
}

impl<E> View for OwnedTape<E> {
    type V = Seq<BackwardOpView<E>>;

    closed spec fn view(&self) -> Seq<BackwardOpView<E>> {
        self.ops@.map_values(|op: BackwardOp<E>| op@)
    }
}

impl<E: Dtype> OwnedTape<E> {
    /// A tape on which nothing is recorded.
    pub fn new() -> (tape: OwnedTape<E>)
        ensures
            tape@ == Seq::<BackwardOpView<E>>::empty(),
    {
        let tape = OwnedTape { ops: Vec::new() };
        assert(tape@ =~= Seq::<BackwardOpView<E>>::empty());
        tape
    }

    /// The number of recorded operations.
    pub fn len(&self) -> (n: usize)
        ensures
            n == self@.len(),
    {
        self.ops.len()
    }

    /// Records an operation after those recorded so far.
    pub fn record(&mut self, op: BackwardOp<E>)
        ensures
            final(self)@ == old(self)@.push(op@),
    {
        self.ops.push(op);
        assert(self@ =~= old(self)@.push(op@));
    }

    /// The tape of an operation on two traced tensors: the operations of
    /// `self` in their order, then those of `other` in theirs.
    pub fn merge(self, other: OwnedTape<E>) -> (tape: OwnedTape<E>)
        ensures
            tape@ == self@ + other@,
    {
        let mut ops = self.ops;
        let mut rest = other.ops;
        ops.append(&mut rest);
        let tape = OwnedTape { ops };
        assert(tape@ =~= self@ + other@);
        tape
    }

    /// Runs the recorded operations on `store`, the last recorded first, each
    /// of them once.
    ///
    /// Fails at the first operation whose update the store cannot take.
    pub fn execute(self, store: Gradients<E>) -> (r: Result<Gradients<E>, Error>)
        ensures
            match r {
                Ok(done) => replay(Some(store@), self@) == Some(done@),
                Err(e) => e == Error::ShapeMismatch && replay(Some(store@), self@) is None,
            },
    {
        let mut current = store;
        let mut i: usize = self.ops.len();
        let ghost ops = self@;
        assert(ops.take(i as int) =~= ops);
        while i > 0
            invariant
                i <= self.ops.len(),
                ops == self@,
                ops.len() == self.ops.len(),
                replay(Some(store@), ops) == replay(Some(current@), ops.take(i as int)),
            decreases i,
        {
            i -= 1;
            proof {
                assert(ops.take(i + 1).drop_last() =~= ops.take(i as int));
                assert(ops.take(i + 1).last() == self.ops@[i as int]@);
            }
            let ghost before = current@;
            match self.ops[i].apply(&mut current) {
                Ok(()) => {},
                Err(e) => {
                    proof {
                        assert(apply_op(before, ops[i as int]) is None);
                        lemma_replay_none::<E>(ops.take(i as int));
                    }
                    return Err(e);
                },
            }
        }
        assert(ops.take(0) =~= Seq::<BackwardOpView<E>>::empty());
        Ok(current)
    }
}

} // verus!
