use super::axes::{
    axis_range, has_axis, kept_before, lemma_axis_range_members, lemma_kept_before_monotonic,
    lemma_remove_axes_len, remove_axes,
};
use super::broadcasts::broadcast_strides_spec;
use super::shape::{
    lemma_volume_empty_dim, lemma_volume_last, lemma_volume_positive, lemma_volume_push,
    valid_dims, volume,
};
use vstd::arithmetic::div_mod::{lemma_fundamental_div_mod, lemma_fundamental_div_mod_converse};
use vstd::prelude::*;

verus! {

/// How far the last index of a dimension of size `d` and stride `s` is from
/// the first.
pub open spec fn reach(d: usize, s: usize) -> nat {
    if d == 0 {
        0
    } else {
        ((d - 1) * s) as nat
    }
}

/// The largest offset into the buffer that a view with the given dimensions
/// and strides reads, provided that it has elements at all.
pub open spec fn span(dims: Seq<usize>, strides: Seq<usize>) -> nat
    decreases dims.len(),
{
    if dims.len() == 0 {
        0
    } else {
        span(dims.drop_last(), strides.drop_last()) + reach(dims.last(), strides.last())
    }
}

/// Whether a view with the given dimensions and strides stays inside a buffer
/// of `len` elements.
pub open spec fn view_in_bounds(dims: Seq<usize>, strides: Seq<usize>, len: nat) -> bool {
    &&& strides.len() == dims.len()
    &&& volume(dims) == 0 || span(dims, strides) < len
}

/// The offsets of a view with one more dimension, of size `d` and stride `s`,
/// than the view with the offsets `outer`: each offset of `outer` in turn,
/// moved along the new dimension.
pub open spec fn expanded(outer: Seq<int>, d: int, s: int) -> Seq<int> {
    Seq::new((outer.len() * d) as nat, |p: int| outer[p / d] + (p % d) * s)
}

/// The offsets into the buffer of the elements of a view, in row-major order
/// of their indices: the last dimension runs fastest.
pub open spec fn offsets(dims: Seq<usize>, strides: Seq<usize>) -> Seq<int>
    decreases dims.len(),
{
    if dims.len() == 0 {
        seq![0int]
    } else {
        expanded(
            offsets(dims.drop_last(), strides.drop_last()),
            dims.last() as int,
            strides.last() as int,
        )
    }
}

/// A table of offsets as numbers without bound.
pub open spec fn as_ints(table: Seq<usize>) -> Seq<int> {
    table.map_values(|x: usize| x as int)
}

/// A shape with elements keeps having elements when dimensions are removed.
pub proof fn lemma_volume_remove_axes(dims: Seq<usize>, axes: Seq<usize>)
    requires
        volume(dims) > 0,
    ensures
        volume(remove_axes(dims, axes)) > 0,
    decreases dims.len(),
{
    if dims.len() > 0 {
        let front = dims.drop_last();
        lemma_volume_last(dims);
        assert(volume(front) > 0 && dims.last() > 0) by (nonlinear_arith)
            requires
                volume(front) * dims.last() as nat > 0,
        ;
        lemma_volume_remove_axes(front, axes);
        if !has_axis(axes, dims.len() - 1) {
            lemma_volume_push(remove_axes(front, axes), dims.last());
            assert(volume(remove_axes(front, axes)) * dims.last() as nat > 0)
                by (nonlinear_arith)
                requires
                    volume(remove_axes(front, axes)) > 0,
                    dims.last() > 0,
            ;
        }
    }
}

/// The span seen from the first dimension.
pub proof fn lemma_span_first(dims: Seq<usize>, strides: Seq<usize>)
    requires
        dims.len() > 0,
        strides.len() == dims.len(),
    ensures
        span(dims, strides) == reach(dims[0], strides[0]) + span(
            dims.drop_first(),
            strides.drop_first(),
        ),
    decreases dims.len(),
{
    if dims.len() == 1 {
        assert(span(dims.drop_last(), strides.drop_last()) == 0);
        assert(span(dims.drop_first(), strides.drop_first()) == 0);
    } else {
        lemma_span_first(dims.drop_last(), strides.drop_last());
        assert(dims.drop_first().drop_last() =~= dims.drop_last().drop_first());
        assert(strides.drop_first().drop_last() =~= strides.drop_last().drop_first());
        assert(span(dims.drop_first(), strides.drop_first()) == span(
            dims.drop_first().drop_last(),
            strides.drop_first().drop_last(),
        ) + reach(dims.last(), strides.last()));
    }
}

/// With row-major strides, the last element of a shape with elements lies at
/// the offset before the volume: the view fills a buffer of the volume's
/// length exactly.
pub proof fn lemma_span_row_major(dims: Seq<usize>, strides: Seq<usize>)
    requires
        strides.len() == dims.len(),
        forall|i: int| 0 <= i < dims.len() ==> strides[i] == volume(dims.skip(i + 1)),
        volume(dims) > 0,
    ensures
        span(dims, strides) + 1 == volume(dims),
    decreases dims.len(),
{
    if dims.len() > 0 {
        let rest = dims.drop_first();
        let rest_strides = strides.drop_first();
        assert(dims.skip(1) =~= rest);
        assert forall|i: int| 0 <= i < rest.len() implies rest_strides[i] == volume(
            rest.skip(i + 1),
        ) by {
            assert(rest.skip(i + 1) =~= dims.skip(i + 2));
        }
        assert(volume(rest) > 0 && dims[0] > 0) by (nonlinear_arith)
            requires
                dims[0] as nat * volume(rest) > 0,
        ;
        lemma_span_row_major(rest, rest_strides);
        lemma_span_first(dims, strides);
        assert((dims[0] - 1) * strides[0] + volume(rest) == dims[0] as nat * volume(rest))
            by (nonlinear_arith)
            requires
                strides[0] == volume(rest),
                dims[0] > 0,
        ;
    }
}

/// A broadcast view reaches as far into the buffer as the view it was made
/// from: the broadcast axes add nothing.
pub proof fn lemma_span_broadcast(dst: Seq<usize>, axes: Seq<usize>, strides: Seq<usize>)
    requires
        kept_before(axes, dst.len()) == strides.len(),
    ensures
        span(dst, broadcast_strides_spec(strides, axes, dst.len())) == span(
            remove_axes(dst, axes),
            strides,
        ),
    decreases dst.len(),
{
    let n = dst.len();
    let view = broadcast_strides_spec(strides, axes, n);
    if n > 0 {
        let last = (n - 1) as nat;
        let front = dst.drop_last();
        if has_axis(axes, last as int) {
            assert(view.drop_last() =~= broadcast_strides_spec(strides, axes, last));
            lemma_span_broadcast(front, axes, strides);
            assert(reach(dst.last(), view.last()) == 0) by (nonlinear_arith)
                requires
                    view.last() == 0,
            ;
        } else {
            let fewer = strides.drop_last();
            assert(view.drop_last() =~= broadcast_strides_spec(fewer, axes, last)) by {
                assert forall|i: int| 0 <= i < last && !has_axis(axes, i) implies strides[kept_before(
                    axes,
                    i as nat,
                ) as int] == fewer[kept_before(axes, i as nat) as int] by {
                    lemma_kept_before_monotonic(axes, i as nat, last);
                }
            }
            lemma_span_broadcast(front, axes, fewer);
            lemma_remove_axes_len(front, axes);
            assert(remove_axes(dst, axes).drop_last() =~= remove_axes(front, axes));
        }
    }
}

/// The position, in row-major order, of the element of the source that the
/// element at position `p` of a broadcast to `dst` along `axes` shows: the
/// index of `p` without its entries along the broadcast axes.
pub open spec fn source_position(dst: Seq<usize>, axes: Seq<usize>, p: int) -> int
    decreases dst.len(),
{
    if dst.len() == 0 {
        0
    } else {
        let d = dst.last() as int;
        let outer = source_position(dst.drop_last(), axes, p / d);
        if has_axis(axes, dst.len() - 1) {
            outer
        } else {
            outer * d + p % d
        }
    }
}

/// Broadcasting is a view: each element of a broadcast view lies in the buffer
/// where the element of the source at the index without the broadcast axes
/// lies. Elements that differ only along broadcast axes are one element of the
/// buffer.
pub proof fn lemma_broadcast_offsets(
    dst: Seq<usize>,
    axes: Seq<usize>,
    strides: Seq<usize>,
    p: int,
)
    requires
        kept_before(axes, dst.len()) == strides.len(),
        0 <= p < volume(dst),
    ensures
        0 <= source_position(dst, axes, p) < volume(remove_axes(dst, axes)),
        offsets(dst, broadcast_strides_spec(strides, axes, dst.len()))[p] == offsets(
            remove_axes(dst, axes),
            strides,
        )[source_position(dst, axes, p)],
    decreases dst.len(),
{
    let n = dst.len();
    let view = broadcast_strides_spec(strides, axes, n);
    let src = remove_axes(dst, axes);
    lemma_offsets_len(dst, view);
    lemma_offsets_len(src, strides);
    if n > 0 {
        let last = (n - 1) as nat;
        let front = dst.drop_last();
        let d = dst.last() as int;
        lemma_volume_last(dst);
        lemma_offsets_len(front, view.drop_last());
        assert(d > 0) by (nonlinear_arith)
            requires
                0 <= p < volume(front) * d,
                d >= 0,
        ;
        lemma_fundamental_div_mod(p, d);
        assert(0 <= p / d < volume(front) && 0 <= p % d < d) by (nonlinear_arith)
            requires
                p == d * (p / d) + (p % d),
                0 <= p < volume(front) * d,
                0 <= p % d < d,
                d > 0,
        ;
        if has_axis(axes, last as int) {
            assert(view.drop_last() =~= broadcast_strides_spec(strides, axes, last));
            lemma_broadcast_offsets(front, axes, strides, p / d);
            assert((p % d) * 0 == 0) by (nonlinear_arith);
        } else {
            let fewer = strides.drop_last();
            assert(view.drop_last() =~= broadcast_strides_spec(fewer, axes, last)) by {
                assert forall|i: int| 0 <= i < last && !has_axis(axes, i) implies strides[kept_before(
                    axes,
                    i as nat,
                ) as int] == fewer[kept_before(axes, i as nat) as int] by {
                    lemma_kept_before_monotonic(axes, i as nat, last);
                }
            }
            lemma_broadcast_offsets(front, axes, fewer, p / d);
            lemma_remove_axes_len(front, axes);
            let inner = remove_axes(front, axes);
            assert(src.drop_last() =~= inner);
            assert(src.last() == dst.last());
            let q = source_position(front, axes, p / d);
            let r = p % d;
            lemma_volume_last(src);
            lemma_offsets_len(inner, fewer);
            lemma_fundamental_div_mod_converse(q * d + r, d, q, r);
            assert(q * d + r < volume(inner) * d) by (nonlinear_arith)
                requires
                    0 <= q < volume(inner),
                    0 <= r < d,
            ;
            assert(0 <= q * d + r) by (nonlinear_arith)
                requires
                    0 <= q,
                    0 <= r,
                    d > 0,
            ;
        }
    }
}

/// A broadcast view of a view that stays inside its buffer stays inside it
/// too.
pub proof fn lemma_broadcast_in_bounds(
    dst: Seq<usize>,
    axes: Seq<usize>,
    strides: Seq<usize>,
    len: nat,
)
    requires
        kept_before(axes, dst.len()) == strides.len(),
        view_in_bounds(remove_axes(dst, axes), strides, len),
    ensures
        view_in_bounds(dst, broadcast_strides_spec(strides, axes, dst.len()), len),
{
    lemma_span_broadcast(dst, axes, strides);
    if volume(dst) > 0 {
        lemma_volume_remove_axes(dst, axes);
    }
}

/// A view has one offset for each element.
pub proof fn lemma_offsets_len(dims: Seq<usize>, strides: Seq<usize>)
    ensures
        offsets(dims, strides).len() == volume(dims),
    decreases dims.len(),
{
    if dims.len() > 0 {
        lemma_offsets_len(dims.drop_last(), strides.drop_last());
        lemma_volume_last(dims);
    }
}

/// No offset of a view lies beyond its span.
pub proof fn lemma_offsets_bound(dims: Seq<usize>, strides: Seq<usize>, p: int)
    requires
        strides.len() == dims.len(),
        0 <= p < volume(dims),
    ensures
        0 <= offsets(dims, strides)[p] <= span(dims, strides),
    decreases dims.len(),
{
    lemma_offsets_len(dims, strides);
    if dims.len() > 0 {
        let front = dims.drop_last();
        let outer = offsets(front, strides.drop_last());
        let d = dims.last() as int;
        let s = strides.last() as int;
        lemma_offsets_len(front, strides.drop_last());
        lemma_volume_last(dims);
        assert(d > 0) by (nonlinear_arith)
            requires
                0 <= p < volume(front) * d,
                d >= 0,
        ;
        lemma_fundamental_div_mod(p, d);
        assert(0 <= p / d < volume(front) && 0 <= p % d < d) by (nonlinear_arith)
            requires
                p == d * (p / d) + (p % d),
                0 <= p < volume(front) * d,
                0 <= p % d < d,
                d > 0,
        ;
        lemma_offsets_bound(front, strides.drop_last(), p / d);
        assert((p % d) * s <= (d - 1) * s) by (nonlinear_arith)
            requires
                0 <= p % d <= d - 1,
                s >= 0,
        ;
        assert(0 <= (p % d) * s) by (nonlinear_arith)
            requires
                0 <= p % d,
                s >= 0,
        ;
    }
}

/// A view with stride 0 in every dimension reads one element of the buffer,
/// its first, as each of its elements.
pub proof fn lemma_offsets_zero_strides(dims: Seq<usize>, strides: Seq<usize>, p: int)
    requires
        strides.len() == dims.len(),
        forall|i: int| 0 <= i < strides.len() ==> strides[i] == 0,
        0 <= p < volume(dims),
    ensures
        offsets(dims, strides)[p] == 0,
    decreases dims.len(),
{
    lemma_offsets_len(dims, strides);
    if dims.len() > 0 {
        let front = dims.drop_last();
        let d = dims.last() as int;
        lemma_offsets_len(front, strides.drop_last());
        lemma_volume_last(dims);
        assert(d > 0) by (nonlinear_arith)
            requires
                0 <= p < volume(front) * d,
                d >= 0,
        ;
        lemma_fundamental_div_mod(p, d);
        assert(0 <= p / d < volume(front)) by (nonlinear_arith)
            requires
                p == d * (p / d) + (p % d),
                0 <= p < volume(front) * d,
                0 <= p % d < d,
                d > 0,
        ;
        lemma_offsets_zero_strides(front, strides.drop_last(), p / d);
        assert((p % d) * 0 == 0) by (nonlinear_arith);
    }
}

/// The broadcast of a single number to a shape, along all the axes of the
/// shape, has as many elements as the shape, and each of them is the number.
pub proof fn lemma_scalar_broadcast_offsets(dst: Seq<usize>, p: int)
    requires
        dst.len() <= usize::MAX,
        0 <= p < volume(dst),
    ensures
        offsets(
            dst,
            broadcast_strides_spec(
                Seq::<usize>::empty(),
                axis_range(0, dst.len()),
                dst.len(),
            ),
        )[p] == 0,
{
    let axes = axis_range(0, dst.len());
    let strides = broadcast_strides_spec(Seq::<usize>::empty(), axes, dst.len());
    assert forall|i: int| 0 <= i < strides.len() implies strides[i] == 0 by {
        lemma_axis_range_members(0, dst.len(), i);
    }
    lemma_offsets_zero_strides(dst, strides, p);
}

/// The first dimensions of a view do not reach beyond what all of them reach.
pub proof fn lemma_span_take(dims: Seq<usize>, strides: Seq<usize>, k: int)
    requires
        strides.len() == dims.len(),
        0 <= k <= dims.len(),
    ensures
        span(dims.take(k), strides.take(k)) <= span(dims, strides),
    decreases dims.len(),
{
    if k == dims.len() {
        assert(dims.take(k) =~= dims);
        assert(strides.take(k) =~= strides);
    } else {
        assert(dims.drop_last().take(k) =~= dims.take(k));
        assert(strides.drop_last().take(k) =~= strides.take(k));
        lemma_span_take(dims.drop_last(), strides.drop_last(), k);
    }
}

/// The table for one more dimension of size `d` and stride `s`: each offset of
/// `outer` in turn, moved along the dimension.
fn expand(outer: &Vec<usize>, d: usize, s: usize) -> (next: Vec<usize>)
    requires
        d > 0,
        forall|q: int| 0 <= q < outer@.len() ==> outer@[q] + (d - 1) * s <= usize::MAX,
    ensures
        as_ints(next@) == expanded(as_ints(outer@), d as int, s as int),
{
    let m = outer.len();
    let ghost target = expanded(as_ints(outer@), d as int, s as int);
    let mut next: Vec<usize> = Vec::new();
    let mut q: usize = 0;
    assert(0 * d == 0) by (nonlinear_arith);
    while q < m
        invariant
            m == outer@.len(),
            q <= m,
            d > 0,
            target == expanded(as_ints(outer@), d as int, s as int),
            forall|q: int| 0 <= q < outer@.len() ==> outer@[q] + (d - 1) * s <= usize::MAX,
            next@.len() == q * d,
            forall|p: int| 0 <= p < next@.len() ==> #[trigger] next@[p] == target[p],
        decreases m - q,
    {
        let base = outer[q];
        let mut r: usize = 0;
        while r < d
            invariant
                m == outer@.len(),
                q < m,
                r <= d,
                d > 0,
                target == expanded(as_ints(outer@), d as int, s as int),
                base == outer@[q as int],
                base + (d - 1) * s <= usize::MAX,
                next@.len() == q * d + r,
                forall|p: int| 0 <= p < next@.len() ==> #[trigger] next@[p] == target[p],
            decreases d - r,
        {
            assert(r * s <= (d - 1) * s) by (nonlinear_arith)
                requires
                    r <= d - 1,
                    s >= 0,
            ;
            assert(0 <= r * s) by (nonlinear_arith)
                requires
                    r >= 0,
                    s >= 0,
            ;
            let ghost p = q * d + r;
            proof {
                lemma_fundamental_div_mod_converse(p, d as int, q as int, r as int);
                assert(p < m * d) by (nonlinear_arith)
                    requires
                        p == q * d + r,
                        r < d,
                        q < m,
                ;
                assert(target[p] == as_ints(outer@)[p / (d as int)] + (p % (d as int)) * s);
                assert(target[p] == base + r * s);
            }
            next.push(base + r * s);
            r += 1;
        }
        assert(q * d + d == (q + 1) * d) by (nonlinear_arith);
        q += 1;
    }
    assert(as_ints(next@) =~= target);
    next
}

/// The offsets into the buffer of the elements of a view, in row-major order.
pub fn offset_table(dims: &Vec<usize>, strides: &Vec<usize>) -> (table: Vec<usize>)
    requires
        valid_dims(dims@),
        strides@.len() == dims@.len(),
        volume(dims@) == 0 || span(dims@, strides@) <= usize::MAX,
    ensures
        as_ints(table@) == offsets(dims@, strides@),
        table@.len() == volume(dims@),
{
    let n = dims.len();
    let mut i: usize = 0;
    while i < n
        invariant
            n == dims@.len(),
            i <= n,
            forall|k: int| 0 <= k < i ==> dims@[k] > 0,
        decreases n - i,
    {
        if dims[i] == 0 {
            proof {
                lemma_volume_empty_dim(dims@, i as int);
            }
            proof {
                lemma_offsets_len(dims@, strides@);
            }
            let table: Vec<usize> = Vec::new();
            assert(as_ints(table@) =~= offsets(dims@, strides@));
            return table;
        }
        i += 1;
    }
    proof {
        lemma_volume_positive(dims@);
    }
    let mut table: Vec<usize> = Vec::new();
    table.push(0);
    let mut k: usize = 0;
    assert(dims@.take(0) =~= Seq::<usize>::empty());
    assert(strides@.take(0) =~= Seq::<usize>::empty());
    assert(as_ints(table@) =~= seq![0int]);
    while k < n
        invariant
            n == dims@.len(),
            k <= n,
            strides@.len() == n,
            valid_dims(dims@),
            span(dims@, strides@) <= usize::MAX,
            forall|j: int| 0 <= j < n ==> dims@[j] > 0,
            as_ints(table@) == offsets(dims@.take(k as int), strides@.take(k as int)),
        decreases n - k,
    {
        let d = dims[k];
        let s = strides[k];
        let ghost front = dims@.take(k as int);
        let ghost front_strides = strides@.take(k as int);
        let ghost more = dims@.take(k + 1);
        let ghost more_strides = strides@.take(k + 1);
        proof {
            assert(more.drop_last() =~= front);
            assert(more_strides.drop_last() =~= front_strides);
            lemma_span_take(dims@, strides@, k + 1);
            lemma_offsets_len(front, front_strides);
            assert forall|q: int| 0 <= q < table@.len() implies table@[q] + (d - 1) * s
                <= usize::MAX by {
                lemma_offsets_bound(front, front_strides, q);
                assert(as_ints(table@)[q] == table@[q]);
            }
        }
        table = expand(&table, d, s);
        k += 1;
    }
    proof {
        assert(dims@.take(n as int) =~= dims@);
        assert(strides@.take(n as int) =~= strides@);
        lemma_offsets_len(dims@, strides@);
    }
    table
}

} // verus!
