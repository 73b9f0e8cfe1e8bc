use vstd::prelude::*;

verus! {

/// The largest number of dimensions a shape can have.
pub const MAX_RANK: usize = 6;

/// Whether `k` is one of `axes`.
pub open spec fn has_axis(axes: Seq<usize>, k: int) -> bool {
    exists|i: int| 0 <= i < axes.len() && #[trigger] axes[i] == k
}

/// Axis indices in strictly increasing order.
pub open spec fn increasing(axes: Seq<usize>) -> bool {
    forall|i: int, j: int| 0 <= i < j < axes.len() ==> axes[i] < axes[j]
}

/// An axis set for a shape of `rank` dimensions: strictly increasing indices,
/// all of them below `rank`.
pub open spec fn valid_axes(axes: Seq<usize>, rank: nat) -> bool {
    &&& increasing(axes)
    &&& forall|i: int| 0 <= i < axes.len() ==> #[trigger] axes[i] < rank
}

/// How many of the dimensions `0 .. i` are not in `axes`.
pub open spec fn kept_before(axes: Seq<usize>, i: nat) -> nat
    decreases i,
{
    if i == 0 {
        0
    } else if has_axis(axes, i - 1) {
        kept_before(axes, (i - 1) as nat)
    } else {
        kept_before(axes, (i - 1) as nat) + 1
    }
}

/// `dims` without the entries whose position is in `axes`, in their order.
pub open spec fn remove_axes(dims: Seq<usize>, axes: Seq<usize>) -> Seq<usize>
    decreases dims.len(),
{
    if dims.len() == 0 {
        Seq::empty()
    } else if has_axis(axes, dims.len() - 1) {
        remove_axes(dims.drop_last(), axes)
    } else {
        remove_axes(dims.drop_last(), axes).push(dims.last())
    }
}

/// The consecutive indices `first, first + 1, ..` as an axis set of `n` axes.
pub open spec fn axis_range(first: usize, n: nat) -> Seq<usize> {
    Seq::new(n, |i: int| (first + i) as usize)
}

/// `kept_before` never counts more dimensions than it has seen.
pub proof fn lemma_kept_before_bound(axes: Seq<usize>, i: nat)
    ensures
        kept_before(axes, i) <= i,
    decreases i,
{
    if i > 0 {
        lemma_kept_before_bound(axes, (i - 1) as nat);
    }
}

/// `kept_before` grows with the number of dimensions seen, and strictly across
/// a dimension that is kept.
pub proof fn lemma_kept_before_monotonic(axes: Seq<usize>, i: nat, j: nat)
    requires
        i <= j,
    ensures
        kept_before(axes, i) <= kept_before(axes, j),
        i < j && !has_axis(axes, i as int) ==> kept_before(axes, i) < kept_before(axes, j),
    decreases j,
{
    if i < j {
        lemma_kept_before_monotonic(axes, i, (j - 1) as nat);
    }
}

/// What is left after removing axes has one entry for each dimension kept.
pub proof fn lemma_remove_axes_len(dims: Seq<usize>, axes: Seq<usize>)
    ensures
        remove_axes(dims, axes).len() == kept_before(axes, dims.len()),
    decreases dims.len(),
{
    if dims.len() > 0 {
        lemma_remove_axes_len(dims.drop_last(), axes);
    }
}

/// Removing axes from a prefix gives a prefix of what removing them from the
/// whole gives.
pub proof fn lemma_remove_axes_take(dims: Seq<usize>, axes: Seq<usize>, i: int)
    requires
        0 <= i < dims.len(),
    ensures
        remove_axes(dims.take(i + 1), axes) == if has_axis(axes, i) {
            remove_axes(dims.take(i), axes)
        } else {
            remove_axes(dims.take(i), axes).push(dims[i])
        },
{
    assert(dims.take(i + 1).drop_last() =~= dims.take(i));
}

/// A kept dimension `i` lands at position `kept_before(axes, i)`.
pub proof fn lemma_remove_axes_index(dims: Seq<usize>, axes: Seq<usize>, i: int)
    requires
        0 <= i < dims.len(),
        !has_axis(axes, i),
    ensures
        kept_before(axes, i as nat) < remove_axes(dims, axes).len(),
        remove_axes(dims, axes)[kept_before(axes, i as nat) as int] == dims[i],
    decreases dims.len(),
{
    lemma_remove_axes_len(dims, axes);
    lemma_remove_axes_len(dims.drop_last(), axes);
    if i < dims.len() - 1 {
        lemma_remove_axes_index(dims.drop_last(), axes, i);
    }
}

/// An axis set for `rank` dimensions removes exactly as many dimensions as it
/// has axes.
pub proof fn lemma_kept_count(axes: Seq<usize>, rank: nat)
    requires
        valid_axes(axes, rank),
    ensures
        kept_before(axes, rank) + axes.len() == rank,
    decreases rank,
{
    if rank == 0 {
        if axes.len() > 0 {
            assert(axes[0] < rank);
        }
    } else {
        let last = (rank - 1) as nat;
        if has_axis(axes, last as int) {
            let k = choose|k: int| 0 <= k < axes.len() && axes[k] == last;
            // the largest index is the last axis
            if k < axes.len() - 1 {
                assert(axes[k] < axes[axes.len() - 1]);
                assert(axes[axes.len() - 1] < rank);
            }
            let front = axes.drop_last();
            assert forall|i: int| 0 <= i < front.len() implies #[trigger] front[i] < last by {
                assert(axes[i] < axes[axes.len() - 1]);
            }
            lemma_kept_count(front, last);
            assert forall|d: int| 0 <= d < last implies has_axis(axes, d) == has_axis(
                front,
                d,
            ) by {
                if has_axis(axes, d) {
                    let m = choose|m: int| 0 <= m < axes.len() && axes[m] == d;
                    assert(front[m] == d);
                }
                if has_axis(front, d) {
                    let m = choose|m: int| 0 <= m < front.len() && front[m] == d;
                    assert(axes[m] == d);
                }
            }
            lemma_kept_before_same(axes, front, last);
        } else {
            assert forall|i: int| 0 <= i < axes.len() implies #[trigger] axes[i] < last by {
                assert(axes[i] < rank);
                if axes[i] == last {
                    assert(has_axis(axes, last as int));
                }
            }
            lemma_kept_count(axes, last);
        }
    }
}

/// Two axis sets with the same members below `i` keep the same dimensions
/// below `i`.
pub proof fn lemma_kept_before_same(a: Seq<usize>, b: Seq<usize>, i: nat)
    requires
        forall|k: int| 0 <= k < i ==> has_axis(a, k) == has_axis(b, k),
    ensures
        kept_before(a, i) == kept_before(b, i),
    decreases i,
{
    if i > 0 {
        lemma_kept_before_same(a, b, (i - 1) as nat);
    }
}

/// An ordered set of axes of a shape.
///
/// The indices are strictly increasing and below [`MAX_RANK`].
#[derive(Debug, PartialEq, Eq)]
pub struct Axes {
    idx: Vec<usize>,
}

impl Clone for Axes {
    fn clone(&self) -> (r: Self)
        ensures
            r@ == self@,
    {
        proof {
            use_type_invariant(self);
        }
        Axes { idx: self.idx.clone() }
    }
}

impl View for Axes {
    type V = Seq<usize>;

    closed spec fn view(&self) -> Seq<usize> {
        self.idx@
    }
}

impl Axes {
    /// The invariant of an axis set.
    #[verifier::type_invariant]
    pub open spec fn wf(&self) -> bool {
        valid_axes(self@, MAX_RANK as nat)
    }

    /// The axis set with the given indices, if they are strictly increasing
    /// and below [`MAX_RANK`].
    pub fn new(idx: Vec<usize>) -> (r: Option<Axes>)
        ensures
            r is Some <==> valid_axes(idx@, MAX_RANK as nat),
            r matches Some(axes) ==> axes@ == idx@ && axes.wf(),
    {
        let n = idx.len();
        let mut i: usize = 0;
        while i < n
            invariant
                n == idx.len(),
                i <= n,
                valid_axes(idx@.take(i as int), MAX_RANK as nat),
            decreases n - i,
        {
            let ok = idx[i] < MAX_RANK && (i == 0 || idx[i - 1] < idx[i]);
            if !ok {
                proof {
                    if valid_axes(idx@, MAX_RANK as nat) {
                        assert(idx@[i as int] < MAX_RANK);
                        if i > 0 {
                            assert(idx@[i - 1] < idx@[i as int]);
                        }
                    }
                }
                return None;
            }
            proof {
                let next = idx@.take(i + 1);
                assert forall|a: int, b: int| 0 <= a < b < next.len() implies next[a]
                    < next[b] by {
                    if b < i {
                        assert(idx@.take(i as int)[a] < idx@.take(i as int)[b]);
                    } else if a < i - 1 {
                        assert(idx@.take(i as int)[a] < idx@.take(i as int)[i - 1]);
                    }
                }
                assert forall|a: int| 0 <= a < next.len() implies #[trigger] next[a]
                    < MAX_RANK by {
                    if a < i {
                        assert(idx@.take(i as int)[a] < MAX_RANK);
                    }
                }
            }
            i += 1;
        }
        assert(idx@.take(n as int) =~= idx@);
        Some(Axes { idx })
    }

    /// The `n` consecutive axes that start at `first`, if they end at or below
    /// [`MAX_RANK`].
    pub fn range(first: usize, n: usize) -> (r: Option<Axes>)
        ensures
            r is Some <==> first + n <= MAX_RANK,
            r matches Some(axes) ==> axes@ == axis_range(first, n as nat) && axes.wf(),
    {
        if first > MAX_RANK || n > MAX_RANK - first {
            return None;
        }
        let mut idx: Vec<usize> = Vec::new();
        let mut i: usize = 0;
        while i < n
            invariant
                i <= n,
                first + n <= MAX_RANK,
                idx@ == axis_range(first, i as nat),
            decreases n - i,
        {
            idx.push(first + i);
            i += 1;
            assert(idx@ =~= axis_range(first, i as nat));
        }
        Some(Axes { idx })
    }

    /// The number of axes in the set.
    pub fn len(&self) -> (n: usize)
        ensures
            n == self@.len(),
    {
        self.idx.len()
    }

    /// Whether `axis` is in the set.
    pub fn contains(&self, axis: usize) -> (b: bool)
        ensures
            b == has_axis(self@, axis as int),
    {
        let n = self.idx.len();
        let mut i: usize = 0;
        while i < n
            invariant
                n == self.idx.len(),
                i <= n,
                forall|k: int| 0 <= k < i ==> self.idx@[k] != axis,
            decreases n - i,
        {
            if self.idx[i] == axis {
                return true;
            }
            i += 1;
        }
        false
    }

    /// The indices of the axes, in increasing order.
    pub fn indices(&self) -> (idx: &Vec<usize>)
        ensures
            idx@ == self@,
            valid_axes(idx@, MAX_RANK as nat),
    {
        proof {
            use_type_invariant(self);
        }
        &self.idx
    }
}

/// Consecutive axes are those from the first up to the last of them.
pub proof fn lemma_axis_range_members(first: usize, n: nat, k: int)
    requires
        first + n <= usize::MAX,
    ensures
        has_axis(axis_range(first, n), k) <==> first <= k < first + n,
{
    if first <= k < first + n {
        assert(axis_range(first, n)[k - first] == k);
    }
}

} // verus!
