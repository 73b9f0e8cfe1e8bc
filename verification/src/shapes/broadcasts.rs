use super::axes::{
    axis_range, has_axis, kept_before, lemma_axis_range_members, lemma_kept_before_bound,
    lemma_kept_before_monotonic, lemma_kept_count, lemma_remove_axes_index,
    lemma_remove_axes_len, lemma_remove_axes_take, remove_axes, valid_axes, Axes, MAX_RANK,
};
use super::shape::{at_least_one, lemma_padded_volume_push, padded_volume, valid_dims, Shape};
use crate::error::Error;
use vstd::prelude::*;

verus! {

/// The shape `src` broadcasts to the shape `dst` along `axes`: the axes are
/// axes of `dst`, and `dst` without them is `src`.
pub open spec fn broadcast_relation(src: Seq<usize>, dst: Seq<usize>, axes: Seq<usize>) -> bool {
    &&& valid_axes(axes, dst.len())
    &&& remove_axes(dst, axes) == src
}

/// The part of the broadcast relation that the ranks alone decide: the axes are
/// axes of the larger rank, and that rank is the smaller rank plus one for each
/// axis.
pub open spec fn rank_relation(src_rank: nat, dst_rank: nat, axes: Seq<usize>) -> bool {
    &&& valid_axes(axes, dst_rank)
    &&& src_rank + axes.len() == dst_rank
}

/// The strides of a view of `rank` dimensions onto a buffer with the given
/// strides: a broadcast axis has stride 0, and the other dimensions take the
/// strides of the buffer in order.
pub open spec fn broadcast_strides_spec(strides: Seq<usize>, axes: Seq<usize>, rank: nat) -> Seq<
    usize,
> {
    Seq::new(
        rank,
        |i: int|
            if has_axis(axes, i) {
                0usize
            } else {
                strides[kept_before(axes, i as nat) as int]
            },
    )
}

/// Shapes that can be reduced to shape `S` along axes `Ax`.
pub trait ReduceShapeTo<S, Ax>: Sized {
    /// Whether removing `axes` from `self` leaves `dst`.
    spec fn reduces_to(&self, dst: &S, axes: &Ax) -> bool;
}

/// Shapes that can be broadcasted to shape `S` along axes `Ax`.
pub trait BroadcastShapeTo<S, Ax>: Sized {
    /// Whether `self` is `dst` without `axes`.
    spec fn broadcasts_to(&self, dst: &S, axes: &Ax) -> bool;
}

/// Shapes that can have their axes `Ax` reduced. See `Self::Reduced` for the
/// resulting type.
pub trait ReduceShape<Ax>: Sized + ReduceShapeTo<Self::Reduced, Ax> {
    type Reduced;
}

impl ReduceShapeTo<Shape, Axes> for Shape {
    open spec fn reduces_to(&self, dst: &Shape, axes: &Axes) -> bool {
        broadcast_relation(dst@, self@, axes@)
    }
}

impl ReduceShape<Axes> for Shape {
    type Reduced = Shape;
}

/// Broadcasting is reducing read backwards.
impl<Src, Dst: ReduceShapeTo<Src, Ax>, Ax> BroadcastShapeTo<Dst, Ax> for Src {
    open spec fn broadcasts_to(&self, dst: &Dst, axes: &Ax) -> bool {
        dst.reduces_to(self, axes)
    }
}

/// Whether `src` broadcasts to `dst` along `axes`.
pub fn can_broadcast(src: &Shape, dst: &Shape, axes: &Axes) -> (b: bool)
    ensures
        b == broadcast_relation(src@, dst@, axes@),
{
    let src_dims = src.dims();
    let dst_dims = dst.dims();
    let idx = axes.indices();
    let n = dst_dims.len();
    let m = src_dims.len();
    let k = idx.len();
    if k > 0 && idx[k - 1] >= n {
        return false;
    }
    assert(valid_axes(axes@, n as nat)) by {
        assert forall|i: int| 0 <= i < k implies #[trigger] idx@[i] < n by {
            if i < k - 1 {
                assert(idx@[i] < idx@[k - 1]);
            }
        }
    }
    let mut j: usize = 0;
    let mut i: usize = 0;
    assert(dst_dims@.take(0) =~= Seq::<usize>::empty());
    assert(src_dims@.take(0) =~= Seq::<usize>::empty());
    while i < n
        invariant
            n == dst_dims.len(),
            m == src_dims.len(),
            src_dims@ == src@,
            dst_dims@ == dst@,
            i <= n,
            j <= m,
            j == kept_before(axes@, i as nat),
            remove_axes(dst_dims@.take(i as int), axes@) == src_dims@.take(j as int),
        decreases n - i,
    {
        proof {
            lemma_remove_axes_take(dst_dims@, axes@, i as int);
        }
        if !axes.contains(i) {
            if j >= m || dst_dims[i] != src_dims[j] {
                proof {
                    // the dimension lands at position `j` of what is left
                    lemma_remove_axes_index(dst_dims@, axes@, i as int);
                }
                return false;
            }
            assert(src_dims@.take(j + 1) =~= src_dims@.take(j as int).push(src_dims@[j as int]));
            j += 1;
        }
        i += 1;
    }
    proof {
        assert(dst_dims@.take(n as int) =~= dst_dims@);
        lemma_remove_axes_len(dst_dims@, axes@);
        if j == m {
            assert(src_dims@.take(m as int) =~= src_dims@);
        }
    }
    j == m
}

/// Internal implementation for broadcasting strides
pub trait BroadcastStridesTo<S, Ax>: BroadcastShapeTo<S, Ax> {
    /// Checks at run time that `self` broadcasts to `dst` along `axes`.
    fn check(&self, dst: &S, axes: &Ax) -> (r: Result<(), Error>)
        ensures
            r is Ok <==> self.broadcasts_to(dst, axes),
            r is Err ==> r == Err::<(), Error>(Error::ShapeMismatch),
    ;

    /// The strides of the view of shape `dst` onto a buffer of shape `self`
    /// that has the given strides.
    fn broadcast_strides(&self, strides: &Vec<usize>, dst: &S, axes: &Ax) -> (r: Result<
        Vec<usize>,
        Error,
    >)
        ensures
            r is Err ==> r == Err::<Vec<usize>, Error>(Error::ShapeMismatch),
    ;
}

impl BroadcastStridesTo<Shape, Axes> for Shape {
    fn check(&self, dst: &Shape, axes: &Axes) -> (r: Result<(), Error>) {
        if can_broadcast(self, dst, axes) {
            Ok(())
        } else {
            Err(Error::ShapeMismatch)
        }
    }

    fn broadcast_strides(&self, strides: &Vec<usize>, dst: &Shape, axes: &Axes) -> (r: Result<
        Vec<usize>,
        Error,
    >)
        ensures
            r is Ok <==> strides@.len() == self@.len() && rank_relation(
                self@.len(),
                dst@.len(),
                axes@,
            ),
            r matches Ok(v) ==> v@ == broadcast_strides_spec(strides@, axes@, dst@.len()),
    {
        let n = dst.num_dims();
        let m = self.num_dims();
        let idx = axes.indices();
        let k = idx.len();
        if strides.len() != m || (k > 0 && idx[k - 1] >= n) {
            proof {
                if k > 0 && idx@[k - 1] >= n {
                    assert(!valid_axes(axes@, n as nat));
                }
            }
            return Err(Error::ShapeMismatch);
        }
        assert(valid_axes(axes@, n as nat)) by {
            assert forall|i: int| 0 <= i < k implies #[trigger] idx@[i] < n by {
                if i < k - 1 {
                    assert(idx@[i] < idx@[k - 1]);
                }
            }
        }
        proof {
            lemma_kept_count(axes@, n as nat);
        }
        if m + k != n {
            return Err(Error::ShapeMismatch);
        }
        let mut out: Vec<usize> = Vec::new();
        let mut j: usize = 0;
        let mut i: usize = 0;
        while i < n
            invariant
                i <= n,
                m == strides.len(),
                kept_before(axes@, n as nat) == m,
                j == kept_before(axes@, i as nat),
                out@ == broadcast_strides_spec(strides@, axes@, i as nat),
            decreases n - i,
        {
            proof {
                lemma_kept_before_monotonic(axes@, i as nat, n as nat);
            }
            if axes.contains(i) {
                out.push(0);
            } else {
                out.push(strides[j]);
                j += 1;
            }
            i += 1;
            assert(out@ =~= broadcast_strides_spec(strides@, axes@, i as nat));
        }
        Ok(out)
    }
}

/// Internal implementation for reducing a shape
pub trait ReduceStridesTo<S, Ax>: ReduceShapeTo<S, Ax> {
    /// The shape that is left of `self` without `axes`.
    fn reduced(&self, axes: &Ax) -> (r: Result<S, Error>)
        ensures
            r matches Ok(dst) ==> self.reduces_to(&dst, axes),
            r is Err ==> r == Err::<S, Error>(Error::ShapeMismatch),
    ;
}

impl ReduceStridesTo<Shape, Axes> for Shape {
    fn reduced(&self, axes: &Axes) -> (r: Result<Shape, Error>)
        ensures
            r is Ok <==> valid_axes(axes@, self@.len()),
            r matches Ok(dst) ==> dst@ == remove_axes(self@, axes@),
    {
        let src_dims = self.dims();
        let idx = axes.indices();
        let n = src_dims.len();
        let k = idx.len();
        if k > 0 && idx[k - 1] >= n {
            return Err(Error::ShapeMismatch);
        }
        assert(valid_axes(axes@, n as nat)) by {
            assert forall|i: int| 0 <= i < k implies #[trigger] idx@[i] < n by {
                if i < k - 1 {
                    assert(idx@[i] < idx@[k - 1]);
                }
            }
        }
        let mut dst_dims: Vec<usize> = Vec::new();
        let mut i_src: usize = 0;
        assert(src_dims@.take(0) =~= Seq::<usize>::empty());
        while i_src < n
            invariant
                n == src_dims.len(),
                i_src <= n,
                dst_dims@ == remove_axes(src_dims@.take(i_src as int), axes@),
            decreases n - i_src,
        {
            proof {
                lemma_remove_axes_take(src_dims@, axes@, i_src as int);
            }
            if !axes.contains(i_src) {
                dst_dims.push(src_dims[i_src]);
            }
            i_src += 1;
        }
        proof {
            assert(src_dims@.take(n as int) =~= src_dims@);
            lemma_remove_axes_valid(src_dims@, axes@);
        }
        match Shape::new(dst_dims) {
            Some(dst) => Ok(dst),
            None => Err(Error::ShapeMismatch),
        }
    }
}

/// What is left of a shape without some of its dimensions is a shape.
pub proof fn lemma_remove_axes_valid(dims: Seq<usize>, axes: Seq<usize>)
    requires
        valid_dims(dims),
    ensures
        valid_dims(remove_axes(dims, axes)),
        padded_volume(remove_axes(dims, axes)) <= padded_volume(dims),
    decreases dims.len(),
{
    lemma_remove_axes_len(dims, axes);
    lemma_kept_before_bound(axes, dims.len());
    if dims.len() > 0 {
        let front = dims.drop_last();
        assert(dims =~= front.push(dims.last()));
        lemma_padded_volume_push(front, dims.last());
        lemma_remove_axes_valid(front, axes);
        lemma_padded_volume_push(remove_axes(front, axes), dims.last());
        assert(padded_volume(remove_axes(front, axes)) * at_least_one(
            dims.last(),
        ) <= padded_volume(front) * at_least_one(dims.last()))
            by (nonlinear_arith)
            requires
                padded_volume(remove_axes(front, axes)) <= padded_volume(front),
        ;
    }
}

/// Shapes that can be reduced to shape `S` along their leading axes.
pub trait ReduceTopDimsTo<S>: ReduceShapeTo<S, Self::Ax> {
    type Ax;

    /// The leading axes of `self` that a shape of the rank of `dst` lacks.
    fn reduce_top_axes(&self, dst: &S) -> (r: Result<Self::Ax, Error>)
        ensures
            r is Err ==> r == Err::<Self::Ax, Error>(Error::ShapeMismatch),
    ;
}

/// Shapes that can be broadcasted to shape `S` along the leading axes of `S`.
pub trait BroadcastTopDimsTo<S>: BroadcastShapeTo<S, Self::Ax> {
    type Ax;

    /// The leading axes of `dst` that a shape of the rank of `self` lacks.
    fn broadcast_top_axes(&self, dst: &S) -> (r: Result<Self::Ax, Error>)
        ensures
            r is Err ==> r == Err::<Self::Ax, Error>(Error::ShapeMismatch),
    ;
}

/// Shapes that can be reduced to shape `S` along their trailing axes.
pub trait ReduceBottomDimsTo<S>: ReduceShapeTo<S, Self::Ax> {
    type Ax;

    /// The trailing axes of `self` that a shape of the rank of `dst` lacks.
    fn reduce_bottom_axes(&self, dst: &S) -> (r: Result<Self::Ax, Error>)
        ensures
            r is Err ==> r == Err::<Self::Ax, Error>(Error::ShapeMismatch),
    ;
}

/// Shapes that can be broadcasted to shape `S` along the trailing axes of `S`.
pub trait BroadcastBottomDimsTo<S>: BroadcastShapeTo<S, Self::Ax> {
    type Ax;

    /// The trailing axes of `dst` that a shape of the rank of `self` lacks.
    fn broadcast_bottom_axes(&self, dst: &S) -> (r: Result<Self::Ax, Error>)
        ensures
            r is Err ==> r == Err::<Self::Ax, Error>(Error::ShapeMismatch),
    ;
}

/// The `large - small` axes that start at `first`, where the ranks allow them.
fn axes_between(small: usize, large: usize, first: usize) -> (r: Result<Axes, Error>)
    requires
        small <= MAX_RANK,
        large <= MAX_RANK,
        first <= small,
    ensures
        r is Ok <==> small <= large,
        r matches Ok(axes) ==> axes@ == axis_range(first, (large - small) as nat),
        r is Err ==> r == Err::<Axes, Error>(Error::ShapeMismatch),
{
    if small > large {
        return Err(Error::ShapeMismatch);
    }
    match Axes::range(first, large - small) {
        Some(axes) => Ok(axes),
        None => Err(Error::ShapeMismatch),
    }
}

impl ReduceTopDimsTo<Shape> for Shape {
    type Ax = Axes;

    fn reduce_top_axes(&self, dst: &Shape) -> (r: Result<Axes, Error>)
        ensures
            r is Ok <==> dst@.len() <= self@.len(),
            r matches Ok(axes) ==> axes@ == axis_range(0, (self@.len() - dst@.len()) as nat),
    {
        axes_between(dst.num_dims(), self.num_dims(), 0)
    }
}

impl BroadcastTopDimsTo<Shape> for Shape {
    type Ax = Axes;

    fn broadcast_top_axes(&self, dst: &Shape) -> (r: Result<Axes, Error>)
        ensures
            r is Ok <==> self@.len() <= dst@.len(),
            r matches Ok(axes) ==> axes@ == axis_range(0, (dst@.len() - self@.len()) as nat),
    {
        axes_between(self.num_dims(), dst.num_dims(), 0)
    }
}

impl ReduceBottomDimsTo<Shape> for Shape {
    type Ax = Axes;

    fn reduce_bottom_axes(&self, dst: &Shape) -> (r: Result<Axes, Error>)
        ensures
            r is Ok <==> dst@.len() <= self@.len(),
            r matches Ok(axes) ==> axes@ == axis_range(
                dst@.len() as usize,
                (self@.len() - dst@.len()) as nat,
            ),
    {
        let small = dst.num_dims();
        axes_between(small, self.num_dims(), small)
    }
}

impl BroadcastBottomDimsTo<Shape> for Shape {
    type Ax = Axes;

    fn broadcast_bottom_axes(&self, dst: &Shape) -> (r: Result<Axes, Error>)
        ensures
            r is Ok <==> self@.len() <= dst@.len(),
            r matches Ok(axes) ==> axes@ == axis_range(
                self@.len() as usize,
                (dst@.len() - self@.len()) as nat,
            ),
    {
        let small = self.num_dims();
        axes_between(small, dst.num_dims(), small)
    }
}

/// Where every kept dimension of `dst` agrees with the entry of `src` at its
/// place, removing the axes from `dst` gives the front of `src`.
pub proof fn lemma_remove_axes_matches(dst: Seq<usize>, axes: Seq<usize>, src: Seq<usize>)
    requires
        kept_before(axes, dst.len()) <= src.len(),
        forall|i: int|
            0 <= i < dst.len() && !has_axis(axes, i) ==> dst[i] == src[kept_before(
                axes,
                i as nat,
            ) as int],
    ensures
        remove_axes(dst, axes) == src.take(kept_before(axes, dst.len()) as int),
    decreases dst.len(),
{
    if dst.len() == 0 {
        assert(src.take(0) =~= Seq::<usize>::empty());
    } else {
        let front = dst.drop_last();
        let last = dst.len() - 1;
        lemma_remove_axes_matches(front, axes, src);
        let kb = kept_before(axes, last as nat);
        if !has_axis(axes, last) {
            assert(src.take(kb as int + 1) =~= src.take(kb as int).push(src[kb as int]));
        }
    }
}

/// For axes of the destination that make up the difference of the ranks, the
/// source broadcasts to the destination exactly if each dimension of the
/// destination that is not a broadcast axis has the size of the dimension of
/// the source at its place.
pub proof fn lemma_broadcast_pairwise(src: Seq<usize>, dst: Seq<usize>, axes: Seq<usize>)
    requires
        rank_relation(src.len(), dst.len(), axes),
    ensures
        broadcast_relation(src, dst, axes) <==> (forall|i: int|
            0 <= i < dst.len() && !has_axis(axes, i) ==> dst[i] == src[kept_before(
                axes,
                i as nat,
            ) as int]),
{
    lemma_kept_count(axes, dst.len());
    if broadcast_relation(src, dst, axes) {
        assert forall|i: int| 0 <= i < dst.len() && !has_axis(axes, i) implies dst[i]
            == src[kept_before(axes, i as nat) as int] by {
            lemma_remove_axes_index(dst, axes, i);
        }
    }
    if forall|i: int|
        0 <= i < dst.len() && !has_axis(axes, i) ==> dst[i] == src[kept_before(
            axes,
            i as nat,
        ) as int] {
        lemma_remove_axes_matches(dst, axes, src);
        assert(src.take(src.len() as int) =~= src);
    }
}

/// Reducing the strides of a broadcast view along the broadcast axes gives
/// back the strides of the buffer, and the view has stride 0 on each broadcast
/// axis.
pub proof fn lemma_broadcast_strides_round_trip(strides: Seq<usize>, axes: Seq<usize>, rank: nat)
    requires
        rank_relation(strides.len(), rank, axes),
    ensures
        remove_axes(broadcast_strides_spec(strides, axes, rank), axes) == strides,
        forall|i: int|
            0 <= i < rank && has_axis(axes, i) ==> broadcast_strides_spec(
                strides,
                axes,
                rank,
            )[i] == 0,
{
    let view = broadcast_strides_spec(strides, axes, rank);
    lemma_kept_count(axes, rank);
    lemma_remove_axes_matches(view, axes, strides);
    assert(strides.take(strides.len() as int) =~= strides);
}

/// What is left of a shape without some of its axes broadcasts back to the
/// shape along those axes.
pub proof fn lemma_reduce_then_broadcast(dims: Seq<usize>, axes: Seq<usize>)
    requires
        valid_axes(axes, dims.len()),
    ensures
        broadcast_relation(remove_axes(dims, axes), dims, axes),
        rank_relation(remove_axes(dims, axes).len(), dims.len(), axes),
{
    lemma_remove_axes_len(dims, axes);
    lemma_kept_count(axes, dims.len());
}

/// How many dimensions consecutive axes leave before a position.
pub proof fn lemma_kept_before_range(first: usize, n: nat, i: nat)
    requires
        first + n <= usize::MAX,
    ensures
        kept_before(axis_range(first, n), i) == if i <= first {
            i
        } else if i <= first + n {
            first as nat
        } else {
            (i - n) as nat
        },
    decreases i,
{
    if i > 0 {
        lemma_kept_before_range(first, n, (i - 1) as nat);
        lemma_axis_range_members(first, n, i - 1);
    }
}

/// Consecutive axes that end at or below a rank are axes of that rank.
pub proof fn lemma_axis_range_valid(first: usize, n: nat, rank: nat)
    requires
        first + n <= rank,
        rank <= usize::MAX,
    ensures
        valid_axes(axis_range(first, n), rank),
{
}

/// Top-aligned broadcasting: along its first `k` axes, a shape is the
/// broadcast of its dimensions after them.
pub proof fn lemma_broadcast_top(dst: Seq<usize>, k: nat)
    requires
        k <= dst.len() <= usize::MAX,
    ensures
        broadcast_relation(dst.skip(k as int), dst, axis_range(0, k)),
{
    let axes = axis_range(0, k);
    let src = dst.skip(k as int);
    lemma_axis_range_valid(0, k, dst.len());
    lemma_kept_before_range(0, k, dst.len());
    assert forall|i: int| 0 <= i < dst.len() && !has_axis(axes, i) implies dst[i]
        == src[kept_before(axes, i as nat) as int] by {
        lemma_axis_range_members(0, k, i);
        lemma_kept_before_range(0, k, i as nat);
    }
    lemma_remove_axes_matches(dst, axes, src);
    assert(src.take(src.len() as int) =~= src);
}

/// Bottom-aligned broadcasting: along its last `k` axes, a shape is the
/// broadcast of its dimensions before them.
pub proof fn lemma_broadcast_bottom(dst: Seq<usize>, k: nat)
    requires
        k <= dst.len() <= usize::MAX,
    ensures
        broadcast_relation(
            dst.take(dst.len() - k),
            dst,
            axis_range((dst.len() - k) as usize, k),
        ),
{
    let first = (dst.len() - k) as usize;
    let axes = axis_range(first, k);
    let src = dst.take(dst.len() - k);
    lemma_axis_range_valid(first, k, dst.len());
    lemma_kept_before_range(first, k, dst.len());
    assert forall|i: int| 0 <= i < dst.len() && !has_axis(axes, i) implies dst[i]
        == src[kept_before(axes, i as nat) as int] by {
        lemma_axis_range_members(first, k, i);
        lemma_kept_before_range(first, k, i as nat);
    }
    lemma_remove_axes_matches(dst, axes, src);
    assert(src.take(src.len() as int) =~= src);
}

/// A shape without dimensions broadcasts to every shape along all the axes of
/// that shape, and every shape reduces to it along them.
pub proof fn lemma_scalar_broadcasts_to_all(dst: Seq<usize>)
    requires
        dst.len() <= usize::MAX,
    ensures
        broadcast_relation(Seq::<usize>::empty(), dst, axis_range(0, dst.len())),
        remove_axes(dst, axis_range(0, dst.len())) == Seq::<usize>::empty(),
{
    lemma_broadcast_top(dst, dst.len());
    assert(dst.skip(dst.len() as int) =~= Seq::<usize>::empty());
}

} // verus!
