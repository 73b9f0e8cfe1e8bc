use super::axes::MAX_RANK;
use vstd::prelude::*;

verus! {

/// The number of elements of a shape: the product of its dimensions.
pub open spec fn volume(dims: Seq<usize>) -> nat
    decreases dims.len(),
{
    if dims.len() == 0 {
        1
    } else {
        dims[0] as nat * volume(dims.drop_first())
    }
}

/// The product of the dimensions, with each empty dimension counted as one.
///
/// It bounds the volume of the shape and of every shape with fewer of the same
/// dimensions.
pub open spec fn padded_volume(dims: Seq<usize>) -> nat
    decreases dims.len(),
{
    if dims.len() == 0 {
        1
    } else {
        at_least_one(dims[0]) * padded_volume(dims.drop_first())
    }
}

pub open spec fn at_least_one(d: usize) -> nat {
    if d == 0 {
        1
    } else {
        d as nat
    }
}

/// The strides of a contiguous buffer in row-major order: the stride of a
/// dimension is the volume of the dimensions after it.
pub open spec fn row_major_strides(dims: Seq<usize>) -> Seq<nat> {
    Seq::new(dims.len(), |i: int| volume(dims.skip(i + 1)))
}

pub proof fn lemma_padded_volume_positive(dims: Seq<usize>)
    ensures
        padded_volume(dims) >= 1,
    decreases dims.len(),
{
    if dims.len() > 0 {
        lemma_padded_volume_positive(dims.drop_first());
        assert(at_least_one(dims[0]) * padded_volume(dims.drop_first()) >= 1)
            by (nonlinear_arith)
            requires
                at_least_one(dims[0]) >= 1,
                padded_volume(dims.drop_first()) >= 1,
        ;
    }
}

pub proof fn lemma_volume_bound(dims: Seq<usize>)
    ensures
        volume(dims) <= padded_volume(dims),
    decreases dims.len(),
{
    if dims.len() > 0 {
        lemma_volume_bound(dims.drop_first());
        assert(dims[0] as nat * volume(dims.drop_first()) <= at_least_one(dims[0])
            * padded_volume(dims.drop_first())) by (nonlinear_arith)
            requires
                dims[0] as nat <= at_least_one(dims[0]),
                volume(dims.drop_first()) <= padded_volume(dims.drop_first()),
        ;
    }
}

/// The padded volume of a concatenation is the product of the padded volumes.
pub proof fn lemma_padded_volume_concat(a: Seq<usize>, b: Seq<usize>)
    ensures
        padded_volume(a + b) == padded_volume(a) * padded_volume(b),
    decreases a.len(),
{
    if a.len() == 0 {
        assert(a + b =~= b);
        assert(1 * padded_volume(b) == padded_volume(b)) by (nonlinear_arith);
    } else {
        assert((a + b).drop_first() =~= a.drop_first() + b);
        assert((a + b)[0] == a[0]);
        lemma_padded_volume_concat(a.drop_first(), b);
        assert(at_least_one(a[0]) * (padded_volume(a.drop_first()) * padded_volume(b)) == (
        at_least_one(a[0]) * padded_volume(a.drop_first())) * padded_volume(b))
            by (nonlinear_arith);
    }
}

/// Appending a dimension multiplies the padded volume by it.
pub proof fn lemma_padded_volume_push(a: Seq<usize>, d: usize)
    ensures
        padded_volume(a.push(d)) == padded_volume(a) * at_least_one(d),
        padded_volume(a.push(d)) >= padded_volume(a),
{
    let b = seq![d];
    assert(a.push(d) =~= a + b);
    lemma_padded_volume_concat(a, b);
    assert(b.drop_first() =~= Seq::<usize>::empty());
    assert(padded_volume(b) == at_least_one(d)) by {
        assert(padded_volume(b.drop_first()) == 1);
        assert(at_least_one(d) * 1 == at_least_one(d)) by (nonlinear_arith);
    }
    lemma_padded_volume_positive(a);
    assert(padded_volume(a) * at_least_one(d) >= padded_volume(a)) by (nonlinear_arith)
        requires
            at_least_one(d) >= 1,
    ;
}

/// The dimensions after a position have no larger a padded volume than those
/// from the position on.
pub proof fn lemma_padded_volume_skip(dims: Seq<usize>, i: int)
    requires
        0 <= i <= dims.len(),
    ensures
        padded_volume(dims.skip(i)) <= padded_volume(dims),
{
    assert(dims =~= dims.take(i) + dims.skip(i));
    lemma_padded_volume_concat(dims.take(i), dims.skip(i));
    lemma_padded_volume_positive(dims.take(i));
    assert(padded_volume(dims.take(i)) * padded_volume(dims.skip(i)) >= padded_volume(
        dims.skip(i),
    )) by (nonlinear_arith)
        requires
            padded_volume(dims.take(i)) >= 1,
    ;
}

/// The sizes of the dimensions of a tensor, outermost first.
///
/// A shape has at most [`MAX_RANK`] dimensions, and its volume fits a `usize`
/// even when its empty dimensions are counted as one.
#[derive(Debug, PartialEq, Eq)]
pub struct Shape {
    dims: Vec<usize>,
}

impl Clone for Shape {
    fn clone(&self) -> (r: Self)
        ensures
            r@ == self@,
    {
        proof {
            use_type_invariant(self);
        }
        Shape { dims: self.dims.clone() }
    }
}

impl View for Shape {
    type V = Seq<usize>;

    closed spec fn view(&self) -> Seq<usize> {
        self.dims@
    }
}

/// The invariant of a shape, on its dimensions.
pub open spec fn valid_dims(dims: Seq<usize>) -> bool {
    &&& dims.len() <= MAX_RANK
    &&& padded_volume(dims) <= usize::MAX
}

impl Shape {
    /// The invariant of a shape.
    #[verifier::type_invariant]
    pub open spec fn wf(&self) -> bool {
        valid_dims(self@)
    }

    /// The shape of a single number: no dimensions.
    pub fn scalar() -> (s: Shape)
        ensures
            s@ == Seq::<usize>::empty(),
            s.wf(),
    {
        Shape { dims: Vec::new() }
    }

    /// The shape with the given dimensions, if there are at most [`MAX_RANK`]
    /// of them and the volume fits.
    pub fn new(dims: Vec<usize>) -> (r: Option<Shape>)
        ensures
            r is Some <==> valid_dims(dims@),
            r matches Some(s) ==> s@ == dims@ && s.wf(),
    {
        let n = dims.len();
        if n > MAX_RANK {
            return None;
        }
        let mut acc: usize = 1;
        let mut i: usize = 0;
        while i < n
            invariant
                n == dims.len(),
                i <= n,
                acc == padded_volume(dims@.take(i as int)),
            decreases n - i,
        {
            let d = if dims[i] == 0 {
                1
            } else {
                dims[i]
            };
            proof {
                assert(dims@.take(i + 1) =~= dims@.take(i as int).push(dims@[i as int]));
                lemma_padded_volume_push(dims@.take(i as int), dims@[i as int]);
                assert(dims@ =~= dims@.take(i + 1) + dims@.skip(i + 1));
                lemma_padded_volume_concat(dims@.take(i + 1), dims@.skip(i + 1));
                lemma_padded_volume_positive(dims@.skip(i + 1));
                assert(padded_volume(dims@.take(i + 1)) * padded_volume(dims@.skip(i + 1))
                    >= padded_volume(dims@.take(i + 1))) by (nonlinear_arith)
                    requires
                        padded_volume(dims@.skip(i + 1)) >= 1,
                ;
            }
            match acc.checked_mul(d) {
                Some(next) => {
                    acc = next;
                },
                None => {
                    return None;
                },
            }
            i += 1;
        }
        assert(dims@.take(n as int) =~= dims@);
        Some(Shape { dims })
    }

    /// The number of dimensions.
    pub fn num_dims(&self) -> (n: usize)
        ensures
            n == self@.len(),
            n <= MAX_RANK,
    {
        proof {
            use_type_invariant(self);
        }
        self.dims.len()
    }

    /// The dimensions, outermost first.
    pub fn dims(&self) -> (dims: &Vec<usize>)
        ensures
            dims@ == self@,
            valid_dims(dims@),
    {
        proof {
            use_type_invariant(self);
        }
        &self.dims
    }

    /// A copy of the dimensions, outermost first.
    pub fn concrete(&self) -> (dims: Vec<usize>)
        ensures
            dims@ == self@,
    {
        self.dims.clone()
    }

    /// The number of elements of a tensor of this shape.
    pub fn num_elements(&self) -> (n: usize)
        ensures
            n == volume(self@),
    {
        proof {
            use_type_invariant(self);
        }
        let k = self.dims.len();
        let mut acc: usize = 1;
        let mut i: usize = k;
        assert(self.dims@.skip(k as int) =~= Seq::<usize>::empty());
        while i > 0
            invariant
                k == self.dims.len(),
                i <= k,
                self.wf(),
                acc == volume(self.dims@.skip(i as int)),
            decreases i,
        {
            i -= 1;
            proof {
                lemma_volume_skip(self.dims@, i as int);
            }
            acc = self.dims[i] * acc;
        }
        assert(self.dims@.skip(0) =~= self.dims@);
        acc
    }

    /// The strides of a contiguous buffer of this shape, in row-major order.
    pub fn strides(&self) -> (strides: Vec<usize>)
        ensures
            strides@.len() == self@.len(),
            forall|i: int| 0 <= i < self@.len() ==> strides@[i] == row_major_strides(self@)[i],
    {
        proof {
            use_type_invariant(self);
        }
        let k = self.dims.len();
        let mut strides: Vec<usize> = Vec::new();
        let mut i: usize = 0;
        while i < k
            invariant
                k == self.dims.len(),
                i <= k,
                strides@.len() == i,
            decreases k - i,
        {
            strides.push(0);
            i += 1;
        }
        let mut acc: usize = 1;
        let mut i: usize = k;
        assert(self.dims@.skip(k as int) =~= Seq::<usize>::empty());
        while i > 0
            invariant
                k == self.dims.len(),
                i <= k,
                self.wf(),
                strides@.len() == k,
                acc == volume(self.dims@.skip(i as int)),
                forall|j: int| i <= j < k ==> strides@[j] == volume(self.dims@.skip(j + 1)),
            decreases i,
        {
            i -= 1;
            strides.set(i, acc);
            proof {
                lemma_volume_skip(self.dims@, i as int);
            }
            acc = self.dims[i] * acc;
        }
        strides
    }
}

/// The volume from a position on is the dimension there times the volume after
/// it, and it fits wherever the padded volume of the whole shape fits.
pub proof fn lemma_volume_skip(dims: Seq<usize>, i: int)
    requires
        0 <= i < dims.len(),
    ensures
        volume(dims.skip(i)) == dims[i] as nat * volume(dims.skip(i + 1)),
        volume(dims.skip(i)) <= padded_volume(dims),
        volume(dims.skip(i + 1)) <= padded_volume(dims),
{
    assert(dims.skip(i).drop_first() =~= dims.skip(i + 1));
    lemma_volume_bound(dims.skip(i));
    lemma_volume_bound(dims.skip(i + 1));
    lemma_padded_volume_skip(dims, i);
    lemma_padded_volume_skip(dims, i + 1);
}

/// The volume of a concatenation is the product of the volumes.
pub proof fn lemma_volume_concat(a: Seq<usize>, b: Seq<usize>)
    ensures
        volume(a + b) == volume(a) * volume(b),
    decreases a.len(),
{
    if a.len() == 0 {
        assert(a + b =~= b);
        assert(1 * volume(b) == volume(b)) by (nonlinear_arith);
    } else {
        assert((a + b).drop_first() =~= a.drop_first() + b);
        assert((a + b)[0] == a[0]);
        lemma_volume_concat(a.drop_first(), b);
        assert(a[0] as nat * (volume(a.drop_first()) * volume(b)) == (a[0] as nat * volume(
            a.drop_first(),
        )) * volume(b)) by (nonlinear_arith);
    }
}

/// Appending a dimension multiplies the volume by it.
pub proof fn lemma_volume_push(a: Seq<usize>, d: usize)
    ensures
        volume(a.push(d)) == volume(a) * d as nat,
{
    let b = seq![d];
    assert(a.push(d) =~= a + b);
    lemma_volume_concat(a, b);
    assert(b.drop_first() =~= Seq::<usize>::empty());
    assert(volume(b) == d as nat) by {
        assert(volume(b.drop_first()) == 1);
        assert(d as nat * 1 == d as nat) by (nonlinear_arith);
    }
}

/// The volume seen from the last dimension.
pub proof fn lemma_volume_last(dims: Seq<usize>)
    requires
        dims.len() > 0,
    ensures
        volume(dims) == volume(dims.drop_last()) * dims.last() as nat,
{
    assert(dims =~= dims.drop_last().push(dims.last()));
    lemma_volume_push(dims.drop_last(), dims.last());
}

/// A shape with an empty dimension has no elements.
pub proof fn lemma_volume_empty_dim(dims: Seq<usize>, i: int)
    requires
        0 <= i < dims.len(),
        dims[i] == 0,
    ensures
        volume(dims) == 0,
    decreases dims.len(),
{
    if i == 0 {
        assert(0 * volume(dims.drop_first()) == 0) by (nonlinear_arith);
    } else {
        lemma_volume_empty_dim(dims.drop_first(), i - 1);
        assert(dims[0] as nat * 0 == 0) by (nonlinear_arith);
    }
}

/// A shape without empty dimensions has elements.
pub proof fn lemma_volume_positive(dims: Seq<usize>)
    requires
        forall|i: int| 0 <= i < dims.len() ==> dims[i] > 0,
    ensures
        volume(dims) > 0,
    decreases dims.len(),
{
    if dims.len() > 0 {
        let rest = dims.drop_first();
        assert forall|i: int| 0 <= i < rest.len() implies rest[i] > 0 by {
            assert(rest[i] == dims[i + 1]);
        }
        lemma_volume_positive(rest);
        assert(dims[0] as nat * volume(rest) > 0) by (nonlinear_arith)
            requires
                dims[0] > 0,
                volume(rest) > 0,
        ;
    }
}

} // verus!
