use vstd::prelude::*;

verus! {

/// An id that associates a gradient with the storage of a tensor.
#[derive(Debug, PartialEq, Eq, Clone, Copy, Hash, Structural)]
pub struct UniqueId(pub usize);

impl std::ops::Deref for UniqueId {
    type Target = usize;

    fn deref(&self) -> (n: &usize)
        ensures
            *n == self.0,
    {
        &self.0
    }
}

/// Issues ids in increasing order, each one once.
pub struct IdAllocator {
    next: usize,
}

impl IdAllocator {
    /// The ordinal of the id that the next call of [`unique_id`] returns.
    pub closed spec fn next_ordinal(&self) -> usize {
        self.next
    }

    /// An allocator that has issued no id yet.
    pub fn new() -> (alloc: IdAllocator)
        ensures
            alloc.next_ordinal() == 0,
    {
        IdAllocator { next: 0 }
    }

    /// An allocator whose first id has the ordinal `next`. Allocators that
    /// start far enough apart issue distinct ids without sharing anything.
    pub fn starting_at(next: usize) -> (alloc: IdAllocator)
        ensures
            alloc.next_ordinal() == next,
    {
        IdAllocator { next }
    }
}

/// The ordinal of the id that an allocator issues after the id with the
/// ordinal `id`.
pub open spec fn id_after(id: usize) -> usize {
    if id == usize::MAX {
        0usize
    } else {
        (id + 1) as usize
    }
}

/// The ordinal of the id that an allocator issues `k` ids after the id with
/// the ordinal `start`.
pub open spec fn nth_id(start: usize, k: nat) -> usize
    decreases k,
{
    if k == 0 {
        start
    } else {
        id_after(nth_id(start, (k - 1) as nat))
    }
}

/// Ids increase: as long as the count does not start again, each id is one
/// more than the id before it, so no two ids are the same.
pub proof fn lemma_ids_increase(start: usize, k: nat)
    requires
        start + k <= usize::MAX,
    ensures
        nth_id(start, k) == start + k,
    decreases k,
{
    if k > 0 {
        lemma_ids_increase(start, (k - 1) as nat);
    }
}

/// Generate a [`UniqueId`].
///
/// Ids come out in increasing order. After `usize::MAX` the count starts again
/// at zero, so ids are distinct as long as fewer than `usize::MAX + 1` have been
/// issued.
pub fn unique_id(alloc: &mut IdAllocator) -> (id: UniqueId)
    ensures
        id.0 == old(alloc).next_ordinal(),
        final(alloc).next_ordinal() == id_after(old(alloc).next_ordinal()),
{
    let id = UniqueId(alloc.next);
    alloc.next = if alloc.next == usize::MAX {
        0
    } else {
        alloc.next + 1
    };
    id
}

/// Something that has a [`UniqueId`].
pub trait HasUniqueId {
    /// The id as a specification value.
    spec fn spec_id(&self) -> UniqueId;

    fn id(&self) -> (id: &UniqueId)
        ensures
            *id == self.spec_id(),
    ;
}

} // verus!
