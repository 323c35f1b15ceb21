use vstd::prelude::*;

use crate::arena::{Arena, MovableAllocation};

verus! {

/// An owning handle to one value whose storage can be relocated.
///
/// The handle caches the index of a record. After `relocate` that record is a
/// stub forwarding to a fresh canonical record; the next access moves the
/// payload across, frees the stub and updates the cache.
pub struct MoveBox<T> {
    arena: Arena<T>,
    cached: usize,
}

impl<T> MoveBox<T> {
    /// The record at index `i` of the handle's storage.
    pub closed spec fn record(&self, i: int) -> Option<MovableAllocation<T>> {
        self.arena.slot(i)
    }

    /// The index the handle currently caches.
    pub closed spec fn cached_index(&self) -> int {
        self.cached as int
    }

    /// The forward field of the cached record.
    pub open spec fn forward(&self) -> int {
        self.record(self.cached_index())->0.fwd as int
    }

    pub open spec fn is_canonical(&self, i: int) -> bool {
        &&& self.record(i) is Some
        &&& self.record(i)->0.fwd == i
    }

    /// The cached record has been relocated and not yet resolved.
    pub open spec fn is_stale(&self) -> bool {
        self.forward() != self.cached_index()
    }

    /// The logical value held; a stub keeps it until the next access.
    pub closed spec fn value(&self) -> T {
        self.arena.slot(self.cached as int)->0.data->0
    }

    pub closed spec fn allocations(&self) -> nat {
        self.arena.allocations()
    }

    pub closed spec fn deallocations(&self) -> nat {
        self.arena.deallocations()
    }

    /// Number of records the handle currently owns.
    pub closed spec fn live_records(&self) -> int {
        self.arena.live_count()
    }

    pub closed spec fn wf(&self) -> bool {
        let c = self.cached as int;
        let t = self.forward();
        &&& self.arena.wf()
        &&& self.arena.slot(c) is Some
        &&& self.arena.slot(c)->0.data is Some
        &&& t == c ==> forall|j: int| j != c ==> #[trigger] self.arena.slot(j) is None
        &&& t != c ==> {
            &&& self.arena.slot(t) == Some((MovableAllocation::<T> { fwd: t as usize, data: None }))
            &&& forall|j: int| j != c && j != t ==> #[trigger] self.arena.slot(j) is None
        }
        &&& self.allocations() == self.deallocations() + self.live_records()
        &&& self.live_records() == if t == c { 1int } else { 2int }
    }

    /// What `relocate` does to a handle.
    pub open spec fn relocated(pre: Self, post: Self) -> bool {
        &&& post.wf()
        &&& post.is_stale()
        &&& post.value() == pre.value()
        &&& post.allocations() == pre.allocations() + 1
        &&& post.deallocations() == pre.deallocations()
    }

    /// What an access does to a handle: at most one stub is freed and the cache
    /// ends up canonical.
    pub open spec fn resolved(pre: Self, post: Self) -> bool {
        &&& post.wf()
        &&& !post.is_stale()
        &&& post.cached_index() == pre.forward()
        &&& post.value() == pre.value()
        &&& post.allocations() == pre.allocations()
        &&& post.deallocations() == pre.deallocations() + if pre.is_stale() { 1nat } else { 0nat }
    }

    /// Wraps `item` in a single canonical record.
    pub fn new(item: T) -> (r: Self)
        ensures
            r.wf(),
            !r.is_stale(),
            r.value() == item,
            r.allocations() == 1,
            r.deallocations() == 0,
    {
        let mut arena = Arena::new();
        let at = arena.allocate(MovableAllocation { fwd: 0, data: Some(item) });
        arena.get_mut(at).fwd = at;
        let r = MoveBox { arena, cached: at };
        r
    }

    /// Whether the cached record is canonical, so that `relocate` may be called.
    pub fn can_relocate(&self) -> (r: bool)
        requires
            self.wf(),
        ensures
            r == !self.is_stale(),
    {
        self.arena.get(self.cached).fwd == self.cached
    }

    /// Moves the value's record to a new slot; the payload follows on the
    /// next access. The cached record must be canonical.
    pub fn relocate(&mut self)
        requires
            old(self).wf(),
            !old(self).is_stale(),
        ensures
            Self::relocated(*old(self), *final(self)),
            final(self).cached_index() == old(self).cached_index(),
    {
        MovableAllocation::relocate(&mut self.arena, self.cached);
    }

    /// Follows the cached record's forward link, if any: moves the payload
    /// into the canonical record, frees the stub and updates the cache.
    fn resolve(&mut self)
        requires
            old(self).wf(),
        ensures
            Self::resolved(*old(self), *final(self)),
    {
        let fwd = self.arena.get(self.cached).fwd;
        if fwd == self.cached {
            return;
        }
        let stub = self.arena.release(self.cached);
        self.arena.get_mut(fwd).data = stub.data;
        self.cached = fwd;
    }

    /// Shared access to the value, resolving a pending relocation first.
    pub fn read(&mut self) -> (r: &T)
        requires
            old(self).wf(),
        ensures
            *r == old(self).value(),
            Self::resolved(*old(self), *final(self)),
    {
        self.resolve();
        self.arena.get(self.cached).data.as_ref().unwrap()
    }

    /// Exclusive access to the value, resolving a pending relocation first.
    /// What is written through the reference is the handle's new value.
    pub fn write(&mut self) -> (r: &mut T)
        requires
            old(self).wf(),
        ensures
            *r == old(self).value(),
            final(self).wf(),
            !final(self).is_stale(),
            final(self).value() == *final(r),
            final(self).allocations() == old(self).allocations(),
            final(self).deallocations() == old(self).deallocations() + if old(self).is_stale() {
                1nat
            } else {
                0nat
            },
    {
        self.resolve();
        self.arena.get_mut(self.cached).data.as_mut().unwrap()
    }

    /// Drops the value and frees every record the handle still owns: a pending
    /// stub through the final resolution, then the canonical record. Returns
    /// the number of records freed.
    pub fn destroy(self) -> (freed: usize)
        requires
            self.wf(),
        ensures
            freed == self.live_records(),
            freed == if self.is_stale() { 2int } else { 1int },
            self.allocations() == self.deallocations() + freed,
    {
        let mut this = self;
        let stale = !this.can_relocate();
        this.resolve();
        let _ = this.arena.release(this.cached);
        if stale {
            2
        } else {
            1
        }
    }
}

/// Every well-formed handle has exactly one canonical record: the cached one,
/// or the one the cached stub forwards to.
pub proof fn lemma_one_canonical_record<T>(b: &MoveBox<T>)
    requires
        b.wf(),
    ensures
        b.is_canonical(if b.is_stale() { b.forward() } else { b.cached_index() }),
        forall|i: int, j: int| b.is_canonical(i) && b.is_canonical(j) ==> i == j,
{
    assert forall|i: int| #[trigger] b.is_canonical(i) implies i == (if b.is_stale() {
        b.forward()
    } else {
        b.cached_index()
    }) by {
        if i != b.cached_index() && i != b.forward() {
            assert(b.arena.slot(i) is None);
        }
    }
}

/// A stale cache is one hop from the canonical record, and one access
/// resolves it with exactly one free, landing on that canonical record.
pub proof fn lemma_single_hop<T>(pre: MoveBox<T>, post: MoveBox<T>)
    requires
        pre.wf(),
        pre.is_stale(),
        MoveBox::resolved(pre, post),
    ensures
        pre.is_canonical(pre.forward()),
        post.cached_index() == pre.forward(),
        post.is_canonical(post.cached_index()),
        post.deallocations() == pre.deallocations() + 1,
        post.allocations() == pre.allocations(),
{
}

/// A well-formed handle owns one record, or two while a relocation is
/// pending; every allocation made is either freed or among those records.
/// `destroy` frees exactly these records.
pub proof fn lemma_no_leak<T>(b: &MoveBox<T>)
    requires
        b.wf(),
    ensures
        b.allocations() == b.deallocations() + b.live_records(),
        b.live_records() == if b.is_stale() { 2int } else { 1int },
{
}

/// A relocation leaves the cache stale, so an immediate second relocation
/// does not meet `relocate`'s precondition.
pub proof fn lemma_double_relocation_refused<T>(pre: MoveBox<T>, post: MoveBox<T>)
    requires
        MoveBox::relocated(pre, post),
    ensures
        post.is_stale(),
{
}

} // verus!
