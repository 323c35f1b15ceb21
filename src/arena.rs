use vstd::prelude::*;

verus! {

/// One allocation record: a forward field and a payload slot.
///
/// The record stored at index `i` is canonical when `fwd == i`. Otherwise it
/// is a stub whose `fwd` names the record that replaced it.
pub struct MovableAllocation<T> {
    pub fwd: usize,
    pub data: Option<T>,
}

impl<T> MovableAllocation<T> {
    /// Moves the canonical record at `at` to a fresh slot.
    ///
    /// The new record forwards to itself and has an empty payload slot; the
    /// record at `at` becomes a stub forwarding to it and keeps the payload
    /// until the next access migrates it. Nothing is freed.
    pub fn relocate(arena: &mut Arena<T>, at: usize) -> (moved_to: usize)
        requires
            old(arena).wf(),
            old(arena).is_canonical(at as int),
        ensures
            final(arena).wf(),
            moved_to != at,
            old(arena).slot(moved_to as int) is None,
            final(arena).slot(moved_to as int) == Some(
                (MovableAllocation::<T> { fwd: moved_to, data: None }),
            ),
            final(arena).slot(at as int) == Some(
                (MovableAllocation { fwd: moved_to, data: old(arena).slot(at as int)->0.data }),
            ),
            forall|j: int|
                j != at && j != moved_to ==> #[trigger] final(arena).slot(j) == old(arena).slot(j),
            final(arena).allocations() == old(arena).allocations() + 1,
            final(arena).deallocations() == old(arena).deallocations(),
            final(arena).live_count() == old(arena).live_count() + 1,
    {
        let moved_to = arena.allocate(MovableAllocation { fwd: 0, data: None });
        arena.get_mut(moved_to).fwd = moved_to;
        arena.get_mut(at).fwd = moved_to;
        moved_to
    }
}

/// Storage for allocation records, addressed by stable indices.
///
/// Freed slots go on a free list and are handed out again before the slot
/// vector grows. Ghost counters record every allocation and every free.
pub struct Arena<T> {
    slots: Vec<Option<MovableAllocation<T>>>,
    free_list: Vec<usize>,
    allocated: Ghost<nat>,
    released: Ghost<nat>,
}

impl<T> Arena<T> {
    /// The record at index `i`, or `None` where no record is allocated.
    pub closed spec fn slot(&self, i: int) -> Option<MovableAllocation<T>> {
        if 0 <= i < self.slots@.len() {
            self.slots@[i]
        } else {
            None
        }
    }

    pub open spec fn is_live(&self, i: int) -> bool {
        self.slot(i) is Some
    }

    /// The record at `i` exists and forwards to itself.
    pub open spec fn is_canonical(&self, i: int) -> bool {
        &&& self.slot(i) is Some
        &&& self.slot(i)->0.fwd == i
    }

    /// Number of allocations made over the arena's lifetime.
    pub closed spec fn allocations(&self) -> nat {
        self.allocated@
    }

    /// Number of frees made over the arena's lifetime.
    pub closed spec fn deallocations(&self) -> nat {
        self.released@
    }

    /// Number of records currently allocated.
    pub closed spec fn live_count(&self) -> int {
        self.slots@.len() - self.free_list@.len()
    }

    /// The free list holds each vacant slot exactly once, and nothing else.
    pub closed spec fn wf(&self) -> bool {
        &&& self.free_list@.no_duplicates()
        &&& forall|k: int|
            0 <= k < self.free_list@.len() ==> {
                &&& self.free_list@[k] < self.slots@.len()
                &&& #[trigger] self.slots@[self.free_list@[k] as int] is None
            }
        &&& forall|i: usize|
            (i as int) < self.slots@.len() && #[trigger] self.slots@[i as int] is None
                ==> self.free_list@.contains(i)
    }

    /// The two arenas have the same free list and the same vacant slots.
    spec fn same_shape(a: &Self, b: &Self) -> bool {
        &&& a.free_list@ == b.free_list@
        &&& a.slots@.len() == b.slots@.len()
        &&& forall|j: int| 0 <= j < a.slots@.len() ==> (a.slots@[j] is None <==> b.slots@[j] is None)
    }

    proof fn lemma_wf_same_shape(a: &Self, b: &Self)
        requires
            Self::same_shape(a, b),
        ensures
            a.wf() == b.wf(),
    {
        if a.wf() {
            assert forall|i: usize|
                (i as int) < b.slots@.len() && #[trigger] b.slots@[i as int] is None
                    implies b.free_list@.contains(i) by {
                assert(a.slots@[i as int] is None);
            }
            assert forall|k: int| 0 <= k < b.free_list@.len() implies {
                &&& b.free_list@[k] < b.slots@.len()
                &&& #[trigger] b.slots@[b.free_list@[k] as int] is None
            } by {
                assert(a.slots@[a.free_list@[k] as int] is None);
            }
        }
        if b.wf() {
            assert forall|i: usize|
                (i as int) < a.slots@.len() && #[trigger] a.slots@[i as int] is None
                    implies a.free_list@.contains(i) by {
                assert(b.slots@[i as int] is None);
            }
            assert forall|k: int| 0 <= k < a.free_list@.len() implies {
                &&& a.free_list@[k] < a.slots@.len()
                &&& #[trigger] a.slots@[a.free_list@[k] as int] is None
            } by {
                assert(b.slots@[b.free_list@[k] as int] is None);
            }
        }
    }

    pub fn new() -> (r: Self)
        ensures
            r.wf(),
            forall|i: int| #[trigger] r.slot(i) is None,
            r.allocations() == 0,
            r.deallocations() == 0,
            r.live_count() == 0,
    {
        Arena { slots: Vec::new(), free_list: Vec::new(), allocated: Ghost(0), released: Ghost(0) }
    }

    /// Stores `rec` in a vacant slot, reusing a freed one when there is one.
    pub fn allocate(&mut self, rec: MovableAllocation<T>) -> (i: usize)
        requires
            old(self).wf(),
        ensures
            final(self).wf(),
            old(self).slot(i as int) is None,
            final(self).slot(i as int) == Some(rec),
            forall|j: int| j != i ==> #[trigger] final(self).slot(j) == old(self).slot(j),
            final(self).allocations() == old(self).allocations() + 1,
            final(self).deallocations() == old(self).deallocations(),
            final(self).live_count() == old(self).live_count() + 1,
    {
        let ghost old_free = self.free_list@;
        let ghost old_slots = self.slots@;
        self.allocated = Ghost(self.allocated@ + 1);
        match self.free_list.pop() {
            Some(i) => {
                proof {
                    assert(old_free[old_free.len() - 1] == i);
                    assert(old_slots[i as int] is None);
                }
                self.slots.set(i, Some(rec));
                proof {
                    assert forall|k: int| 0 <= k < self.free_list@.len() implies {
                        &&& self.free_list@[k] < self.slots@.len()
                        &&& #[trigger] self.slots@[self.free_list@[k] as int] is None
                    } by {
                        assert(old_free[k] == self.free_list@[k]);
                        assert(old_free[k] != i);
                        assert(old_slots[old_free[k] as int] is None);
                    }
                    assert forall|j: usize|
                        (j as int) < self.slots@.len() && #[trigger] self.slots@[j as int] is None
                            implies self.free_list@.contains(j) by {
                        assert(j != i);
                        assert(old_slots[j as int] is None);
                        assert(old_free.contains(j));
                        let k = choose|k: int| 0 <= k < old_free.len() && old_free[k] == j;
                        assert(k != old_free.len() - 1);
                        assert(self.free_list@[k] == j);
                    }
                }
                i
            },
            None => {
                let i = self.slots.len();
                self.slots.push(Some(rec));
                proof {
                    assert forall|j: usize|
                        (j as int) < self.slots@.len() && #[trigger] self.slots@[j as int] is None
                            implies self.free_list@.contains(j) by {
                        assert(j != i);
                        assert(old_slots[j as int] is None);
                    }
                }
                i
            },
        }
    }

    /// Frees the record at `i` and hands it back to the caller.
    pub fn release(&mut self, i: usize) -> (rec: MovableAllocation<T>)
        requires
            old(self).wf(),
            old(self).is_live(i as int),
        ensures
            final(self).wf(),
            Some(rec) == old(self).slot(i as int),
            final(self).slot(i as int) is None,
            forall|j: int| j != i ==> #[trigger] final(self).slot(j) == old(self).slot(j),
            final(self).allocations() == old(self).allocations(),
            final(self).deallocations() == old(self).deallocations() + 1,
            final(self).live_count() == old(self).live_count() - 1,
    {
        let ghost old_free = self.free_list@;
        let ghost old_slots = self.slots@;
        let taken = self.slots[i].take();
        proof {
            assert(!old_free.contains(i));
        }
        self.free_list.push(i);
        self.released = Ghost(self.released@ + 1);
        proof {
            assert forall|k: int| 0 <= k < self.free_list@.len() implies {
                &&& self.free_list@[k] < self.slots@.len()
                &&& #[trigger] self.slots@[self.free_list@[k] as int] is None
            } by {
                if k < old_free.len() {
                    assert(old_free[k] == self.free_list@[k]);
                    assert(old_slots[old_free[k] as int] is None);
                }
            }
            assert forall|j: usize|
                (j as int) < self.slots@.len() && #[trigger] self.slots@[j as int] is None
                    implies self.free_list@.contains(j) by {
                if j == i {
                    assert(self.free_list@[old_free.len() as int] == i);
                } else {
                    assert(old_slots[j as int] is None);
                    assert(old_free.contains(j));
                    let k = choose|k: int| 0 <= k < old_free.len() && old_free[k] == j;
                    assert(self.free_list@[k] == j);
                }
            }
        }
        taken.unwrap()
    }

    /// Shared access to the live record at `i`.
    pub fn get(&self, i: usize) -> (rec: &MovableAllocation<T>)
        requires
            self.is_live(i as int),
        ensures
            Some(*rec) == self.slot(i as int),
    {
        self.slots[i].as_ref().unwrap()
    }

    /// Exclusive access to the live record at `i`; the slot stays live.
    pub fn get_mut(&mut self, i: usize) -> (rec: &mut MovableAllocation<T>)
        requires
            old(self).is_live(i as int),
        ensures
            Some(*rec) == old(self).slot(i as int),
            final(self).wf() == old(self).wf(),
            final(self).slot(i as int) == Some(*final(rec)),
            forall|j: int| j != i ==> #[trigger] final(self).slot(j) == old(self).slot(j),
            final(self).allocations() == old(self).allocations(),
            final(self).deallocations() == old(self).deallocations(),
            final(self).live_count() == old(self).live_count(),
    {
        let ghost before = *self;
        proof {
            assert forall|b: Self| Self::same_shape(&before, &b) implies (#[trigger] b.wf())
                == before.wf() by {
                Self::lemma_wf_same_shape(&before, &b);
            }
        }
        self.slots[i].as_mut().unwrap()
    }
}

} // verus!
