//! Handle arena: a stable-identity, O(1) insert/remove/lookup container
//! mapping opaque integer handles to payloads.
//!
//! The arena keeps a sparse array indexed by handle and a dense array of the
//! live handles; removing an element swaps the last dense element into the
//! freed slot (swap-remove), so the dense array stays contiguous. Capacity is
//! fixed at construction; a handle is valid exactly while it is stored.

use vstd::prelude::*;

verus! {

use vstd::set_lib::lemma_int_range;
use vstd::set_lib::lemma_len_subset;
use vstd::set_lib::set_int_range;

/// Opaque stable identifier for one logical object, valid until it is
/// removed from its owning arena.
#[derive(Debug, Copy, Clone, PartialEq, Eq, Structural, Hash)]
pub struct ElementHandle(pub usize);

impl From<ElementHandle> for usize {
    fn from(value: ElementHandle) -> usize {
        value.0
    }
}

impl vstd::std_specs::convert::FromSpecImpl<ElementHandle> for usize {
    open spec fn obeys_from_spec() -> bool {
        true
    }

    open spec fn from_spec(v: ElementHandle) -> usize {
        v.0
    }
}

impl From<usize> for ElementHandle {
    fn from(value: usize) -> ElementHandle {
        ElementHandle(value)
    }
}

impl vstd::std_specs::convert::FromSpecImpl<usize> for ElementHandle {
    open spec fn obeys_from_spec() -> bool {
        true
    }

    open spec fn from_spec(v: usize) -> ElementHandle {
        ElementHandle(v)
    }
}

/// Sparse-set arena. `sparse[h]` is either the tombstone or the dense index
/// of handle `h`; `dense[i]` is the handle stored at dense index `i` and
/// `dense_objects[i]` its payload.
pub struct SparseSet<T> {
    sparse: Vec<ElementHandle>,
    dense: Vec<ElementHandle>,
    dense_objects: Vec<T>,
    tombstone: ElementHandle,
}

impl<T> View for SparseSet<T> {
    type V = Map<int, T>;

    /// The arena viewed as a map from live handle values to payloads.
    closed spec fn view(&self) -> Map<int, T> {
        Map::new(
            |h: int| self.spec_contains(h),
            |h: int| self.dense_objects@[self.sparse@[h].0 as int],
        )
    }
}

impl<T> SparseSet<T> {
    /// Maximum number of elements, fixed at construction.
    pub closed spec fn capacity(&self) -> int {
        self.tombstone.0 as int
    }

    /// The live handles, in dense storage order.
    pub closed spec fn handles(&self) -> Seq<ElementHandle> {
        self.dense@
    }

    /// Handle `h` is currently stored.
    pub closed spec fn spec_contains(&self, h: int) -> bool {
        0 <= h < self.tombstone.0 && self.sparse@[h] != self.tombstone
    }

    /// Structural well-formedness: the sparse and dense arrays are mutually
    /// consistent inverses.
    pub closed spec fn inv(&self) -> bool {
        &&& self.sparse@.len() == self.tombstone.0 + 1
        &&& self.dense@.len() == self.dense_objects@.len()
        &&& self.dense@.len() <= self.tombstone.0
        &&& forall|i: int|
            0 <= i < self.dense@.len() ==> (#[trigger] self.dense@[i]).0 < self.tombstone.0
                && self.sparse@[self.dense@[i].0 as int].0 == i
        &&& forall|h: int|
            0 <= h < self.tombstone.0 && #[trigger] self.sparse@[h] != self.tombstone
                ==> self.sparse@[h].0 < self.dense@.len() && self.dense@[self.sparse@[h].0 as int].0
                == h
    }

    /// The dense handle values, as mathematical integers.
    pub closed spec fn handle_ints(&self) -> Seq<int> {
        self.dense@.map_values(|e: ElementHandle| e.0 as int)
    }

    proof fn lemma_handles_no_duplicates(&self)
        requires
            self.inv(),
        ensures
            self.handle_ints().no_duplicates(),
            self.handle_ints().to_set() =~= self@.dom(),
            self@.dom().finite(),
            self@.dom().len() == self.dense@.len(),
    {
        let ints = self.handle_ints();
        assert forall|i: int, j: int|
            0 <= i < ints.len() && 0 <= j < ints.len() && i != j implies ints[i] != ints[j] by {
            if self.dense@[i].0 == self.dense@[j].0 {
                assert(self.sparse@[self.dense@[i].0 as int].0 == i);
            }
        }
        assert forall|h: int| ints.to_set().contains(h) implies self@.dom().contains(h) by {
            let i = choose|i: int| 0 <= i < ints.len() && ints[i] == h;
            assert(self.dense@[i].0 < self.tombstone.0);
            assert(self.sparse@[h].0 == i);
            assert(i < self.tombstone.0);
            assert(self.sparse@[h] != self.tombstone);
        }
        assert forall|h: int| self@.dom().contains(h) implies ints.to_set().contains(h) by {
            let i = self.sparse@[h].0 as int;
            assert(self.dense@[i].0 == h);
            assert(ints[i] == h);
        }
        ints.unique_seq_to_set();
    }

    /// Create an arena that can hold handles `0 .. length`.
    pub fn new(length: usize) -> (s: SparseSet<T>)
        requires
            length < usize::MAX,
        ensures
            s.inv(),
            s.capacity() == length,
            s@ == Map::<int, T>::empty(),
            s.handles() == Seq::<ElementHandle>::empty(),
    {
        let tombstone = ElementHandle(length);
        let mut sparse: Vec<ElementHandle> = Vec::new();
        let mut k: usize = 0;
        while k < length + 1
            invariant
                length < usize::MAX,
                k <= length + 1,
                sparse@.len() == k,
                forall|i: int| 0 <= i < k ==> sparse@[i] == tombstone,
                tombstone.0 == length,
            decreases length + 1 - k,
        {
            sparse.push(tombstone);
            k = k + 1;
        }
        let s = SparseSet { sparse, dense: Vec::new(), dense_objects: Vec::new(), tombstone };
        assert(s@ =~= Map::<int, T>::empty());
        s
    }

    /// Whether handle `element` is currently stored. Runs in O(1).
    pub fn contains(&self, element: ElementHandle) -> (r: bool)
        requires
            self.inv(),
        ensures
            r == self@.dom().contains(element.0 as int),
    {
        element.0 < self.tombstone.0 && self.sparse[element.0].0 < self.dense.len()
            && self.sparse[element.0].0 != self.tombstone.0
    }

    /// Insert `element` under handle `element_id`. Idempotent for a handle
    /// already stored: the arena keeps the existing payload and does not
    /// duplicate the slot.
    pub fn push(&mut self, element_id: ElementHandle, element: T)
        requires
            old(self).inv(),
            element_id.0 < old(self).capacity(),
        ensures
            final(self).inv(),
            final(self).capacity() == old(self).capacity(),
            old(self)@.dom().contains(element_id.0 as int) ==> final(self)@ == old(self)@
                && final(self).handles() == old(self).handles(),
            !old(self)@.dom().contains(element_id.0 as int) ==> final(self)@ == old(self)@.insert(
                element_id.0 as int,
                element,
            ) && final(self).handles() == old(self).handles().push(element_id),
    {
        if !self.contains(element_id) {
            proof {
                // The arena cannot already be full: the dense handles are
                // distinct values in 0..capacity and element_id is not one
                // of them.
                self.lemma_handles_no_duplicates();
                let ints = self.handle_ints();
                if self.dense@.len() == self.tombstone.0 as int {
                    let range = set_int_range(0, self.tombstone.0 as int);
                    lemma_int_range(0, self.tombstone.0 as int);
                    let smaller = range.remove(element_id.0 as int);
                    assert(ints.to_set().subset_of(smaller));
                    lemma_len_subset(ints.to_set(), smaller);
                    assert(smaller.len() == range.len() - 1);
                }
            }
            let pos = self.dense.len();
            self.dense.push(element_id);
            self.dense_objects.push(element);
            self.sparse[element_id.0] = ElementHandle(pos);
            assert(final(self)@ =~= old(self)@.insert(element_id.0 as int, element));
        }
    }

    /// Remove the element stored under `element_id`, returning the handle and
    /// payload, or the tombstone and `None` when the handle is absent. Runs
    /// in O(1) via swap-remove; the last dense element moves into the freed
    /// slot.
    pub fn remove(&mut self, element_id: ElementHandle) -> (r: (ElementHandle, Option<T>))
        requires
            old(self).inv(),
        ensures
            final(self).inv(),
            final(self).capacity() == old(self).capacity(),
            old(self)@.dom().contains(element_id.0 as int) ==> r.0 == element_id && r.1 == Some(
                old(self)@[element_id.0 as int],
            ) && final(self)@ == old(self)@.remove(element_id.0 as int) && (exists|i: int|
                0 <= i < old(self).handles().len() && old(self).handles()[i] == element_id
                    && final(self).handles() == old(self).handles().update(
                    i,
                    old(self).handles().last(),
                ).drop_last()),
            !old(self)@.dom().contains(element_id.0 as int) ==> r.0.0 == old(self).capacity()
                && r.1 is None && final(self)@ == old(self)@ && final(self).handles() == old(
                self,
            ).handles(),
    {
        if !self.contains(element_id) {
            return (self.tombstone, None);
        }

        let size = self.dense.len() - 1;
        let last = self.dense[size];
        let slot = self.sparse[element_id.0].0;

        // Move the last dense element into the freed slot.
        let moved = self.dense[size];
        let kept = self.dense[slot];
        self.dense[slot] = moved;
        self.dense[size] = kept;

        let moved_obj = self.dense_objects.swap_remove(slot);
        self.dense.pop();

        // Patch the sparse entries: the moved handle now lives at `slot`.
        let e_entry = self.sparse[element_id.0];
        let l_entry = self.sparse[last.0];
        self.sparse[last.0] = e_entry;
        self.sparse[element_id.0] = l_entry;
        self.sparse[element_id.0] = self.tombstone;

        proof {
            assert(final(self)@ =~= old(self)@.remove(element_id.0 as int));
            let i = slot as int;
            assert(old(self).handles()[i] == element_id);
            assert(final(self).handles() =~= old(self).handles().update(
                i,
                old(self).handles().last(),
            ).drop_last());
        }
        (element_id, Some(moved_obj))
    }

    /// The payload stored under `element`, or `None` when absent.
    pub fn get(&self, element: ElementHandle) -> (r: Option<&T>)
        requires
            self.inv(),
        ensures
            match r {
                Some(v) => self@.dom().contains(element.0 as int) && *v == self@[element.0 as int],
                None => !self@.dom().contains(element.0 as int),
            },
    {
        if !self.contains(element) {
            return None;
        }
        Some(&self.dense_objects[self.sparse[element.0].0])
    }

    /// A mutable borrow of the payload stored under `element`, which must be
    /// present.
    pub fn get_mut(&mut self, element: ElementHandle) -> (r: &mut T)
        requires
            old(self).inv(),
            old(self)@.dom().contains(element.0 as int),
        ensures
            *r == old(self)@[element.0 as int],
            final(self).inv(),
            final(self).capacity() == old(self).capacity(),
            final(self)@ =~= old(self)@.insert(element.0 as int, *final(r)),
            final(self).handles() == old(self).handles(),
    {
        let slot = self.sparse[element.0].0;
        &mut self.dense_objects[slot]
    }

    /// Remove every element.
    pub fn clear(&mut self)
        requires
            old(self).inv(),
        ensures
            final(self).inv(),
            final(self).capacity() == old(self).capacity(),
            final(self)@ == Map::<int, T>::empty(),
            final(self).handles() == Seq::<ElementHandle>::empty(),
    {
        self.dense.clear();
        self.dense_objects.clear();
        let length = self.sparse.len();
        let mut k: usize = 0;
        while k < length
            invariant
                k <= length,
                self.sparse@.len() == length,
                self.dense@.len() == 0,
                self.dense_objects@.len() == 0,
                self.tombstone == old(self).tombstone,
                length == self.tombstone.0 + 1,
                forall|i: int| 0 <= i < k ==> self.sparse@[i] == self.tombstone,
            decreases length - k,
        {
            let t = self.tombstone;
            self.sparse[k] = t;
            k = k + 1;
        }
        assert(final(self)@ =~= Map::<int, T>::empty());
    }

    /// All live handles, in dense storage order: O(n) in the number of live
    /// elements, each handle exactly once.
    pub fn get_all_elements(&self) -> (r: Vec<ElementHandle>)
        requires
            self.inv(),
        ensures
            r@ == self.handles(),
            r@.map_values(|e: ElementHandle| e.0 as int).no_duplicates(),
            forall|h: ElementHandle| r@.contains(h) <==> self@.dom().contains(h.0 as int),
            r@.len() == self@.dom().len(),
    {
        proof {
            self.lemma_handles_no_duplicates();
            let ints = self.handle_ints();
            assert forall|h: ElementHandle| self.dense@.contains(h) implies self@.dom().contains(
                h.0 as int,
            ) by {
                let i = choose|i: int| 0 <= i < self.dense@.len() && self.dense@[i] == h;
                assert(ints[i] == h.0 as int);
                assert(ints.to_set().contains(h.0 as int));
            }
            assert forall|h: ElementHandle| self@.dom().contains(h.0 as int) implies self
                .dense@.contains(h) by {
                let i = self.sparse@[h.0 as int].0 as int;
                assert(self.dense@[i] == h);
            }
        }
        self.dense.clone()
    }

    /// Number of live elements.
    pub fn len(&self) -> (r: usize)
        requires
            self.inv(),
        ensures
            r == self@.dom().len(),
            r == self.handles().len(),
    {
        proof {
            self.lemma_handles_no_duplicates();
        }
        self.dense.len()
    }

    /// The handle stored at dense position `i`.
    pub fn dense_handle_at(&self, i: usize) -> (r: ElementHandle)
        requires
            self.inv(),
            i < self.handles().len(),
        ensures
            r == self.handles()[i as int],
    {
        self.dense[i]
    }

    /// The payload stored at dense position `i`.
    pub fn dense_object_at(&self, i: usize) -> (r: &T)
        requires
            self.inv(),
            i < self.handles().len(),
        ensures
            *r == self@[self.handles()[i as int].0 as int],
    {
        &self.dense_objects[i]
    }

    /// The tombstone sentinel, equal to the capacity; never a valid handle.
    pub fn tombstone(&self) -> (r: ElementHandle)
        ensures
            r.0 == self.capacity(),
    {
        self.tombstone
    }
}

/// One mutation of a handle arena, for stating laws about operation
/// sequences.
pub enum ArenaOp {
    Insert(usize),
    Remove(usize),
}

/// The set of live handles after running `ops` against an empty arena.
/// Mirrors the `push`/`remove` contracts: `push` adds the handle to the
/// domain (idempotently) and `remove` deletes it.
pub open spec fn arena_live_set(ops: Seq<ArenaOp>) -> Set<int>
    decreases ops.len(),
{
    if ops.len() == 0 {
        Set::empty()
    } else {
        let prev = arena_live_set(ops.drop_last());
        match ops.last() {
            ArenaOp::Insert(h) => prev.insert(h as int),
            ArenaOp::Remove(h) => prev.remove(h as int),
        }
    }
}

/// Handle `h` was inserted by `ops` and not subsequently removed.
pub open spec fn inserted_not_removed(ops: Seq<ArenaOp>, h: usize) -> bool {
    exists|i: int|
        0 <= i < ops.len() && ops[i] == ArenaOp::Insert(h) && (forall|j: int|
            i < j < ops.len() ==> ops[j] != ArenaOp::Remove(h))
}

/// Law: for every sequence of inserts and removes, a handle is live exactly
/// when it was inserted and not subsequently removed, and the number of live
/// handles counts exactly those handles.
pub proof fn lemma_arena_contains_iff_inserted(ops: Seq<ArenaOp>, h: usize)
    ensures
        arena_live_set(ops).contains(h as int) <==> inserted_not_removed(ops, h),
        arena_live_set(ops).finite(),
    decreases ops.len(),
{
    if ops.len() == 0 {
    } else {
        let prefix = ops.drop_last();
        lemma_arena_contains_iff_inserted(prefix, h);
        let n = ops.len() as int;
        match ops.last() {
            ArenaOp::Insert(g) => {
                if g == h {
                    assert(ops[n - 1] == ArenaOp::Insert(h));
                    assert(inserted_not_removed(ops, h));
                } else {
                    if inserted_not_removed(prefix, h) {
                        let i = choose|i: int|
                            0 <= i < prefix.len() && prefix[i] == ArenaOp::Insert(h) && (forall|
                                j: int,
                            |
                                i < j < prefix.len() ==> prefix[j] != ArenaOp::Remove(h));
                        assert(ops[i] == ArenaOp::Insert(h));
                        assert forall|j: int| i < j < n implies ops[j] != ArenaOp::Remove(h) by {
                            if j < n - 1 {
                                assert(prefix[j] != ArenaOp::Remove(h));
                            }
                        }
                        assert(inserted_not_removed(ops, h));
                    }
                    if inserted_not_removed(ops, h) {
                        let i = choose|i: int|
                            0 <= i < n && ops[i] == ArenaOp::Insert(h) && (forall|j: int|
                                i < j < n ==> ops[j] != ArenaOp::Remove(h));
                        assert(i < n - 1);
                        assert(prefix[i] == ArenaOp::Insert(h));
                        assert forall|j: int| i < j < prefix.len() implies prefix[j]
                            != ArenaOp::Remove(h) by {
                            assert(ops[j] != ArenaOp::Remove(h));
                        }
                        assert(inserted_not_removed(prefix, h));
                    }
                }
            },
            ArenaOp::Remove(g) => {
                if g == h {
                    assert(!arena_live_set(ops).contains(h as int));
                    if inserted_not_removed(ops, h) {
                        let i = choose|i: int|
                            0 <= i < n && ops[i] == ArenaOp::Insert(h) && (forall|j: int|
                                i < j < n ==> ops[j] != ArenaOp::Remove(h));
                        assert(i < n - 1);
                        assert(ops[n - 1] != ArenaOp::Remove(h));
                        assert(false);
                    }
                } else {
                    if inserted_not_removed(prefix, h) {
                        let i = choose|i: int|
                            0 <= i < prefix.len() && prefix[i] == ArenaOp::Insert(h) && (forall|
                                j: int,
                            |
                                i < j < prefix.len() ==> prefix[j] != ArenaOp::Remove(h));
                        assert(ops[i] == ArenaOp::Insert(h));
                        assert forall|j: int| i < j < n implies ops[j] != ArenaOp::Remove(h) by {
                            if j < n - 1 {
                                assert(prefix[j] != ArenaOp::Remove(h));
                            }
                        }
                        assert(inserted_not_removed(ops, h));
                    }
                    if inserted_not_removed(ops, h) {
                        let i = choose|i: int|
                            0 <= i < n && ops[i] == ArenaOp::Insert(h) && (forall|j: int|
                                i < j < n ==> ops[j] != ArenaOp::Remove(h));
                        assert(i < n - 1);
                        assert(prefix[i] == ArenaOp::Insert(h));
                        assert forall|j: int| i < j < prefix.len() implies prefix[j]
                            != ArenaOp::Remove(h) by {
                            assert(ops[j] != ArenaOp::Remove(h));
                        }
                        assert(inserted_not_removed(prefix, h));
                    }
                }
            },
        }
    }
}

} // verus!
