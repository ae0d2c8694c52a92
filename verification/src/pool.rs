//! The slot pool: a growable sequence of optional slots plus a free-index
//! stack, giving O(1) allocation with stable handles.
//!
//! `push` reuses the most-recently-freed slot before growing; `remove`
//! vacates a slot and records it for reuse.  Handles carry no generation
//! counter, so a handle kept past `remove` aliases whatever value reuses
//! the slot; `remove` and the accessors therefore require a valid handle.

use crate::store::Access;
use vstd::prelude::*;
use vstd::set_lib::lemma_int_range;
use vstd::set_lib::lemma_len_subset;
use vstd::set_lib::set_int_range;

verus! {

/// An object pool with stable typed handles and free-list reuse.
pub struct PoolStore<A, T> {
    slots: Vec<Option<T>>,
    free: Vec<u32>,
    _handle: core::marker::PhantomData<A>,
}

impl<A: Access, T> PoolStore<A, T> {
    /// The slots in index order; vacant ones hold `None`.
    pub closed spec fn entries(&self) -> Seq<Option<T>> {
        self.slots@
    }

    /// The vacant indices, most recently freed last.
    pub closed spec fn free_list(&self) -> Seq<int> {
        self.free@.map(|i: int, v: u32| v as int)
    }

    /// The free list names exactly the vacant slots, each once, and the
    /// pool leaves room for one more 32-bit handle.
    pub closed spec fn wf(&self) -> bool {
        &&& self.slots@.len() <= 0xffff_fffe
        &&& self.free@.no_duplicates()
        &&& forall|k: int|
            0 <= k < self.free@.len() ==> (#[trigger] self.free@[k]) < self.slots@.len()
                && self.slots@[self.free@[k] as int] is None
        &&& forall|i: int|
            0 <= i < self.slots@.len() && (#[trigger] self.slots@[i]) is None
                ==> self.free@.contains(i as u32)
    }

    /// The handle names an occupied slot.
    pub open spec fn valid(&self, handle: A) -> bool {
        0 <= handle.idx() < self.entries().len() && self.entries()[handle.idx()] is Some
    }

    /// The value an occupied slot holds.
    pub open spec fn value_of(&self, handle: A) -> T
        recommends
            self.valid(handle),
    {
        self.entries()[handle.idx()]->Some_0
    }

    /// Live entries: total slots minus vacant ones.
    pub open spec fn live_count(&self) -> int {
        self.entries().len() - self.free_list().len()
    }

    /// How many slots hold a value.
    pub open spec fn occupied_count(s: Seq<Option<T>>) -> int
        decreases s.len(),
    {
        if s.len() == 0 {
            0
        } else {
            Self::occupied_count(s.drop_last()) + if s.last() is Some {
                1int
            } else {
                0int
            }
        }
    }

    /// The vacant positions of a slot sequence.
    pub open spec fn vacant_set(s: Seq<Option<T>>) -> Set<int> {
        Set::new(|i: int| 0 <= i < s.len() && s[i] is None)
    }

    proof fn lemma_vacant_count(s: Seq<Option<T>>)
        ensures
            Self::vacant_set(s).finite(),
            Self::vacant_set(s).len() == s.len() - Self::occupied_count(s),
        decreases s.len(),
    {
        if s.len() == 0 {
            assert(Self::vacant_set(s) =~= Set::<int>::empty());
        } else {
            let front = s.drop_last();
            Self::lemma_vacant_count(front);
            if s.last() is Some {
                assert(Self::vacant_set(s) =~= Self::vacant_set(front));
            } else {
                assert(Self::vacant_set(s) =~= Self::vacant_set(front).insert(s.len() - 1));
                assert(!Self::vacant_set(front).contains(s.len() - 1));
            }
        }
    }

    /// The law behind `count`: however pushes and removes interleave, the
    /// slot total minus the free list is exactly the number of occupied
    /// slots.
    pub proof fn lemma_count_is_occupied(&self)
        requires
            self.wf(),
        ensures
            self.live_count() == Self::occupied_count(self.entries()),
    {
        let fi = self.free_list();
        Self::lemma_vacant_count(self.entries());
        assert(fi.no_duplicates()) by {
            assert(forall|j: int, k: int|
                0 <= j < k < fi.len() ==> self.free@[j] != self.free@[k] ==> fi[j] != fi[k]);
        }
        fi.unique_seq_to_set();
        assert(fi.to_set() =~= Self::vacant_set(self.entries())) by {
            assert(forall|v: int| #[trigger]
                fi.to_set().contains(v) ==> exists|k: int| 0 <= k < fi.len() && fi[k] == v);
            assert forall|i: int|
                0 <= i < self.slots@.len() && (#[trigger] self.slots@[i]) is None implies
                fi.contains(i) by {
                assert(self.free@.contains(i as u32));
                let k = choose|k: int| 0 <= k < self.free@.len() && self.free@[k] == i as u32;
                assert(fi[k] == i);
            }
        }
    }

    /// The free list cannot outnumber the slots it points into.
    pub proof fn lemma_free_fits(&self)
        requires
            self.wf(),
        ensures
            self.free_list().len() <= self.entries().len(),
    {
        let fi = self.free_list();
        let n = self.entries().len() as int;
        assert(fi.no_duplicates()) by {
            assert(forall|j: int, k: int|
                0 <= j < k < fi.len() ==> self.free@[j] != self.free@[k] ==> fi[j] != fi[k]);
        }
        fi.unique_seq_to_set();
        assert(fi.to_set().subset_of(set_int_range(0, n))) by {
            assert(forall|v: int| #[trigger]
                fi.to_set().contains(v) ==> exists|k: int| 0 <= k < fi.len() && fi[k] == v);
            assert(forall|k: int| 0 <= k < fi.len() ==> 0 <= #[trigger] fi[k] < n);
        }
        lemma_int_range(0, n);
        lemma_len_subset(fi.to_set(), set_int_range(0, n));
    }

    pub fn new() -> (r: Self)
        ensures
            r.wf(),
            r.entries() == Seq::<Option<T>>::empty(),
            r.free_list() == Seq::<int>::empty(),
    {
        let r = PoolStore { slots: Vec::new(), free: Vec::new(), _handle: core::marker::PhantomData };
        proof {
            assert(r.free_list() =~= Seq::<int>::empty());
        }
        r
    }

    /// Stores a value, reusing the most-recently-freed slot if one exists,
    /// else growing by one; returns the slot's handle.
    pub fn push(&mut self, value: T) -> (r: A)
        requires
            old(self).wf(),
            old(self).entries().len() < 0xffff_fffe,
        ensures
            final(self).wf(),
            final(self).valid(r),
            final(self).value_of(r) == value,
            old(self).free_list().len() > 0 ==> {
                &&& r.idx() == old(self).free_list().last()
                &&& old(self).entries()[r.idx()] is None
                &&& final(self).entries() == old(self).entries().update(r.idx(), Some(value))
                &&& final(self).free_list() == old(self).free_list().drop_last()
            },
            old(self).free_list().len() == 0 ==> {
                &&& r.idx() == old(self).entries().len()
                &&& final(self).entries() == old(self).entries().push(Some(value))
                &&& final(self).free_list() == old(self).free_list()
            },
            final(self).live_count() == old(self).live_count() + 1,
    {
        match self.free.pop() {
            Some(i) => {
                let idx = i as usize;
                self.slots[idx] = Some(value);
                proof {
                    assert(final(self).free_list() =~= old(self).free_list().drop_last());
                    assert forall|k: int|
                        0 <= k < self.free@.len() implies (#[trigger] self.free@[k])
                        < self.slots@.len() && self.slots@[self.free@[k] as int] is None by {
                        assert(old(self).free@[k] == self.free@[k]);
                        assert(old(self).free@[k] != i) by {
                            assert(old(self).free@.no_duplicates());
                            assert(old(self).free@[old(self).free@.len() - 1] == i);
                        }
                    }
                    assert forall|j: int|
                        0 <= j < self.slots@.len() && (#[trigger] self.slots@[j]) is None implies
                        self.free@.contains(j as u32) by {
                        assert(j != idx);
                        assert(old(self).slots@[j] is None);
                        assert(old(self).free@.contains(j as u32));
                        let k = choose|k: int|
                            0 <= k < old(self).free@.len() && old(self).free@[k] == j as u32;
                        assert(k < old(self).free@.len() - 1) by {
                            assert(old(self).free@[old(self).free@.len() - 1] == i);
                        }
                        assert(self.free@[k] == j as u32);
                    }
                }
                A::new(idx)
            },
            None => {
                let idx = self.slots.len();
                self.slots.push(Some(value));
                proof {
                    assert(old(self).free_list().len() == 0);
                    assert(final(self).free_list() =~= old(self).free_list());
                    assert forall|j: int|
                        0 <= j < self.slots@.len() && (#[trigger] self.slots@[j]) is None implies
                        self.free@.contains(j as u32) by {
                        assert(j < old(self).slots@.len());
                        assert(old(self).free@.contains(j as u32));
                    }
                }
                A::new(idx)
            },
        }
    }

    /// Vacates an occupied slot, returning its value; the slot becomes the
    /// next one `push` reuses.
    pub fn remove(&mut self, handle: A) -> (r: T)
        requires
            old(self).wf(),
            old(self).valid(handle),
        ensures
            final(self).wf(),
            r == old(self).value_of(handle),
            final(self).entries() == old(self).entries().update(handle.idx(), None::<T>),
            final(self).free_list() == old(self).free_list().push(handle.idx()),
            final(self).live_count() == old(self).live_count() - 1,
    {
        proof {
            A::lemma_idx_bounds(handle);
        }
        let idx = handle.index();
        let taken = self.slots[idx].take();
        self.free.push(idx as u32);
        proof {
            assert(final(self).free_list() =~= old(self).free_list().push(handle.idx()));
            assert(!old(self).free@.contains(idx as u32)) by {
                if old(self).free@.contains(idx as u32) {
                    let k = choose|k: int|
                        0 <= k < old(self).free@.len() && old(self).free@[k] == idx as u32;
                    assert(old(self).slots@[idx as int] is None);
                }
            }
            assert(self.free@.no_duplicates()) by {
                assert(forall|k: int|
                    0 <= k < old(self).free@.len() ==> self.free@[k] == old(self).free@[k]);
            }
            assert forall|k: int|
                0 <= k < self.free@.len() implies (#[trigger] self.free@[k]) < self.slots@.len()
                && self.slots@[self.free@[k] as int] is None by {
                if k < old(self).free@.len() {
                    assert(self.free@[k] == old(self).free@[k]);
                    assert(old(self).free@[k] != idx as u32);
                } else {
                    assert(self.free@[k] == idx as u32);
                }
            }
            assert forall|j: int|
                0 <= j < self.slots@.len() && (#[trigger] self.slots@[j]) is None implies
                self.free@.contains(j as u32) by {
                if j == idx as int {
                    assert(self.free@[self.free@.len() - 1] == idx as u32);
                } else {
                    assert(old(self).slots@[j] is None);
                    let k = choose|k: int|
                        0 <= k < old(self).free@.len() && old(self).free@[k] == j as u32;
                    assert(self.free@[k] == j as u32);
                }
            }
        }
        taken.unwrap()
    }

    /// Whether the handle currently names an occupied slot.
    pub fn is_valid(&self, handle: A) -> (r: bool)
        requires
            self.wf(),
        ensures
            r == self.valid(handle),
    {
        proof {
            A::lemma_idx_bounds(handle);
        }
        let idx = handle.index();
        idx < self.slots.len() && self.slots[idx].is_some()
    }

    /// Borrows the value in an occupied slot.
    pub fn get(&self, handle: A) -> (r: &T)
        requires
            self.wf(),
            self.valid(handle),
        ensures
            *r == self.value_of(handle),
    {
        proof {
            A::lemma_idx_bounds(handle);
        }
        let idx = handle.index();
        self.slots[idx].as_ref().unwrap()
    }

    /// Mutably borrows the value in an occupied slot.
    pub fn get_mut(&mut self, handle: A) -> (r: &mut T)
        requires
            old(self).wf(),
            old(self).valid(handle),
        ensures
            *r == old(self).value_of(handle),
            final(self).entries() == old(self).entries().update(
                handle.idx(),
                Some(*final(r)),
            ),
            final(self).free_list() == old(self).free_list(),
            final(self).wf(),
            final(self).valid(handle),
    {
        proof {
            A::lemma_idx_bounds(handle);
        }
        let idx = handle.index();
        let slot = &mut self.slots[idx];
        slot.as_mut().unwrap()
    }

    /// The total number of slots, vacant ones included.
    pub fn slot_count(&self) -> (r: usize)
        ensures
            r == self.entries().len(),
    {
        self.slots.len()
    }

    /// The number of live entries: total slots minus the free list.
    pub fn count(&self) -> (r: usize)
        requires
            self.wf(),
        ensures
            r == self.live_count(),
    {
        proof {
            self.lemma_free_fits();
        }
        self.slots.len() - self.free.len()
    }

    /// The handles of all live entries except the excluded one, in slot
    /// order: the broadcast fan-out of a relay.
    pub fn handles_excluding(&self, excluded: A) -> (r: Vec<A>)
        requires
            self.wf(),
        ensures
            forall|j: int|
                0 <= j < r@.len() ==> self.valid(#[trigger] r@[j]) && r@[j].idx()
                    != excluded.idx(),
            forall|i: int|
                0 <= i < self.entries().len() && (#[trigger] self.entries()[i]) is Some && i
                    != excluded.idx() ==> exists|j: int| 0 <= j < r@.len() && r@[j].idx() == i,
            forall|j1: int, j2: int|
                0 <= j1 < j2 < r@.len() ==> (#[trigger] r@[j1]).idx() < (#[trigger] r@[j2]).idx(),
    {
        proof {
            A::lemma_idx_bounds(excluded);
        }
        let skip_at = excluded.index();
        let mut r: Vec<A> = Vec::new();
        let n = self.slots.len();
        let mut i: usize = 0;
        while i < n
            invariant
                i <= n,
                n == self.entries().len(),
                self.wf(),
                skip_at == excluded.idx(),
                forall|j: int|
                    0 <= j < r@.len() ==> self.valid(#[trigger] r@[j]) && r@[j].idx()
                        != excluded.idx(),
                forall|j: int| 0 <= j < r@.len() ==> (#[trigger] r@[j]).idx() < i,
                forall|k: int|
                    0 <= k < i && (#[trigger] self.entries()[k]) is Some && k != excluded.idx()
                        ==> exists|j: int| 0 <= j < r@.len() && r@[j].idx() == k,
                forall|j1: int, j2: int|
                    0 <= j1 < j2 < r@.len() ==> (#[trigger] r@[j1]).idx() < (
                    #[trigger] r@[j2]).idx(),
            decreases n - i,
        {
            let ghost r_before = r@;
            if i != skip_at && self.slots[i].is_some() {
                let h = A::new(i);
                r.push(h);
                proof {
                    assert(r@[r@.len() - 1] == h);
                }
            }
            proof {
                assert(forall|j: int| 0 <= j < r_before.len() ==> r@[j] == r_before[j]);
                assert forall|k: int|
                    0 <= k < i + 1 && (#[trigger] self.entries()[k]) is Some && k
                    != excluded.idx() implies exists|j: int|
                    0 <= j < r@.len() && r@[j].idx() == k by {
                    if k < i {
                        let j = choose|j: int| 0 <= j < r_before.len() && r_before[j].idx() == k;
                        assert(r@[j].idx() == k);
                    } else {
                        assert(r@[r@.len() - 1].idx() == k);
                    }
                }
            }
            i = i + 1;
        }
        r
    }

    /// The handles of all live entries, in slot order.
    pub fn handles(&self) -> (r: Vec<A>)
        requires
            self.wf(),
        ensures
            forall|j: int| 0 <= j < r@.len() ==> self.valid(#[trigger] r@[j]),
            forall|i: int|
                0 <= i < self.entries().len() && (#[trigger] self.entries()[i]) is Some
                    ==> exists|j: int| 0 <= j < r@.len() && r@[j].idx() == i,
            forall|j1: int, j2: int|
                0 <= j1 < j2 < r@.len() ==> (#[trigger] r@[j1]).idx() < (#[trigger] r@[j2]).idx(),
    {
        let mut r: Vec<A> = Vec::new();
        let n = self.slots.len();
        let mut i: usize = 0;
        while i < n
            invariant
                i <= n,
                n == self.entries().len(),
                self.wf(),
                forall|j: int| 0 <= j < r@.len() ==> self.valid(#[trigger] r@[j]),
                forall|j: int| 0 <= j < r@.len() ==> (#[trigger] r@[j]).idx() < i,
                forall|k: int|
                    0 <= k < i && (#[trigger] self.entries()[k]) is Some ==> exists|j: int|
                        0 <= j < r@.len() && r@[j].idx() == k,
                forall|j1: int, j2: int|
                    0 <= j1 < j2 < r@.len() ==> (#[trigger] r@[j1]).idx() < (
                    #[trigger] r@[j2]).idx(),
            decreases n - i,
        {
            let ghost r_before = r@;
            if self.slots[i].is_some() {
                let h = A::new(i);
                r.push(h);
                proof {
                    assert(r@[r@.len() - 1] == h);
                }
            }
            proof {
                assert(forall|j: int| 0 <= j < r_before.len() ==> r@[j] == r_before[j]);
                assert forall|k: int|
                    0 <= k < i + 1 && (#[trigger] self.entries()[k]) is Some implies exists|j: int|
                    0 <= j < r@.len() && r@[j].idx() == k by {
                    if k < i {
                        let j = choose|j: int| 0 <= j < r_before.len() && r_before[j].idx() == k;
                        assert(r@[j].idx() == k);
                    } else {
                        assert(r@[r@.len() - 1].idx() == k);
                    }
                }
            }
            i = i + 1;
        }
        r
    }
}

} // verus!
