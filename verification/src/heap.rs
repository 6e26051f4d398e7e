//! A generational slab heap: values of one type in reusable slots, each reached
//! through a handle that is checked on every use.

use crate::error::StoreError;
use crate::heap::model::{
    lemma_alloc_n_issued, lemma_alloc_n_wf, lemma_allocate_wf, lemma_free_wf, lemma_write_wf,
    HeapModel, Key,
};
use crate::tables::{map_get, map_insert, map_remove, map_with_capacity, MAX_RESERVED};
use ahash::AHashMap;
use core::marker::PhantomData;
use vstd::prelude::*;
use vstd::std_specs::cmp::PartialEqSpecImpl;

pub mod laws;
pub mod model;

verus! {

/// A handle to one slot of a [`Heap`] owned by `O`. Handles of different owners
/// are different types. Two handles are equal when their identifiers are.
pub struct HeapElemId<O> {
    owner: PhantomData<O>,
    id: usize,
    bucket_idx: usize,
}

impl<O> View for HeapElemId<O> {
    type V = Key;

    closed spec fn view(&self) -> Key {
        Key { id: self.id, slot: self.bucket_idx }
    }
}

impl<O> HeapElemId<O> {
    /// A handle is nothing but its key: handles with the same key are the same.
    pub proof fn law_key_is_handle(self, other: Self)
        requires
            self@ == other@,
        ensures
            self == other,
    {
    }

    /// The identifier of the handle. It is what two handles are compared
    /// by, and can stand for the handle as the key of a table.
    pub fn id(&self) -> (id: usize)
        ensures
            id == self@.id,
    {
        self.id
    }

    /// The handle with the identifier `id` for the slot `bucket_idx`.
    pub(crate) fn from_parts(id: usize, bucket_idx: usize) -> (key: Self)
        ensures
            key@ == (Key { id, slot: bucket_idx }),
    {
        HeapElemId { owner: PhantomData, id, bucket_idx }
    }

    /// The identifier and the slot of the handle.
    pub(crate) fn parts(&self) -> (parts: (usize, usize))
        ensures
            parts == (self@.id, self@.slot),
    {
        (self.id, self.bucket_idx)
    }
}

impl<O> PartialEq for HeapElemId<O> {
    fn eq(&self, other: &Self) -> (r: bool) {
        self.id == other.id
    }
}

impl<O> PartialEqSpecImpl for HeapElemId<O> {
    open spec fn obeys_eq_spec() -> bool {
        true
    }

    open spec fn eq_spec(&self, other: &Self) -> bool {
        self@.id == other@.id
    }
}

impl<O> Eq for HeapElemId<O> {

}

impl<O> Clone for HeapElemId<O> {
    fn clone(&self) -> (r: Self)
        ensures
            r == *self,
    {
        HeapElemId { owner: PhantomData, id: self.id, bucket_idx: self.bucket_idx }
    }
}

impl<O> Copy for HeapElemId<O> {

}

impl<O> Default for HeapElemId<O> {
    fn default() -> (key: Self)
        ensures
            key@ == (Key { id: 0, slot: 0 }),
    {
        HeapElemId { owner: PhantomData, id: 0, bucket_idx: 0 }
    }
}

/// A handle that no heap ever issues: its identifier is the largest, which
/// the identifier counter never hands out.
pub fn impossible_heap_elem_id<O>() -> (key: HeapElemId<O>)
    ensures
        key@ == (Key { id: usize::MAX, slot: usize::MAX }),
{
    HeapElemId { owner: PhantomData, id: usize::MAX, bucket_idx: usize::MAX }
}

/// The counter that hands out identifiers, each once.
struct HeapKeyAlloc<O> {
    owner: PhantomData<O>,
    next_id: usize,
}

impl<O> HeapKeyAlloc<O> {
    fn new(owner: PhantomData<O>) -> (counter: Self)
        ensures
            counter.next_id == 0,
    {
        Self { owner, next_id: 0 }
    }

    /// The next identifier, unless the counter is spent.
    fn next_id(&mut self) -> (issued: Option<usize>)
        ensures
            match issued {
                Some(id) => id == old(self).next_id && id < usize::MAX && final(self).next_id == id
                    + 1,
                None => old(self).next_id == usize::MAX && *final(self) == *old(self),
            },
    {
        if self.next_id == usize::MAX {
            None
        } else {
            let id = self.next_id;
            self.next_id = id + 1;
            Some(id)
        }
    }

    /// The next `n` identifiers at once, as the first and the one past the last,
    /// unless the counter cannot give as many.
    fn reserve_ids(&mut self, n: usize) -> (range: Option<(usize, usize)>)
        ensures
            match range {
                Some((first, last)) => first == old(self).next_id && last == first + n
                    && final(self).next_id == last,
                None => old(self).next_id + n > usize::MAX && *final(self) == *old(self),
            },
    {
        if n > usize::MAX - self.next_id {
            None
        } else {
            let first = self.next_id;
            let last = first + n;
            self.next_id = last;
            Some((first, last))
        }
    }

    /// A handle with a fresh identifier for each slot of `buckets`, in order.
    fn n_new_keys(&mut self, buckets: &Vec<usize>) -> (keys: Option<Vec<HeapElemId<O>>>)
        ensures
            match keys {
                Some(keys) => {
                    &&& old(self).next_id + buckets.len() <= usize::MAX
                    &&& final(self).next_id == old(self).next_id + buckets.len()
                    &&& keys.len() == buckets.len()
                    &&& forall|i: int|
                        0 <= i < keys.len() ==> (#[trigger] keys[i])@ == (Key {
                            id: (old(self).next_id + i) as usize,
                            slot: buckets[i],
                        })
                },
                None => old(self).next_id + buckets.len() > usize::MAX && *final(self) == *old(
                    self,
                ),
            },
    {
        let n = buckets.len();
        match self.reserve_ids(n) {
            None => None,
            Some((first, _last)) => {
                let mut keys: Vec<HeapElemId<O>> = Vec::new();
                let mut i: usize = 0;
                while i < n
                    invariant
                        n == buckets.len(),
                        first + n <= usize::MAX,
                        0 <= i <= n,
                        keys.len() == i,
                        forall|j: int|
                            0 <= j < i ==> (#[trigger] keys[j])@ == (Key {
                                id: (first + j) as usize,
                                slot: buckets[j],
                            }),
                    decreases n - i,
                {
                    keys.push(HeapElemId { owner: self.owner, id: first + i, bucket_idx: buckets[i] });
                    i += 1;
                }
                Some(keys)
            },
        }
    }

    /// A handle with a fresh identifier for the slot `bucket_idx`.
    fn new_key(&mut self, bucket_idx: usize) -> (key: Option<HeapElemId<O>>)
        ensures
            match key {
                Some(key) => key@ == (Key { id: old(self).next_id, slot: bucket_idx })
                    && key@.id < usize::MAX && final(self).next_id == key@.id + 1,
                None => old(self).next_id == usize::MAX && *final(self) == *old(self),
            },
    {
        match self.next_id() {
            Some(id) => Some(HeapElemId { owner: self.owner, id, bucket_idx }),
            None => None,
        }
    }
}

/// A slab heap of values of type `V`, owned by `O`.
pub struct Heap<O, V> {
    owner: PhantomData<O>,
    key_allocator: HeapKeyAlloc<O>,
    vacant_idxs: Vec<usize>,
    buckets: Vec<Option<V>>,
    valid_ids: AHashMap<usize, usize>,
}

impl<O, V> View for Heap<O, V> {
    type V = HeapModel<V>;

    closed spec fn view(&self) -> HeapModel<V> {
        HeapModel {
            issued: self.key_allocator.next_id as nat,
            live: crate::tables::map_entries(self.valid_ids),
            slots: self.buckets@,
            vacant: self.vacant_idxs@,
        }
    }
}

impl<O, V> Heap<O, V> {
    /// Whether the heap is in a state that its own operations can have produced.
    pub open spec fn wf(&self) -> bool {
        self@.wf()
    }

    /// An empty heap.
    pub fn new() -> (heap: Self)
        ensures
            heap.wf(),
            heap@ == HeapModel::<V>::empty(),
    {
        Self::with_capacity(4)
    }

    /// An empty heap with room for about `cap` values. The hint only guides how
    /// much is reserved ahead of time, up to [`MAX_RESERVED`].
    pub fn with_capacity(cap: usize) -> (heap: Self)
        ensures
            heap.wf(),
            heap@ == HeapModel::<V>::empty(),
    {
        let reserved = if cap > MAX_RESERVED {
            MAX_RESERVED
        } else {
            cap
        };
        let heap = Self {
            owner: PhantomData,
            key_allocator: HeapKeyAlloc::new(PhantomData),
            vacant_idxs: Vec::new(),
            buckets: Vec::with_capacity(reserved),
            valid_ids: map_with_capacity(reserved),
        };
        assert(heap@ =~= HeapModel::<V>::empty());
        heap
    }

    /// Takes the slot that the next handle is bound to: the one freed last, or
    /// a new one at the end.
    fn take_bucket(&mut self) -> (bucket_idx: usize)
        ensures
            bucket_idx == old(self)@.next_key().slot,
            final(self)@.slots == old(self)@.allocate().slots,
            final(self)@.vacant == old(self)@.allocate().vacant,
            final(self)@.live == old(self)@.live,
            final(self)@.issued == old(self)@.issued,
    {
        match self.vacant_idxs.pop() {
            Some(vacant_bucket_idx) => {
                assert(self.vacant_idxs@ =~= old(self).vacant_idxs@.drop_last());
                vacant_bucket_idx
            },
            None => {
                let new_bucket_idx = self.buckets.len();
                self.buckets.push(None);
                new_bucket_idx
            },
        }
    }

    /// Reserves one slot and returns a fresh handle bound to it. The slot freed
    /// last is taken first; the storage grows only when no slot is vacant.
    /// Fails, changing nothing, when the identifiers are used up.
    pub fn allocate(&mut self) -> (res: Result<HeapElemId<O>, StoreError>)
        requires
            old(self).wf(),
        ensures
            final(self).wf(),
            match res {
                Ok(key) => {
                    &&& old(self)@.can_issue(1)
                    &&& key@ == old(self)@.next_key()
                    &&& final(self)@ == old(self)@.allocate()
                },
                Err(e) => {
                    &&& e == StoreError::Exhausted
                    &&& !old(self)@.can_issue(1)
                    &&& final(self)@ == old(self)@
                },
            },
    {
        if self.key_allocator.next_id == usize::MAX {
            return Err(StoreError::Exhausted);
        }
        let bucket_idx = self.take_bucket();
        let key = self.key_allocator.new_key(bucket_idx).unwrap();
        map_insert(&mut self.valid_ids, key.id, key.bucket_idx);
        proof {
            lemma_allocate_wf(old(self)@);
            assert(self@ =~= old(self)@.allocate());
        }
        Ok(key)
    }

    /// Reserves `n` slots with one reservation of identifiers and returns the
    /// `n` fresh handles, exactly those that `n` single allocations would return
    /// in turn. Fails, changing nothing, when fewer than `n` identifiers are left.
    pub fn alloc_n(&mut self, n: usize) -> (res: Result<Vec<HeapElemId<O>>, StoreError>)
        requires
            old(self).wf(),
        ensures
            final(self).wf(),
            match res {
                Ok(keys) => {
                    &&& old(self)@.can_issue(n as nat)
                    &&& keys.len() == n
                    &&& forall|i: int|
                        0 <= i < n ==> (#[trigger] keys[i])@ == old(self)@.alloc_n_keys(
                            n as nat,
                        )[i]
                    &&& final(self)@ == old(self)@.alloc_n(n as nat)
                },
                Err(e) => {
                    &&& e == StoreError::Exhausted
                    &&& !old(self)@.can_issue(n as nat)
                    &&& final(self)@ == old(self)@
                },
            },
    {
        if n > usize::MAX - self.key_allocator.next_id {
            return Err(StoreError::Exhausted);
        }
        let ghost start = self@;
        let mut buckets: Vec<usize> = Vec::new();
        let mut i: usize = 0;
        while i < n
            invariant
                start.wf(),
                start.can_issue(n as nat),
                0 <= i <= n,
                buckets.len() == i,
                self@.issued == start.issued,
                self@.live == start.live,
                self@.slots == start.alloc_n(i as nat).slots,
                self@.vacant == start.alloc_n(i as nat).vacant,
                forall|j: int|
                    0 <= j < i ==> #[trigger] buckets[j] == start.alloc_n(j as nat).next_key().slot,
            decreases n - i,
        {
            proof {
                lemma_alloc_n_wf(start, i as nat);
                lemma_alloc_n_issued(start, i as nat);
            }
            let ghost before = start.alloc_n(i as nat);
            let bucket_idx = self.take_bucket();
            buckets.push(bucket_idx);
            i += 1;
            assert(start.alloc_n(i as nat) == before.allocate());
        }
        let keys = self.key_allocator.n_new_keys(&buckets).unwrap();
        assert forall|j: int| 0 <= j < n implies (#[trigger] keys[j])@ == start.alloc_n(
            j as nat,
        ).next_key() by {
            lemma_alloc_n_issued(start, j as nat);
        }
        let mut j: usize = 0;
        while j < n
            invariant
                start.wf(),
                start.can_issue(n as nat),
                0 <= j <= n,
                keys.len() == n,
                forall|k: int|
                    0 <= k < n ==> (#[trigger] keys[k])@ == start.alloc_n(k as nat).next_key(),
                self@.issued == start.issued + n,
                self@.live == start.alloc_n(j as nat).live,
                self@.slots == start.alloc_n(n as nat).slots,
                self@.vacant == start.alloc_n(n as nat).vacant,
            decreases n - j,
        {
            let key = keys[j];
            map_insert(&mut self.valid_ids, key.id, key.bucket_idx);
            j += 1;
        }
        proof {
            lemma_alloc_n_wf(start, n as nat);
            lemma_alloc_n_issued(start, n as nat);
            assert(self@ =~= start.alloc_n(n as nat));
        }
        Ok(keys)
    }

    /// The value at `key`, or why it cannot be had: nothing written yet, freed,
    /// or never issued.
    pub fn get(&self, key: &HeapElemId<O>) -> (res: Result<&V, StoreError>)
        requires
            self.wf(),
        ensures
            match res {
                Ok(value) => self@.read(key@) == Ok::<V, StoreError>(*value),
                Err(e) => self@.read(key@) == Err::<V, StoreError>(e),
            },
    {
        match self.check(key, false) {
            Err(e) => Err(e),
            Ok(()) => match &self.buckets[key.bucket_idx] {
                Some(elem) => Ok(elem),
                None => Err(StoreError::UninitializedSlot),
            },
        }
    }

    /// Whether `key` is live; if not, whether it was freed or never issued.
    fn check(&self, key: &HeapElemId<O>, freeing: bool) -> (res: Result<(), StoreError>)
        requires
            self.wf(),
        ensures
            res == self@.check(key@, freeing),
    {
        match map_get(&self.valid_ids, key.id) {
            Some(bucket_idx) => {
                if bucket_idx == key.bucket_idx {
                    Ok(())
                } else {
                    Err(StoreError::InvalidHandle)
                }
            },
            None => {
                if key.id < self.key_allocator.next_id {
                    if freeing {
                        Err(StoreError::DoubleFree)
                    } else {
                        Err(StoreError::UseAfterFree)
                    }
                } else {
                    Err(StoreError::InvalidHandle)
                }
            },
        }
    }

    /// How many more identifiers the heap can hand out.
    pub fn ids_left(&self) -> (left: usize)
        requires
            self.wf(),
        ensures
            left == usize::MAX - self@.issued,
            forall|n: nat| self@.can_issue(n) <==> n <= left,
    {
        usize::MAX - self.key_allocator.next_id
    }

    /// `Ok` where `key` is valid now; else the error that a read or write of
    /// it meets.
    pub fn validate(&self, key: &HeapElemId<O>) -> (res: Result<(), StoreError>)
        requires
            self.wf(),
        ensures
            res == self@.check(key@, false),
    {
        self.check(key, false)
    }

    /// Whether `key` is valid now.
    pub fn contains(&self, key: &HeapElemId<O>) -> (live: bool)
        requires
            self.wf(),
        ensures
            live == self@.is_live(key@),
    {
        self.check(key, false).is_ok()
    }

    /// Stores `value` at `key`, in place of what was there.
    pub fn replace(&mut self, key: &HeapElemId<O>, value: V) -> (res: Result<(), StoreError>)
        requires
            old(self).wf(),
        ensures
            final(self).wf(),
            res == old(self)@.check(key@, false),
            final(self)@ == old(self)@.write(key@, value),
    {
        match self.check(key, false) {
            Err(e) => Err(e),
            Ok(()) => {
                self.buckets.set(key.bucket_idx, Some(value));
                proof {
                    lemma_write_wf(old(self)@, key@, value);
                    assert(self@ =~= old(self)@.write(key@, value));
                }
                Ok(())
            },
        }
    }

    /// Ends the life of `key`: its value is dropped and its slot becomes the
    /// first to be reused. No later operation makes `key` valid again.
    pub fn free(&mut self, key: &HeapElemId<O>) -> (res: Result<(), StoreError>)
        requires
            old(self).wf(),
        ensures
            final(self).wf(),
            res == old(self)@.check(key@, true),
            final(self)@ == old(self)@.free(key@),
    {
        match self.check(key, true) {
            Err(e) => Err(e),
            Ok(()) => {
                map_remove(&mut self.valid_ids, key.id);
                self.buckets.set(key.bucket_idx, None);
                self.vacant_idxs.push(key.bucket_idx);
                proof {
                    lemma_free_wf(old(self)@, key@);
                    assert(self@ =~= old(self)@.free(key@));
                }
                Ok(())
            },
        }
    }
}

impl<O> HeapElemId<O> {
    /// The handle that no heap ever issues: the one that
    /// [`impossible_heap_elem_id`] returns.
    pub closed spec fn impossible() -> Self {
        HeapElemId { owner: PhantomData, id: usize::MAX, bucket_idx: usize::MAX }
    }

    /// The handle that no heap issues carries the largest identifier.
    pub proof fn lemma_impossible_key()
        ensures
            Self::impossible()@ == (Key { id: usize::MAX, slot: usize::MAX }),
    {
    }
}

} // verus!
