//! The mathematical model of a slab heap: what a heap is, and what each
//! operation makes of it, as pure functions.

use crate::error::StoreError;
use vstd::prelude::*;

verus! {

/// The plain value of a handle: the identifier it carries and the slot it names.
pub struct Key {
    pub id: usize,
    pub slot: usize,
}

/// The state of a heap of values of type `V`.
pub struct HeapModel<V> {
    /// How many identifiers have been handed out; also the next identifier.
    pub issued: nat,
    /// The slot of every handle that is valid now, by the handle's identifier.
    pub live: Map<usize, usize>,
    /// The storage cells. A cell is `None` until it is written, and again once freed.
    pub slots: Seq<Option<V>>,
    /// The freed slots, in the order in which they were freed. The last is reused first.
    pub vacant: Seq<usize>,
}

impl<V> HeapModel<V> {
    /// The heap that has issued nothing.
    pub open spec fn empty() -> Self {
        HeapModel { issued: 0, live: Map::empty(), slots: Seq::empty(), vacant: Seq::empty() }
    }

    /// The invariant of every heap: live identifiers have been issued and name
    /// distinct cells, vacant cells are empty and listed once, every cell is
    /// either bound to a live handle or vacant, and no cell exists that no
    /// allocation asked for.
    pub open spec fn wf(self) -> bool {
        &&& self.issued <= usize::MAX
        &&& self.live.dom().finite()
        &&& forall|id: usize| #[trigger]
            self.live.contains_key(id) ==> id < self.issued && self.live[id] < self.slots.len()
        &&& forall|a: usize, b: usize|
            #![trigger self.live[a], self.live[b]]
            self.live.contains_key(a) && self.live.contains_key(b) && self.live[a]
                == self.live[b] ==> a == b
        &&& forall|i: int|
            0 <= i < self.vacant.len() ==> (#[trigger] self.vacant[i]) < self.slots.len()
                && self.slots[self.vacant[i] as int] is None
        &&& forall|i: int, j: int|
            0 <= i < j < self.vacant.len() ==> self.vacant[i] != self.vacant[j]
        &&& forall|id: usize, i: int|
            self.live.contains_key(id) && 0 <= i < self.vacant.len() ==> #[trigger] self.live[id]
                != #[trigger] self.vacant[i]
        &&& self.slots.len() == self.live.dom().len() + self.vacant.len()
        &&& self.slots.len() <= self.issued
    }

    /// Whether `key` is valid: issued, not freed since, and naming the slot it was issued for.
    pub open spec fn is_live(self, key: Key) -> bool {
        self.live.contains_key(key.id) && self.live[key.id] == key.slot
    }

    /// Whether the identifier of `key` has been handed out by this heap.
    pub open spec fn was_issued(self, key: Key) -> bool {
        key.id < self.issued
    }

    /// Whether `key` is stale: its identifier has been handed out by this
    /// heap, and the handle that carried it has been freed since.
    pub open spec fn was_freed(self, key: Key) -> bool {
        self.was_issued(key) && !self.live.contains_key(key.id)
    }

    /// Whether the heap can hand out `n` more identifiers. The largest `usize` is never issued.
    pub open spec fn can_issue(self, n: nat) -> bool {
        self.issued + n <= usize::MAX
    }

    /// The handle that the next allocation returns: the next identifier, bound
    /// to the slot freed last, or to a new slot at the end where none is vacant.
    pub open spec fn next_key(self) -> Key {
        Key {
            id: self.issued as usize,
            slot: if self.vacant.len() > 0 {
                self.vacant.last()
            } else {
                self.slots.len() as usize
            },
        }
    }

    /// The heap after one allocation.
    pub open spec fn allocate(self) -> Self {
        HeapModel {
            issued: self.issued + 1,
            live: self.live.insert(self.next_key().id, self.next_key().slot),
            slots: if self.vacant.len() > 0 {
                self.slots
            } else {
                self.slots.push(None)
            },
            vacant: if self.vacant.len() > 0 {
                self.vacant.drop_last()
            } else {
                self.vacant
            },
        }
    }

    /// The heap after `n` allocations, one after another.
    pub open spec fn alloc_n(self, n: nat) -> Self
        decreases n,
    {
        if n == 0 {
            self
        } else {
            self.alloc_n((n - 1) as nat).allocate()
        }
    }

    /// The handles that `n` allocations return, in order.
    pub open spec fn alloc_n_keys(self, n: nat) -> Seq<Key> {
        Seq::new(n, |i: int| self.alloc_n(i as nat).next_key())
    }

    /// What reading `key` gives: the value at its slot, where it is live and
    /// something was written there; else the reason for which there is none.
    pub open spec fn read(self, key: Key) -> Result<V, StoreError> {
        match self.check(key, false) {
            Ok(()) => match self.slots[key.slot as int] {
                Some(value) => Ok(value),
                None => Err(StoreError::UninitializedSlot),
            },
            Err(e) => Err(e),
        }
    }

    /// Whether `key` may be read, written or freed, and if not, why not: it
    /// was freed, or it was never a handle of this heap, be it that its
    /// identifier has not been handed out or that it names another slot than
    /// the one that the identifier is bound to.
    pub open spec fn check(self, key: Key, freeing: bool) -> Result<(), StoreError> {
        if self.is_live(key) {
            Ok(())
        } else if self.was_freed(key) {
            if freeing {
                Err(StoreError::DoubleFree)
            } else {
                Err(StoreError::UseAfterFree)
            }
        } else {
            Err(StoreError::InvalidHandle)
        }
    }

    /// The heap after `value` was written at `key`; unchanged where `key` is not live.
    pub open spec fn write(self, key: Key, value: V) -> Self {
        if self.is_live(key) {
            HeapModel { slots: self.slots.update(key.slot as int, Some(value)), ..self }
        } else {
            self
        }
    }

    /// The heap after `key` was freed; unchanged where `key` is not live.
    pub open spec fn free(self, key: Key) -> Self {
        if self.is_live(key) {
            HeapModel {
                live: self.live.remove(key.id),
                slots: self.slots.update(key.slot as int, None),
                vacant: self.vacant.push(key.slot),
                ..self
            }
        } else {
            self
        }
    }
}

/// Allocation keeps a heap well formed, and the handle it returns is live
/// afterwards and was not issued before.
pub proof fn lemma_allocate_wf<V>(m: HeapModel<V>)
    requires
        m.wf(),
        m.can_issue(1),
    ensures
        m.allocate().wf(),
        m.allocate().is_live(m.next_key()),
        !m.was_issued(m.next_key()),
        m.allocate().read(m.next_key()) == Err::<V, StoreError>(StoreError::UninitializedSlot),
{
    let k = m.next_key();
    let a = m.allocate();
    assert(!m.live.contains_key(k.id));
    if m.vacant.len() > 0 {
        assert(m.vacant[m.vacant.len() - 1] == k.slot);
        assert forall|id: usize, i: int|
            a.live.contains_key(id) && 0 <= i < a.vacant.len() implies #[trigger] a.live[id]
            != #[trigger] a.vacant[i] by {
            assert(a.vacant[i] == m.vacant[i]);
        }
        assert forall|x: usize, y: usize|
            #![trigger a.live[x], a.live[y]]
            a.live.contains_key(x) && a.live.contains_key(y) && a.live[x] == a.live[y] implies x
            == y by {
            if x == k.id && y != k.id {
                assert(m.live[y] != m.vacant[m.vacant.len() - 1]);
            }
            if y == k.id && x != k.id {
                assert(m.live[x] != m.vacant[m.vacant.len() - 1]);
            }
        }
        assert forall|i: int| 0 <= i < a.vacant.len() implies (#[trigger] a.vacant[i])
            < a.slots.len() && a.slots[a.vacant[i] as int] is None by {
            assert(a.vacant[i] == m.vacant[i]);
        }
    } else {
        assert forall|x: usize, y: usize|
            #![trigger a.live[x], a.live[y]]
            a.live.contains_key(x) && a.live.contains_key(y) && a.live[x] == a.live[y] implies x
            == y by {
            if x != k.id {
                assert(m.live.contains_key(x));
            }
            if y != k.id {
                assert(m.live.contains_key(y));
            }
        }
    }
    assert(a.live.dom() =~= m.live.dom().insert(k.id));
    assert(a.slots[k.slot as int] is None);
}

/// Writing keeps a heap well formed and changes nothing but the value at the handle.
pub proof fn lemma_write_wf<V>(m: HeapModel<V>, key: Key, value: V)
    requires
        m.wf(),
    ensures
        m.write(key, value).wf(),
        m.is_live(key) ==> m.write(key, value).read(key) == Ok::<V, StoreError>(value),
        forall|other: Key| other.slot != key.slot ==> m.write(key, value).read(other) == m.read(other),
{
    let w = m.write(key, value);
    if m.is_live(key) {
        assert forall|i: int| 0 <= i < w.vacant.len() implies (#[trigger] w.vacant[i])
            < w.slots.len() && w.slots[w.vacant[i] as int] is None by {
            assert(m.live[key.id] != m.vacant[i]);
        }
    }
}

/// Freeing keeps a heap well formed.
pub proof fn lemma_free_wf<V>(m: HeapModel<V>, key: Key)
    requires
        m.wf(),
    ensures
        m.free(key).wf(),
        !m.free(key).is_live(key),
        m.is_live(key) ==> m.free(key).was_freed(key),
{
    let f = m.free(key);
    if m.is_live(key) {
        assert(f.live.dom() =~= m.live.dom().remove(key.id));
        assert forall|i: int| 0 <= i < f.vacant.len() implies (#[trigger] f.vacant[i])
            < f.slots.len() && f.slots[f.vacant[i] as int] is None by {
            if i < m.vacant.len() {
                assert(f.vacant[i] == m.vacant[i]);
            }
        }
        assert forall|i: int, j: int| 0 <= i < j < f.vacant.len() implies f.vacant[i]
            != f.vacant[j] by {
            if j == m.vacant.len() {
                assert(m.live[key.id] != m.vacant[i]);
            }
        }
        assert forall|id: usize, i: int|
            f.live.contains_key(id) && 0 <= i < f.vacant.len() implies #[trigger] f.live[id]
            != #[trigger] f.vacant[i] by {
            if i < m.vacant.len() {
                assert(m.live[id] != m.vacant[i]);
            } else {
                assert(m.live[id] != m.live[key.id]);
            }
        }
    }
}

/// `n` allocations hand out `n` identifiers.
pub proof fn lemma_alloc_n_issued<V>(m: HeapModel<V>, n: nat)
    ensures
        m.alloc_n(n).issued == m.issued + n,
    decreases n,
{
    if n > 0 {
        lemma_alloc_n_issued(m, (n - 1) as nat);
    }
}

/// The handles of a batch carry consecutive identifiers, from the next one on.
pub proof fn lemma_alloc_n_keys_ids<V>(m: HeapModel<V>, n: nat)
    requires
        m.can_issue(n),
    ensures
        m.alloc_n_keys(n).len() == n,
        forall|i: int| 0 <= i < n ==> (#[trigger] m.alloc_n_keys(n)[i]).id == m.issued + i,
{
    assert forall|i: int| 0 <= i < n implies (#[trigger] m.alloc_n_keys(n)[i]).id == m.issued
        + i by {
        lemma_alloc_n_issued(m, i as nat);
    }
}

/// `n` allocations keep a heap well formed, as long as the identifiers last.
pub proof fn lemma_alloc_n_wf<V>(m: HeapModel<V>, n: nat)
    requires
        m.wf(),
        m.can_issue(n),
    ensures
        m.alloc_n(n).wf(),
    decreases n,
{
    if n > 0 {
        lemma_alloc_n_wf(m, (n - 1) as nat);
        lemma_alloc_n_issued(m, (n - 1) as nat);
        lemma_allocate_wf(m.alloc_n((n - 1) as nat));
    }
}

/// No heap hands out the largest identifier: the handle that carries it is
/// never a handle of any heap.
pub proof fn law_last_id_never_issued<V>(m: HeapModel<V>, key: Key)
    requires
        m.wf(),
        key.id == usize::MAX,
    ensures
        !m.was_issued(key),
        !m.is_live(key),
        m.read(key) == Err::<V, StoreError>(StoreError::InvalidHandle),
{
    if m.live.contains_key(key.id) {
        assert(key.id < m.issued);
    }
}

} // verus!
