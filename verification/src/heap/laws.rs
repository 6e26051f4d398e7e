//! What holds of every heap, proved from the model: over single operations and
//! over arbitrary histories of operations.

use crate::error::StoreError;
use crate::heap::model::{
    lemma_alloc_n_issued, lemma_alloc_n_wf, lemma_allocate_wf, lemma_free_wf, lemma_write_wf,
    HeapModel, Key,
};
use vstd::prelude::*;

verus! {

/// One call on a heap.
pub enum HeapOp<V> {
    Allocate,
    AllocN(nat),
    Replace(Key, V),
    Free(Key),
}

impl<V> HeapModel<V> {
    /// The heap after the call `op`. A call that fails leaves the heap as it was.
    pub open spec fn step(self, op: HeapOp<V>) -> Self {
        match op {
            HeapOp::Allocate => if self.can_issue(1) {
                self.allocate()
            } else {
                self
            },
            HeapOp::AllocN(n) => if self.can_issue(n) {
                self.alloc_n(n)
            } else {
                self
            },
            HeapOp::Replace(key, value) => self.write(key, value),
            HeapOp::Free(key) => self.free(key),
        }
    }

    /// The handles that the call `op` returns.
    pub open spec fn step_keys(self, op: HeapOp<V>) -> Seq<Key> {
        match op {
            HeapOp::Allocate => if self.can_issue(1) {
                seq![self.next_key()]
            } else {
                Seq::empty()
            },
            HeapOp::AllocN(n) => if self.can_issue(n) {
                self.alloc_n_keys(n)
            } else {
                Seq::empty()
            },
            _ => Seq::empty(),
        }
    }

    /// The heap after the calls `ops`, made in order.
    pub open spec fn run(self, ops: Seq<HeapOp<V>>) -> Self
        decreases ops.len(),
    {
        if ops.len() == 0 {
            self
        } else {
            self.run(ops.drop_last()).step(ops.last())
        }
    }

    /// All handles that the calls `ops` return, in the order of their return.
    pub open spec fn run_keys(self, ops: Seq<HeapOp<V>>) -> Seq<Key>
        decreases ops.len(),
    {
        if ops.len() == 0 {
            Seq::empty()
        } else {
            self.run_keys(ops.drop_last()) + self.run(ops.drop_last()).step_keys(ops.last())
        }
    }

    /// The heap after one allocation for each of `values`, each followed at
    /// once by the write of its value.
    pub open spec fn alloc_each(self, values: Seq<V>) -> Self
        decreases values.len(),
    {
        if values.len() == 0 {
            self
        } else {
            let before = self.alloc_each(values.drop_last());
            before.allocate().write(before.next_key(), values.last())
        }
    }

    /// The handles that the allocations of `alloc_each` return.
    pub open spec fn alloc_each_keys(self, values: Seq<V>) -> Seq<Key>
        decreases values.len(),
    {
        if values.len() == 0 {
            Seq::empty()
        } else {
            self.alloc_each_keys(values.drop_last()).push(
                self.alloc_each(values.drop_last()).next_key(),
            )
        }
    }

    /// The heap after `values[i]` was written at `keys[i]`, for each `i` in order.
    pub open spec fn write_each(self, keys: Seq<Key>, values: Seq<V>) -> Self
        decreases values.len(),
    {
        if values.len() == 0 || keys.len() != values.len() {
            self
        } else {
            self.write_each(keys.drop_last(), values.drop_last()).write(keys.last(), values.last())
        }
    }
}

/// Every call keeps a heap well formed and never takes an identifier back.
pub proof fn lemma_step_wf<V>(m: HeapModel<V>, op: HeapOp<V>)
    requires
        m.wf(),
    ensures
        m.step(op).wf(),
        m.issued <= m.step(op).issued,
        forall|i: int|
            0 <= i < m.step_keys(op).len() ==> m.issued <= (#[trigger] m.step_keys(op)[i]).id
                < m.step(op).issued,
        forall|i: int, j: int|
            0 <= i < j < m.step_keys(op).len() ==> m.step_keys(op)[i].id != m.step_keys(op)[j].id,
{
    match op {
        HeapOp::Allocate => {
            if m.can_issue(1) {
                lemma_allocate_wf(m);
            }
        },
        HeapOp::AllocN(n) => {
            if m.can_issue(n) {
                lemma_alloc_n_wf(m, n);
                lemma_alloc_n_issued(m, n);
                assert forall|i: int| 0 <= i < n implies (#[trigger] m.alloc_n_keys(n)[i]).id
                    == m.issued + i by {
                    lemma_alloc_n_issued(m, i as nat);
                }
            }
        },
        HeapOp::Replace(key, value) => {
            lemma_write_wf(m, key, value);
        },
        HeapOp::Free(key) => {
            lemma_free_wf(m, key);
        },
    }
}

/// Handle uniqueness. Whatever calls are made on a heap, singly or in batches,
/// and whatever is written or freed in between, all the handles that the calls
/// return carry different identifiers, and none carries an identifier that the
/// heap had issued before.
pub proof fn law_handles_unique<V>(m: HeapModel<V>, ops: Seq<HeapOp<V>>)
    requires
        m.wf(),
    ensures
        m.run(ops).wf(),
        m.issued <= m.run(ops).issued,
        forall|i: int|
            0 <= i < m.run_keys(ops).len() ==> m.issued <= (#[trigger] m.run_keys(ops)[i]).id
                < m.run(ops).issued,
        forall|i: int, j: int|
            0 <= i < j < m.run_keys(ops).len() ==> m.run_keys(ops)[i].id != m.run_keys(ops)[j].id,
    decreases ops.len(),
{
    if ops.len() > 0 {
        let before = m.run(ops.drop_last());
        let earlier = m.run_keys(ops.drop_last());
        law_handles_unique(m, ops.drop_last());
        lemma_step_wf(before, ops.last());
        let last = before.step_keys(ops.last());
        assert forall|i: int| 0 <= i < m.run_keys(ops).len() implies m.issued <= (
        #[trigger] m.run_keys(ops)[i]).id < m.run(ops).issued by {
            if i >= earlier.len() {
                assert(m.run_keys(ops)[i] == last[i - earlier.len()]);
            }
        }
        assert forall|i: int, j: int| 0 <= i < j < m.run_keys(ops).len() implies m.run_keys(
            ops,
        )[i].id != m.run_keys(ops)[j].id by {
            if i >= earlier.len() {
                assert(m.run_keys(ops)[i] == last[i - earlier.len()]);
            } else {
                assert(m.run_keys(ops)[i] == earlier[i]);
            }
            if j >= earlier.len() {
                assert(m.run_keys(ops)[j] == last[j - earlier.len()]);
            } else {
                assert(m.run_keys(ops)[j] == earlier[j]);
            }
        }
    }
}

/// Stale-handle rejection. Once a live handle has been freed, reading it fails
/// with `UseAfterFree`, writing it fails with `UseAfterFree`, and freeing it
/// again fails with `DoubleFree` and changes nothing.
pub proof fn law_freed_handle_rejected<V>(m: HeapModel<V>, key: Key)
    requires
        m.wf(),
        m.is_live(key),
    ensures
        m.free(key).was_freed(key),
        m.free(key).read(key) == Err::<V, StoreError>(StoreError::UseAfterFree),
        m.free(key).check(key, false) == Err::<(), StoreError>(StoreError::UseAfterFree),
        m.free(key).check(key, true) == Err::<(), StoreError>(StoreError::DoubleFree),
        m.free(key).free(key) == m.free(key),
{
}

/// A handle that is stale stays stale: once it was freed, no history of
/// calls makes it live again, and after any history a read of it fails with
/// `UseAfterFree` and a free of it with `DoubleFree`.
pub proof fn law_stale_forever<V>(m: HeapModel<V>, key: Key, ops: Seq<HeapOp<V>>)
    requires
        m.wf(),
        m.was_freed(key),
    ensures
        m.run(ops).was_freed(key),
        !m.run(ops).is_live(key),
        m.run(ops).read(key) == Err::<V, StoreError>(StoreError::UseAfterFree),
        m.run(ops).check(key, true) == Err::<(), StoreError>(StoreError::DoubleFree),
    decreases ops.len(),
{
    if ops.len() > 0 {
        let before = m.run(ops.drop_last());
        law_stale_forever(m, key, ops.drop_last());
        law_handles_unique(m, ops.drop_last());
        lemma_step_wf(before, ops.last());
        lemma_step_keeps_stale(before, key, ops.last());
    }
}

/// One call leaves a stale handle stale.
pub proof fn lemma_step_keeps_stale<V>(m: HeapModel<V>, key: Key, op: HeapOp<V>)
    requires
        m.wf(),
        m.was_freed(key),
    ensures
        m.step(op).was_freed(key),
{
    match op {
        HeapOp::AllocN(n) => {
            if m.can_issue(n) {
                lemma_alloc_n_keeps_stale(m, key, n);
            }
        },
        _ => {},
    }
}

/// Allocations leave a stale handle stale.
pub proof fn lemma_alloc_n_keeps_stale<V>(m: HeapModel<V>, key: Key, n: nat)
    requires
        m.wf(),
        m.was_freed(key),
        m.can_issue(n),
    ensures
        m.alloc_n(n).was_freed(key),
    decreases n,
{
    if n > 0 {
        lemma_alloc_n_keeps_stale(m, key, (n - 1) as nat);
        lemma_alloc_n_issued(m, (n - 1) as nat);
    }
}

/// Slot reuse safety. When a live handle `first` is freed and the next
/// allocation follows, the new handle takes the slot of `first` under a new
/// identifier; `first` stays rejected, before and after the new handle is
/// written, and the new handle reads what was written to it.
pub proof fn law_slot_reuse<V>(m: HeapModel<V>, first: Key, value: V)
    requires
        m.wf(),
        m.is_live(first),
        m.can_issue(1),
    ensures
        ({
            let freed = m.free(first);
            let second = freed.next_key();
            let reused = freed.allocate();
            &&& second.slot == first.slot
            &&& second.id != first.id
            &&& reused.wf()
            &&& reused.read(first) == Err::<V, StoreError>(StoreError::UseAfterFree)
            &&& reused.read(second) == Err::<V, StoreError>(StoreError::UninitializedSlot)
            &&& reused.write(second, value).read(second) == Ok::<V, StoreError>(value)
            &&& reused.write(second, value).read(first) == Err::<V, StoreError>(
                StoreError::UseAfterFree,
            )
        }),
{
    let freed = m.free(first);
    lemma_free_wf(m, first);
    lemma_allocate_wf(freed);
    assert(freed.vacant.last() == first.slot);
}

/// Batch equivalence. Reserving a batch of slots and then writing a value to
/// each of its handles gives the same heap, with the same values at the same
/// handles, as allocating and writing the values one at a time.
pub proof fn law_batch_equivalence<V>(m: HeapModel<V>, values: Seq<V>)
    requires
        m.wf(),
        m.can_issue(values.len()),
    ensures
        m.alloc_each_keys(values) == m.alloc_n_keys(values.len()),
        m.alloc_each(values) == m.alloc_n(values.len()).write_each(
            m.alloc_n_keys(values.len()),
            values,
        ),
        m.alloc_each(values).wf(),
        forall|i: int|
            0 <= i < values.len() ==> m.alloc_each(values).read(
                #[trigger] m.alloc_n_keys(values.len())[i],
            ) == Ok::<V, StoreError>(values[i]),
    decreases values.len(),
{
    let n = values.len();
    if n == 0 {
        assert(m.alloc_each_keys(values) =~= m.alloc_n_keys(0));
    } else {
        let vals = values.drop_last();
        let p = (n - 1) as nat;
        law_batch_equivalence(m, vals);
        lemma_batch_shape(m, vals);
        lemma_alloc_n_wf(m, p);
        lemma_alloc_n_issued(m, p);
        let single = m.alloc_each(vals);
        let batch = m.alloc_n(p);
        let keys = m.alloc_n_keys(p);
        assert(single.next_key() == batch.next_key());
        assert(m.alloc_each_keys(values) =~= m.alloc_n_keys(n));
        assert(m.alloc_n_keys(n).drop_last() =~= keys);
        // Moving the last allocation in front of the earlier writes.
        lemma_writes_after_allocate(batch, keys, vals);
        lemma_allocate_wf(single);
        lemma_write_wf(single.allocate(), single.next_key(), values.last());
        let done = m.alloc_each(values);
        assert forall|i: int| 0 <= i < n implies done.read(#[trigger] m.alloc_n_keys(n)[i])
            == Ok::<V, StoreError>(values[i]) by {
            if i < n - 1 {
                assert(m.alloc_n_keys(n)[i] == keys[i]);
                assert(single.read(keys[i]) == Ok::<V, StoreError>(vals[i]));
                assert(single.is_live(keys[i]));
                assert(single.allocate().is_live(keys[i]));
                assert(keys[i].slot != single.next_key().slot) by {
                    if single.vacant.len() > 0 {
                        assert(single.live[keys[i].id] != single.vacant[single.vacant.len() - 1]);
                    }
                }
            } else {
                assert(m.alloc_n_keys(n)[i] == single.next_key());
            }
        }
    }
}

/// Writing to the handles of a batch changes only cell contents.
proof fn lemma_batch_shape<V>(m: HeapModel<V>, values: Seq<V>)
    requires
        m.wf(),
        m.can_issue(values.len()),
    ensures
        ({
            let batch = m.alloc_n(values.len());
            let written = batch.write_each(m.alloc_n_keys(values.len()), values);
            &&& written.wf()
            &&& written.issued == batch.issued
            &&& written.live == batch.live
            &&& written.vacant == batch.vacant
            &&& written.slots.len() == batch.slots.len()
        }),
{
    lemma_alloc_n_wf(m, values.len());
    lemma_write_each_shape(m.alloc_n(values.len()), m.alloc_n_keys(values.len()), values);
}

/// A run of writes changes only cell contents.
proof fn lemma_write_each_shape<V>(m: HeapModel<V>, keys: Seq<Key>, values: Seq<V>)
    requires
        m.wf(),
    ensures
        ({
            let written = m.write_each(keys, values);
            &&& written.wf()
            &&& written.issued == m.issued
            &&& written.live == m.live
            &&& written.vacant == m.vacant
            &&& written.slots.len() == m.slots.len()
        }),
    decreases values.len(),
{
    if values.len() != 0 && keys.len() == values.len() {
        lemma_write_each_shape(m, keys.drop_last(), values.drop_last());
        lemma_write_wf(
            m.write_each(keys.drop_last(), values.drop_last()),
            keys.last(),
            values.last(),
        );
    }
}

/// An allocation can be moved in front of a run of writes to live handles.
proof fn lemma_writes_after_allocate<V>(m: HeapModel<V>, keys: Seq<Key>, values: Seq<V>)
    requires
        m.wf(),
        m.can_issue(1),
        keys.len() == values.len(),
        forall|i: int| 0 <= i < keys.len() ==> m.is_live(#[trigger] keys[i]),
    ensures
        m.write_each(keys, values).allocate() == m.allocate().write_each(keys, values),
        m.write_each(keys, values).next_key() == m.next_key(),
    decreases values.len(),
{
    if values.len() == 0 {
    } else {
        let ks = keys.drop_last();
        let vs = values.drop_last();
        assert forall|i: int| 0 <= i < ks.len() implies m.is_live(#[trigger] ks[i]) by {
            assert(ks[i] == keys[i]);
        }
        lemma_writes_after_allocate(m, ks, vs);
        lemma_write_each_shape(m, ks, vs);
        lemma_allocate_wf(m);
        let w = m.write_each(ks, vs);
        let key = keys.last();
        assert(m.is_live(key));
        assert(w.is_live(key));
        let a = w.write(key, values.last()).allocate();
        let b = w.allocate().write(key, values.last());
        assert(w.allocate().is_live(key));
        assert(w.next_key().slot != key.slot) by {
            if w.vacant.len() > 0 {
                assert(w.live[key.id] != w.vacant[w.vacant.len() - 1]);
            }
        }
        assert(a.slots =~= b.slots);
        assert(a.live =~= b.live);
        assert(a == b);
    }
}

/// An allocation for each of `values` hands out as many identifiers.
pub proof fn lemma_alloc_each_issued<V>(m: HeapModel<V>, values: Seq<V>)
    ensures
        m.alloc_each(values).issued == m.issued + values.len(),
    decreases values.len(),
{
    if values.len() > 0 {
        lemma_alloc_each_issued(m, values.drop_last());
    }
}

/// Reuse before growth. An allocation adds a cell only when no cell is
/// vacant, that is when every cell is bound to a live handle; so a heap never
/// has more cells than it had live handles at one time.
pub proof fn law_growth_only_when_full<V>(m: HeapModel<V>)
    requires
        m.wf(),
        m.can_issue(1),
    ensures
        m.slots.len() == m.live.dom().len() + m.vacant.len(),
        m.allocate().slots.len() == if m.live.dom().len() == m.slots.len() {
            m.slots.len() + 1
        } else {
            m.slots.len()
        },
        m.allocate().slots.len() <= m.allocate().live.dom().len() + m.vacant.len(),
{
    lemma_allocate_wf(m);
}

} // verus!
