//! The mathematical model of the component store.

use crate::component::AnyComponent;
use crate::error::StoreError;
use crate::heap::model::{
    lemma_alloc_n_issued, lemma_allocate_wf, lemma_free_wf, lemma_write_wf, HeapModel, Key,
};
use crate::type_tag::TypeTag;
use vstd::prelude::*;

verus! {

/// The state of a component store.
pub struct StoreModel {
    /// The heap that holds the components.
    pub heap: HeapModel<AnyComponent>,
    /// The type that each live handle was reserved for, by the handle's identifier.
    pub types: Map<usize, TypeTag>,
}

impl StoreModel {
    /// The store that holds nothing.
    pub open spec fn empty() -> Self {
        StoreModel { heap: HeapModel::empty(), types: Map::empty() }
    }

    /// The invariant of every store: a type is recorded for exactly the live
    /// handles, and what is stored at a handle is of the type recorded for it.
    pub open spec fn wf(self) -> bool {
        &&& self.heap.wf()
        &&& self.types.dom() == self.heap.live.dom()
        &&& forall|id: usize| #[trigger]
            self.heap.live.contains_key(id) ==> (self.heap.slots[self.heap.live[id] as int]
                matches Some(component) ==> component.tag() == self.types[id])
    }

    /// The store after one slot was reserved for a component of type `tag`.
    pub open spec fn allocate(self, tag: TypeTag) -> Self {
        StoreModel {
            heap: self.heap.allocate(),
            types: self.types.insert(self.heap.next_key().id, tag),
        }
    }

    /// The store after `n` slots were reserved for components of type `tag`.
    pub open spec fn alloc_n(self, tag: TypeTag, n: nat) -> Self
        decreases n,
    {
        if n == 0 {
            self
        } else {
            self.alloc_n(tag, (n - 1) as nat).allocate(tag)
        }
    }

    /// The type recorded for `key`, or why `key` has none.
    pub open spec fn type_of(self, key: Key) -> Result<TypeTag, StoreError> {
        match self.heap.check(key, false) {
            Ok(()) => Ok(self.types[key.id]),
            Err(e) => Err(e),
        }
    }

    /// Whether a component of type `tag` may be read or written at `key`, and
    /// if not, why not. A handle that is not live is reported before a type
    /// that does not match.
    pub open spec fn check(self, key: Key, tag: TypeTag) -> Result<(), StoreError> {
        match self.type_of(key) {
            Ok(actual) => if actual == tag {
                Ok(())
            } else {
                Err(StoreError::TypeMismatch { requested: tag, actual })
            },
            Err(e) => Err(e),
        }
    }

    /// The store after `component` was put at `key`; unchanged where that is refused.
    pub open spec fn put(self, key: Key, component: AnyComponent) -> Self {
        if self.check(key, component.tag()) is Ok {
            StoreModel { heap: self.heap.write(key, component), ..self }
        } else {
            self
        }
    }

    /// What reading `key` as a component of type `tag` gives.
    pub open spec fn read_as(self, key: Key, tag: TypeTag) -> Result<AnyComponent, StoreError> {
        match self.check(key, tag) {
            Ok(()) => self.heap.read(key),
            Err(e) => Err(e),
        }
    }

    /// The store after `key` was freed; unchanged where `key` is not live.
    pub open spec fn free(self, key: Key) -> Self {
        if self.heap.is_live(key) {
            StoreModel { heap: self.heap.free(key), types: self.types.remove(key.id) }
        } else {
            self
        }
    }
}

/// Reserving a slot keeps a store well formed; the new handle is live, has
/// the type it was reserved for, and holds nothing yet.
pub proof fn lemma_store_allocate_wf(m: StoreModel, tag: TypeTag)
    requires
        m.wf(),
        m.heap.can_issue(1),
    ensures
        m.allocate(tag).wf(),
        m.allocate(tag).type_of(m.heap.next_key()) == Ok::<TypeTag, StoreError>(tag),
        m.allocate(tag).read_as(m.heap.next_key(), tag) == Err::<AnyComponent, StoreError>(
            StoreError::UninitializedSlot,
        ),
{
    lemma_allocate_wf(m.heap);
    let a = m.allocate(tag);
    let k = m.heap.next_key();
    assert(a.types.dom() =~= a.heap.live.dom());
    assert forall|id: usize| #[trigger] a.heap.live.contains_key(id) implies (
    a.heap.slots[a.heap.live[id] as int] matches Some(component) ==> component.tag()
        == a.types[id]) by {
        if id != k.id {
            assert(m.heap.live.contains_key(id));
        }
    }
}

/// `n` reservations hand out `n` identifiers and keep a store well formed.
pub proof fn lemma_store_alloc_n_wf(m: StoreModel, tag: TypeTag, n: nat)
    requires
        m.wf(),
        m.heap.can_issue(n),
    ensures
        m.alloc_n(tag, n).wf(),
        m.alloc_n(tag, n).heap == m.heap.alloc_n(n),
    decreases n,
{
    if n > 0 {
        lemma_store_alloc_n_wf(m, tag, (n - 1) as nat);
        lemma_alloc_n_issued(m.heap, (n - 1) as nat);
        lemma_store_allocate_wf(m.alloc_n(tag, (n - 1) as nat), tag);
    }
}

/// Putting a component keeps a store well formed.
pub proof fn lemma_store_put_wf(m: StoreModel, key: Key, component: AnyComponent)
    requires
        m.wf(),
    ensures
        m.put(key, component).wf(),
        m.put(key, component).types == m.types,
{
    lemma_write_wf(m.heap, key, component);
    let p = m.put(key, component);
    if m.check(key, component.tag()) is Ok {
        assert forall|id: usize| #[trigger] p.heap.live.contains_key(id) implies (
        p.heap.slots[p.heap.live[id] as int] matches Some(c) ==> c.tag() == p.types[id]) by {
            assert(m.heap.live.contains_key(id));
        }
    }
}

/// Freeing keeps a store well formed.
pub proof fn lemma_store_free_wf(m: StoreModel, key: Key)
    requires
        m.wf(),
    ensures
        m.free(key).wf(),
{
    lemma_free_wf(m.heap, key);
    let f = m.free(key);
    if m.heap.is_live(key) {
        assert(f.types.dom() =~= f.heap.live.dom());
        assert forall|id: usize| #[trigger] f.heap.live.contains_key(id) implies (
        f.heap.slots[f.heap.live[id] as int] matches Some(c) ==> c.tag() == f.types[id]) by {
            assert(m.heap.live.contains_key(id));
            assert(m.heap.live.contains_key(key.id));
        }
    }
}

/// Type integrity. Where a store records a type for a handle, reading the
/// handle as a component of any other type fails with `TypeMismatch`, which
/// names the type asked for and the type recorded, whether or not anything
/// was written at the handle; a component of any other type is not put
/// there, and the attempt changes nothing.
pub proof fn law_type_integrity(m: StoreModel, key: Key, asked: TypeTag)
    requires
        m.wf(),
        m.type_of(key) is Ok,
        m.type_of(key).unwrap() != asked,
    ensures
        m.read_as(key, asked) == Err::<AnyComponent, StoreError>(
            StoreError::TypeMismatch { requested: asked, actual: m.type_of(key).unwrap() },
        ),
        m.check(key, asked) == Err::<(), StoreError>(
            StoreError::TypeMismatch { requested: asked, actual: m.type_of(key).unwrap() },
        ),
        forall|component: AnyComponent| component.tag() == asked ==> #[trigger] m.put(key, component) == m,
{
}

/// What was put at a handle is what is read there as its type, and its type
/// is the only one as which the handle can be read.
pub proof fn law_put_then_read(m: StoreModel, key: Key, component: AnyComponent, asked: TypeTag)
    requires
        m.wf(),
        m.check(key, component.tag()) is Ok,
    ensures
        m.put(key, component).read_as(key, component.tag()) == Ok::<AnyComponent, StoreError>(
            component,
        ),
        m.put(key, component).read_as(key, asked) is Ok ==> asked == component.tag(),
{
    lemma_store_put_wf(m, key, component);
    lemma_write_wf(m.heap, key, component);
}

} // verus!
