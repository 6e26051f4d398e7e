//! The entity store. An entity is nothing but a live handle.

use crate::error::StoreError;
use crate::heap::laws::law_batch_equivalence;
use crate::heap::model::{
    lemma_alloc_n_issued, lemma_alloc_n_wf, lemma_allocate_wf, HeapModel, Key,
};
use crate::heap::{Heap, HeapElemId};
use crate::type_tag::{TyId, TypeTag};
use vstd::prelude::*;

pub mod selestial;

verus! {

/// What the entity store keeps for an entity: nothing.
#[derive(Clone, Copy, Debug, Default, PartialEq, Eq, Structural)]
pub struct Entity {}

impl TyId for Entity {
    open spec fn tag() -> TypeTag {
        TypeTag::Entity
    }

    fn id(&self) -> (tag: TypeTag) {
        TypeTag::Entity
    }
}

/// The owner of the handles of the entity store: a handle to an entity is a
/// `HeapElemId<Entities>`.
pub struct Entities {}

/// `n` entities.
pub open spec fn entities(n: nat) -> Seq<Entity> {
    Seq::new(n, |i: int| Entity {  })
}

/// The store of all entities.
pub struct EntityStore {
    store: Heap<Entities, Entity>,
}

impl View for EntityStore {
    type V = HeapModel<Entity>;

    closed spec fn view(&self) -> HeapModel<Entity> {
        self.store@
    }
}

impl EntityStore {
    /// Whether the store is in a state that its own operations can have produced.
    pub closed spec fn wf(&self) -> bool {
        self.store.wf()
    }

    /// A well-formed store has a well-formed model.
    pub proof fn lemma_wf_model(&self)
        requires
            self.wf(),
        ensures
            self@.wf(),
    {
    }

    /// An empty store.
    pub fn new() -> (store: Self)
        ensures
            store.wf(),
            store@ == HeapModel::<Entity>::empty(),
    {
        Self { store: Heap::new() }
    }

    /// An empty store with room for about `cap` entities.
    pub fn with_capacity(cap: usize) -> (store: Self)
        ensures
            store.wf(),
            store@ == HeapModel::<Entity>::empty(),
    {
        Self { store: Heap::with_capacity(cap) }
    }

    /// How many more entities the store can create.
    pub fn ids_left(&self) -> (left: usize)
        requires
            self.wf(),
        ensures
            left == usize::MAX - self@.issued,
            forall|n: nat| self@.can_issue(n) <==> n <= left,
    {
        self.store.ids_left()
    }

    /// Whether `entity` is a live entity of this store.
    pub fn contains(&self, entity: &HeapElemId<Entities>) -> (live: bool)
        requires
            self.wf(),
        ensures
            live == self@.is_live(entity@),
    {
        self.store.contains(entity)
    }

    /// `Ok` where `entity` is a live entity; else what is wrong with the handle.
    pub fn validate(&self, entity: &HeapElemId<Entities>) -> (res: Result<(), StoreError>)
        requires
            self.wf(),
        ensures
            res == self@.check(entity@, false),
    {
        self.store.validate(entity)
    }

    /// Creates one entity.
    pub fn allocate(&mut self) -> (res: Result<HeapElemId<Entities>, StoreError>)
        requires
            old(self).wf(),
        ensures
            final(self).wf(),
            match res {
                Ok(key) => {
                    &&& old(self)@.can_issue(1)
                    &&& key@ == old(self)@.next_key()
                    &&& final(self)@ == old(self)@.allocate().write(key@, Entity {  })
                },
                Err(e) => {
                    &&& e == StoreError::Exhausted
                    &&& !old(self)@.can_issue(1)
                    &&& final(self)@ == old(self)@
                },
            },
    {
        match self.store.allocate() {
            Err(e) => Err(e),
            Ok(entity_key) => {
                proof {
                    lemma_allocate_wf(old(self)@);
                }
                let written = self.store.replace(&entity_key, Entity {  });
                assert(written is Ok);
                Ok(entity_key)
            },
        }
    }

    /// Creates `n` entities with one reservation of identifiers. The store
    /// ends as after `n` single creations, with the same handles.
    pub fn alloc_n(&mut self, n: usize) -> (res: Result<Vec<HeapElemId<Entities>>, StoreError>)
        requires
            old(self).wf(),
        ensures
            final(self).wf(),
            match res {
                Ok(keys) => {
                    &&& old(self)@.can_issue(n as nat)
                    &&& keys.len() == n
                    &&& forall|i: int|
                        0 <= i < n ==> (#[trigger] keys[i])@ == old(self)@.alloc_n_keys(
                            n as nat,
                        )[i]
                    &&& final(self)@ == old(self)@.alloc_each(entities(n as nat))
                    &&& final(self)@.issued == old(self)@.issued + n
                },
                Err(e) => {
                    &&& e == StoreError::Exhausted
                    &&& !old(self)@.can_issue(n as nat)
                    &&& final(self)@ == old(self)@
                },
            },
    {
        match self.store.alloc_n(n) {
            Err(e) => Err(e),
            Ok(keys) => {
                let ghost start = old(self)@;
                let ghost batch = start.alloc_n(n as nat);
                let ghost all = start.alloc_n_keys(n as nat);
                proof {
                    lemma_alloc_n_wf(start, n as nat);
                    assert(all.take(0) =~= Seq::<Key>::empty());
                }
                let mut i: usize = 0;
                while i < n
                    invariant
                        0 <= i <= n,
                        keys.len() == n,
                        batch == start.alloc_n(n as nat),
                        all == start.alloc_n_keys(n as nat),
                        forall|j: int| 0 <= j < n ==> (#[trigger] keys[j])@ == all[j],
                        batch.wf(),
                        self.store.wf(),
                        self.store@ == batch.write_each(all.take(i as int), entities(i as nat)),
                    decreases n - i,
                {
                    let key = keys[i];
                    let _ = self.store.replace(&key, Entity {  });
                    proof {
                        let done = (i + 1) as int;
                        assert(all.take(done).drop_last() =~= all.take(i as int));
                        assert(entities(done as nat).drop_last() =~= entities(i as nat));
                        assert(all.take(done).last() == key@);
                    }
                    i += 1;
                }
                proof {
                    assert(all.take(n as int) =~= all);
                    law_batch_equivalence(start, entities(n as nat));
                    lemma_alloc_n_issued(start, n as nat);
                }
                Ok(keys)
            },
        }
    }
}

} // verus!
