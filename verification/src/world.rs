//! The world: the entity store, the component store and the table that binds
//! each entity to its components.

use crate::component::model::lemma_store_allocate_wf;
use crate::component::{AnyComponent, ComponentMarker, ComponentStore, Components, Tomb};
use crate::entity::{entities, Entities, Entity, EntityStore};
use crate::error::StoreError;
use crate::heap::model::Key;
use crate::heap::HeapElemId;
use crate::tables::{table_entries, table_get, table_insert, table_with_capacity, MAX_RESERVED};
use crate::type_tag::{TyId, TypeTag};
use crate::world::model::{lemma_frame_of_bind_all, spec_dangling, WorldModel};
use dashmap::DashMap;
use vstd::prelude::*;

pub mod model;
pub mod pass;

verus! {

/// The world of the simulation: its entities, their components, the table
/// that binds the components to the entities, the count of the ticks, and the
/// bodies of the scene, listed by their level in the hierarchy.
pub struct World {
    entities: EntityStore,
    components: ComponentStore,
    entity_component_map: DashMap<(usize, usize), (usize, usize)>,
    tick_number: u64,
    stars: Vec<HeapElemId<Entities>>,
    planets: Vec<HeapElemId<Entities>>,
    moons: Vec<HeapElemId<Entities>>,
}

/// The keys of a list of handles.
pub open spec fn keys_of<O>(handles: Seq<HeapElemId<O>>) -> Seq<Key> {
    Seq::new(handles.len(), |i: int| handles[i]@)
}

/// The keys of a list of pairs of handles.
pub open spec fn pairs_of(pairs: Seq<(HeapElemId<Entities>, HeapElemId<Components>)>) -> Seq<
    (Key, Key),
> {
    Seq::new(pairs.len(), |i: int| (pairs[i].0@, pairs[i].1@))
}

impl View for World {
    type V = WorldModel;

    closed spec fn view(&self) -> WorldModel {
        let entries = table_entries(self.entity_component_map);
        WorldModel {
            entities: self.entities@,
            components: self.components@,
            bindings: Map::new(
                |k: (usize, TypeTag)| entries.contains_key((k.0, k.1.spec_code())),
                |k: (usize, TypeTag)|
                    Key { id: entries[(k.0, k.1.spec_code())].0, slot: entries[(k.0, k.1.spec_code())].1 },
            ),
            tick_number: self.tick_number,
            stars: keys_of(self.stars@),
            planets: keys_of(self.planets@),
            moons: keys_of(self.moons@),
        }
    }
}

impl World {
    /// Whether the world is in a state that its own operations can have produced.
    pub closed spec fn wf(&self) -> bool {
        &&& self.entities.wf()
        &&& self.components.wf()
        &&& forall|entity: usize, tag: TypeTag| #[trigger]
            self@.bindings.contains_key((entity, tag)) ==> entity < self@.entities.issued
    }

    /// A well-formed world has a well-formed model.
    pub proof fn lemma_wf_model(&self)
        requires
            self.wf(),
        ensures
            self@.wf(),
    {
        self.entities.lemma_wf_model();
        self.components.lemma_wf_model();
    }

    /// An empty world with room for about `n_entity` entities and
    /// `n_components` components.
    pub fn with_capacity(n_entity: usize, n_components: usize) -> (world: Self)
        ensures
            world.wf(),
            world@ == WorldModel::empty(),
    {
        let reserved = if n_components > MAX_RESERVED {
            MAX_RESERVED
        } else {
            n_components
        };
        let world = Self {
            entities: EntityStore::with_capacity(n_entity),
            components: ComponentStore::with_capacity(n_components),
            entity_component_map: table_with_capacity(reserved),
            tick_number: 0,
            stars: Vec::new(),
            planets: Vec::new(),
            moons: Vec::new(),
        };
        proof {
            assert(world@.bindings =~= Map::empty());
            assert(world@.stars =~= Seq::empty());
            assert(world@.planets =~= Seq::empty());
            assert(world@.moons =~= Seq::empty());
        }
        world
    }

    /// How many ticks have passed.
    pub fn tick_number(&self) -> (ticks: u64)
        ensures
            ticks == self@.tick_number,
    {
        self.tick_number
    }

    /// The stars: the bodies at the root of the hierarchy.
    pub fn stars(&self) -> (stars: &Vec<HeapElemId<Entities>>)
        ensures
            keys_of(stars@) == self@.stars,
    {
        &self.stars
    }

    /// The planets: the bodies that are moved first in a tick.
    pub fn planets(&self) -> (planets: &Vec<HeapElemId<Entities>>)
        ensures
            keys_of(planets@) == self@.planets,
    {
        &self.planets
    }

    /// The moons: the bodies that are moved after the planets in a tick.
    pub fn moons(&self) -> (moons: &Vec<HeapElemId<Entities>>)
        ensures
            keys_of(moons@) == self@.moons,
    {
        &self.moons
    }

    /// Adds `stars` to the stars of the world.
    pub fn register_stars(&mut self, stars: &Vec<HeapElemId<Entities>>)
        requires
            old(self).wf(),
        ensures
            final(self).wf(),
            final(self)@ == (WorldModel {
                stars: old(self)@.stars + keys_of(stars@),
                ..old(self)@
            }),
    {
        append_ids(&mut self.stars, stars);
        assert(self@.bindings == old(self)@.bindings);
    }

    /// Adds `planets` to the planets of the world.
    pub fn register_planets(&mut self, planets: &Vec<HeapElemId<Entities>>)
        requires
            old(self).wf(),
        ensures
            final(self).wf(),
            final(self)@ == (WorldModel {
                planets: old(self)@.planets + keys_of(planets@),
                ..old(self)@
            }),
    {
        append_ids(&mut self.planets, planets);
        assert(self@.bindings == old(self)@.bindings);
    }

    /// Adds `moons` to the moons of the world.
    pub fn register_moons(&mut self, moons: &Vec<HeapElemId<Entities>>)
        requires
            old(self).wf(),
        ensures
            final(self).wf(),
            final(self)@ == (WorldModel {
                moons: old(self)@.moons + keys_of(moons@),
                ..old(self)@
            }),
    {
        append_ids(&mut self.moons, moons);
        assert(self@.bindings == old(self)@.bindings);
    }

    /// Counts one more tick.
    pub(crate) fn count_tick(&mut self)
        requires
            old(self).wf(),
            old(self)@.tick_number < u64::MAX,
        ensures
            final(self).wf(),
            final(self)@ == (WorldModel {
                tick_number: (old(self)@.tick_number + 1) as u64,
                ..old(self)@
            }),
    {
        self.tick_number = self.tick_number + 1;
        assert(self@.bindings == old(self)@.bindings);
    }

    /// How many more entities the world can create.
    pub fn entity_ids_left(&self) -> (left: usize)
        requires
            self.wf(),
        ensures
            left == usize::MAX - self@.entities.issued,
            forall|n: nat| self@.entities.can_issue(n) <==> n <= left,
    {
        self.entities.ids_left()
    }

    /// How many more components the world can create.
    pub fn component_ids_left(&self) -> (left: usize)
        requires
            self.wf(),
        ensures
            left == usize::MAX - self@.components.heap.issued,
            forall|n: nat| self@.components.heap.can_issue(n) <==> n <= left,
    {
        self.components.ids_left()
    }

    /// Creates one entity.
    pub fn alloc_entity(&mut self) -> (res: Result<HeapElemId<Entities>, StoreError>)
        requires
            old(self).wf(),
        ensures
            final(self).wf(),
            match res {
                Ok(key) => {
                    &&& old(self)@.entities.can_issue(1)
                    &&& key@ == old(self)@.entities.next_key()
                    &&& final(self)@ == (WorldModel {
                        entities: old(self)@.entities.allocate().write(key@, Entity {  }),
                        ..old(self)@
                    })
                },
                Err(e) => {
                    &&& e == StoreError::Exhausted
                    &&& !old(self)@.entities.can_issue(1)
                    &&& final(self)@ == old(self)@
                },
            },
    {
        let res = self.entities.allocate();
        assert(self@.bindings == old(self)@.bindings);
        res
    }

    /// Creates `n` entities.
    pub fn alloc_n_entities(&mut self, n: usize) -> (res: Result<
        Vec<HeapElemId<Entities>>,
        StoreError,
    >)
        requires
            old(self).wf(),
        ensures
            final(self).wf(),
            match res {
                Ok(keys) => {
                    &&& old(self)@.entities.can_issue(n as nat)
                    &&& keys.len() == n
                    &&& forall|i: int|
                        0 <= i < n ==> (#[trigger] keys[i])@ == old(self)@.entities.alloc_n_keys(
                            n as nat,
                        )[i]
                    &&& final(self)@ == (WorldModel {
                        entities: old(self)@.entities.alloc_each(entities(n as nat)),
                        ..old(self)@
                    })
                },
                Err(e) => {
                    &&& e == StoreError::Exhausted
                    &&& !old(self)@.entities.can_issue(n as nat)
                    &&& final(self)@ == old(self)@
                },
            },
    {
        let res = self.entities.alloc_n(n);
        assert(self@.bindings == old(self)@.bindings);
        res
    }

    /// Reserves `n` slots for components of type `T`.
    pub fn alloc_n_components<T: ComponentMarker + Tomb>(&mut self, n: usize) -> (res: Result<
        Vec<HeapElemId<Components>>,
        StoreError,
    >)
        requires
            old(self).wf(),
        ensures
            final(self).wf(),
            match res {
                Ok(keys) => {
                    &&& old(self)@.components.heap.can_issue(n as nat)
                    &&& keys.len() == n
                    &&& forall|i: int|
                        0 <= i < n ==> (#[trigger] keys[i])@
                            == old(self)@.components.heap.alloc_n_keys(n as nat)[i]
                    &&& final(self)@ == (WorldModel {
                        components: old(self)@.components.alloc_n(T::tag(), n as nat),
                        ..old(self)@
                    })
                },
                Err(e) => {
                    &&& e == StoreError::Exhausted
                    &&& !old(self)@.components.heap.can_issue(n as nat)
                    &&& final(self)@ == old(self)@
                },
            },
    {
        let res = self.components.alloc_n::<T>(n);
        assert(self@.bindings == old(self)@.bindings);
        res
    }

    /// Stores `component` in a slot of its own and returns the handle to it.
    pub fn put_component<T: ComponentMarker + Tomb>(&mut self, component: T) -> (res: Result<
        HeapElemId<Components>,
        StoreError,
    >)
        requires
            old(self).wf(),
        ensures
            final(self).wf(),
            match res {
                Ok(key) => {
                    &&& old(self)@.components.heap.can_issue(1)
                    &&& key@ == old(self)@.components.heap.next_key()
                    &&& final(self)@ == (WorldModel {
                        components: old(self)@.components.create(component.erased()),
                        ..old(self)@
                    })
                },
                Err(e) => {
                    &&& e == StoreError::Exhausted
                    &&& !old(self)@.components.heap.can_issue(1)
                    &&& final(self)@ == old(self)@
                },
            },
    {
        proof {
            self.components.lemma_wf_model();
            component.lemma_erased_tag();
        }
        match self.components.allocate::<T>() {
            Err(e) => Err(e),
            Ok(component_id) => {
                proof {
                    lemma_store_allocate_wf(old(self)@.components, T::tag());
                }
                let stored = self.components.put(&component_id, component);
                assert(stored is Ok);
                assert(self@.bindings == old(self)@.bindings);
                Ok(component_id)
            },
        }
    }

    /// Stores `component` at `id`, in place of what was there.
    pub fn replace_component<T: ComponentMarker + Tomb>(
        &mut self,
        id: &HeapElemId<Components>,
        component: T,
    ) -> (res: Result<(), StoreError>)
        requires
            old(self).wf(),
        ensures
            final(self).wf(),
            res == old(self)@.components.check(id@, T::tag()),
            final(self)@ == (WorldModel {
                components: old(self)@.components.put(id@, component.erased()),
                ..old(self)@
            }),
    {
        let res = self.components.put(id, component);
        assert(self@.bindings == old(self)@.bindings);
        res
    }

    /// Ends the life of the component at `id`. Bindings and orbits that name
    /// it are left as they are, and dangle.
    pub fn free_component(&mut self, id: &HeapElemId<Components>) -> (res: Result<(), StoreError>)
        requires
            old(self).wf(),
        ensures
            final(self).wf(),
            res == old(self)@.components.heap.check(id@, true),
            final(self)@ == (WorldModel {
                components: old(self)@.components.free(id@),
                ..old(self)@
            }),
    {
        let res = self.components.free(id);
        assert(self@.bindings == old(self)@.bindings);
        res
    }

    /// Binds the component to the entity, under the type that the store
    /// records for the component. A component of that type bound to the
    /// entity before is no longer bound to it.
    pub fn bind_component(
        &mut self,
        entity_id: HeapElemId<Entities>,
        component_id: HeapElemId<Components>,
    ) -> (res: Result<(), StoreError>)
        requires
            old(self).wf(),
        ensures
            final(self).wf(),
            match res {
                Ok(()) => old(self)@.bind_check(entity_id@, component_id@) is Ok,
                Err(e) => old(self)@.bind_check(entity_id@, component_id@) == Err::<
                    TypeTag,
                    StoreError,
                >(e),
            },
            final(self)@ == old(self)@.bind(entity_id@, component_id@),
    {
        match self.binding_type(&entity_id, &component_id) {
            Err(e) => Err(e),
            Ok(component_ty_id) => {
                self.insert_binding(entity_id, component_ty_id, component_id);
                Ok(())
            },
        }
    }

    /// The type under which the component would be bound to the entity.
    fn binding_type(
        &self,
        entity_id: &HeapElemId<Entities>,
        component_id: &HeapElemId<Components>,
    ) -> (res: Result<TypeTag, StoreError>)
        requires
            self.wf(),
        ensures
            res == self@.bind_check(entity_id@, component_id@),
            res is Ok ==> self@.entities.was_issued(entity_id@),
    {
        proof {
            self.entities.lemma_wf_model();
        }
        match self.entities.validate(entity_id) {
            Err(e) => Err(e),
            Ok(()) => self.components.get_type_id(component_id),
        }
    }

    fn insert_binding(
        &mut self,
        entity_id: HeapElemId<Entities>,
        tag: TypeTag,
        component_id: HeapElemId<Components>,
    )
        requires
            old(self).wf(),
            old(self)@.entities.was_issued(entity_id@),
        ensures
            final(self).wf(),
            final(self)@ == (WorldModel {
                bindings: old(self)@.bindings.insert((entity_id@.id, tag), component_id@),
                ..old(self)@
            }),
    {
        let (entity, _) = entity_id.parts();
        table_insert(&mut self.entity_component_map, (entity, tag.code()), component_id.parts());
        proof {
            assert forall|t: TypeTag| t.spec_code() == tag.spec_code() implies t == tag by {
                t.lemma_code_roundtrip();
                tag.lemma_code_roundtrip();
            }
            assert(self@.bindings =~= old(self)@.bindings.insert(
                (entity_id@.id, tag),
                component_id@,
            ));
        }
    }

    /// Binds each component of `bind_pairs` to its entity, in order. Where
    /// the store records no type for one of the components, nothing is bound.
    pub fn bind_n_components(
        &mut self,
        bind_pairs: Vec<(HeapElemId<Entities>, HeapElemId<Components>)>,
    ) -> (res: Result<(), StoreError>)
        requires
            old(self).wf(),
        ensures
            final(self).wf(),
            res == old(self)@.bind_all_check(pairs_of(bind_pairs@)),
            final(self)@ == if res is Ok {
                old(self)@.bind_all(pairs_of(bind_pairs@))
            } else {
                old(self)@
            },
    {
        let ghost pairs = pairs_of(bind_pairs@);
        let n = bind_pairs.len();
        let mut tags: Vec<TypeTag> = Vec::new();
        let mut i: usize = 0;
        while i < n
            invariant
                0 <= i <= n,
                n == bind_pairs.len(),
                pairs == pairs_of(bind_pairs@),
                self.wf(),
                *self == *old(self),
                tags.len() == i,
                self@.bind_all_check(pairs.take(i as int)) is Ok,
                forall|j: int|
                    0 <= j < i ==> self@.bind_check(pairs[j].0, pairs[j].1) == Ok::<
                        TypeTag,
                        StoreError,
                    >(#[trigger] tags[j]),
                forall|j: int| 0 <= j < i ==> self@.entities.was_issued((#[trigger] pairs[j]).0),
            decreases n - i,
        {
            proof {
                assert(pairs.take(i + 1).drop_last() =~= pairs.take(i as int));
                assert(pairs.take(i + 1).last() == pairs[i as int]);
            }
            match self.binding_type(&bind_pairs[i].0, &bind_pairs[i].1) {
                Err(e) => {
                    proof {
                        lemma_bind_all_check_fails(self@, pairs, i as int);
                    }
                    return Err(e);
                },
                Ok(tag) => {
                    tags.push(tag);
                },
            }
            i += 1;
        }
        proof {
            assert(pairs.take(n as int) =~= pairs);
            assert(pairs.take(0) =~= Seq::<(Key, Key)>::empty());
        }
        let mut i: usize = 0;
        while i < n
            invariant
                0 <= i <= n,
                n == bind_pairs.len(),
                tags.len() == n,
                pairs == pairs_of(bind_pairs@),
                self.wf(),
                self@.components == old(self)@.components,
                forall|j: int|
                    0 <= j < n ==> old(self)@.bind_check(pairs[j].0, pairs[j].1) == Ok::<
                        TypeTag,
                        StoreError,
                    >(#[trigger] tags[j]),
                forall|j: int|
                    0 <= j < n ==> old(self)@.entities.was_issued((#[trigger] pairs[j]).0),
                self@ == old(self)@.bind_all(pairs.take(i as int)),
            decreases n - i,
        {
            proof {
                assert(pairs.take(i + 1).drop_last() =~= pairs.take(i as int));
                assert(pairs.take(i + 1).last() == pairs[i as int]);
                lemma_frame_of_bind_all(old(self)@, pairs.take(i as int));
            }
            self.insert_binding(bind_pairs[i].0, tags[i], bind_pairs[i].1);
            i += 1;
        }
        proof {
            assert(pairs.take(n as int) =~= pairs);
        }
        Ok(())
    }

    /// The component of type `T` that is bound to the entity.
    pub fn get_entity_component_key<T: ComponentMarker + Tomb>(
        &self,
        entity_id: &HeapElemId<Entities>,
    ) -> (res: Result<HeapElemId<Components>, StoreError>)
        ensures
            match res {
                Ok(key) => self@.component_of(entity_id@, T::tag()) == Ok::<Key, StoreError>(key@),
                Err(e) => self@.component_of(entity_id@, T::tag()) == Err::<Key, StoreError>(e),
            },
    {
        let component_ty = T::tomb().id();
        self.lookup_binding(entity_id, component_ty)
    }

    fn lookup_binding(&self, entity_id: &HeapElemId<Entities>, tag: TypeTag) -> (res: Result<
        HeapElemId<Components>,
        StoreError,
    >)
        ensures
            match res {
                Ok(key) => self@.component_of(entity_id@, tag) == Ok::<Key, StoreError>(key@),
                Err(e) => self@.component_of(entity_id@, tag) == Err::<Key, StoreError>(e),
            },
    {
        let (entity, _) = entity_id.parts();
        match table_get(&self.entity_component_map, (entity, tag.code())) {
            Some((id, bucket_idx)) => Ok(HeapElemId::from_parts(id, bucket_idx)),
            None => Err(StoreError::ComponentNotFound),
        }
    }

    /// The components of type `T` that are bound to the entities, one for
    /// each, in the order of the entities.
    pub fn get_many_entities_compoents_key<T: ComponentMarker + Tomb>(
        &self,
        entity_ids: &[HeapElemId<Entities>],
    ) -> (res: Result<Vec<HeapElemId<Components>>, StoreError>)
        ensures
            match res {
                Ok(keys) => self@.components_of(keys_of(entity_ids@), T::tag()) == Ok::<
                    Seq<Key>,
                    StoreError,
                >(keys_of(keys@)),
                Err(e) => self@.components_of(keys_of(entity_ids@), T::tag()) == Err::<
                    Seq<Key>,
                    StoreError,
                >(e),
            },
    {
        let component_ty = T::tomb().id();
        let n = entity_ids.len();
        let mut found: Vec<HeapElemId<Components>> = Vec::new();
        let mut i: usize = 0;
        while i < n
            invariant
                0 <= i <= n,
                n == entity_ids.len(),
                component_ty == T::tag(),
                found.len() == i,
                forall|j: int|
                    0 <= j < i ==> self@.bindings.contains_key(
                        (#[trigger] keys_of(entity_ids@)[j].id, component_ty),
                    ),
                forall|j: int|
                    0 <= j < i ==> (#[trigger] found[j])@ == self@.bindings[(
                        keys_of(entity_ids@)[j].id,
                        component_ty,
                    )],
            decreases n - i,
        {
            match self.lookup_binding(&entity_ids[i], component_ty) {
                Err(e) => {
                    assert(!self@.bindings.contains_key(
                        (keys_of(entity_ids@)[i as int].id, component_ty),
                    ));
                    return Err(e);
                },
                Ok(key) => {
                    found.push(key);
                },
            }
            i += 1;
        }
        proof {
            assert(keys_of(found@) =~= Seq::new(
                keys_of(entity_ids@).len(),
                |i: int| self@.bindings[(keys_of(entity_ids@)[i].id, component_ty)],
            ));
        }
        Ok(found)
    }

    /// The component at `component_id`, as a value of type `T`.
    pub fn component<T: ComponentMarker + Tomb>(
        &self,
        component_id: &HeapElemId<Components>,
    ) -> (res: Result<&T, StoreError>)
        requires
            self.wf(),
        ensures
            match res {
                Ok(component) => self@.components.read_as(component_id@, T::tag()) == Ok::<
                    AnyComponent,
                    StoreError,
                >(component.erased()),
                Err(e) => self@.components.read_as(component_id@, T::tag()) == Err::<
                    AnyComponent,
                    StoreError,
                >(e),
            },
    {
        self.components.get_as::<T>(component_id)
    }

    /// The type that the store records for the component.
    pub fn component_type(&self, component_id: &HeapElemId<Components>) -> (res: Result<
        TypeTag,
        StoreError,
    >)
        requires
            self.wf(),
        ensures
            res == self@.components.type_of(component_id@),
    {
        self.components.get_type_id(component_id)
    }
}

pub fn dangling(e: StoreError) -> (reported: StoreError)
    ensures
        reported == spec_dangling(e),
{
    match e {
        StoreError::UseAfterFree => StoreError::DanglingReference,
        StoreError::InvalidHandle => StoreError::DanglingReference,
        other => other,
    }
}

/// Appends `ids` to `list`.
fn append_ids(list: &mut Vec<HeapElemId<Entities>>, ids: &Vec<HeapElemId<Entities>>)
    ensures
        keys_of(final(list)@) == keys_of(old(list)@) + keys_of(ids@),
{
    let n = ids.len();
    let mut i: usize = 0;
    while i < n
        invariant
            0 <= i <= n,
            n == ids.len(),
            list@ == old(list)@ + ids@.take(i as int),
        decreases n - i,
    {
        list.push(ids[i]);
        assert(ids@.take(i + 1) =~= ids@.take(i as int).push(ids[i as int]));
        i += 1;
    }
    assert(ids@.take(n as int) =~= ids@);
    assert(keys_of(list@) =~= keys_of(old(list)@) + keys_of(ids@));
}

/// Where one pair cannot be bound, the check of the whole list fails with
/// the reason for it.
proof fn lemma_bind_all_check_fails(w: WorldModel, pairs: Seq<(Key, Key)>, i: int)
    requires
        0 <= i < pairs.len(),
        w.bind_all_check(pairs.take(i)) is Ok,
        w.bind_check(pairs[i].0, pairs[i].1) is Err,
    ensures
        w.bind_all_check(pairs) == Err::<(), StoreError>(
            w.bind_check(pairs[i].0, pairs[i].1)->Err_0,
        ),
    decreases pairs.len() - i,
{
    assert(pairs.take(i + 1).drop_last() =~= pairs.take(i));
    assert(pairs.take(i + 1).last() == pairs[i]);
    lemma_bind_all_check_stays(w, pairs, i + 1);
}

/// Once the check of a prefix has failed, the check of the whole list fails
/// with the same error.
proof fn lemma_bind_all_check_stays(w: WorldModel, pairs: Seq<(Key, Key)>, i: int)
    requires
        0 <= i <= pairs.len(),
        w.bind_all_check(pairs.take(i)) is Err,
    ensures
        w.bind_all_check(pairs) == w.bind_all_check(pairs.take(i)),
    decreases pairs.len() - i,
{
    if i == pairs.len() {
        assert(pairs.take(i) =~= pairs);
    } else {
        assert(pairs.take(i + 1).drop_last() =~= pairs.take(i));
        lemma_bind_all_check_stays(w, pairs, i + 1);
    }
}

} // verus!
