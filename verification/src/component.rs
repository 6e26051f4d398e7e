//! The component store: one heap of tagged component values, and beside it
//! the type that each handle was reserved for.

use crate::component::moon::Moon;
use crate::component::orbit::SelestialOrbit;
use crate::component::planet::Planet;
use crate::component::pos::SelestialPos;
use crate::component::star::Star;
use crate::error::StoreError;
use crate::component::model::{
    lemma_store_alloc_n_wf, lemma_store_allocate_wf, lemma_store_free_wf, lemma_store_put_wf,
    StoreModel,
};
use crate::heap::{Heap, HeapElemId};
use crate::tables::{map_entries, map_get, map_insert, map_remove, map_with_capacity, MAX_RESERVED};
use crate::type_tag::{TyId, TypeTag};
use ahash::AHashMap;
use vstd::prelude::*;

pub mod model;
pub mod moon;
pub mod orbit;
pub mod planet;
pub mod pos;
pub mod star;

verus! {

/// A component of any of the types that the store holds.
#[derive(Clone, Copy)]
pub enum AnyComponent {
    Star(Star),
    Planet(Planet),
    Moon(Moon),
    Pos(SelestialPos),
    Orbit(SelestialOrbit),
}

impl AnyComponent {
    /// The identifier of the type of the component inside.
    pub open spec fn tag(self) -> TypeTag {
        match self {
            AnyComponent::Star(_) => TypeTag::Star,
            AnyComponent::Planet(_) => TypeTag::Planet,
            AnyComponent::Moon(_) => TypeTag::Moon,
            AnyComponent::Pos(_) => TypeTag::SelestialPos,
            AnyComponent::Orbit(_) => TypeTag::SelestialOrbit,
        }
    }

    /// The identifier of the type of the component inside.
    pub fn id(&self) -> (tag: TypeTag)
        ensures
            tag == self.tag(),
    {
        match self {
            AnyComponent::Star(_) => TypeTag::Star,
            AnyComponent::Planet(_) => TypeTag::Planet,
            AnyComponent::Moon(_) => TypeTag::Moon,
            AnyComponent::Pos(_) => TypeTag::SelestialPos,
            AnyComponent::Orbit(_) => TypeTag::SelestialOrbit,
        }
    }
}

/// A type whose values can be stored as [`AnyComponent`] and recovered from it.
pub trait AToAny: Sized {
    /// `self` as a component of any type.
    spec fn erased(self) -> AnyComponent;

    fn as_any(self) -> (any: AnyComponent)
        ensures
            any == self.erased(),
    ;

    /// The value of this type inside `any`, if that is what `any` holds.
    fn downcast_ref(any: &AnyComponent) -> (found: Option<&Self>)
        ensures
            match found {
                Some(component) => component.erased() == *any,
                None => forall|component: Self| component.erased() != *any,
            },
    ;
}

/// A type with a value that stands for the type itself and is no real datum.
/// The value is the same at every call.
pub trait Tomb: Sized {
    fn tomb() -> (tomb: Self)
        ensures
            tomb == Self::spec_tomb(),
    ;

    /// The value that stands for the type.
    spec fn spec_tomb() -> Self;
}

/// A type of component: storable, and stored under its own type identifier.
pub trait ComponentMarker: AToAny + TyId + Sync + Send {
    /// A stored value carries the identifier of the type it was stored from.
    proof fn lemma_erased_tag(self)
        ensures
            self.erased().tag() == Self::tag(),
    ;

    /// Whatever is stored under the identifier of this type is a value of
    /// this type.
    proof fn lemma_tag_decides(any: AnyComponent)
        requires
            any.tag() == Self::tag(),
        ensures
            exists|component: Self| component.erased() == any,
    ;
}

/// The owner of the handles of the component store: a handle to a component
/// is a `HeapElemId<Components>`. The type has no use but to tell these
/// handles from those of other stores.
pub struct Components {}

/// The store of all components, of every type, behind one type of handle.
pub struct ComponentStore {
    store: Heap<Components, AnyComponent>,
    ty_lookup: AHashMap<usize, usize>,
}

impl View for ComponentStore {
    type V = StoreModel;

    closed spec fn view(&self) -> StoreModel {
        StoreModel {
            heap: self.store@,
            types: Map::new(
                |id: usize| map_entries(self.ty_lookup).contains_key(id),
                |id: usize| TypeTag::spec_from_code(map_entries(self.ty_lookup)[id]).unwrap(),
            ),
        }
    }
}

impl ComponentStore {
    /// Whether the store is in a state that its own operations can have produced.
    pub closed spec fn wf(&self) -> bool {
        &&& self@.wf()
        &&& forall|id: usize| #[trigger]
            map_entries(self.ty_lookup).contains_key(id) ==> TypeTag::spec_from_code(
                map_entries(self.ty_lookup)[id],
            ) is Some
    }

    /// A well-formed store has a well-formed model.
    pub proof fn lemma_wf_model(&self)
        requires
            self.wf(),
        ensures
            self@.wf(),
    {
    }

    /// An empty store with room for about `cap` components.
    pub fn with_capacity(cap: usize) -> (store: Self)
        ensures
            store.wf(),
            store@ == StoreModel::empty(),
    {
        let reserved = if cap > MAX_RESERVED {
            MAX_RESERVED
        } else {
            cap
        };
        let store = Self { store: Heap::with_capacity(cap), ty_lookup: map_with_capacity(reserved) };
        assert(store@.types =~= Map::empty());
        store
    }

    /// Reserves a slot for a component of type `T` and records that type for
    /// the handle it returns.
    pub fn allocate<T: ComponentMarker + Tomb>(&mut self) -> (res: Result<
        HeapElemId<Components>,
        StoreError,
    >)
        requires
            old(self).wf(),
        ensures
            final(self).wf(),
            match res {
                Ok(key) => {
                    &&& old(self)@.heap.can_issue(1)
                    &&& key@ == old(self)@.heap.next_key()
                    &&& final(self)@ == old(self)@.allocate(T::tag())
                },
                Err(e) => {
                    &&& e == StoreError::Exhausted
                    &&& !old(self)@.heap.can_issue(1)
                    &&& final(self)@ == old(self)@
                },
            },
    {
        let ty_id = T::tomb().id();
        match self.store.allocate() {
            Err(e) => Err(e),
            Ok(component_key) => {
                let (id, _) = component_key.parts();
                map_insert(&mut self.ty_lookup, id, ty_id.code());
                proof {
                    lemma_store_allocate_wf(old(self)@, T::tag());
                    assert(self@.types =~= old(self)@.allocate(T::tag()).types);
                }
                Ok(component_key)
            },
        }
    }

    /// Reserves `n` slots for components of type `T`, as `n` single
    /// reservations would in turn.
    pub fn alloc_n<T: ComponentMarker + Tomb>(&mut self, n: usize) -> (res: Result<
        Vec<HeapElemId<Components>>,
        StoreError,
    >)
        requires
            old(self).wf(),
        ensures
            final(self).wf(),
            match res {
                Ok(keys) => {
                    &&& old(self)@.heap.can_issue(n as nat)
                    &&& keys.len() == n
                    &&& forall|i: int|
                        0 <= i < n ==> (#[trigger] keys[i])@ == old(self)@.heap.alloc_n_keys(
                            n as nat,
                        )[i]
                    &&& final(self)@ == old(self)@.alloc_n(T::tag(), n as nat)
                },
                Err(e) => {
                    &&& e == StoreError::Exhausted
                    &&& !old(self)@.heap.can_issue(n as nat)
                    &&& final(self)@ == old(self)@
                },
            },
    {
        let ty_id = T::tomb().id();
        match self.store.alloc_n(n) {
            Err(e) => Err(e),
            Ok(component_ids) => {
                let ghost start = old(self)@;
                let ghost keys = start.heap.alloc_n_keys(n as nat);
                let mut i: usize = 0;
                while i < n
                    invariant
                        0 <= i <= n,
                        component_ids.len() == n,
                        start.wf(),
                        start.heap.can_issue(n as nat),
                        keys == start.heap.alloc_n_keys(n as nat),
                        forall|j: int| 0 <= j < n ==> (#[trigger] component_ids[j])@ == keys[j],
                        self.store@ == start.heap.alloc_n(n as nat),
                        self@.types == start.alloc_n(T::tag(), i as nat).types,
                        forall|id: usize| #[trigger]
                            map_entries(self.ty_lookup).contains_key(id)
                                ==> TypeTag::spec_from_code(map_entries(self.ty_lookup)[id])
                                is Some,
                        ty_id == T::tag(),
                    decreases n - i,
                {
                    let (id, _) = component_ids[i].parts();
                    map_insert(&mut self.ty_lookup, id, ty_id.code());
                    proof {
                        lemma_store_alloc_n_wf(start, T::tag(), i as nat);
                        assert(self@.types =~= start.alloc_n(T::tag(), (i + 1) as nat).types);
                    }
                    i += 1;
                }
                proof {
                    lemma_store_alloc_n_wf(start, T::tag(), n as nat);
                    assert(self@ == start.alloc_n(T::tag(), n as nat));
                }
                Ok(component_ids)
            },
        }
    }

    /// How many more handles the store can hand out.
    pub fn ids_left(&self) -> (left: usize)
        requires
            self.wf(),
        ensures
            left == usize::MAX - self@.heap.issued,
            forall|n: nat| self@.heap.can_issue(n) <==> n <= left,
    {
        self.store.ids_left()
    }

    /// The type recorded for `component_id`.
    fn lookup(&self, component_id: &HeapElemId<Components>) -> (res: Result<TypeTag, StoreError>)
        requires
            self.wf(),
        ensures
            res == self@.type_of(component_id@),
    {
        match self.store.validate(component_id) {
            Err(e) => Err(e),
            Ok(()) => {
                let (id, _) = component_id.parts();
                assert(self@.types.contains_key(id));
                let code = map_get(&self.ty_lookup, id).unwrap();
                Ok(TypeTag::from_code(code).unwrap())
            },
        }
    }

    /// The type that `component_id` was reserved for, or why it has none:
    /// the handle was freed, or never issued.
    pub fn get_type_id(&self, component_id: &HeapElemId<Components>) -> (res: Result<
        TypeTag,
        StoreError,
    >)
        requires
            self.wf(),
        ensures
            res == self@.type_of(component_id@),
    {
        self.lookup(component_id)
    }

    /// Stores `component` at `component_id`, in place of what was there. The
    /// handle must have been reserved for the type `T`: a component is never
    /// put in the place of one of another type.
    pub fn put<T: ComponentMarker>(
        &mut self,
        component_id: &HeapElemId<Components>,
        component: T,
    ) -> (res: Result<(), StoreError>)
        requires
            old(self).wf(),
        ensures
            final(self).wf(),
            res == old(self)@.check(component_id@, T::tag()),
            final(self)@ == old(self)@.put(component_id@, component.erased()),
    {
        proof {
            component.lemma_erased_tag();
            lemma_store_put_wf(self@, component_id@, component.erased());
        }
        match self.lookup(component_id) {
            Err(e) => Err(e),
            Ok(actual) => {
                let requested = component.id();
                if actual != requested {
                    Err(StoreError::TypeMismatch { requested, actual })
                } else {
                    let stored = self.store.replace(component_id, component.as_any());
                    assert(self@.types =~= old(self)@.types);
                    stored
                }
            },
        }
    }

    /// The component at `component_id`, as a value of type `T`.
    pub fn get_as<T: ComponentMarker + Tomb>(
        &self,
        component_id: &HeapElemId<Components>,
    ) -> (res: Result<&T, StoreError>)
        requires
            self.wf(),
        ensures
            match res {
                Ok(component) => self@.read_as(component_id@, T::tag()) == Ok::<
                    AnyComponent,
                    StoreError,
                >(component.erased()),
                Err(e) => self@.read_as(component_id@, T::tag()) == Err::<
                    AnyComponent,
                    StoreError,
                >(e),
            },
    {
        let requested = T::tomb().id();
        match self.lookup(component_id) {
            Err(e) => Err(e),
            Ok(actual) => {
                if actual != requested {
                    Err(StoreError::TypeMismatch { requested, actual })
                } else {
                    match self.store.get(component_id) {
                        Err(e) => Err(e),
                        Ok(data) => {
                            let found = T::downcast_ref(data);
                            proof {
                                assert(self@.heap.live.contains_key(component_id@.id));
                                assert(data.tag() == T::tag());
                                T::lemma_tag_decides(*data);
                            }
                            Ok(found.unwrap())
                        },
                    }
                }
            },
        }
    }

    /// Ends the life of `component_id`: its component is dropped, its type
    /// forgotten and its slot made the first to be reused.
    pub fn free(&mut self, component_id: &HeapElemId<Components>) -> (res: Result<
        (),
        StoreError,
    >)
        requires
            old(self).wf(),
        ensures
            final(self).wf(),
            res == old(self)@.heap.check(component_id@, true),
            final(self)@ == old(self)@.free(component_id@),
    {
        proof {
            lemma_store_free_wf(self@, component_id@);
        }
        match self.store.free(component_id) {
            Err(e) => Err(e),
            Ok(()) => {
                let (id, _) = component_id.parts();
                map_remove(&mut self.ty_lookup, id);
                assert(self@.types =~= old(self)@.free(component_id@).types);
                Ok(())
            },
        }
    }
}

} // verus!
