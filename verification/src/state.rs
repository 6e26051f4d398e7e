//! A plain arena of components with a table of who owns what: components are
//! reached by number, entities are numbers, and nothing is ever removed.

use crate::component::{AToAny, AnyComponent, ComponentMarker, Tomb};
use crate::error::StoreError;
use crate::type_tag::{TyId, TypeTag};
use std::collections::HashMap;
use vstd::prelude::*;

verus! {

broadcast use vstd::std_specs::hash::group_hash_axioms;

/// The state of a component arena.
pub struct ArenaModel {
    /// The number of the next component; also how many were pushed.
    pub next: nat,
    /// The components, by their numbers.
    pub data: Map<usize, AnyComponent>,
}

impl ArenaModel {
    /// The arena that holds nothing.
    pub open spec fn empty() -> Self {
        ArenaModel { next: 0, data: Map::empty() }
    }

    /// The invariant of every arena: it holds a component for each number
    /// below the next one, and for no other.
    pub open spec fn wf(self) -> bool {
        &&& self.next <= usize::MAX
        &&& forall|id: usize| #[trigger] self.data.contains_key(id) <==> id < self.next
    }

    /// The arena after `component` was pushed.
    pub open spec fn push(self, component: AnyComponent) -> Self {
        ArenaModel { next: self.next + 1, data: self.data.insert(self.next as usize, component) }
    }

    /// What reading the component with the number `id` as one of type `tag` gives.
    pub open spec fn read_as(self, id: usize, tag: TypeTag) -> Result<AnyComponent, StoreError> {
        if !self.data.contains_key(id) {
            Err(StoreError::InvalidHandle)
        } else if self.data[id].tag() != tag {
            Err(StoreError::TypeMismatch { requested: tag, actual: self.data[id].tag() })
        } else {
            Ok(self.data[id])
        }
    }
}

/// An arena of components of every type, reached by number.
pub struct ComponentArena {
    next_id: usize,
    data: HashMap<usize, AnyComponent>,
}

impl View for ComponentArena {
    type V = ArenaModel;

    closed spec fn view(&self) -> ArenaModel {
        ArenaModel { next: self.next_id as nat, data: self.data@ }
    }
}

impl ComponentArena {
    /// Whether the arena is in a state that its own operations can have produced.
    pub open spec fn wf(&self) -> bool {
        self@.wf()
    }

    /// An empty arena.
    pub fn new() -> (arena: Self)
        ensures
            arena.wf(),
            arena@ == ArenaModel::empty(),
    {
        Self { next_id: 0, data: HashMap::new() }
    }

    /// Stores `component` under the next number and returns that number.
    /// Fails, changing nothing, when the numbers are used up.
    pub fn push<T: ComponentMarker>(&mut self, component: T) -> (res: Result<usize, StoreError>)
        requires
            old(self).wf(),
        ensures
            final(self).wf(),
            match res {
                Ok(id) => {
                    &&& id == old(self)@.next
                    &&& id < usize::MAX
                    &&& final(self)@ == old(self)@.push(component.erased())
                },
                Err(e) => {
                    &&& e == StoreError::Exhausted
                    &&& old(self)@.next == usize::MAX
                    &&& final(self)@ == old(self)@
                },
            },
    {
        if self.next_id == usize::MAX {
            return Err(StoreError::Exhausted);
        }
        let id = self.next_id;
        self.next_id = id + 1;
        self.data.insert(id, component.as_any());
        proof {
            assert forall|other: usize| #[trigger]
                self@.data.contains_key(other) <==> other < self@.next by {
                assert(old(self)@.data.contains_key(other) <==> other < old(self)@.next);
            }
        }
        Ok(id)
    }

    /// The component with the number `id`, as a value of type `T`.
    pub fn get_as<T: ComponentMarker + Tomb>(&self, id: usize) -> (res: Result<&T, StoreError>)
        requires
            self.wf(),
        ensures
            match res {
                Ok(component) => self@.read_as(id, T::tag()) == Ok::<AnyComponent, StoreError>(
                    component.erased(),
                ),
                Err(e) => self@.read_as(id, T::tag()) == Err::<AnyComponent, StoreError>(e),
            },
    {
        match self.data.get(&id) {
            None => Err(StoreError::InvalidHandle),
            Some(data) => match T::downcast_ref(data) {
                Some(component) => {
                    proof {
                        component.lemma_erased_tag();
                    }
                    Ok(component)
                },
                None => {
                    proof {
                        if data.tag() == T::tag() {
                            T::lemma_tag_decides(*data);
                        }
                    }
                    Err(StoreError::TypeMismatch { requested: T::tomb().id(), actual: data.id() })
                },
            },
        }
    }
}

/// The state of a [`State`].
pub struct StateModel {
    /// How many entities were created. Entities are numbered from zero.
    pub entities: nat,
    pub components: ArenaModel,
    /// The number of the component that each entity owns of each type.
    pub owned: Map<(usize, TypeTag), usize>,
    /// The entities that were given a component of each type, in the order
    /// in which they were given one.
    pub by_type: Map<TypeTag, Seq<usize>>,
}

impl StateModel {
    /// The state that holds nothing.
    pub open spec fn empty() -> Self {
        StateModel {
            entities: 0,
            components: ArenaModel::empty(),
            owned: Map::empty(),
            by_type: Map::empty(),
        }
    }

    /// The entities that were given a component of type `tag`.
    pub open spec fn owners(self, tag: TypeTag) -> Seq<usize> {
        if self.by_type.contains_key(tag) {
            self.by_type[tag]
        } else {
            Seq::empty()
        }
    }

    /// The state after one more entity was created. The new entity owns
    /// nothing, whatever was recorded under its number before.
    pub open spec fn create_entity(self) -> Self {
        StateModel {
            entities: self.entities + 1,
            owned: Map::new(
                |k: (usize, TypeTag)| self.owned.contains_key(k) && k.0 != self.entities,
                |k: (usize, TypeTag)| self.owned[k],
            ),
            ..self
        }
    }

    /// The state after `entity` was given `component`, where it owned none of
    /// that type.
    pub open spec fn add_component(self, entity: usize, component: AnyComponent) -> Self {
        StateModel {
            components: self.components.push(component),
            owned: self.owned.insert((entity, component.tag()), self.components.next as usize),
            by_type: self.by_type.insert(component.tag(), self.owners(component.tag()).push(entity)),
            ..self
        }
    }
}

/// Entities, components and the table of which entity owns which component.
pub struct State {
    entities: Vec<()>,
    components: ComponentArena,
    entities_with_component_map: HashMap<usize, Vec<usize>>,
    entity_components: HashMap<usize, HashMap<usize, usize>>,
}

impl View for State {
    type V = StateModel;

    closed spec fn view(&self) -> StateModel {
        StateModel {
            entities: self.entities.len() as nat,
            components: self.components@,
            owned: Map::new(
                |k: (usize, TypeTag)|
                    self.entity_components@.contains_key(k.0)
                        && self.entity_components@[k.0]@.contains_key(k.1.spec_code()),
                |k: (usize, TypeTag)| self.entity_components@[k.0]@[k.1.spec_code()],
            ),
            by_type: Map::new(
                |tag: TypeTag| self.entities_with_component_map@.contains_key(tag.spec_code()),
                |tag: TypeTag| self.entities_with_component_map@[tag.spec_code()]@,
            ),
        }
    }
}

impl State {
    /// Whether the state is one that its own operations can have produced.
    pub closed spec fn wf(&self) -> bool {
        self.components.wf()
    }

    /// A well-formed state has a well-formed arena.
    pub proof fn lemma_wf_model(&self)
        requires
            self.wf(),
        ensures
            self@.components.wf(),
    {
    }

    /// The arena of the components.
    pub fn components(&self) -> (arena: &ComponentArena)
        ensures
            arena@ == self@.components,
            self.wf() ==> arena.wf(),
    {
        &self.components
    }

    /// An empty state.
    pub fn new() -> (state: Self)
        ensures
            state.wf(),
            state@ == StateModel::empty(),
    {
        let state = Self {
            entities: Vec::new(),
            components: ComponentArena::new(),
            entity_components: HashMap::new(),
            entities_with_component_map: HashMap::new(),
        };
        proof {
            assert(state@.owned =~= Map::empty());
            assert(state@.by_type =~= Map::empty());
        }
        state
    }

    /// Creates an entity and returns its number.
    pub fn create_entity(&mut self) -> (entity_id: usize)
        requires
            old(self).wf(),
        ensures
            final(self).wf(),
            entity_id == old(self)@.entities,
            final(self)@ == old(self)@.create_entity(),
    {
        let entity_id = self.entities.len();
        self.entities.push(());
        self.entity_components.insert(entity_id, HashMap::new());
        proof {
            assert(self@.owned =~= old(self)@.create_entity().owned);
        }
        entity_id
    }

    /// Gives `entity_id` the component, unless it owns one of that type
    /// already: then nothing changes, and the number of the one it owns is
    /// returned. Fails, changing nothing, when the numbers of components are
    /// used up.
    pub fn add_component<T: ComponentMarker>(&mut self, entity_id: usize, component: T) -> (res:
        Result<usize, StoreError>)
        requires
            old(self).wf(),
        ensures
            final(self).wf(),
            match res {
                Ok(id) => if old(self)@.owned.contains_key((entity_id, T::tag())) {
                    &&& id == old(self)@.owned[(entity_id, T::tag())]
                    &&& final(self)@ == old(self)@
                } else {
                    &&& id == old(self)@.components.next
                    &&& id < usize::MAX
                    &&& final(self)@ == old(self)@.add_component(entity_id, component.erased())
                },
                Err(e) => {
                    &&& e == StoreError::Exhausted
                    &&& !old(self)@.owned.contains_key((entity_id, T::tag()))
                    &&& old(self)@.components.next == usize::MAX
                    &&& final(self)@ == old(self)@
                },
            },
    {
        proof {
            component.lemma_erased_tag();
        }
        let component_type_id = component.id();
        let code = component_type_id.code();
        let owned = match self.entity_components.get(&entity_id) {
            Some(curr_entity_components) => match curr_entity_components.get(&code) {
                Some(component_id) => Some(*component_id),
                None => None,
            },
            None => None,
        };
        if let Some(component_id) = owned {
            return Ok(component_id);
        }
        let component_id = match self.components.push(component) {
            Ok(id) => id,
            Err(e) => {
                return Err(e);
            },
        };
        let mut curr_entity_components = match self.entity_components.remove(&entity_id) {
            Some(curr) => curr,
            None => HashMap::new(),
        };
        curr_entity_components.insert(code, component_id);
        self.entity_components.insert(entity_id, curr_entity_components);
        let mut owners = match self.entities_with_component_map.remove(&code) {
            Some(owners) => owners,
            None => Vec::new(),
        };
        owners.push(entity_id);
        self.entities_with_component_map.insert(code, owners);
        proof {
            let tag = T::tag();
            assert forall|t: TypeTag| t.spec_code() == tag.spec_code() implies t == tag by {
                t.lemma_code_roundtrip();
                tag.lemma_code_roundtrip();
            }
            let want = old(self)@.add_component(entity_id, component.erased());
            assert(self@.owned =~= want.owned);
            assert(self@.by_type =~= want.by_type);
        }
        Ok(component_id)
    }
}

} // verus!
