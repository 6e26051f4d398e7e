//! The mathematical model of the world.

use crate::component::model::{
    lemma_store_alloc_n_wf, lemma_store_allocate_wf, lemma_store_put_wf, StoreModel,
};
use crate::component::pos::SelestialPos;
use crate::component::AnyComponent;
use crate::entity::Entity;
use crate::error::StoreError;
use crate::heap::model::{
    lemma_alloc_n_issued, lemma_allocate_wf, lemma_write_wf, HeapModel, Key,
};
use crate::type_tag::TypeTag;
use vstd::prelude::*;

verus! {

impl StoreModel {
    /// The store after `component` was given a slot of its own and stored there.
    pub open spec fn create(self, component: AnyComponent) -> Self {
        self.allocate(component.tag()).put(self.heap.next_key(), component)
    }

    /// Whether every handle that is live in `earlier` is live here too, with
    /// the same type and the same content, and no identifier was taken back.
    pub open spec fn extends(self, earlier: StoreModel) -> bool {
        &&& earlier.heap.issued <= self.heap.issued
        &&& forall|key: Key| #[trigger]
            earlier.heap.is_live(key) ==> {
                &&& self.heap.is_live(key)
                &&& self.types[key.id] == earlier.types[key.id]
                &&& self.heap.slots[key.slot as int] == earlier.heap.slots[key.slot as int]
            }
    }
}

/// What is live in an earlier store reads in an extension as it did there.
pub proof fn lemma_extends_reads(later: StoreModel, earlier: StoreModel, key: Key, tag: TypeTag)
    requires
        later.extends(earlier),
        earlier.heap.is_live(key),
    ensures
        later.heap.is_live(key),
        later.type_of(key) == earlier.type_of(key),
        later.check(key, tag) == earlier.check(key, tag),
        later.read_as(key, tag) == earlier.read_as(key, tag),
{
}

/// Extension is reflexive and transitive.
pub proof fn lemma_extends_trans(a: StoreModel, b: StoreModel, c: StoreModel)
    requires
        b.extends(a),
        c.extends(b),
    ensures
        a.extends(a),
        c.extends(a),
{
    assert forall|key: Key| #[trigger] a.heap.is_live(key) implies {
        &&& c.heap.is_live(key)
        &&& c.types[key.id] == a.types[key.id]
        &&& c.heap.slots[key.slot as int] == a.heap.slots[key.slot as int]
    } by {
        assert(b.heap.is_live(key));
    }
}

/// Reserving a slot extends a store.
pub proof fn lemma_allocate_extends(m: StoreModel, tag: TypeTag)
    requires
        m.wf(),
        m.heap.can_issue(1),
    ensures
        m.allocate(tag).extends(m),
{
    lemma_store_allocate_wf(m, tag);
    let a = m.allocate(tag);
    assert forall|key: Key| #[trigger] m.heap.is_live(key) implies {
        &&& a.heap.is_live(key)
        &&& a.types[key.id] == m.types[key.id]
        &&& a.heap.slots[key.slot as int] == m.heap.slots[key.slot as int]
    } by {
        assert(m.heap.live.contains_key(key.id));
    }
}

/// Creating a component keeps a store well formed and extends it; the new
/// handle is live and reads as the component.
pub proof fn lemma_create(m: StoreModel, component: AnyComponent)
    requires
        m.wf(),
        m.heap.can_issue(1),
    ensures
        m.create(component).wf(),
        m.create(component).extends(m),
        m.create(component).heap.issued == m.heap.issued + 1,
        m.create(component).heap.is_live(m.heap.next_key()),
        !m.heap.is_live(m.heap.next_key()),
        m.create(component).type_of(m.heap.next_key()) == Ok::<TypeTag, StoreError>(
            component.tag(),
        ),
        m.create(component).read_as(m.heap.next_key(), component.tag()) == Ok::<
            AnyComponent,
            StoreError,
        >(component),
{
    let k = m.heap.next_key();
    let a = m.allocate(component.tag());
    lemma_store_allocate_wf(m, component.tag());
    lemma_allocate_wf(m.heap);
    lemma_allocate_extends(m, component.tag());
    lemma_store_put_wf(a, k, component);
    lemma_write_wf(a.heap, k, component);
    let c = m.create(component);
    assert forall|key: Key| #[trigger] m.heap.is_live(key) implies {
        &&& c.heap.is_live(key)
        &&& c.types[key.id] == m.types[key.id]
        &&& c.heap.slots[key.slot as int] == m.heap.slots[key.slot as int]
    } by {
        assert(a.heap.is_live(key));
        assert(m.heap.live.contains_key(key.id));
        assert(a.heap.live.contains_key(k.id));
    }
}

/// The state of a world.
pub struct WorldModel {
    pub entities: HeapModel<Entity>,
    pub components: StoreModel,
    /// The component that each entity owns of each type, by the entity's
    /// identifier and the type.
    pub bindings: Map<(usize, TypeTag), Key>,
    /// How many ticks have passed.
    pub tick_number: u64,
    /// The bodies of the three levels of the hierarchy, in the order of their creation.
    pub stars: Seq<Key>,
    pub planets: Seq<Key>,
    pub moons: Seq<Key>,
}

impl WorldModel {
    /// The world that holds nothing.
    pub open spec fn empty() -> Self {
        WorldModel {
            entities: HeapModel::empty(),
            components: StoreModel::empty(),
            bindings: Map::empty(),
            tick_number: 0,
            stars: Seq::empty(),
            planets: Seq::empty(),
            moons: Seq::empty(),
        }
    }

    /// The invariant of every world: its stores are well formed, and only
    /// entities that the world has created own components.
    pub open spec fn wf(self) -> bool {
        &&& self.entities.wf()
        &&& self.components.wf()
        &&& forall|entity: usize, tag: TypeTag| #[trigger]
            self.bindings.contains_key((entity, tag)) ==> entity < self.entities.issued
    }

    /// The component of type `tag` that `entity` owns.
    pub open spec fn component_of(self, entity: Key, tag: TypeTag) -> Result<Key, StoreError> {
        if self.bindings.contains_key((entity.id, tag)) {
            Ok(self.bindings[(entity.id, tag)])
        } else {
            Err(StoreError::ComponentNotFound)
        }
    }

    /// What the component of type `tag` that `entity` owns holds.
    pub open spec fn value_of(self, entity: Key, tag: TypeTag) -> Result<AnyComponent, StoreError> {
        match self.component_of(entity, tag) {
            Ok(component) => self.components.read_as(component, tag),
            Err(e) => Err(e),
        }
    }

    /// Whether `entity` owns a component of each type of `tags` and of no other type.
    pub open spec fn owns_only(self, entity: Key, tags: Set<TypeTag>) -> bool {
        forall|tag: TypeTag| #[trigger]
            self.bindings.contains_key((entity.id, tag)) <==> tags.contains(tag)
    }

    /// Whether the entity with the identifier `entity` owns here what it owns in `earlier`.
    pub open spec fn same_bindings_of(self, earlier: WorldModel, entity: usize) -> bool {
        forall|tag: TypeTag|
            {
                &&& #[trigger] self.bindings.contains_key((entity, tag))
                    == earlier.bindings.contains_key((entity, tag))
                &&& self.bindings.contains_key((entity, tag)) ==> self.bindings[(entity, tag)]
                    == earlier.bindings[(entity, tag)]
            }
    }

    /// Whether all that differs from `earlier` is what `only` was made for:
    /// the entities, the tick count and the lists of bodies are those of
    /// `earlier`; the components extend those of `earlier`; and every entity
    /// whose identifier is outside `only` owns what it owned.
    pub open spec fn grown_from(self, earlier: WorldModel, only: Set<usize>) -> bool {
        &&& self.entities == earlier.entities
        &&& self.tick_number == earlier.tick_number
        &&& self.stars == earlier.stars
        &&& self.planets == earlier.planets
        &&& self.moons == earlier.moons
        &&& self.components.extends(earlier.components)
        &&& forall|entity: usize|
            !only.contains(entity) ==> #[trigger] self.same_bindings_of(earlier, entity)
    }

    /// The type under which `component` is bound to `entity`, or why it is
    /// not bound at all: the entity is not live, or, if it is, the store records
    /// no type for the component.
    pub open spec fn bind_check(self, entity: Key, component: Key) -> Result<TypeTag, StoreError> {
        match self.entities.check(entity, false) {
            Ok(()) => self.components.type_of(component),
            Err(e) => Err(e),
        }
    }

    /// The world after `component` was bound to `entity` under the type
    /// recorded for it; unchanged where the binding is refused.
    pub open spec fn bind(self, entity: Key, component: Key) -> Self {
        match self.bind_check(entity, component) {
            Ok(tag) => WorldModel {
                bindings: self.bindings.insert((entity.id, tag), component),
                ..self
            },
            Err(_) => self,
        }
    }

    /// The world after each pair of `pairs` was bound, in order.
    pub open spec fn bind_all(self, pairs: Seq<(Key, Key)>) -> Self
        decreases pairs.len(),
    {
        if pairs.len() == 0 {
            self
        } else {
            self.bind_all(pairs.drop_last()).bind(pairs.last().0, pairs.last().1)
        }
    }

    /// The first reason, in the order of `pairs`, for which one of them
    /// cannot be bound, if there is one.
    pub open spec fn bind_all_check(self, pairs: Seq<(Key, Key)>) -> Result<(), StoreError>
        decreases pairs.len(),
    {
        if pairs.len() == 0 {
            Ok(())
        } else {
            match self.bind_all_check(pairs.drop_last()) {
                Err(e) => Err(e),
                Ok(()) => match self.bind_check(pairs.last().0, pairs.last().1) {
                    Ok(_) => Ok(()),
                    Err(e) => Err(e),
                },
            }
        }
    }

    /// The components of type `tag` of `entities`, in order, or
    /// `ComponentNotFound` where one of them owns none.
    pub open spec fn components_of(self, entities: Seq<Key>, tag: TypeTag) -> Result<
        Seq<Key>,
        StoreError,
    > {
        if forall|i: int|
            0 <= i < entities.len() ==> self.bindings.contains_key(
                (#[trigger] entities[i].id, tag),
            ) {
            Ok(Seq::new(entities.len(), |i: int| self.bindings[(entities[i].id, tag)]))
        } else {
            Err(StoreError::ComponentNotFound)
        }
    }
}

/// Binding uniqueness. An entity owns at most one component of a type: the
/// table of a world in which the same entity was bound twice to components of
/// one type is the table in which it was bound to the second only, and the
/// entity's component of that type is the second.
pub proof fn law_binding_unique(w: WorldModel, entity: Key, first: Key, second: Key)
    requires
        w.wf(),
        w.entities.is_live(entity),
        w.components.type_of(first) is Ok,
        w.components.type_of(first) == w.components.type_of(second),
    ensures
        w.bind(entity, first).bind(entity, second).bindings == w.bind(entity, second).bindings,
        w.bind(entity, first).bind(entity, second).component_of(
            entity,
            w.components.type_of(second).unwrap(),
        ) == Ok::<Key, StoreError>(second),
        w.bind(entity, first).bindings.dom() == w.bind(entity, first).bind(
            entity,
            second,
        ).bindings.dom(),
{
    let tag = w.components.type_of(first).unwrap();
    assert(w.bind(entity, first).bind(entity, second).bindings =~= w.bind(
        entity,
        second,
    ).bindings);
    assert(w.bind(entity, first).bindings.dom() =~= w.bind(entity, first).bind(
        entity,
        second,
    ).bindings.dom());
}

/// Bindings under different keys do not disturb each other: whichever of
/// two is made first, both are in the table afterwards, and every other key
/// leads where it led.
pub proof fn law_bindings_independent(
    w: WorldModel,
    first_entity: Key,
    first: Key,
    second_entity: Key,
    second: Key,
)
    requires
        w.bind_check(first_entity, first) is Ok,
        w.bind_check(second_entity, second) is Ok,
        (first_entity.id, w.bind_check(first_entity, first).unwrap()) != (
            second_entity.id,
            w.bind_check(second_entity, second).unwrap(),
        ),
    ensures
        w.bind(first_entity, first).bind(second_entity, second) == w.bind(
            second_entity,
            second,
        ).bind(first_entity, first),
        w.bind(first_entity, first).bind(second_entity, second).component_of(
            first_entity,
            w.bind_check(first_entity, first).unwrap(),
        ) == Ok::<Key, StoreError>(first),
        w.bind(first_entity, first).bind(second_entity, second).component_of(
            second_entity,
            w.bind_check(second_entity, second).unwrap(),
        ) == Ok::<Key, StoreError>(second),
{
    let a = w.bind(first_entity, first).bind(second_entity, second);
    let b = w.bind(second_entity, second).bind(first_entity, first);
    assert(a.bindings =~= b.bindings);
}

/// What an entity owned and could be read stays as it was while the entity's
/// bindings stay and the components are only extended.
pub proof fn lemma_value_kept(later: WorldModel, earlier: WorldModel, entity: Key, tag: TypeTag)
    requires
        later.components.extends(earlier.components),
        later.same_bindings_of(earlier, entity.id),
        earlier.value_of(entity, tag) is Ok,
    ensures
        later.value_of(entity, tag) == earlier.value_of(entity, tag),
        later.component_of(entity, tag) == earlier.component_of(entity, tag),
{
    assert(later.bindings.contains_key((entity.id, tag)) == earlier.bindings.contains_key(
        (entity.id, tag),
    ));
    let component = earlier.bindings[(entity.id, tag)];
    lemma_extends_reads(later.components, earlier.components, component, tag);
}

/// What an entity owns stays what it owns while its bindings stay.
pub proof fn lemma_owns_kept(
    later: WorldModel,
    earlier: WorldModel,
    entity: Key,
    tags: Set<TypeTag>,
)
    requires
        later.same_bindings_of(earlier, entity.id),
        earlier.owns_only(entity, tags),
    ensures
        later.owns_only(entity, tags),
{
    assert forall|tag: TypeTag| #[trigger]
        later.bindings.contains_key((entity.id, tag)) <==> tags.contains(tag) by {
        assert(later.bindings.contains_key((entity.id, tag)) == earlier.bindings.contains_key(
            (entity.id, tag),
        ));
    }
}

/// Growth is transitive: a world grown from a world grown from an earlier
/// one is grown from the earlier one, for all that either growth was made for.
pub proof fn lemma_grown_trans(
    a: WorldModel,
    b: WorldModel,
    c: WorldModel,
    first: Set<usize>,
    second: Set<usize>,
)
    requires
        b.grown_from(a, first),
        c.grown_from(b, second),
    ensures
        c.grown_from(a, first.union(second)),
{
    lemma_extends_trans(a.components, b.components, c.components);
    assert forall|entity: usize| !first.union(second).contains(entity) implies #[trigger]
        c.same_bindings_of(a, entity) by {
        assert(b.same_bindings_of(a, entity));
        assert(c.same_bindings_of(b, entity));
        assert forall|tag: TypeTag|
            {
                &&& #[trigger] c.bindings.contains_key((entity, tag)) == a.bindings.contains_key(
                    (entity, tag),
                )
                &&& c.bindings.contains_key((entity, tag)) ==> c.bindings[(entity, tag)]
                    == a.bindings[(entity, tag)]
            } by {
            assert(b.bindings.contains_key((entity, tag)) == a.bindings.contains_key(
                (entity, tag),
            ));
        }
    }
}

/// The error that a failed read through a stored handle is reported as: a
/// handle that is not live dangles; any other failure is reported as it is.
pub open spec fn spec_dangling(e: StoreError) -> StoreError {
    match e {
        StoreError::UseAfterFree => StoreError::DanglingReference,
        StoreError::InvalidHandle => StoreError::DanglingReference,
        other => other,
    }
}

/// What the position component `host` holds, or the error that reading it
/// through a stored handle is reported as.
pub open spec fn position_at(w: WorldModel, host: Key) -> Result<SelestialPos, StoreError> {
    match w.components.read_as(host, TypeTag::SelestialPos) {
        Ok(AnyComponent::Pos(pos)) => Ok(pos),
        Ok(_) => Err(StoreError::DanglingReference),
        Err(e) => Err(spec_dangling(e)),
    }
}

/// The positions that the components `hosts` hold, in order, or the error of
/// the first of them that cannot be read.
pub open spec fn positions_at(w: WorldModel, hosts: Seq<Key>) -> Result<
    Seq<SelestialPos>,
    StoreError,
>
    decreases hosts.len(),
{
    if hosts.len() == 0 {
        Ok(Seq::empty())
    } else {
        match positions_at(w, hosts.drop_last()) {
            Err(e) => Err(e),
            Ok(earlier) => match position_at(w, hosts.last()) {
                Ok(pos) => Ok(earlier.push(pos)),
                Err(e) => Err(e),
            },
        }
    }
}

/// Once the position of one host cannot be read, the reading of all of them
/// fails with the error met first.
pub proof fn lemma_positions_fail(w: WorldModel, hosts: Seq<Key>, i: int)
    requires
        0 <= i <= hosts.len(),
        i < hosts.len() ==> positions_at(w, hosts.take(i)) is Ok && position_at(w, hosts[i]) is Err,
        i == hosts.len() ==> positions_at(w, hosts) is Err,
    ensures
        positions_at(w, hosts) is Err,
        i < hosts.len() ==> positions_at(w, hosts) == Err::<Seq<SelestialPos>, StoreError>(
            position_at(w, hosts[i])->Err_0,
        ),
    decreases hosts.len() - i,
{
    if i < hosts.len() {
        assert(hosts.take(i + 1).drop_last() =~= hosts.take(i));
        assert(hosts.take(i + 1).last() == hosts[i]);
        lemma_positions_stay_failed(w, hosts, i + 1);
    }
}

/// Once the reading of a prefix has failed, the reading of the whole list
/// fails with the same error.
pub proof fn lemma_positions_stay_failed(w: WorldModel, hosts: Seq<Key>, i: int)
    requires
        0 <= i <= hosts.len(),
        positions_at(w, hosts.take(i)) is Err,
    ensures
        positions_at(w, hosts) == positions_at(w, hosts.take(i)),
    decreases hosts.len() - i,
{
    if i == hosts.len() {
        assert(hosts.take(i) =~= hosts);
    } else {
        assert(hosts.take(i + 1).drop_last() =~= hosts.take(i));
        lemma_positions_stay_failed(w, hosts, i + 1);
    }
}

/// The positions read are as many as the hosts, and each is what its host holds.
pub proof fn lemma_positions_each(w: WorldModel, hosts: Seq<Key>)
    requires
        positions_at(w, hosts) is Ok,
    ensures
        positions_at(w, hosts).unwrap().len() == hosts.len(),
        forall|i: int|
            0 <= i < hosts.len() ==> position_at(w, #[trigger] hosts[i]) == Ok::<
                SelestialPos,
                StoreError,
            >(positions_at(w, hosts).unwrap()[i]),
    decreases hosts.len(),
{
    if hosts.len() > 0 {
        lemma_positions_each(w, hosts.drop_last());
        assert forall|i: int| 0 <= i < hosts.len() implies position_at(w, #[trigger] hosts[i])
            == Ok::<SelestialPos, StoreError>(positions_at(w, hosts).unwrap()[i]) by {
            if i < hosts.len() - 1 {
                assert(hosts.drop_last()[i] == hosts[i]);
            }
        }
    }
}

/// The position that a live component holds stays as it was while the
/// components are only extended.
pub proof fn lemma_position_kept(later: WorldModel, earlier: WorldModel, host: Key)
    requires
        later.components.extends(earlier.components),
        position_at(earlier, host) is Ok,
    ensures
        position_at(later, host) == position_at(earlier, host),
{
    lemma_extends_reads(later.components, earlier.components, host, TypeTag::SelestialPos);
}

/// Where each position can be read, all of them can.
pub proof fn lemma_positions_ok(w: WorldModel, hosts: Seq<Key>)
    requires
        forall|i: int| 0 <= i < hosts.len() ==> position_at(w, #[trigger] hosts[i]) is Ok,
    ensures
        positions_at(w, hosts) is Ok,
    decreases hosts.len(),
{
    if hosts.len() > 0 {
        assert forall|i: int| 0 <= i < hosts.drop_last().len() implies position_at(
            w,
            #[trigger] hosts.drop_last()[i],
        ) is Ok by {
            assert(hosts.drop_last()[i] == hosts[i]);
        }
        lemma_positions_ok(w, hosts.drop_last());
        assert(position_at(w, hosts[hosts.len() - 1]) is Ok);
    }
}

/// Reserving a batch of slots extends a store; the handles of the batch are
/// live, carry consecutive new identifiers, and have the type of the batch.
pub proof fn lemma_store_alloc_n_keys(m: StoreModel, tag: TypeTag, n: nat)
    requires
        m.wf(),
        m.heap.can_issue(n),
    ensures
        m.alloc_n(tag, n).wf(),
        m.alloc_n(tag, n).extends(m),
        m.alloc_n(tag, n).heap.issued == m.heap.issued + n,
        forall|i: int|
            0 <= i < n ==> {
                &&& m.alloc_n(tag, n).heap.is_live(#[trigger] m.heap.alloc_n_keys(n)[i])
                &&& m.alloc_n(tag, n).types[m.heap.alloc_n_keys(n)[i].id] == tag
                &&& m.heap.alloc_n_keys(n)[i].id == m.heap.issued + i
            },
    decreases n,
{
    lemma_store_alloc_n_wf(m, tag, n);
    lemma_alloc_n_issued(m.heap, n);
    if n == 0 {
        lemma_extends_trans(m, m, m);
    } else {
        let p = (n - 1) as nat;
        let prev = m.alloc_n(tag, p);
        let cur = m.alloc_n(tag, n);
        lemma_store_alloc_n_keys(m, tag, p);
        lemma_store_alloc_n_wf(m, tag, p);
        lemma_alloc_n_issued(m.heap, p);
        lemma_allocate_extends(prev, tag);
        lemma_store_allocate_wf(prev, tag);
        lemma_extends_trans(m, prev, cur);
        assert forall|i: int| 0 <= i < n implies {
            &&& cur.heap.is_live(#[trigger] m.heap.alloc_n_keys(n)[i])
            &&& cur.types[m.heap.alloc_n_keys(n)[i].id] == tag
            &&& m.heap.alloc_n_keys(n)[i].id == m.heap.issued + i
        } by {
            let key = m.heap.alloc_n_keys(n)[i];
            if i < p {
                assert(key == m.heap.alloc_n_keys(p)[i]);
                assert(prev.heap.is_live(key));
            } else {
                assert(key == prev.heap.next_key());
            }
        }
    }
}

/// Putting a component at a handle that an earlier store had not issued
/// leaves the store an extension of the earlier one.
pub proof fn lemma_put_extends(
    later: StoreModel,
    earlier: StoreModel,
    key: Key,
    component: AnyComponent,
)
    requires
        later.wf(),
        earlier.wf(),
        later.extends(earlier),
        earlier.heap.issued <= key.id,
    ensures
        later.put(key, component).extends(earlier),
{
    let put = later.put(key, component);
    lemma_store_put_wf(later, key, component);
    assert forall|other: Key| #[trigger] earlier.heap.is_live(other) implies {
        &&& put.heap.is_live(other)
        &&& put.types[other.id] == earlier.types[other.id]
        &&& put.heap.slots[other.slot as int] == earlier.heap.slots[other.slot as int]
    } by {
        assert(earlier.heap.live.contains_key(other.id));
        assert(later.heap.is_live(other));
        if later.check(key, component.tag()) is Ok {
            assert(later.heap.live.contains_key(other.id));
            assert(later.heap.live.contains_key(key.id));
            assert(other.slot != key.slot);
        }
    }
}

/// What was put at a handle is read there; every other handle reads, and
/// can be read and written, as before.
pub proof fn lemma_put_reads(m: StoreModel, key: Key, component: AnyComponent)
    requires
        m.wf(),
        m.check(key, component.tag()) is Ok,
    ensures
        m.put(key, component).wf(),
        m.put(key, component).heap.issued == m.heap.issued,
        m.put(key, component).read_as(key, component.tag()) == Ok::<AnyComponent, StoreError>(
            component,
        ),
        forall|other: Key, tag: TypeTag|
            other.id != key.id ==> #[trigger] m.put(key, component).read_as(other, tag)
                == m.read_as(other, tag),
        forall|other: Key, tag: TypeTag|
            #[trigger] m.put(key, component).check(other, tag) == m.check(other, tag),
        forall|other: Key| #[trigger] m.put(key, component).type_of(other) == m.type_of(other),
{
    let put = m.put(key, component);
    lemma_store_put_wf(m, key, component);
    lemma_write_wf(m.heap, key, component);
    assert(put.heap.live == m.heap.live);
    assert forall|other: Key, tag: TypeTag| other.id != key.id implies #[trigger] put.read_as(
        other,
        tag,
    ) == m.read_as(other, tag) by {
        if m.heap.is_live(other) {
            assert(m.heap.live.contains_key(other.id));
            assert(m.heap.live.contains_key(key.id));
            assert(other.slot != key.slot);
        }
    }
}

/// Whether one of `pairs` is bound under the key `q`, the pair `j` being
/// bound under the type `tags[j]`.
pub open spec fn bound_by(pairs: Seq<(Key, Key)>, tags: Seq<TypeTag>, q: (usize, TypeTag)) -> bool {
    exists|j: int| 0 <= j < pairs.len() && (#[trigger] pairs[j].0.id, tags[j]) == q
}

/// What a batch of bindings leaves in the table, where every pair can be
/// bound and no two of them under the same key: each pair is bound, and a
/// key under which none of them is bound leads where it led before.
pub proof fn lemma_bind_all_bindings(w: WorldModel, pairs: Seq<(Key, Key)>, tags: Seq<TypeTag>)
    requires
        tags.len() == pairs.len(),
        forall|j: int|
            0 <= j < pairs.len() ==> w.bind_check((#[trigger] pairs[j]).0, pairs[j].1) == Ok::<
                TypeTag,
                StoreError,
            >(tags[j]),
        forall|j: int, k: int|
            0 <= j < k < pairs.len() ==> (#[trigger] pairs[j].0.id, tags[j]) != (
                #[trigger] pairs[k].0.id,
                tags[k],
            ),
    ensures
        w.bind_all_check(pairs) is Ok,
        forall|j: int|
            0 <= j < pairs.len() ==> {
                &&& w.bind_all(pairs).bindings.contains_key((#[trigger] pairs[j].0.id, tags[j]))
                &&& w.bind_all(pairs).bindings[(pairs[j].0.id, tags[j])] == pairs[j].1
            },
        forall|q: (usize, TypeTag)|
            #[trigger] w.bind_all(pairs).bindings.contains_key(q) <==> w.bindings.contains_key(q)
                || bound_by(pairs, tags, q),
        forall|q: (usize, TypeTag)|
            !bound_by(pairs, tags, q) ==> #[trigger] w.bind_all(pairs).bindings[q] == w.bindings[q],
    decreases pairs.len(),
{
    if pairs.len() > 0 {
        let n = pairs.len() - 1;
        let head = pairs.drop_last();
        let head_tags = tags.drop_last();
        let before = w.bind_all(head);
        let after = w.bind_all(pairs);
        let last_key = (pairs[n].0.id, tags[n]);
        assert forall|j: int| 0 <= j < head.len() implies w.bind_check(
            (#[trigger] head[j]).0,
            head[j].1,
        ) == Ok::<TypeTag, StoreError>(head_tags[j]) by {
            assert(head[j] == pairs[j]);
        }
        assert forall|j: int, k: int| 0 <= j < k < head.len() implies (
            #[trigger] head[j].0.id,
            head_tags[j],
        ) != (#[trigger] head[k].0.id, head_tags[k]) by {
            assert(head[j] == pairs[j] && head[k] == pairs[k]);
            assert((pairs[j].0.id, tags[j]) != (pairs[k].0.id, tags[k]));
        }
        lemma_bind_all_bindings(w, head, head_tags);
        assert(before.entities == w.entities && before.components == w.components) by {
            lemma_frame_of_bind_all(w, head);
        }
        assert(w.bind_check(pairs[n].0, pairs[n].1) == Ok::<TypeTag, StoreError>(tags[n]));
        assert(after.bindings == before.bindings.insert(last_key, pairs[n].1));
        assert forall|q: (usize, TypeTag)| bound_by(pairs, tags, q) <==> bound_by(
            head,
            head_tags,
            q,
        ) || q == last_key by {
            if bound_by(head, head_tags, q) {
                let j = choose|j: int| 0 <= j < head.len() && (#[trigger] head[j].0.id, head_tags[j]) == q;
                assert(head[j] == pairs[j]);
                assert((pairs[j].0.id, tags[j]) == q);
            }
            if q == last_key {
                assert((pairs[n].0.id, tags[n]) == q);
            }
            if bound_by(pairs, tags, q) {
                let j = choose|j: int| 0 <= j < pairs.len() && (#[trigger] pairs[j].0.id, tags[j]) == q;
                if j < n {
                    assert(head[j] == pairs[j]);
                    assert((head[j].0.id, head_tags[j]) == q);
                }
            }
        }
        assert forall|j: int| 0 <= j < pairs.len() implies {
            &&& after.bindings.contains_key((#[trigger] pairs[j].0.id, tags[j]))
            &&& after.bindings[(pairs[j].0.id, tags[j])] == pairs[j].1
        } by {
            if j < n {
                assert(head[j] == pairs[j]);
                assert((pairs[j].0.id, tags[j]) != (pairs[n].0.id, tags[n]));
                assert(before.bindings.contains_key((head[j].0.id, head_tags[j])));
            }
        }
        assert forall|q: (usize, TypeTag)| #[trigger]
            after.bindings.contains_key(q) <==> w.bindings.contains_key(q) || bound_by(
                pairs,
                tags,
                q,
            ) by {
            assert(before.bindings.contains_key(q) <==> w.bindings.contains_key(q) || bound_by(
                head,
                head_tags,
                q,
            ));
        }
        assert forall|q: (usize, TypeTag)| !bound_by(pairs, tags, q) implies #[trigger]
            after.bindings[q] == w.bindings[q] by {
            assert(!bound_by(head, head_tags, q));
            assert(before.bindings[q] == w.bindings[q]);
        }
    }
}

/// Binding changes neither the entities nor the components.
pub proof fn lemma_frame_of_bind_all(w: WorldModel, pairs: Seq<(Key, Key)>)
    ensures
        w.bind_all(pairs).components == w.components,
        w.bind_all(pairs).entities == w.entities,
        w.bind_all(pairs).tick_number == w.tick_number,
        w.bind_all(pairs).stars == w.stars,
        w.bind_all(pairs).planets == w.planets,
        w.bind_all(pairs).moons == w.moons,
    decreases pairs.len(),
{
    if pairs.len() > 0 {
        lemma_frame_of_bind_all(w, pairs.drop_last());
    }
}

} // verus!
