//! The model of the generated scene: what it is for a body to be a star or
//! to be in orbit, and what a world is once bodies were generated in it.

use crate::component::model::StoreModel;
use crate::component::moon::Moon;
use crate::component::orbit::SelestialOrbit;
use crate::component::planet::Planet;
use crate::component::pos::{SelestialPos, Vector3};
use crate::component::star::Star;
use crate::component::{AnyComponent, Components};
use crate::entity::selestial::OrbitBounds;
use crate::entity::{entities, Entities};
use crate::error::StoreError;
use crate::heap::laws::law_batch_equivalence;
use crate::heap::model::{lemma_alloc_n_keys_ids, Key};
use crate::heap::HeapElemId;
use crate::type_tag::TypeTag;
use crate::world::model::{
    bound_by, lemma_bind_all_bindings, lemma_extends_trans, lemma_owns_kept, lemma_positions_each,
    lemma_positions_ok, lemma_value_kept, position_at, positions_at, WorldModel,
};
use crate::world::{keys_of, pairs_of};
use vstd::arithmetic::div_mod::{lemma_div_pos_is_pos, lemma_multiply_divide_lt};
use vstd::prelude::*;

verus! {

/// The position of every star: the origin.
pub open spec fn origin() -> SelestialPos {
    SelestialPos { pos: Vector3 { x: 0, y: 0, z: 0 } }
}

/// Whether `body` is a star of `w`: it owns the mark of a star and a position
/// at the origin, and nothing else.
pub open spec fn is_star(w: WorldModel, body: Key) -> bool {
    &&& w.value_of(body, TypeTag::Star) == Ok::<AnyComponent, StoreError>(
        AnyComponent::Star(Star {  }),
    )
    &&& w.value_of(body, TypeTag::SelestialPos) == Ok::<AnyComponent, StoreError>(
        AnyComponent::Pos(origin()),
    )
    &&& w.owns_only(body, set![TypeTag::Star, TypeTag::SelestialPos])
}

/// A star stays one while it owns what it owned and the components are only
/// extended.
pub proof fn lemma_star_kept(later: WorldModel, earlier: WorldModel, body: Key)
    requires
        later.components.extends(earlier.components),
        later.same_bindings_of(earlier, body.id),
        is_star(earlier, body),
    ensures
        is_star(later, body),
        position_of(later, body) == position_of(earlier, body),
        position_at(later, position_of(later, body)) == Ok::<SelestialPos, StoreError>(origin()),
{
    lemma_value_kept(later, earlier, body, TypeTag::Star);
    lemma_value_kept(later, earlier, body, TypeTag::SelestialPos);
    lemma_owns_kept(later, earlier, body, set![TypeTag::Star, TypeTag::SelestialPos]);
}

/// The position component that `body` owns.
pub open spec fn position_of(w: WorldModel, body: Key) -> Key {
    w.bindings[(body.id, TypeTag::SelestialPos)]
}

/// Whether `fanout` bodies can be generated round each of `parents`, and if
/// not, why not: a parent owns no position, the position of a parent cannot
/// be read, or the world cannot create as many entities, or three times as
/// many components.
pub open spec fn generation_check(w: WorldModel, parents: Seq<Key>, fanout: nat) -> Result<
    (),
    StoreError,
> {
    match w.components_of(parents, TypeTag::SelestialPos) {
        Err(e) => Err(e),
        Ok(hosts) => match positions_at(w, hosts) {
            Err(e) => Err(e),
            Ok(_) => if w.entities.can_issue(parents.len() * fanout)
                && w.components.heap.can_issue(3 * (parents.len() * fanout)) {
                Ok(())
            } else {
                Err(StoreError::Exhausted)
            },
        },
    }
}

/// Whether `body` is a body of `w` in orbit round the position component
/// `host`: it owns `mark`, an orbit round `host` that `bounds` admits, and a
/// position that `place` gives for that orbit and the position `host_pos`;
/// and it owns nothing else.
pub open spec fn is_satellite<F: Fn(SelestialOrbit, SelestialPos) -> SelestialPos>(
    w: WorldModel,
    body: Key,
    mark: AnyComponent,
    host: Key,
    host_pos: SelestialPos,
    bounds: OrbitBounds,
    place: F,
) -> bool {
    &&& w.value_of(body, mark.tag()) == Ok::<AnyComponent, StoreError>(mark)
    &&& match w.value_of(body, TypeTag::SelestialOrbit) {
        Ok(AnyComponent::Orbit(orbit)) => {
            &&& orbit.center_component@ == host
            &&& bounds.admits(orbit)
            &&& match w.value_of(body, TypeTag::SelestialPos) {
                Ok(AnyComponent::Pos(pos)) => call_ensures(place, (orbit, host_pos), pos),
                _ => false,
            }
        },
        _ => false,
    }
    &&& w.owns_only(body, set![mark.tag(), TypeTag::SelestialPos, TypeTag::SelestialOrbit])
}

/// A body in orbit stays one while it owns what it owned and the components
/// are only extended.
pub proof fn lemma_satellite_kept<F: Fn(SelestialOrbit, SelestialPos) -> SelestialPos>(
    later: WorldModel,
    earlier: WorldModel,
    body: Key,
    mark: AnyComponent,
    host: Key,
    host_pos: SelestialPos,
    bounds: OrbitBounds,
    place: F,
)
    requires
        later.components.extends(earlier.components),
        later.same_bindings_of(earlier, body.id),
        is_satellite(earlier, body, mark, host, host_pos, bounds, place),
    ensures
        is_satellite(later, body, mark, host, host_pos, bounds, place),
{
    lemma_value_kept(later, earlier, body, mark.tag());
    lemma_value_kept(later, earlier, body, TypeTag::SelestialOrbit);
    lemma_value_kept(later, earlier, body, TypeTag::SelestialPos);
    lemma_owns_kept(
        later,
        earlier,
        body,
        set![mark.tag(), TypeTag::SelestialPos, TypeTag::SelestialOrbit],
    );
}

/// Whether the position components of `bodies` in `later` are new since
/// `earlier`, and no two bodies share one.
pub open spec fn positions_fresh(earlier: WorldModel, later: WorldModel, bodies: Seq<Key>) -> bool {
    &&& forall|i: int|
        0 <= i < bodies.len() ==> earlier.components.heap.issued <= position_of(
            later,
            #[trigger] bodies[i],
        ).id
    &&& forall|i: int, j: int|
        0 <= i < j < bodies.len() ==> position_of(later, #[trigger] bodies[i]).id != position_of(
            later,
            #[trigger] bodies[j],
        ).id
}

/// Whether `later` is `earlier` with `fanout` new bodies round each of
/// `parents`: the bodies are new entities, in the order of their parents;
/// the body `i` is in orbit round the position of the parent `i / fanout`,
/// as that position was in `earlier`; each body has a position component of
/// its own; and nothing else has changed but the lists of bodies.
pub open spec fn satellites_made<F: Fn(SelestialOrbit, SelestialPos) -> SelestialPos>(
    earlier: WorldModel,
    later: WorldModel,
    parents: Seq<Key>,
    fanout: nat,
    bodies: Seq<Key>,
    mark: AnyComponent,
    bounds: OrbitBounds,
    place: F,
) -> bool {
    let total = parents.len() * fanout;
    let hosts = earlier.components_of(parents, TypeTag::SelestialPos).unwrap();
    let at = positions_at(earlier, hosts).unwrap();
    &&& generation_check(earlier, parents, fanout) is Ok
    &&& bodies.len() == total
    &&& forall|i: int| 0 <= i < total ==> #[trigger] bodies[i] == earlier.entities.alloc_n_keys(total)[i]
    &&& forall|i: int|
        0 <= i < total ==> is_satellite(
            later,
            #[trigger] bodies[i],
            mark,
            hosts[i / fanout as int],
            at[i / fanout as int],
            bounds,
            place,
        )
    &&& positions_fresh(earlier, later, bodies)
    &&& later.entities == earlier.entities.alloc_each(entities(total))
    &&& later.components.extends(earlier.components)
    &&& later.components.heap.issued == earlier.components.heap.issued + 3 * total
    &&& forall|entity: usize|
        entity < earlier.entities.issued ==> #[trigger] later.same_bindings_of(earlier, entity)
    &&& later.tick_number == earlier.tick_number
}

/// What was made stays made when nothing changes but the lists of bodies.
pub proof fn lemma_made_listed<F: Fn(SelestialOrbit, SelestialPos) -> SelestialPos>(
    earlier: WorldModel,
    made: WorldModel,
    listed: WorldModel,
    parents: Seq<Key>,
    fanout: nat,
    bodies: Seq<Key>,
    mark: AnyComponent,
    bounds: OrbitBounds,
    place: F,
)
    requires
        satellites_made(earlier, made, parents, fanout, bodies, mark, bounds, place),
        listed.entities == made.entities,
        listed.components == made.components,
        listed.bindings == made.bindings,
        listed.tick_number == made.tick_number,
    ensures
        satellites_made(earlier, listed, parents, fanout, bodies, mark, bounds, place),
{
    let total = parents.len() * fanout;
    let hosts = earlier.components_of(parents, TypeTag::SelestialPos).unwrap();
    let at = positions_at(earlier, hosts).unwrap();
    lemma_extends_trans(made.components, made.components, made.components);
    assert forall|entity: usize| entity < earlier.entities.issued implies #[trigger]
        listed.same_bindings_of(earlier, entity) by {
        assert(made.same_bindings_of(earlier, entity));
    }
    assert forall|i: int| 0 <= i < bodies.len() implies position_of(listed, #[trigger] bodies[i])
        == position_of(made, bodies[i]) by {}
    assert forall|i: int| 0 <= i < total implies is_satellite(
        listed,
        #[trigger] bodies[i],
        mark,
        hosts[i / fanout as int],
        at[i / fanout as int],
        bounds,
        place,
    ) by {
        assert(listed.same_bindings_of(made, bodies[i].id));
        lemma_satellite_kept(
            listed,
            made,
            bodies[i],
            mark,
            hosts[i / fanout as int],
            at[i / fanout as int],
            bounds,
            place,
        );
    }
}

/// The body `i` of `parents * fanout` bodies has a parent.
pub proof fn lemma_parent_index(i: int, fanout: nat, parents: nat)
    requires
        0 <= i < parents * fanout,
    ensures
        0 < fanout,
        0 <= i / (fanout as int),
        i / (fanout as int) < parents,
{
    assert(0 < fanout && i < fanout * parents) by (nonlinear_arith)
        requires
            0 <= i < parents * fanout,
    ;
    lemma_multiply_divide_lt(i, fanout as int, parents as int);
    lemma_div_pos_is_pos(i, fanout as int);
}

/// A body with a position that can be read can be the host of an orbit.
pub proof fn lemma_parents_placed(w: WorldModel, parents: Seq<Key>)
    requires
        forall|i: int|
            0 <= i < parents.len() ==> w.value_of(#[trigger] parents[i], TypeTag::SelestialPos)
                is Ok,
        w.components.wf(),
    ensures
        w.components_of(parents, TypeTag::SelestialPos) is Ok,
        positions_at(w, w.components_of(parents, TypeTag::SelestialPos).unwrap()) is Ok,
        w.components_of(parents, TypeTag::SelestialPos).unwrap().len() == parents.len(),
        positions_at(w, w.components_of(parents, TypeTag::SelestialPos).unwrap()).unwrap().len()
            == parents.len(),
        forall|i: int|
            0 <= i < parents.len() ==> {
                &&& w.components_of(parents, TypeTag::SelestialPos).unwrap()[i] == position_of(
                    w,
                    #[trigger] parents[i],
                )
                &&& position_at(w, position_of(w, parents[i])) == Ok::<SelestialPos, StoreError>(
                    positions_at(w, w.components_of(parents, TypeTag::SelestialPos).unwrap()).unwrap()[i],
                )
            },
{
    assert forall|i: int| 0 <= i < parents.len() implies w.bindings.contains_key(
        (#[trigger] parents[i].id, TypeTag::SelestialPos),
    ) by {
        assert(w.value_of(parents[i], TypeTag::SelestialPos) is Ok);
    }
    let hosts = w.components_of(parents, TypeTag::SelestialPos).unwrap();
    assert forall|i: int| 0 <= i < hosts.len() implies position_at(w, #[trigger] hosts[i]) is Ok by {
        assert(w.value_of(parents[i], TypeTag::SelestialPos) is Ok);
        let key = hosts[i];
        assert(w.components.read_as(key, TypeTag::SelestialPos) is Ok);
        assert(w.components.heap.live.contains_key(key.id));
    }
    lemma_positions_ok(w, hosts);
    lemma_positions_each(w, hosts);
}

/// Whether a world with `stars` stars, `planets_per_star` planets round each
/// and `moons_per_planet` moons round each of those can be generated: whether
/// the identifiers of the entities and of the components suffice.
pub open spec fn scene_fits(stars: nat, planets_per_star: nat, moons_per_planet: nat) -> bool {
    let planets = stars * planets_per_star;
    let moons = planets * moons_per_planet;
    &&& stars + planets + moons <= usize::MAX
    &&& 2 * stars + 3 * planets + 3 * moons <= usize::MAX
}

/// Whether `w` is a generated scene: every star is a star; every planet is in
/// orbit round the position of its star, `planets_per_star` of them round
/// each star in the order of the stars; and every moon is in orbit round the
/// position of its planet in the same way.
pub open spec fn is_scene<F: Fn(SelestialOrbit, SelestialPos) -> SelestialPos>(
    w: WorldModel,
    planets_per_star: nat,
    moons_per_planet: nat,
    planets_from: OrbitBounds,
    moons_from: OrbitBounds,
    place: F,
) -> bool {
    &&& w.planets.len() == w.stars.len() * planets_per_star
    &&& w.moons.len() == w.planets.len() * moons_per_planet
    &&& forall|i: int| 0 <= i < w.stars.len() ==> is_star(w, #[trigger] w.stars[i])
    &&& forall|i: int|
        0 <= i < w.planets.len() ==> is_satellite(
            w,
            #[trigger] w.planets[i],
            AnyComponent::Planet(Planet {  }),
            position_of(w, w.stars[i / planets_per_star as int]),
            origin(),
            planets_from,
            place,
        )
    &&& forall|i: int|
        0 <= i < w.moons.len() ==> is_satellite(
            w,
            #[trigger] w.moons[i],
            AnyComponent::Moon(Moon {  }),
            position_of(w, w.planets[i / moons_per_planet as int]),
            position_at(w, position_of(w, w.planets[i / moons_per_planet as int])).unwrap(),
            moons_from,
            place,
        )
}

/// The type under which the pair `j` of the components of the moons is bound.
pub open spec fn moon_pair_tag(j: int) -> TypeTag {
    if j % 3 == 0 {
        TypeTag::Moon
    } else if j % 3 == 1 {
        TypeTag::SelestialPos
    } else {
        TypeTag::SelestialOrbit
    }
}

/// Whether the pairs `3 * i`, `3 * i + 1` and `3 * i + 2` of `pairs` are the
/// mark, the position and the orbit of the moon `i` of `moons`, stored in `c`.
pub open spec fn moon_components_stored(
    c: StoreModel,
    moons: Seq<(HeapElemId<Entities>, SelestialPos, SelestialOrbit)>,
    pairs: Seq<(HeapElemId<Entities>, HeapElemId<Components>)>,
    i: int,
) -> bool {
    &&& pairs[3 * i].0 == moons[i].0
    &&& pairs[3 * i + 1].0 == moons[i].0
    &&& pairs[3 * i + 2].0 == moons[i].0
    &&& c.read_as(pairs[3 * i].1@, TypeTag::Moon) == Ok::<AnyComponent, StoreError>(
        AnyComponent::Moon(Moon {  }),
    )
    &&& c.read_as(pairs[3 * i + 1].1@, TypeTag::SelestialPos) == Ok::<AnyComponent, StoreError>(
        AnyComponent::Pos(moons[i].1),
    )
    &&& c.read_as(pairs[3 * i + 2].1@, TypeTag::SelestialOrbit) == Ok::<AnyComponent, StoreError>(
        AnyComponent::Orbit(moons[i].2),
    )
}

/// Whether the three pairs pair `body` with the mark of a moon, with a
/// position and with an orbit round `host`, stored in `c`.
pub open spec fn moon_stored<F: Fn(SelestialOrbit, SelestialPos) -> SelestialPos>(
    c: StoreModel,
    body: Key,
    mark: (HeapElemId<Entities>, HeapElemId<Components>),
    pos: (HeapElemId<Entities>, HeapElemId<Components>),
    orbit: (HeapElemId<Entities>, HeapElemId<Components>),
    host: Key,
    host_pos: SelestialPos,
    bounds: OrbitBounds,
    place: F,
) -> bool {
    &&& mark.0@ == body
    &&& pos.0@ == body
    &&& orbit.0@ == body
    &&& c.read_as(mark.1@, TypeTag::Moon) == Ok::<AnyComponent, StoreError>(
        AnyComponent::Moon(Moon {  }),
    )
    &&& match c.read_as(orbit.1@, TypeTag::SelestialOrbit) {
        Ok(AnyComponent::Orbit(drawn)) => {
            &&& drawn.center_component@ == host
            &&& bounds.admits(drawn)
            &&& match c.read_as(pos.1@, TypeTag::SelestialPos) {
                Ok(AnyComponent::Pos(placed)) => call_ensures(place, (drawn, host_pos), placed),
                _ => false,
            }
        },
        _ => false,
    }
}

/// Whether `w2` is `w0` with `total` new entities and, stored but not yet
/// bound, the components of a moon for each of them: the pairs `3 * i`,
/// `3 * i + 1` and `3 * i + 2` of `stored` pair the new entity `i` with a
/// mark, with a position and with an orbit round `hosts[i / fanout]` that
/// `bounds` admits, the position being one that `place` gives for the orbit
/// and `at[i / fanout]`.
pub open spec fn moons_stored<F: Fn(SelestialOrbit, SelestialPos) -> SelestialPos>(
    w0: WorldModel,
    w2: WorldModel,
    hosts: Seq<Key>,
    at: Seq<SelestialPos>,
    fanout: nat,
    total: nat,
    stored: Seq<(HeapElemId<Entities>, HeapElemId<Components>)>,
    bounds: OrbitBounds,
    place: F,
) -> bool {
    &&& w2 == (WorldModel {
        entities: w0.entities.alloc_each(entities(total)),
        components: w2.components,
        ..w0
    })
    &&& w2.components.extends(w0.components)
    &&& w2.components.heap.issued == w0.components.heap.issued + 3 * total
    &&& stored.len() == 3 * total
    &&& forall|i: int|
        0 <= i < total ==> (#[trigger] stored[3 * i + 1]).1@.id == w0.components.heap.issued
            + total + i
    &&& forall|i: int|
        0 <= i < total ==> moon_stored(
            w2.components,
            #[trigger] w0.entities.alloc_n_keys(total)[i],
            stored[3 * i],
            stored[3 * i + 1],
            stored[3 * i + 2],
            hosts[i / fanout as int],
            at[i / fanout as int],
            bounds,
            place,
        )
}

/// The position of the planet of every moon can be read once the entities
/// of the moons are created, and is what it was.
pub(crate) proof fn lemma_moons_placeable(
    w0: WorldModel,
    w1: WorldModel,
    hosts: Seq<Key>,
    fanout: nat,
    paired: Seq<(HeapElemId<Entities>, HeapElemId<Components>)>,
    host_ids: Seq<HeapElemId<Components>>,
)
    requires
        hosts == keys_of(host_ids),
        paired.len() == host_ids.len() * fanout,
        w1.components == w0.components,
        forall|s: int| 0 <= s < hosts.len() ==> position_at(w0, #[trigger] hosts[s]) is Ok,
        forall|i: int|
            0 <= i < paired.len() ==> (#[trigger] paired[i]).1 == host_ids[i / fanout as int],
    ensures
        forall|i: int| 0 <= i < paired.len() ==> position_at(w1, (#[trigger] paired[i]).1@) is Ok,
{
    assert forall|i: int| 0 <= i < paired.len() implies position_at(
        w1,
        (#[trigger] paired[i]).1@,
    ) is Ok by {
        lemma_parent_index(i, fanout, host_ids.len());
        assert(hosts[i / fanout as int] == paired[i].1@);
    }
}

/// What the batches have stored is the components of the moons.
pub(crate) proof fn lemma_moons_stored<F: Fn(SelestialOrbit, SelestialPos) -> SelestialPos>(
    w0: WorldModel,
    w1: WorldModel,
    w2: WorldModel,
    host_ids: Seq<HeapElemId<Components>>,
    at: Seq<SelestialPos>,
    fanout: nat,
    paired: Seq<(HeapElemId<Entities>, HeapElemId<Components>)>,
    made: Seq<(HeapElemId<Entities>, SelestialPos, SelestialOrbit)>,
    stored: Seq<(HeapElemId<Entities>, HeapElemId<Components>)>,
    bounds: OrbitBounds,
    place: F,
)
    requires
        w1 == (WorldModel { entities: w0.entities.alloc_each(entities(paired.len())), ..w0 }),
        paired.len() == host_ids.len() * fanout,
        at.len() == host_ids.len(),
        forall|s: int|
            0 <= s < host_ids.len() ==> position_at(w0, #[trigger] keys_of(host_ids)[s]) == Ok::<
                SelestialPos,
                StoreError,
            >(at[s]),
        forall|i: int|
            0 <= i < paired.len() ==> {
                &&& (#[trigger] paired[i]).0@ == w0.entities.alloc_n_keys(paired.len())[i]
                &&& paired[i].1 == host_ids[i / fanout as int]
            },
        made.len() == paired.len(),
        forall|i: int|
            0 <= i < made.len() ==> {
                &&& (#[trigger] made[i]).0 == paired[i].0
                &&& made[i].2.center_component == paired[i].1
                &&& bounds.admits(made[i].2)
                &&& call_ensures(place, (made[i].2, position_at(w1, paired[i].1@).unwrap()), made[i].1)
            },
        w2 == (WorldModel { components: w2.components, ..w1 }),
        w2.components.extends(w1.components),
        w2.components.heap.issued == w1.components.heap.issued + 3 * paired.len(),
        stored.len() == 3 * paired.len(),
        forall|i: int| 0 <= i < paired.len() ==> moon_components_stored(w2.components, made, stored, i),
        forall|i: int|
            0 <= i < paired.len() ==> (#[trigger] stored[3 * i + 1]).1@.id
                == w1.components.heap.issued + paired.len() + i,
    ensures
        moons_stored(
            w0,
            w2,
            keys_of(host_ids),
            at,
            fanout,
            paired.len(),
            stored,
            bounds,
            place,
        ),
{
    let total = paired.len();
    let hosts = keys_of(host_ids);
    assert forall|i: int| 0 <= i < total implies moon_stored(
        w2.components,
        #[trigger] w0.entities.alloc_n_keys(total)[i],
        stored[3 * i],
        stored[3 * i + 1],
        stored[3 * i + 2],
        hosts[i / fanout as int],
        at[i / fanout as int],
        bounds,
        place,
    ) by {
        lemma_parent_index(i, fanout, host_ids.len());
        let s = i / fanout as int;
        assert(moon_components_stored(w2.components, made, stored, i));
        assert(made[i].0 == paired[i].0);
        assert(paired[i].1 == host_ids[s]);
        assert(hosts[s] == host_ids[s]@);
        assert(position_at(w0, hosts[s]) == Ok::<SelestialPos, StoreError>(at[s]));
        assert(position_at(w1, paired[i].1@) == position_at(w0, hosts[s]));
    }
}

/// The pairs of what is stored for the moons can all be bound, each under
/// the type of its place among the three of its moon, and no two of them
/// under the same key.
pub(crate) proof fn lemma_moon_pairs<F: Fn(SelestialOrbit, SelestialPos) -> SelestialPos>(
    w0: WorldModel,
    w2: WorldModel,
    hosts: Seq<Key>,
    at: Seq<SelestialPos>,
    fanout: nat,
    total: nat,
    stored: Seq<(HeapElemId<Entities>, HeapElemId<Components>)>,
    bounds: OrbitBounds,
    place: F,
)
    requires
        w0.wf(),
        w2.wf(),
        w0.entities.can_issue(total),
        moons_stored(w0, w2, hosts, at, fanout, total, stored, bounds, place),
    ensures
        pairs_of(stored).len() == 3 * total,
        forall|j: int|
            0 <= j < 3 * total ==> {
                &&& w2.bind_check((#[trigger] pairs_of(stored)[j]).0, pairs_of(stored)[j].1) == Ok::<
                    TypeTag,
                    StoreError,
                >(moon_pair_tag(j))
                &&& pairs_of(stored)[j].0.id == w0.entities.issued + j / 3
            },
        w2.bind_all_check(pairs_of(stored)) is Ok,
{
    let pairs = pairs_of(stored);
    let tags = Seq::new(pairs.len(), |j: int| moon_pair_tag(j));
    lemma_alloc_n_keys_ids(w0.entities, total);
    law_batch_equivalence(w0.entities, entities(total));
    assert forall|j: int| 0 <= j < 3 * total implies {
        &&& w2.bind_check((#[trigger] pairs[j]).0, pairs[j].1) == Ok::<TypeTag, StoreError>(
            moon_pair_tag(j),
        )
        &&& pairs[j].0.id == w0.entities.issued + j / 3
    } by {
        let i = j / 3;
        let body = w0.entities.alloc_n_keys(total)[i];
        assert(moon_stored(
            w2.components,
            body,
            stored[3 * i],
            stored[3 * i + 1],
            stored[3 * i + 2],
            hosts[i / fanout as int],
            at[i / fanout as int],
            bounds,
            place,
        ));
        assert(w2.entities.read(body) is Ok);
        assert(pairs[j] == (stored[j].0@, stored[j].1@));
        if j % 3 == 0 {
            assert(j == 3 * i);
        } else if j % 3 == 1 {
            assert(j == 3 * i + 1);
        } else {
            assert(j == 3 * i + 2);
        }
    }
    assert forall|j: int| 0 <= j < pairs.len() implies w2.bind_check(
        (#[trigger] pairs[j]).0,
        pairs[j].1,
    ) == Ok::<TypeTag, StoreError>(tags[j]) by {}
    assert forall|j: int, k: int| 0 <= j < k < pairs.len() implies (
        #[trigger] pairs[j].0.id,
        tags[j],
    ) != (#[trigger] pairs[k].0.id, tags[k]) by {
        assert(pairs[j].0.id == w0.entities.issued + j / 3);
        assert(pairs[k].0.id == w0.entities.issued + k / 3);
    }
    lemma_bind_all_bindings(w2, pairs, tags);
}

/// Once the stored components of the moons are bound, the moons are made.
pub(crate) proof fn lemma_moons_bound<F: Fn(SelestialOrbit, SelestialPos) -> SelestialPos>(
    w0: WorldModel,
    w2: WorldModel,
    w3: WorldModel,
    parents: Seq<Key>,
    hosts: Seq<Key>,
    at: Seq<SelestialPos>,
    fanout: nat,
    total: nat,
    stored: Seq<(HeapElemId<Entities>, HeapElemId<Components>)>,
    bodies: Seq<Key>,
    bounds: OrbitBounds,
    place: F,
)
    requires
        w0.wf(),
        w2.wf(),
        total == parents.len() * fanout,
        w0.entities.can_issue(total),
        generation_check(w0, parents, fanout) is Ok,
        w0.components_of(parents, TypeTag::SelestialPos) == Ok::<Seq<Key>, StoreError>(hosts),
        positions_at(w0, hosts) == Ok::<Seq<SelestialPos>, StoreError>(at),
        moons_stored(w0, w2, hosts, at, fanout, total, stored, bounds, place),
        w3.entities == w2.entities,
        w3.components == w2.components,
        w3.tick_number == w2.tick_number,
        w3.bindings == w2.bind_all(pairs_of(stored)).bindings,
        bodies.len() == total,
        forall|i: int| 0 <= i < total ==> #[trigger] bodies[i] == w0.entities.alloc_n_keys(total)[i],
    ensures
        satellites_made(
            w0,
            w3,
            parents,
            fanout,
            bodies,
            AnyComponent::Moon(Moon {  }),
            bounds,
            place,
        ),
{
    let pairs = pairs_of(stored);
    let tags = Seq::new(pairs.len(), |j: int| moon_pair_tag(j));
    let first = w0.entities.issued;
    let mark = AnyComponent::Moon(Moon {  });
    lemma_moon_pairs(w0, w2, hosts, at, fanout, total, stored, bounds, place);
    lemma_alloc_n_keys_ids(w0.entities, total);
    assert forall|j: int| 0 <= j < pairs.len() implies w2.bind_check(
        (#[trigger] pairs[j]).0,
        pairs[j].1,
    ) == Ok::<TypeTag, StoreError>(tags[j]) by {}
    assert forall|j: int, k: int| 0 <= j < k < pairs.len() implies (
        #[trigger] pairs[j].0.id,
        tags[j],
    ) != (#[trigger] pairs[k].0.id, tags[k]) by {
        assert(pairs[j].0.id == first + j / 3);
        assert(pairs[k].0.id == first + k / 3);
    }
    lemma_bind_all_bindings(w2, pairs, tags);
    assert forall|q: (usize, TypeTag)| bound_by(pairs, tags, q) implies first <= q.0 < first
        + total && (q.1 == TypeTag::Moon || q.1 == TypeTag::SelestialPos || q.1
        == TypeTag::SelestialOrbit) by {
        let j = choose|j: int| 0 <= j < pairs.len() && (#[trigger] pairs[j].0.id, tags[j]) == q;
        assert(pairs[j].0.id == first + j / 3);
        assert(tags[j] == moon_pair_tag(j));
    }
    assert forall|entity: usize| entity < first implies #[trigger] w3.same_bindings_of(
        w0,
        entity,
    ) by {
        assert forall|tag: TypeTag|
            {
                &&& #[trigger] w3.bindings.contains_key((entity, tag)) == w0.bindings.contains_key(
                    (entity, tag),
                )
                &&& w3.bindings.contains_key((entity, tag)) ==> w3.bindings[(entity, tag)]
                    == w0.bindings[(entity, tag)]
            } by {
            let q = (entity, tag);
            assert(!bound_by(pairs, tags, q));
            assert(w3.bindings.contains_key(q) <==> w2.bindings.contains_key(q) || bound_by(
                pairs,
                tags,
                q,
            ));
            assert(w3.bindings[q] == w2.bindings[q]);
        }
    }
    assert forall|i: int| 0 <= i < total implies is_satellite(
        w3,
        #[trigger] bodies[i],
        mark,
        hosts[i / fanout as int],
        at[i / fanout as int],
        bounds,
        place,
    ) by {
        let body = bodies[i];
        assert(body == w0.entities.alloc_n_keys(total)[i]);
        assert(moon_stored(
            w2.components,
            w0.entities.alloc_n_keys(total)[i],
            stored[3 * i],
            stored[3 * i + 1],
            stored[3 * i + 2],
            hosts[i / fanout as int],
            at[i / fanout as int],
            bounds,
            place,
        ));
        assert(body.id == first + i);
        assert(pairs[3 * i] == (body, stored[3 * i].1@));
        assert(pairs[3 * i + 1] == (body, stored[3 * i + 1].1@));
        assert(pairs[3 * i + 2] == (body, stored[3 * i + 2].1@));
        assert(tags[3 * i] == TypeTag::Moon);
        assert(tags[3 * i + 1] == TypeTag::SelestialPos);
        assert(tags[3 * i + 2] == TypeTag::SelestialOrbit);
        assert(w3.bindings.contains_key((pairs[3 * i].0.id, tags[3 * i])));
        assert(w3.bindings.contains_key((pairs[3 * i + 1].0.id, tags[3 * i + 1])));
        assert(w3.bindings.contains_key((pairs[3 * i + 2].0.id, tags[3 * i + 2])));
        assert forall|tag: TypeTag| #[trigger]
            w3.bindings.contains_key((body.id, tag)) <==> set![
                TypeTag::Moon,
                TypeTag::SelestialPos,
                TypeTag::SelestialOrbit,
            ].contains(tag) by {
            let q = (body.id, tag);
            assert(w3.bindings.contains_key(q) <==> w2.bindings.contains_key(q) || bound_by(
                pairs,
                tags,
                q,
            ));
            assert(!w0.bindings.contains_key(q));
            if tag == TypeTag::Moon {
                assert((pairs[3 * i].0.id, tags[3 * i]) == q);
            }
            if tag == TypeTag::SelestialPos {
                assert((pairs[3 * i + 1].0.id, tags[3 * i + 1]) == q);
            }
            if tag == TypeTag::SelestialOrbit {
                assert((pairs[3 * i + 2].0.id, tags[3 * i + 2]) == q);
            }
        }
    }
    assert forall|i: int| 0 <= i < total implies position_of(w3, #[trigger] bodies[i]).id
        == w0.components.heap.issued + total + i by {
        let body = bodies[i];
        assert(moon_stored(
            w2.components,
            w0.entities.alloc_n_keys(total)[i],
            stored[3 * i],
            stored[3 * i + 1],
            stored[3 * i + 2],
            hosts[i / fanout as int],
            at[i / fanout as int],
            bounds,
            place,
        ));
        assert(pairs[3 * i + 1] == (body, stored[3 * i + 1].1@));
        assert(tags[3 * i + 1] == TypeTag::SelestialPos);
        assert(w3.bindings[(pairs[3 * i + 1].0.id, tags[3 * i + 1])] == pairs[3 * i + 1].1);
    }
}

} // verus!
