//! The generator of the scene: stars, planets round them, moons round those.

use crate::component::moon::Moon;
use crate::component::orbit::{SelestialOrbit, SelestialOrbitDirectopn, Tilt};
use crate::component::planet::Planet;
use crate::component::pos::SelestialPos;
use crate::component::star::Star;
use crate::component::{AnyComponent, Components};
use crate::entity::selestial::model::{
    generation_check, is_satellite, is_star, lemma_made_listed, lemma_moon_pairs,
    lemma_moons_bound, lemma_moons_placeable, lemma_moons_stored, lemma_satellite_kept,
    moon_components_stored, origin, position_of, satellites_made,
};
use crate::entity::{entities, Entities};
use crate::error::StoreError;
use crate::heap::laws::law_batch_equivalence;
use crate::heap::model::{lemma_alloc_n_keys_ids, Key};
use crate::heap::HeapElemId;
use crate::random::{random_isize, random_u64, random_usize};
use crate::type_tag::TypeTag;
use crate::world::model::{
    lemma_create, lemma_extends_reads, lemma_extends_trans, lemma_frame_of_bind_all,
    lemma_grown_trans, lemma_owns_kept, lemma_position_kept, lemma_positions_each,
    lemma_positions_fail, lemma_put_extends, lemma_put_reads, lemma_store_alloc_n_keys,
    lemma_value_kept, position_at, positions_at, WorldModel,
};
use crate::world::{dangling, keys_of, pairs_of, World};
use vstd::arithmetic::div_mod::lemma_multiply_divide_lt;
use vstd::prelude::*;

pub mod laws;
pub mod model;

verus! {

pub const SECONDS_IN_HOUR: u64 = 60 * 60;

pub const SECONDS_IN_DAY: u64 = SECONDS_IN_HOUR * 24;

/// A month of thirty days.
pub const SECONDS_IN_MONTH: u64 = SECONDS_IN_DAY * 30;

/// The astronomical unit, in metres.
pub const METERS_IN_ONE_AU_U64: u64 = 149_597_870_691;

/// The light year, in astronomical units.
pub const AUS_IN_ONE_LY_U64: u64 = 63_241;

/// The light year, in metres.
pub const METERS_IN_ONE_LY: u64 = AUS_IN_ONE_LY_U64 * METERS_IN_ONE_AU_U64;

/// The size of the scene that the program generates.
pub const N_STARS: usize = 50_000;

pub const N_PLANETS_PER_STAR: usize = 10;

pub const N_MOONS_PER_PLANET: usize = 5;

/// The bound of each angle of the tilt of an orbit, in radians.
pub const ORBIT_AXIS_MAX_TILT: isize = 20;

/// The ranges from which the orbits of one level of the hierarchy are drawn.
/// Each range holds its lower end and not its upper end.
#[derive(Clone, Copy, Debug, PartialEq, Eq, Structural)]
pub struct OrbitBounds {
    pub radius_min: u64,
    pub radius_max: u64,
    pub period_min: u64,
    pub period_max: u64,
    /// Each angle of a tilt is drawn from `-max_tilt` up to `max_tilt`.
    pub max_tilt: isize,
}

impl OrbitBounds {
    /// Whether no range is empty.
    pub open spec fn wf(self) -> bool {
        &&& self.radius_min < self.radius_max
        &&& self.period_min < self.period_max
        &&& 0 < self.max_tilt
    }

    /// Whether `tilt` lies in the range of tilts.
    pub open spec fn admits_tilt(self, tilt: Tilt) -> bool {
        &&& -self.max_tilt <= tilt.roll < self.max_tilt
        &&& -self.max_tilt <= tilt.pitch < self.max_tilt
        &&& -self.max_tilt <= tilt.yaw < self.max_tilt
    }

    /// Whether `orbit` could have been drawn from these ranges.
    pub open spec fn admits(self, orbit: SelestialOrbit) -> bool {
        &&& self.radius_min <= orbit.radius < self.radius_max
        &&& self.period_min <= orbit.period_secs < self.period_max
        &&& self.admits_tilt(orbit.tilt)
        &&& orbit.cycle_secs == 0
    }
}

/// The ranges of the orbits of planets: from one to two hundred astronomical
/// units wide, three months to three years long.
pub open spec fn spec_planet_bounds() -> OrbitBounds {
    OrbitBounds {
        radius_min: METERS_IN_ONE_AU_U64,
        radius_max: (METERS_IN_ONE_AU_U64 * 200) as u64,
        period_min: (3 * SECONDS_IN_MONTH) as u64,
        period_max: (36 * SECONDS_IN_MONTH) as u64,
        max_tilt: ORBIT_AXIS_MAX_TILT,
    }
}

/// The ranges of the orbits of moons: a hundred thousand to a hundred million
/// kilometres wide, three hours to three years long.
pub open spec fn spec_moon_bounds() -> OrbitBounds {
    OrbitBounds {
        radius_min: 100_000_000,
        radius_max: 100_000_000_000,
        period_min: (3 * SECONDS_IN_HOUR) as u64,
        period_max: (36 * SECONDS_IN_MONTH) as u64,
        max_tilt: ORBIT_AXIS_MAX_TILT,
    }
}

#[verifier::when_used_as_spec(spec_planet_bounds)]
pub fn planet_bounds() -> (bounds: OrbitBounds)
    ensures
        bounds.wf(),
        bounds == spec_planet_bounds(),
{
    OrbitBounds {
        radius_min: METERS_IN_ONE_AU_U64,
        radius_max: METERS_IN_ONE_AU_U64 * 200,
        period_min: 3 * SECONDS_IN_MONTH,
        period_max: 36 * SECONDS_IN_MONTH,
        max_tilt: ORBIT_AXIS_MAX_TILT,
    }
}

#[verifier::when_used_as_spec(spec_moon_bounds)]
pub fn moon_bounds() -> (bounds: OrbitBounds)
    ensures
        bounds.wf(),
        bounds == spec_moon_bounds(),
{
    OrbitBounds {
        radius_min: 100_000_000,
        radius_max: 100_000_000_000,
        period_min: 3 * SECONDS_IN_HOUR,
        period_max: 36 * SECONDS_IN_MONTH,
        max_tilt: ORBIT_AXIS_MAX_TILT,
    }
}

/// Draws the tilt of an orbit's axis: three angles, each from `-max_tilt` up
/// to `max_tilt`.
pub fn generate_orbit_tilt(max_tilt: isize) -> (tilt: Tilt)
    requires
        0 < max_tilt,
    ensures
        -max_tilt <= tilt.roll < max_tilt,
        -max_tilt <= tilt.pitch < max_tilt,
        -max_tilt <= tilt.yaw < max_tilt,
{
    let roll = random_isize(-max_tilt, max_tilt);
    let pitch = random_isize(-max_tilt, max_tilt);
    let yaw = random_isize(-max_tilt, max_tilt);
    Tilt::new(roll, pitch, yaw)
}

/// Draws an orbit round the position `center` from the ranges of `bounds`.
pub fn generate_orbit(center: HeapElemId<Components>, bounds: &OrbitBounds) -> (orbit:
    SelestialOrbit)
    requires
        bounds.wf(),
    ensures
        orbit.center_component == center,
        bounds.admits(orbit),
{
    SelestialOrbit::load(
        center,
        generate_orbit_tilt(bounds.max_tilt),
        random_u64(bounds.radius_min, bounds.radius_max),
        random_u64(bounds.period_min, bounds.period_max),
        SelestialOrbitDirectopn::random(random_usize(0, 100)),
        0,
    )
}

/// Draws the orbit of a planet round the position `star_pos_id`.
pub fn generate_planet_orbit(star_pos_id: HeapElemId<Components>) -> (orbit: SelestialOrbit)
    ensures
        orbit.center_component == star_pos_id,
        planet_bounds().admits(orbit),
{
    generate_orbit(star_pos_id, &planet_bounds())
}

/// Draws the orbit of a moon round the position `planet_pos_id`.
pub fn generate_moon_orbit(planet_pos_id: HeapElemId<Components>) -> (orbit: SelestialOrbit)
    ensures
        orbit.center_component == planet_pos_id,
        moon_bounds().admits(orbit),
{
    generate_orbit(planet_pos_id, &moon_bounds())
}

/// The position of a body in orbit `orbit`: what `place` gives for the orbit
/// and the position of its host, as the world holds it.
pub fn generate_orbiting_pos<F: Fn(SelestialOrbit, SelestialPos) -> SelestialPos>(
    world: &World,
    orbit: &SelestialOrbit,
    place: &F,
) -> (res: Result<SelestialPos, StoreError>)
    requires
        world.wf(),
        forall|o: SelestialOrbit, host: SelestialPos| call_requires(*place, (o, host)),
    ensures
        match res {
            Ok(pos) => {
                &&& position_at(world@, orbit.center_component@) is Ok
                &&& call_ensures(
                    *place,
                    (*orbit, position_at(world@, orbit.center_component@).unwrap()),
                    pos,
                )
            },
            Err(e) => position_at(world@, orbit.center_component@) == Err::<
                SelestialPos,
                StoreError,
            >(e),
        },
{
    match world.component::<SelestialPos>(&orbit.center_component) {
        Ok(host_pos) => Ok(place(*orbit, *host_pos)),
        Err(e) => Err(dangling(e)),
    }
}

/// Reads the positions that the components `hosts` hold.
fn read_positions(world: &World, hosts: &Vec<HeapElemId<Components>>) -> (res: Result<
    Vec<SelestialPos>,
    StoreError,
>)
    requires
        world.wf(),
    ensures
        match res {
            Ok(found) => positions_at(world@, keys_of(hosts@)) == Ok::<
                Seq<SelestialPos>,
                StoreError,
            >(found@),
            Err(e) => positions_at(world@, keys_of(hosts@)) == Err::<Seq<SelestialPos>, StoreError>(e),
        },
{
    let n = hosts.len();
    let ghost keys = keys_of(hosts@);
    let mut found: Vec<SelestialPos> = Vec::new();
    let mut i: usize = 0;
    proof {
        assert(keys.take(0) =~= Seq::<Key>::empty());
    }
    while i < n
        invariant
            0 <= i <= n,
            n == hosts.len(),
            keys == keys_of(hosts@),
            world.wf(),
            positions_at(world@, keys.take(i as int)) == Ok::<Seq<SelestialPos>, StoreError>(found@),
        decreases n - i,
    {
        proof {
            assert(keys.take(i + 1).drop_last() =~= keys.take(i as int));
            assert(keys.take(i + 1).last() == hosts[i as int]@);
        }
        match world.component::<SelestialPos>(&hosts[i]) {
            Ok(pos) => {
                found.push(*pos);
            },
            Err(e) => {
                proof {
                    lemma_positions_fail(world@, keys, i as int);
                }
                return Err(dangling(e));
            },
        }
        i += 1;
    }
    proof {
        assert(keys.take(n as int) =~= keys);
    }
    Ok(found)
}

/// How many bodies `fanout` bodies round each of `parents` parents are, where
/// the world can create as many entities and three times as many components.
fn total_bodies(world: &World, parents: usize, fanout: usize) -> (total: Option<usize>)
    requires
        world.wf(),
    ensures
        match total {
            Some(total) => {
                &&& total == parents * fanout
                &&& world@.entities.can_issue(total as nat)
                &&& world@.components.heap.can_issue(3 * total as nat)
            },
            None => !(world@.entities.can_issue((parents * fanout) as nat)
                && world@.components.heap.can_issue((3 * (parents * fanout)) as nat)),
        },
{
    let entities_left = world.entity_ids_left();
    let components_left = world.component_ids_left();
    if parents == 0 || fanout == 0 {
        assert(parents * fanout == 0) by (nonlinear_arith)
            requires
                parents == 0 || fanout == 0,
        ;
        return Some(0);
    }
    match parents.checked_mul(fanout) {
        None => None,
        Some(total) => {
            if total > entities_left || total > components_left / 3 {
                None
            } else {
                Some(total)
            }
        },
    }
}

/// Gives the entity `star_id` the components of a star.
fn alloc_star_components(world: &mut World, star_id: HeapElemId<Entities>) -> (made: (
    HeapElemId<Components>,
    HeapElemId<Components>,
))
    requires
        old(world).wf(),
        old(world)@.components.heap.can_issue(2),
    ensures
        final(world).wf(),
        final(world)@.grown_from(old(world)@, Set::empty()),
        final(world)@.components.wf(),
        final(world)@.components.heap.issued == old(world)@.components.heap.issued + 2,
        final(world)@.components.read_as(made.0@, TypeTag::Star) == Ok::<
            AnyComponent,
            StoreError,
        >(AnyComponent::Star(Star {  })),
        final(world)@.components.read_as(made.1@, TypeTag::SelestialPos) == Ok::<
            AnyComponent,
            StoreError,
        >(AnyComponent::Pos(origin())),
{
    proof {
        world.lemma_wf_model();
        lemma_create(world@.components, AnyComponent::Star(Star {  }));
    }
    let ghost c0 = world@.components;
    let mark_id = world.put_component(Star {  });
    let ghost c1 = world@.components;
    proof {
        world.lemma_wf_model();
        lemma_create(c1, AnyComponent::Pos(origin()));
    }
    let pos_id = world.put_component(SelestialPos::new(0, 0, 0));
    proof {
        world.lemma_wf_model();
        let c2 = world@.components;
        lemma_extends_trans(c0, c1, c2);
        lemma_extends_reads(c2, c1, mark_id.unwrap()@, TypeTag::Star);
    }
    (mark_id.unwrap(), pos_id.unwrap())
}

/// Binds the components of a star to the entity `star_id`.
fn bind_star_components(
    world: &mut World,
    star_id: HeapElemId<Entities>,
    mark_id: HeapElemId<Components>,
    pos_id: HeapElemId<Components>,
)
    requires
        old(world).wf(),
        old(world)@.entities.is_live(star_id@),
        old(world)@.owns_only(star_id@, Set::empty()),
        old(world)@.components.read_as(mark_id@, TypeTag::Star) == Ok::<
            AnyComponent,
            StoreError,
        >(AnyComponent::Star(Star {  })),
        old(world)@.components.read_as(pos_id@, TypeTag::SelestialPos) == Ok::<
            AnyComponent,
            StoreError,
        >(AnyComponent::Pos(origin())),
    ensures
        final(world).wf(),
        final(world)@.grown_from(old(world)@, set![star_id@.id]),
        final(world)@.components == old(world)@.components,
        is_star(final(world)@, star_id@),
{
    let bound = world.bind_component(star_id, mark_id);
    assert(bound is Ok);
    let bound = world.bind_component(star_id, pos_id);
    assert(bound is Ok);
    proof {
        let w = world@;
        assert(w.bindings.contains_key((star_id@.id, TypeTag::Star)));
        assert(w.bindings.contains_key((star_id@.id, TypeTag::SelestialPos)));
        assert forall|tag: TypeTag| #[trigger]
            w.bindings.contains_key((star_id@.id, tag)) <==> set![
                TypeTag::Star,
                TypeTag::SelestialPos,
            ].contains(tag) by {
            assert(old(world)@.bindings.contains_key((star_id@.id, tag)) <==> Set::<
                TypeTag,
            >::empty().contains(tag));
        }
        assert forall|entity: usize| !set![star_id@.id].contains(entity) implies #[trigger]
            w.same_bindings_of(old(world)@, entity) by {}
        lemma_extends_trans(w.components, w.components, w.components);
    }
}

/// Creates `n_stars` stars: entities that own the mark of a star and a
/// position at the origin. Fails, changing nothing, where the world cannot
/// create that many entities and twice that many components.
pub fn generate_stars(world: &mut World, n_stars: usize) -> (res: Result<
    Vec<HeapElemId<Entities>>,
    StoreError,
>)
    requires
        old(world).wf(),
    ensures
        final(world).wf(),
        match res {
            Ok(stars) => {
                &&& old(world)@.entities.can_issue(n_stars as nat)
                &&& old(world)@.components.heap.can_issue(2 * n_stars as nat)
                &&& stars.len() == n_stars
                &&& forall|i: int|
                    0 <= i < n_stars ==> (#[trigger] stars[i])@
                        == old(world)@.entities.alloc_n_keys(n_stars as nat)[i]
                &&& forall|i: int| 0 <= i < n_stars ==> is_star(final(world)@, #[trigger] stars[i]@)
                &&& final(world)@.entities == old(world)@.entities.alloc_each(
                    entities(n_stars as nat),
                )
                &&& final(world)@.components.extends(old(world)@.components)
                &&& final(world)@.components.heap.issued == old(world)@.components.heap.issued + 2
                    * n_stars
                &&& forall|entity: usize|
                    entity < old(world)@.entities.issued
                        ==> #[trigger] final(world)@.same_bindings_of(old(world)@, entity)
                &&& final(world)@.stars == old(world)@.stars + keys_of(stars@)
                &&& final(world)@.planets == old(world)@.planets
                &&& final(world)@.moons == old(world)@.moons
                &&& final(world)@.tick_number == old(world)@.tick_number
            },
            Err(e) => {
                &&& e == StoreError::Exhausted
                &&& !(old(world)@.entities.can_issue(n_stars as nat)
                    && old(world)@.components.heap.can_issue(2 * n_stars as nat))
                &&& final(world)@ == old(world)@
            },
        },
{
    if n_stars > world.entity_ids_left() || n_stars > world.component_ids_left() / 2 {
        return Err(StoreError::Exhausted);
    }
    let ghost w0 = world@;
    let ghost first = w0.entities.issued;
    proof {
        world.lemma_wf_model();
        lemma_alloc_n_keys_ids(w0.entities, n_stars as nat);
        law_batch_equivalence(w0.entities, entities(n_stars as nat));
    }
    let star_ids = match world.alloc_n_entities(n_stars) {
        Ok(ids) => ids,
        Err(e) => {
            return Err(e);
        },
    };
    let ghost w1 = world@;
    proof {
        lemma_extends_trans(w0.components, w0.components, w0.components);
    }
    let mut i: usize = 0;
    while i < n_stars
        invariant
            0 <= i <= n_stars,
            star_ids.len() == n_stars,
            world.wf(),
            w0.wf(),
            first == w0.entities.issued,
            first + n_stars <= usize::MAX,
            w0.components.heap.can_issue(2 * n_stars as nat),
            forall|j: int|
                0 <= j < n_stars ==> (#[trigger] star_ids[j])@ == w0.entities.alloc_n_keys(
                    n_stars as nat,
                )[j],
            forall|j: int| 0 <= j < n_stars ==> (#[trigger] star_ids[j])@.id == first + j,
            forall|j: int| 0 <= j < n_stars ==> world@.entities.is_live(#[trigger] star_ids[j]@),
            world@.entities == w0.entities.alloc_each(entities(n_stars as nat)),
            world@.tick_number == w0.tick_number,
            world@.stars == w0.stars,
            world@.planets == w0.planets,
            world@.moons == w0.moons,
            world@.components.extends(w0.components),
            world@.components.heap.issued == w0.components.heap.issued + 2 * i,
            forall|j: int| 0 <= j < i ==> is_star(world@, #[trigger] star_ids[j]@),
            forall|entity: usize|
                !(first <= entity < first + i) ==> #[trigger] world@.same_bindings_of(w0, entity),
        decreases n_stars - i,
    {
        let ghost before = world@;
        let star_id = star_ids[i];
        proof {
            assert(before.same_bindings_of(w0, star_id@.id));
            assert forall|tag: TypeTag| #[trigger]
                before.bindings.contains_key((star_id@.id, tag)) <==> Set::<TypeTag>::empty().contains(
                    tag,
                ) by {
                assert(before.bindings.contains_key((star_id@.id, tag))
                    == w0.bindings.contains_key((star_id@.id, tag)));
            }
        }
        let (mark_id, pos_id) = alloc_star_components(world, star_id);
        let ghost middle = world@;
        proof {
            assert(middle.same_bindings_of(before, star_id@.id));
            lemma_owns_kept(middle, before, star_id@, Set::empty());
        }
        bind_star_components(world, star_id, mark_id, pos_id);
        proof {
            let after = world@;
            lemma_grown_trans(before, middle, after, Set::empty(), set![star_id@.id]);
            lemma_extends_trans(w0.components, before.components, after.components);
            assert forall|j: int| 0 <= j < i + 1 implies is_star(after, #[trigger] star_ids[j]@) by {
                if j < i {
                    let body = star_ids[j]@;
                    assert(!Set::<usize>::empty().union(set![star_id@.id]).contains(body.id));
                    assert(after.same_bindings_of(before, body.id));
                    lemma_value_kept(after, before, body, TypeTag::Star);
                    lemma_value_kept(after, before, body, TypeTag::SelestialPos);
                    lemma_owns_kept(
                        after,
                        before,
                        body,
                        set![TypeTag::Star, TypeTag::SelestialPos],
                    );
                }
            }
            assert forall|entity: usize| !(first <= entity < first + i + 1) implies #[trigger]
                after.same_bindings_of(w0, entity) by {
                assert(!Set::<usize>::empty().union(set![star_id@.id]).contains(entity));
                assert(after.same_bindings_of(before, entity));
                assert(before.same_bindings_of(w0, entity));
                assert forall|tag: TypeTag|
                    {
                        &&& #[trigger] after.bindings.contains_key((entity, tag))
                            == w0.bindings.contains_key((entity, tag))
                        &&& after.bindings.contains_key((entity, tag)) ==> after.bindings[(
                            entity,
                            tag,
                        )] == w0.bindings[(entity, tag)]
                    } by {
                    assert(before.bindings.contains_key((entity, tag))
                        == w0.bindings.contains_key((entity, tag)));
                }
            }
        }
        i += 1;
    }
    let ghost made = world@;
    world.register_stars(&star_ids);
    proof {
        assert forall|entity: usize| entity < first implies #[trigger] world@.same_bindings_of(
            w0,
            entity,
        ) by {
            assert(made.same_bindings_of(w0, entity));
        }
    }
    Ok(star_ids)
}

/// Makes the entity `body` a planet round the position component `host`:
/// draws its orbit, places it, and stores and binds its mark, its position
/// and its orbit.
fn spawn_planet<F: Fn(SelestialOrbit, SelestialPos) -> SelestialPos>(
    world: &mut World,
    body: HeapElemId<Entities>,
    host: HeapElemId<Components>,
    bounds: &OrbitBounds,
    place: &F,
)
    requires
        old(world).wf(),
        old(world)@.entities.is_live(body@),
        old(world)@.owns_only(body@, Set::empty()),
        old(world)@.components.heap.can_issue(3),
        position_at(old(world)@, host@) is Ok,
        bounds.wf(),
        forall|o: SelestialOrbit, at: SelestialPos| call_requires(*place, (o, at)),
    ensures
        final(world).wf(),
        final(world)@.grown_from(old(world)@, set![body@.id]),
        final(world)@.components.heap.issued == old(world)@.components.heap.issued + 3,
        position_of(final(world)@, body@).id == old(world)@.components.heap.issued + 1,
        is_satellite(
            final(world)@,
            body@,
            AnyComponent::Planet(Planet {  }),
            host@,
            position_at(old(world)@, host@).unwrap(),
            *bounds,
            *place,
        ),
{
    let ghost w0 = world@;
    let ghost c0 = world@.components;
    let orbit = generate_orbit(host, bounds);
    let pos = generate_orbiting_pos(world, &orbit, place).unwrap();
    proof {
        world.lemma_wf_model();
        lemma_create(c0, AnyComponent::Planet(Planet {  }));
    }
    let marker_id = world.put_component(Planet {  }).unwrap();
    let ghost c1 = world@.components;
    proof {
        world.lemma_wf_model();
        lemma_create(c1, AnyComponent::Pos(pos));
    }
    let pos_id = world.put_component(pos).unwrap();
    let ghost c2 = world@.components;
    proof {
        world.lemma_wf_model();
        lemma_create(c2, AnyComponent::Orbit(orbit));
    }
    let orbit_id = world.put_component(orbit).unwrap();
    let ghost c3 = world@.components;
    proof {
        world.lemma_wf_model();
        lemma_extends_trans(c0, c1, c2);
        lemma_extends_trans(c0, c2, c3);
        lemma_extends_trans(c1, c2, c3);
        lemma_extends_reads(c3, c1, marker_id@, TypeTag::Planet);
        lemma_extends_reads(c3, c2, pos_id@, TypeTag::SelestialPos);
    }
    let bound = world.bind_component(body, marker_id);
    assert(bound is Ok);
    let bound = world.bind_component(body, pos_id);
    assert(bound is Ok);
    let bound = world.bind_component(body, orbit_id);
    assert(bound is Ok);
    proof {
        let w = world@;
        let tags = set![TypeTag::Planet, TypeTag::SelestialPos, TypeTag::SelestialOrbit];
        assert(w.bindings.contains_key((body@.id, TypeTag::Planet)));
        assert(w.bindings.contains_key((body@.id, TypeTag::SelestialPos)));
        assert(w.bindings.contains_key((body@.id, TypeTag::SelestialOrbit)));
        assert forall|tag: TypeTag| #[trigger]
            w.bindings.contains_key((body@.id, tag)) <==> tags.contains(tag) by {
            assert(w0.bindings.contains_key((body@.id, tag)) <==> Set::<TypeTag>::empty().contains(
                tag,
            ));
        }
        assert forall|entity: usize| !set![body@.id].contains(entity) implies #[trigger]
            w.same_bindings_of(w0, entity) by {}
    }
}

/// Creates `n_planets_per_star` planets round each star of `star_ids`: new
/// entities, each with the mark of a planet, an orbit round the position of
/// its star, drawn from `bounds`, and the position that `place` gives for
/// that orbit and the position of the star. The planets are added to the
/// planets of the world and returned, those of the first star first.
///
/// Fails, changing nothing, where a star owns no position or its position
/// cannot be read, or where the world cannot create as many bodies.
pub fn generate_planets<F: Fn(SelestialOrbit, SelestialPos) -> SelestialPos>(
    world: &mut World,
    star_ids: Vec<HeapElemId<Entities>>,
    n_planets_per_star: usize,
    bounds: &OrbitBounds,
    place: &F,
) -> (res: Result<Vec<HeapElemId<Entities>>, StoreError>)
    requires
        old(world).wf(),
        bounds.wf(),
        forall|o: SelestialOrbit, at: SelestialPos| call_requires(*place, (o, at)),
    ensures
        final(world).wf(),
        match res {
            Ok(planets) => {
                &&& satellites_made(
                    old(world)@,
                    final(world)@,
                    keys_of(star_ids@),
                    n_planets_per_star as nat,
                    keys_of(planets@),
                    AnyComponent::Planet(Planet {  }),
                    *bounds,
                    *place,
                )
                &&& final(world)@.stars == old(world)@.stars
                &&& final(world)@.planets == old(world)@.planets + keys_of(planets@)
                &&& final(world)@.moons == old(world)@.moons
            },
            Err(e) => {
                &&& generation_check(old(world)@, keys_of(star_ids@), n_planets_per_star as nat)
                    == Err::<(), StoreError>(e)
                &&& final(world)@ == old(world)@
            },
        },
{
    let ghost w0 = world@;
    let star_pos_ids = match world.get_many_entities_compoents_key::<SelestialPos>(
        star_ids.as_slice(),
    ) {
        Ok(ids) => ids,
        Err(e) => {
            return Err(e);
        },
    };
    let star_positions = match read_positions(world, &star_pos_ids) {
        Ok(positions) => positions,
        Err(e) => {
            return Err(e);
        },
    };
    let total = match total_bodies(world, star_ids.len(), n_planets_per_star) {
        Some(total) => total,
        None => {
            return Err(StoreError::Exhausted);
        },
    };
    let ghost hosts = keys_of(star_pos_ids@);
    let ghost at = star_positions@;
    let ghost first = w0.entities.issued;
    let ghost erased = AnyComponent::Planet(Planet {  });
    proof {
        world.lemma_wf_model();
        lemma_positions_each(w0, hosts);
        lemma_alloc_n_keys_ids(w0.entities, total as nat);
        law_batch_equivalence(w0.entities, entities(total as nat));
        lemma_extends_trans(w0.components, w0.components, w0.components);
    }
    let planet_ids = world.alloc_n_entities(total).unwrap();
    let mut idx: usize = 0;
    while idx < total
        invariant
            0 <= idx <= total,
            planet_ids.len() == total,
            total == star_ids.len() * n_planets_per_star,
            star_pos_ids.len() == star_ids.len(),
            world.wf(),
            w0.wf(),
            bounds.wf(),
            forall|o: SelestialOrbit, p: SelestialPos| call_requires(*place, (o, p)),
            erased == AnyComponent::Planet(Planet {  }),
            hosts == keys_of(star_pos_ids@),
            at.len() == hosts.len(),
            forall|s: int|
                0 <= s < hosts.len() ==> position_at(w0, #[trigger] hosts[s]) == Ok::<
                    SelestialPos,
                    StoreError,
                >(at[s]),
            first == w0.entities.issued,
            first + total <= usize::MAX,
            w0.components.heap.can_issue(3 * total as nat),
            forall|j: int| 0 <= j < total ==> (#[trigger] planet_ids[j])@.id == first + j,
            forall|j: int| 0 <= j < total ==> world@.entities.is_live(#[trigger] planet_ids[j]@),
            world@.entities == w0.entities.alloc_each(entities(total as nat)),
            world@.tick_number == w0.tick_number,
            world@.stars == w0.stars,
            world@.planets == w0.planets,
            world@.moons == w0.moons,
            world@.components.extends(w0.components),
            world@.components.heap.issued == w0.components.heap.issued + 3 * idx,
            forall|j: int|
                0 <= j < idx ==> is_satellite(
                    world@,
                    #[trigger] planet_ids[j]@,
                    erased,
                    hosts[j / n_planets_per_star as int],
                    at[j / n_planets_per_star as int],
                    *bounds,
                    *place,
                ),
            forall|j: int|
                0 <= j < idx ==> position_of(world@, #[trigger] planet_ids[j]@).id
                    == w0.components.heap.issued + 3 * j + 1,
            forall|entity: usize|
                !(first <= entity < first + idx) ==> #[trigger] world@.same_bindings_of(w0, entity),
        decreases total - idx,
    {
        let ghost before = world@;
        let planet_id = planet_ids[idx];
        proof {
            lemma_multiply_divide_lt(idx as int, n_planets_per_star as int, star_ids.len() as int);
        }
        let parent = idx / n_planets_per_star;
        let star_pos_id = star_pos_ids[parent];
        proof {
            assert(hosts[parent as int] == star_pos_id@);
            lemma_position_kept(before, w0, star_pos_id@);
            assert(before.same_bindings_of(w0, planet_id@.id));
            assert forall|tag: TypeTag| #[trigger]
                before.bindings.contains_key((planet_id@.id, tag)) <==> Set::<
                    TypeTag,
                >::empty().contains(tag) by {
                assert(before.bindings.contains_key((planet_id@.id, tag))
                    == w0.bindings.contains_key((planet_id@.id, tag)));
            }
        }
        spawn_planet(world, planet_id, star_pos_id, bounds, place);
        proof {
            let after = world@;
            lemma_extends_trans(w0.components, before.components, after.components);
            assert forall|j: int| 0 <= j < idx + 1 implies is_satellite(
                after,
                #[trigger] planet_ids[j]@,
                erased,
                hosts[j / n_planets_per_star as int],
                at[j / n_planets_per_star as int],
                *bounds,
                *place,
            ) by {
                if j < idx {
                    let body = planet_ids[j]@;
                    assert(!set![planet_id@.id].contains(body.id));
                    assert(after.same_bindings_of(before, body.id));
                    lemma_satellite_kept(
                        after,
                        before,
                        body,
                        erased,
                        hosts[j / n_planets_per_star as int],
                        at[j / n_planets_per_star as int],
                        *bounds,
                        *place,
                    );
                }
            }
            assert forall|j: int| 0 <= j < idx + 1 implies position_of(
                after,
                #[trigger] planet_ids[j]@,
            ).id == w0.components.heap.issued + 3 * j + 1 by {
                if j < idx {
                    let body = planet_ids[j]@;
                    assert(!set![planet_id@.id].contains(body.id));
                    assert(after.same_bindings_of(before, body.id));
                    assert(is_satellite(
                        before,
                        body,
                        erased,
                        hosts[j / n_planets_per_star as int],
                        at[j / n_planets_per_star as int],
                        *bounds,
                        *place,
                    ));
                    assert(before.bindings.contains_key((body.id, TypeTag::SelestialPos)));
                }
            }
            assert forall|entity: usize| !(first <= entity < first + idx + 1) implies #[trigger]
                after.same_bindings_of(w0, entity) by {
                assert(!set![planet_id@.id].contains(entity));
                assert(after.same_bindings_of(before, entity));
                assert(before.same_bindings_of(w0, entity));
                assert forall|tag: TypeTag|
                    {
                        &&& #[trigger] after.bindings.contains_key((entity, tag))
                            == w0.bindings.contains_key((entity, tag))
                        &&& after.bindings.contains_key((entity, tag)) ==> after.bindings[(
                            entity,
                            tag,
                        )] == w0.bindings[(entity, tag)]
                    } by {
                    assert(before.bindings.contains_key((entity, tag))
                        == w0.bindings.contains_key((entity, tag)));
                }
            }
        }
        idx += 1;
    }
    proof {
        assert forall|i: int| 0 <= i < total implies position_of(
            world@,
            #[trigger] keys_of(planet_ids@)[i],
        ).id == w0.components.heap.issued + 3 * i + 1 by {
            assert(keys_of(planet_ids@)[i] == planet_ids[i]@);
        }
        assert forall|i: int| 0 <= i < total implies is_satellite(
            world@,
            #[trigger] keys_of(planet_ids@)[i],
            erased,
            hosts[i / n_planets_per_star as int],
            at[i / n_planets_per_star as int],
            *bounds,
            *place,
        ) by {
            assert(keys_of(planet_ids@)[i] == planet_ids[i]@);
        }
    }
    let ghost made = world@;
    world.register_planets(&planet_ids);
    proof {
        lemma_made_listed(
            w0,
            made,
            world@,
            keys_of(star_ids@),
            n_planets_per_star as nat,
            keys_of(planet_ids@),
            erased,
            *bounds,
            *place,
        );
    }
    Ok(planet_ids)
}

/// The position components of the planets.
fn get_planet_pos_ids(world: &World, planet_ids: &Vec<HeapElemId<Entities>>) -> (res: Result<
    Vec<HeapElemId<Components>>,
    StoreError,
>)
    ensures
        match res {
            Ok(keys) => world@.components_of(keys_of(planet_ids@), TypeTag::SelestialPos) == Ok::<
                Seq<Key>,
                StoreError,
            >(keys_of(keys@)),
            Err(e) => world@.components_of(keys_of(planet_ids@), TypeTag::SelestialPos) == Err::<
                Seq<Key>,
                StoreError,
            >(e),
        },
{
    world.get_many_entities_compoents_key::<SelestialPos>(planet_ids.as_slice())
}

/// Creates the entities of the moons, `n_moons_per_planet` for each planet,
/// and pairs each with the position component of its planet.
fn alloc_moons(
    world: &mut World,
    planet_pos_ids: &Vec<HeapElemId<Components>>,
    n_moons_per_planet: usize,
) -> (moons: Vec<(HeapElemId<Entities>, HeapElemId<Components>)>)
    requires
        old(world).wf(),
        old(world)@.entities.can_issue((planet_pos_ids.len() * n_moons_per_planet) as nat),
    ensures
        final(world).wf(),
        final(world)@ == (WorldModel {
            entities: old(world)@.entities.alloc_each(
                entities((planet_pos_ids.len() * n_moons_per_planet) as nat),
            ),
            ..old(world)@
        }),
        moons.len() == planet_pos_ids.len() * n_moons_per_planet,
        forall|i: int|
            0 <= i < moons.len() ==> {
                &&& (#[trigger] moons[i]).0@ == old(world)@.entities.alloc_n_keys(
                    moons.len() as nat,
                )[i]
                &&& moons[i].1 == planet_pos_ids[i / n_moons_per_planet as int]
            },
{
    proof {
        assert(planet_pos_ids.len() * n_moons_per_planet <= usize::MAX);
    }
    let n_moons = planet_pos_ids.len() * n_moons_per_planet;
    let moon_ids = world.alloc_n_entities(n_moons).unwrap();
    let mut moons: Vec<(HeapElemId<Entities>, HeapElemId<Components>)> = Vec::new();
    let mut idx: usize = 0;
    while idx < n_moons
        invariant
            0 <= idx <= n_moons,
            n_moons == planet_pos_ids.len() * n_moons_per_planet,
            moon_ids.len() == n_moons,
            moons.len() == idx,
            forall|i: int|
                0 <= i < idx ==> {
                    &&& (#[trigger] moons[i]).0 == moon_ids[i]
                    &&& moons[i].1 == planet_pos_ids[i / n_moons_per_planet as int]
                },
        decreases n_moons - idx,
    {
        proof {
            assert(0 < n_moons_per_planet && idx < n_moons_per_planet * planet_pos_ids.len())
                by (nonlinear_arith)
                requires
                    0 <= idx < planet_pos_ids.len() * n_moons_per_planet,
            ;
            lemma_multiply_divide_lt(
                idx as int,
                n_moons_per_planet as int,
                planet_pos_ids.len() as int,
            );
        }
        moons.push((moon_ids[idx], planet_pos_ids[idx / n_moons_per_planet]));
        idx += 1;
    }
    moons
}

/// Draws an orbit for each moon and places the moon on it.
fn generate_moon_components<F: Fn(SelestialOrbit, SelestialPos) -> SelestialPos>(
    world: &World,
    moons_with_planet_pos: &Vec<(HeapElemId<Entities>, HeapElemId<Components>)>,
    bounds: &OrbitBounds,
    place: &F,
) -> (made: Vec<(HeapElemId<Entities>, SelestialPos, SelestialOrbit)>)
    requires
        world.wf(),
        bounds.wf(),
        forall|o: SelestialOrbit, at: SelestialPos| call_requires(*place, (o, at)),
        forall|i: int|
            0 <= i < moons_with_planet_pos.len() ==> position_at(
                world@,
                (#[trigger] moons_with_planet_pos[i]).1@,
            ) is Ok,
    ensures
        made.len() == moons_with_planet_pos.len(),
        forall|i: int|
            0 <= i < made.len() ==> {
                &&& (#[trigger] made[i]).0 == moons_with_planet_pos[i].0
                &&& made[i].2.center_component == moons_with_planet_pos[i].1
                &&& bounds.admits(made[i].2)
                &&& call_ensures(
                    *place,
                    (made[i].2, position_at(world@, moons_with_planet_pos[i].1@).unwrap()),
                    made[i].1,
                )
            },
{
    let n = moons_with_planet_pos.len();
    let mut made: Vec<(HeapElemId<Entities>, SelestialPos, SelestialOrbit)> = Vec::new();
    let mut idx: usize = 0;
    while idx < n
        invariant
            0 <= idx <= n,
            n == moons_with_planet_pos.len(),
            world.wf(),
            bounds.wf(),
            forall|o: SelestialOrbit, at: SelestialPos| call_requires(*place, (o, at)),
            forall|i: int|
                0 <= i < n ==> position_at(world@, (#[trigger] moons_with_planet_pos[i]).1@) is Ok,
            made.len() == idx,
            forall|i: int|
                0 <= i < idx ==> {
                    &&& (#[trigger] made[i]).0 == moons_with_planet_pos[i].0
                    &&& made[i].2.center_component == moons_with_planet_pos[i].1
                    &&& bounds.admits(made[i].2)
                    &&& call_ensures(
                        *place,
                        (made[i].2, position_at(world@, moons_with_planet_pos[i].1@).unwrap()),
                        made[i].1,
                    )
                },
        decreases n - idx,
    {
        let (moon_id, planet_pos_id) = moons_with_planet_pos[idx];
        assert(position_at(world@, moons_with_planet_pos[idx as int].1@) is Ok);
        let moon_orbit = generate_orbit(planet_pos_id, bounds);
        let moon_pos = generate_orbiting_pos(world, &moon_orbit, place).unwrap();
        made.push((moon_id, moon_pos, moon_orbit));
        idx += 1;
    }
    made
}

/// Reserves the slots of the marks, the positions and the orbits of the
/// moons, each kind in one batch, stores the components there, and returns
/// what is to be bound: for each moon its mark, its position and its orbit.
fn alloc_moon_components(
    world: &mut World,
    moons_with_components: &Vec<(HeapElemId<Entities>, SelestialPos, SelestialOrbit)>,
    n_moons: usize,
) -> (res: Vec<(HeapElemId<Entities>, HeapElemId<Components>)>)
    requires
        old(world).wf(),
        n_moons == moons_with_components.len(),
        old(world)@.components.heap.can_issue(3 * n_moons as nat),
    ensures
        final(world).wf(),
        final(world)@ == (WorldModel { components: final(world)@.components, ..old(world)@ }),
        final(world)@.components.extends(old(world)@.components),
        final(world)@.components.heap.issued == old(world)@.components.heap.issued + 3 * n_moons,
        res.len() == 3 * n_moons,
        forall|i: int|
            0 <= i < n_moons ==> moon_components_stored(
                final(world)@.components,
                moons_with_components@,
                res@,
                i,
            ),
        forall|i: int|
            0 <= i < n_moons ==> (#[trigger] res[3 * i + 1]).1@.id
                == old(world)@.components.heap.issued + n_moons + i,
{
    let ghost w0 = world@;
    let ghost c0 = w0.components;
    let ghost base = c0.heap.issued;
    let ghost n = n_moons as nat;
    proof {
        world.lemma_wf_model();
        lemma_store_alloc_n_keys(c0, TypeTag::Moon, n);
    }
    let moon_marker_ids = world.alloc_n_components::<Moon>(n_moons).unwrap();
    let ghost c1 = world@.components;
    proof {
        world.lemma_wf_model();
        lemma_store_alloc_n_keys(c1, TypeTag::SelestialPos, n);
    }
    let pos_ids = world.alloc_n_components::<SelestialPos>(n_moons).unwrap();
    let ghost c2 = world@.components;
    proof {
        world.lemma_wf_model();
        lemma_store_alloc_n_keys(c2, TypeTag::SelestialOrbit, n);
    }
    let orbit_ids = world.alloc_n_components::<SelestialOrbit>(n_moons).unwrap();
    let ghost c3 = world@.components;
    proof {
        world.lemma_wf_model();
        lemma_extends_trans(c0, c1, c2);
        lemma_extends_trans(c0, c2, c3);
        lemma_extends_trans(c1, c2, c3);
        assert forall|i: int| 0 <= i < n_moons implies {
            &&& c3.check((#[trigger] moon_marker_ids[i])@, TypeTag::Moon) is Ok
            &&& moon_marker_ids[i]@.id == base + i
        } by {
            assert(c1.heap.is_live(c0.heap.alloc_n_keys(n)[i]));
            assert(c2.heap.is_live(moon_marker_ids[i]@));
            assert(c3.heap.is_live(moon_marker_ids[i]@));
        }
        assert forall|i: int| 0 <= i < n_moons implies {
            &&& c3.check((#[trigger] pos_ids[i])@, TypeTag::SelestialPos) is Ok
            &&& pos_ids[i]@.id == base + n + i
        } by {
            assert(c2.heap.is_live(c1.heap.alloc_n_keys(n)[i]));
            assert(c3.heap.is_live(pos_ids[i]@));
        }
        assert forall|i: int| 0 <= i < n_moons implies {
            &&& c3.check((#[trigger] orbit_ids[i])@, TypeTag::SelestialOrbit) is Ok
            &&& orbit_ids[i]@.id == base + 2 * n + i
        } by {
            assert(c3.heap.is_live(c2.heap.alloc_n_keys(n)[i]));
        }
    }
    let mut res: Vec<(HeapElemId<Entities>, HeapElemId<Components>)> = Vec::with_capacity(n_moons);
    let mut idx: usize = 0;
    while idx < n_moons
        invariant
            0 <= idx <= n_moons,
            n_moons == moons_with_components.len(),
            moon_marker_ids.len() == n_moons,
            pos_ids.len() == n_moons,
            orbit_ids.len() == n_moons,
            n == n_moons,
            world.wf(),
            c0.wf(),
            c0 == w0.components,
            base == c0.heap.issued,
            base + 3 * n <= usize::MAX,
            world@ == (WorldModel { components: world@.components, ..w0 }),
            world@.components.extends(c0),
            world@.components.heap.issued == base + 3 * n,
            forall|i: int|
                0 <= i < n_moons ==> {
                    &&& world@.components.check((#[trigger] moon_marker_ids[i])@, TypeTag::Moon)
                        is Ok
                    &&& moon_marker_ids[i]@.id == base + i
                },
            forall|i: int|
                0 <= i < n_moons ==> {
                    &&& world@.components.check((#[trigger] pos_ids[i])@, TypeTag::SelestialPos)
                        is Ok
                    &&& pos_ids[i]@.id == base + n + i
                },
            forall|i: int|
                0 <= i < n_moons ==> {
                    &&& world@.components.check(
                        (#[trigger] orbit_ids[i])@,
                        TypeTag::SelestialOrbit,
                    ) is Ok
                    &&& orbit_ids[i]@.id == base + 2 * n + i
                },
            res.len() == 3 * idx,
            forall|i: int|
                0 <= i < idx ==> {
                    &&& res[3 * i] == (moons_with_components[i].0, moon_marker_ids[i])
                    &&& res[3 * i + 1] == (moons_with_components[i].0, pos_ids[i])
                    &&& res[3 * i + 2] == (moons_with_components[i].0, orbit_ids[i])
                },
            forall|i: int|
                0 <= i < idx ==> {
                    &&& world@.components.read_as(
                        (#[trigger] moon_marker_ids[i])@,
                        TypeTag::Moon,
                    ) == Ok::<AnyComponent, StoreError>(AnyComponent::Moon(Moon {  }))
                    &&& world@.components.read_as(pos_ids[i]@, TypeTag::SelestialPos) == Ok::<
                        AnyComponent,
                        StoreError,
                    >(AnyComponent::Pos(moons_with_components[i].1))
                    &&& world@.components.read_as(orbit_ids[i]@, TypeTag::SelestialOrbit) == Ok::<
                        AnyComponent,
                        StoreError,
                    >(AnyComponent::Orbit(moons_with_components[i].2))
                },
        decreases n_moons - idx,
    {
        let (moon_id, moon_pos, moon_orbit) = moons_with_components[idx];
        let marker_id = moon_marker_ids[idx];
        let pos_id = pos_ids[idx];
        let orbit_id = orbit_ids[idx];

        let ghost s0 = world@.components;
        proof {
            world.lemma_wf_model();
            lemma_put_reads(s0, marker_id@, AnyComponent::Moon(Moon {  }));
            lemma_put_extends(s0, c0, marker_id@, AnyComponent::Moon(Moon {  }));
        }
        let stored = world.replace_component(&marker_id, Moon {  });
        let ghost s1 = world@.components;
        proof {
            world.lemma_wf_model();
            assert(s1.check(pos_ids[idx as int]@, TypeTag::SelestialPos) is Ok);
            lemma_put_reads(s1, pos_id@, AnyComponent::Pos(moon_pos));
            lemma_put_extends(s1, c0, pos_id@, AnyComponent::Pos(moon_pos));
        }
        let stored = world.replace_component(&pos_id, moon_pos);
        let ghost s2 = world@.components;
        proof {
            world.lemma_wf_model();
            assert(s2.check(orbit_ids[idx as int]@, TypeTag::SelestialOrbit) is Ok);
            lemma_put_reads(s2, orbit_id@, AnyComponent::Orbit(moon_orbit));
            lemma_put_extends(s2, c0, orbit_id@, AnyComponent::Orbit(moon_orbit));
        }
        let stored = world.replace_component(&orbit_id, moon_orbit);
        let ghost s3 = world@.components;

        res.push((moon_id, marker_id));
        res.push((moon_id, pos_id));
        res.push((moon_id, orbit_id));
        proof {
            assert forall|i: int| 0 <= i < idx + 1 implies {
                &&& s3.read_as((#[trigger] moon_marker_ids[i])@, TypeTag::Moon) == Ok::<
                    AnyComponent,
                    StoreError,
                >(AnyComponent::Moon(Moon {  }))
                &&& s3.read_as(pos_ids[i]@, TypeTag::SelestialPos) == Ok::<
                    AnyComponent,
                    StoreError,
                >(AnyComponent::Pos(moons_with_components[i].1))
                &&& s3.read_as(orbit_ids[i]@, TypeTag::SelestialOrbit) == Ok::<
                    AnyComponent,
                    StoreError,
                >(AnyComponent::Orbit(moons_with_components[i].2))
            } by {
                let m = moon_marker_ids[i]@;
                let p = pos_ids[i]@;
                let o = orbit_ids[i]@;
                assert(pos_ids[i]@.id == base + n + i);
                assert(orbit_ids[i]@.id == base + 2 * n + i);
                assert(s1.read_as(m, TypeTag::Moon) == s2.read_as(m, TypeTag::Moon));
                assert(s2.read_as(m, TypeTag::Moon) == s3.read_as(m, TypeTag::Moon));
                assert(s2.read_as(p, TypeTag::SelestialPos) == s3.read_as(
                    p,
                    TypeTag::SelestialPos,
                ));
                if i < idx {
                    assert(s0.read_as(m, TypeTag::Moon) == s1.read_as(m, TypeTag::Moon));
                    assert(s0.read_as(p, TypeTag::SelestialPos) == s1.read_as(
                        p,
                        TypeTag::SelestialPos,
                    ));
                    assert(s1.read_as(p, TypeTag::SelestialPos) == s2.read_as(
                        p,
                        TypeTag::SelestialPos,
                    ));
                    assert(s0.read_as(o, TypeTag::SelestialOrbit) == s1.read_as(
                        o,
                        TypeTag::SelestialOrbit,
                    ));
                    assert(s1.read_as(o, TypeTag::SelestialOrbit) == s2.read_as(
                        o,
                        TypeTag::SelestialOrbit,
                    ));
                    assert(s2.read_as(o, TypeTag::SelestialOrbit) == s3.read_as(
                        o,
                        TypeTag::SelestialOrbit,
                    ));
                }
            }
        }
        idx += 1;
    }
    proof {
        assert forall|i: int| 0 <= i < n_moons implies moon_components_stored(
            world@.components,
            moons_with_components@,
            res@,
            i,
        ) by {
            assert(res[3 * i] == (moons_with_components[i].0, moon_marker_ids[i]));
            assert(world@.components.read_as(moon_marker_ids[i]@, TypeTag::Moon) is Ok);
        }
        assert forall|i: int| 0 <= i < n_moons implies (#[trigger] res[3 * i + 1]).1@.id == base
            + n_moons + i by {
            assert(res[3 * i + 1] == (moons_with_components[i].0, pos_ids[i]));
            assert(pos_ids[i]@.id == base + n + i);
        }
    }
    res
}

/// Binds the components of the moons to the moons.
fn bind_moon_components(
    world: &mut World,
    moons_with_components: Vec<(HeapElemId<Entities>, HeapElemId<Components>)>,
) -> (res: Result<(), StoreError>)
    requires
        old(world).wf(),
    ensures
        final(world).wf(),
        res == old(world)@.bind_all_check(pairs_of(moons_with_components@)),
        final(world)@ == if res is Ok {
            old(world)@.bind_all(pairs_of(moons_with_components@))
        } else {
            old(world)@
        },
{
    world.bind_n_components(moons_with_components)
}

/// Creates `n_moons_per_planet` moons round each planet of `planet_ids`: new
/// entities, each with the mark of a moon, an orbit round the position of its
/// planet, drawn from `bounds`, and the position that `place` gives for that
/// orbit and the position of the planet. The moons are added to the moons of
/// the world and returned, those of the first planet first.
///
/// The moons are made in batches: the entities first, then their orbits and
/// positions, then the slots of all their components, then the bindings.
///
/// Fails, changing nothing, where a planet owns no position or its position
/// cannot be read, or where the world cannot create as many bodies.
pub fn generate_moons<F: Fn(SelestialOrbit, SelestialPos) -> SelestialPos>(
    world: &mut World,
    planet_ids: Vec<HeapElemId<Entities>>,
    n_moons_per_planet: usize,
    bounds: &OrbitBounds,
    place: &F,
) -> (res: Result<Vec<HeapElemId<Entities>>, StoreError>)
    requires
        old(world).wf(),
        bounds.wf(),
        forall|o: SelestialOrbit, at: SelestialPos| call_requires(*place, (o, at)),
    ensures
        final(world).wf(),
        match res {
            Ok(moons) => {
                &&& satellites_made(
                    old(world)@,
                    final(world)@,
                    keys_of(planet_ids@),
                    n_moons_per_planet as nat,
                    keys_of(moons@),
                    AnyComponent::Moon(Moon {  }),
                    *bounds,
                    *place,
                )
                &&& final(world)@.stars == old(world)@.stars
                &&& final(world)@.planets == old(world)@.planets
                &&& final(world)@.moons == old(world)@.moons + keys_of(moons@)
            },
            Err(e) => {
                &&& generation_check(old(world)@, keys_of(planet_ids@), n_moons_per_planet as nat)
                    == Err::<(), StoreError>(e)
                &&& final(world)@ == old(world)@
            },
        },
{
    let ghost w0 = world@;
    let planet_pos_ids = match get_planet_pos_ids(world, &planet_ids) {
        Ok(ids) => ids,
        Err(e) => {
            return Err(e);
        },
    };
    let planet_positions = match read_positions(world, &planet_pos_ids) {
        Ok(positions) => positions,
        Err(e) => {
            return Err(e);
        },
    };
    let n_moons = match total_bodies(world, planet_ids.len(), n_moons_per_planet) {
        Some(total) => total,
        None => {
            return Err(StoreError::Exhausted);
        },
    };
    proof {
        world.lemma_wf_model();
        lemma_positions_each(w0, keys_of(planet_pos_ids@));
    }
    let moons_with_planet_pos = alloc_moons(world, &planet_pos_ids, n_moons_per_planet);
    let ghost w1 = world@;
    proof {
        lemma_moons_placeable(
            w0,
            w1,
            keys_of(planet_pos_ids@),
            n_moons_per_planet as nat,
            moons_with_planet_pos@,
            planet_pos_ids@,
        );
    }
    let moons_with_components = generate_moon_components(
        world,
        &moons_with_planet_pos,
        bounds,
        place,
    );
    let moons_with_component_ids = alloc_moon_components(world, &moons_with_components, n_moons);
    let ghost w2 = world@;
    let ghost stored = moons_with_component_ids@;
    proof {
        world.lemma_wf_model();
        lemma_moons_stored(
            w0,
            w1,
            w2,
            planet_pos_ids@,
            planet_positions@,
            n_moons_per_planet as nat,
            moons_with_planet_pos@,
            moons_with_components@,
            stored,
            *bounds,
            *place,
        );
        lemma_moon_pairs(
            w0,
            w2,
            keys_of(planet_pos_ids@),
            planet_positions@,
            n_moons_per_planet as nat,
            n_moons as nat,
            stored,
            *bounds,
            *place,
        );
    }
    let bound = bind_moon_components(world, moons_with_component_ids);
    assert(bound is Ok);
    let ghost w3 = world@;
    let mut moon_ids: Vec<HeapElemId<Entities>> = Vec::with_capacity(n_moons);
    let mut idx: usize = 0;
    while idx < n_moons
        invariant
            0 <= idx <= n_moons,
            moons_with_planet_pos.len() == n_moons,
            moon_ids.len() == idx,
            forall|i: int| 0 <= i < idx ==> (#[trigger] moon_ids[i]) == moons_with_planet_pos[i].0,
        decreases n_moons - idx,
    {
        moon_ids.push(moons_with_planet_pos[idx].0);
        idx += 1;
    }
    world.register_moons(&moon_ids);
    proof {
        assert forall|i: int| 0 <= i < n_moons implies #[trigger] keys_of(moon_ids@)[i]
            == w0.entities.alloc_n_keys(n_moons as nat)[i] by {
            assert(moon_ids[i] == moons_with_planet_pos[i].0);
        }
        lemma_frame_of_bind_all(w2, pairs_of(stored));
        lemma_moons_bound(
            w0,
            w2,
            world@,
            keys_of(planet_ids@),
            keys_of(planet_pos_ids@),
            planet_positions@,
            n_moons_per_planet as nat,
            n_moons as nat,
            stored,
            keys_of(moon_ids@),
            *bounds,
            *place,
        );
    }
    Ok(moon_ids)
}

} // verus!
