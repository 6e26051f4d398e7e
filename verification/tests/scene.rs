use nalgebra::{Rotation3, Vector3};
use selestial::component::moon::Moon;
use selestial::component::orbit::{SelestialOrbit, SelestialOrbitDirectopn, Tilt};
use selestial::component::planet::Planet;
use selestial::component::pos::SelestialPos;
use selestial::component::star::Star;
use selestial::entity::selestial::{
    generate_moon_orbit, generate_moons, generate_orbit, generate_orbit_tilt,
    generate_orbiting_pos, generate_planet_orbit, generate_planets, generate_stars, moon_bounds,
    planet_bounds, OrbitBounds, METERS_IN_ONE_AU_U64, METERS_IN_ONE_LY, SECONDS_IN_DAY,
    SECONDS_IN_HOUR, SECONDS_IN_MONTH,
};
use selestial::entity::Entities;
use selestial::error::StoreError;
use selestial::heap::{impossible_heap_elem_id, HeapElemId};
use selestial::{generate_world, tick};
use selestial::world::World;
use std::f64::consts::PI;

fn to_pos(v: Vector3<f64>) -> SelestialPos {
    SelestialPos::new(v.x.to_bits(), v.y.to_bits(), v.z.to_bits())
}

fn from_pos(pos: &SelestialPos) -> Vector3<f64> {
    Vector3::new(
        f64::from_bits(pos.pos.x),
        f64::from_bits(pos.pos.y),
        f64::from_bits(pos.pos.z),
    )
}

fn tilt_of(orbit: &SelestialOrbit) -> Rotation3<f64> {
    Rotation3::from_euler_angles(
        orbit.tilt.roll as f64,
        orbit.tilt.pitch as f64,
        orbit.tilt.yaw as f64,
    )
}

fn place(orbit: SelestialOrbit, host: SelestialPos) -> SelestialPos {
    let root = tilt_of(&orbit).transform_vector(&Vector3::new(orbit.radius as f64, 0.0, 0.0));
    to_pos(root + from_pos(&host))
}

fn advance(orbit: SelestialOrbit, divisor: u64, host: SelestialPos) -> SelestialPos {
    let angle = (2.0 * PI) / divisor as f64;
    let turn = Rotation3::from_axis_angle(&Vector3::z_axis(), angle);
    let turned = turn.transform_vector(&Vector3::new(orbit.radius as f64, 0.0, 0.0));
    to_pos(tilt_of(&orbit).transform_vector(&turned) + from_pos(&host))
}

fn small_bounds() -> OrbitBounds {
    OrbitBounds { radius_min: 10, radius_max: 20, period_min: 5, period_max: 9, max_tilt: 2 }
}

fn position_of(world: &World, body: &HeapElemId<Entities>) -> Vector3<f64> {
    let key = world.get_entity_component_key::<SelestialPos>(body).unwrap();
    from_pos(world.component::<SelestialPos>(&key).unwrap())
}

fn orbit_of(world: &World, body: &HeapElemId<Entities>) -> SelestialOrbit {
    let key = world.get_entity_component_key::<SelestialOrbit>(body).unwrap();
    *world.component::<SelestialOrbit>(&key).unwrap()
}

/// A world with one star at `at` and one planet round it.
fn star_and_planet(at: Vector3<f64>, radius: u64, period: u64) -> (World, HeapElemId<Entities>) {
    let mut world = World::with_capacity(2, 3);
    let bodies = world.alloc_n_entities(2).unwrap();
    let star_pos = world.put_component(to_pos(at)).unwrap();
    world.bind_component(bodies[0], star_pos).unwrap();
    let orbit = SelestialOrbit::load(
        star_pos,
        Tilt { roll: 0, pitch: 0, yaw: 0 },
        radius,
        period,
        SelestialOrbitDirectopn::CW,
        0,
    );
    let planet_pos = world.put_component(place(orbit, to_pos(at))).unwrap();
    let planet_orbit = world.put_component(orbit).unwrap();
    world.bind_component(bodies[1], planet_pos).unwrap();
    world.bind_component(bodies[1], planet_orbit).unwrap();
    world.register_stars(&vec![bodies[0]]);
    world.register_planets(&vec![bodies[1]]);
    (world, bodies[1])
}

#[test]
fn constants_of_the_calendar() {
    assert_eq!(SECONDS_IN_HOUR, 3_600);
    assert_eq!(SECONDS_IN_DAY, 86_400);
    assert_eq!(SECONDS_IN_MONTH, 2_592_000);
    assert_eq!(METERS_IN_ONE_LY, 9_460_718_940_369_531);
}

#[test]
fn default_bounds_are_those_of_planets_and_moons() {
    let planets = planet_bounds();
    assert_eq!(planets.radius_min, METERS_IN_ONE_AU_U64);
    assert_eq!(planets.radius_max, 29_919_574_138_200);
    assert_eq!(planets.period_min, 7_776_000);
    assert_eq!(planets.period_max, 93_312_000);
    assert_eq!(planets.max_tilt, 20);
    let moons = moon_bounds();
    assert_eq!(moons.radius_min, 100_000_000);
    assert_eq!(moons.radius_max, 100_000_000_000);
    assert_eq!(moons.period_min, 10_800);
    assert_eq!(moons.period_max, 93_312_000);
    assert_eq!(moons.max_tilt, 20);
}

#[test]
fn drawn_orbit_lies_within_its_bounds() {
    let bounds = small_bounds();
    let center = impossible_heap_elem_id();
    for _ in 0..200 {
        let orbit = generate_orbit(center, &bounds);
        assert!(orbit.center_component == center);
        assert!((10..20).contains(&orbit.radius));
        assert!((5..9).contains(&orbit.period_secs));
        assert!((-2..2).contains(&orbit.tilt.roll));
        assert!((-2..2).contains(&orbit.tilt.pitch));
        assert!((-2..2).contains(&orbit.tilt.yaw));
        assert_eq!(orbit.cycle_secs, 0);
        let tilt = generate_orbit_tilt(1);
        assert!((-1..1).contains(&tilt.roll));
        assert!((-1..1).contains(&tilt.pitch));
        assert!((-1..1).contains(&tilt.yaw));
    }
}

#[test]
fn range_of_one_number_gives_that_number() {
    let bounds =
        OrbitBounds { radius_min: 7, radius_max: 8, period_min: 3, period_max: 4, max_tilt: 1 };
    let orbit = generate_orbit(impossible_heap_elem_id(), &bounds);
    assert_eq!(orbit.radius, 7);
    assert_eq!(orbit.period_secs, 3);
}

#[test]
fn stars_own_a_mark_and_a_position_at_the_origin() {
    let mut world = World::with_capacity(8, 16);
    let stars = generate_stars(&mut world, 3).unwrap();
    assert_eq!(stars.len(), 3);
    assert_eq!(world.stars().len(), 3);
    for (i, star) in stars.iter().enumerate() {
        assert!(world.stars()[i] == *star);
        let mark = world.get_entity_component_key::<Star>(star).unwrap();
        assert_eq!(world.component::<Star>(&mark), Ok(&Star {}));
        assert_eq!(position_of(&world, star), Vector3::new(0.0, 0.0, 0.0));
        assert!(world.get_entity_component_key::<SelestialOrbit>(star).is_err());
        assert!(world.get_entity_component_key::<Planet>(star).is_err());
        assert!(world.get_entity_component_key::<Moon>(star).is_err());
    }
    assert_eq!(world.component_ids_left(), usize::MAX - 6);
    assert!(generate_stars(&mut world, 0).unwrap().is_empty());
    assert_eq!(world.stars().len(), 3);
}

#[test]
fn three_roots_with_fanout_two_make_six_children() {
    let mut world = World::with_capacity(16, 64);
    let stars = generate_stars(&mut world, 3).unwrap();
    let planets =
        generate_planets(&mut world, stars.clone(), 2, &small_bounds(), &place).unwrap();
    assert_eq!(stars.len(), 3);
    assert_eq!(planets.len(), 6);
    assert_eq!(world.stars().len(), 3);
    assert_eq!(world.planets().len(), 6);
    assert!(world.moons().is_empty());
    let mut all: Vec<HeapElemId<Entities>> = stars.clone();
    all.extend(planets.iter().copied());
    for i in 0..all.len() {
        for j in 0..all.len() {
            assert_eq!(all[i] == all[j], i == j);
        }
    }
    for (i, planet) in planets.iter().enumerate() {
        assert!(world.planets()[i] == *planet);
        let star_pos = world.get_entity_component_key::<SelestialPos>(&stars[i / 2]).unwrap();
        let orbit = orbit_of(&world, planet);
        assert!(orbit.center_component == star_pos);
        assert!((10..20).contains(&orbit.radius));
        assert!((5..9).contains(&orbit.period_secs));
        let mark = world.get_entity_component_key::<Planet>(planet).unwrap();
        assert_eq!(world.component::<Planet>(&mark), Ok(&Planet {}));
        assert!(world.get_entity_component_key::<Star>(planet).is_err());
        assert!(world.get_entity_component_key::<Moon>(planet).is_err());
        let expected = from_pos(&place(orbit, to_pos(Vector3::new(0.0, 0.0, 0.0))));
        assert_eq!(position_of(&world, planet), expected);
    }
    // the stars are as they were
    for star in &stars {
        assert_eq!(position_of(&world, star), Vector3::new(0.0, 0.0, 0.0));
        assert!(world.get_entity_component_key::<Star>(star).is_ok());
        assert!(world.get_entity_component_key::<SelestialOrbit>(star).is_err());
    }
    assert_eq!(world.entity_ids_left(), usize::MAX - 9);
    assert_eq!(world.component_ids_left(), usize::MAX - 6 - 18);
}

#[test]
fn moons_circle_the_positions_of_their_planets() {
    let mut world = World::with_capacity(64, 256);
    let stars = generate_stars(&mut world, 2).unwrap();
    let planets =
        generate_planets(&mut world, stars.clone(), 3, &small_bounds(), &place).unwrap();
    let moons =
        generate_moons(&mut world, planets.clone(), 2, &small_bounds(), &place).unwrap();
    assert_eq!(planets.len(), 6);
    assert_eq!(moons.len(), 12);
    assert_eq!(world.moons().len(), 12);
    for (i, moon) in moons.iter().enumerate() {
        let planet = &planets[i / 2];
        let planet_pos = world.get_entity_component_key::<SelestialPos>(planet).unwrap();
        let orbit = orbit_of(&world, moon);
        assert!(orbit.center_component == planet_pos);
        let mark = world.get_entity_component_key::<Moon>(moon).unwrap();
        assert_eq!(world.component::<Moon>(&mark), Ok(&Moon {}));
        assert!(world.get_entity_component_key::<Planet>(moon).is_err());
        let host = *world.component::<SelestialPos>(&planet_pos).unwrap();
        assert_eq!(position_of(&world, moon), from_pos(&place(orbit, host)));
    }
}

#[test]
fn generation_round_a_body_without_position_fails_and_changes_nothing() {
    let mut world = World::with_capacity(8, 16);
    let stars = generate_stars(&mut world, 1).unwrap();
    let bare = world.alloc_n_entities(1).unwrap()[0];
    let entities_left = world.entity_ids_left();
    let components_left = world.component_ids_left();
    let parents = vec![stars[0], bare];
    assert_eq!(
        generate_planets(&mut world, parents, 2, &small_bounds(), &place).err(),
        Some(StoreError::ComponentNotFound)
    );
    assert_eq!(world.entity_ids_left(), entities_left);
    assert_eq!(world.component_ids_left(), components_left);
    assert!(world.planets().is_empty());
}

#[test]
fn generation_round_a_freed_position_fails_with_dangling_reference() {
    let mut world = World::with_capacity(8, 16);
    let stars = generate_stars(&mut world, 2).unwrap();
    let pos = world.get_entity_component_key::<SelestialPos>(&stars[1]).unwrap();
    world.free_component(&pos).unwrap();
    let components_left = world.component_ids_left();
    assert_eq!(
        generate_planets(&mut world, stars.clone(), 1, &small_bounds(), &place).err(),
        Some(StoreError::DanglingReference)
    );
    assert_eq!(world.component_ids_left(), components_left);
    assert!(world.planets().is_empty());
}

#[test]
fn generation_beyond_the_identifiers_fails_with_exhausted() {
    let mut world = World::with_capacity(8, 16);
    let stars = generate_stars(&mut world, 2).unwrap();
    assert_eq!(
        generate_planets(&mut world, stars.clone(), usize::MAX, &small_bounds(), &place).err(),
        Some(StoreError::Exhausted)
    );
    assert_eq!(
        generate_planets(&mut world, stars.clone(), usize::MAX / 4, &small_bounds(), &place).err(),
        Some(StoreError::Exhausted)
    );
    assert!(matches!(generate_stars(&mut world, usize::MAX), Err(StoreError::Exhausted)));
    assert!(world.planets().is_empty());
    assert_eq!(world.stars().len(), 2);
    // no children is no error
    assert!(generate_planets(&mut world, stars, 0, &small_bounds(), &place).unwrap().is_empty());
}

#[test]
fn child_position_follows_the_phase_formula() {
    let at = Vector3::new(1.0e6, -2.0e6, 3.0e6);
    let radius = 1000u64;
    let period = 7u64;
    let (mut world, planet) = star_and_planet(at, radius, period);
    for k in 1u64..=20 {
        if k % period == 0 {
            // the phase divisor is zero here: the angle is not finite
            assert_eq!(tick(&mut world, &advance), Ok(()));
            assert_eq!(world.tick_number(), k);
            let pos = position_of(&world, &planet);
            assert!(!pos.x.is_finite() || pos.x.is_nan());
            continue;
        }
        assert_eq!(tick(&mut world, &advance), Ok(()));
        assert_eq!(world.tick_number(), k);
        let angle = 2.0 * PI / (k % period) as f64;
        let expected = at + Vector3::new(
            radius as f64 * angle.cos(),
            radius as f64 * angle.sin(),
            0.0,
        );
        let pos = position_of(&world, &planet);
        assert!((pos - expected).norm() < 1.0e-6, "tick {k}: {pos} is not {expected}");
    }
}

#[test]
fn first_tick_turns_the_child_once_round() {
    let (mut world, planet) = star_and_planet(Vector3::new(0.0, 0.0, 0.0), 10, 4);
    tick(&mut world, &advance).unwrap();
    // at tick 1 the angle is a full turn
    let pos = position_of(&world, &planet);
    assert!((pos - Vector3::new(10.0, 0.0, 0.0)).norm() < 1.0e-9);
    tick(&mut world, &advance).unwrap();
    // at tick 2 half a turn
    let pos = position_of(&world, &planet);
    assert!((pos - Vector3::new(-10.0, 0.0, 0.0)).norm() < 1.0e-9);
}

#[test]
fn stars_are_not_moved_by_a_tick() {
    let mut world = World::with_capacity(16, 64);
    let stars = generate_stars(&mut world, 2).unwrap();
    generate_planets(&mut world, stars.clone(), 2, &small_bounds(), &place).unwrap();
    for _ in 0..3 {
        tick(&mut world, &advance).unwrap();
    }
    assert_eq!(world.tick_number(), 3);
    for star in &stars {
        assert_eq!(position_of(&world, star), Vector3::new(0.0, 0.0, 0.0));
    }
}

#[test]
fn moon_is_placed_round_the_new_position_of_its_planet() {
    let mut world = World::with_capacity(64, 256);
    let stars = generate_stars(&mut world, 1).unwrap();
    let planets =
        generate_planets(&mut world, stars.clone(), 2, &small_bounds(), &place).unwrap();
    let moons =
        generate_moons(&mut world, planets.clone(), 2, &small_bounds(), &place).unwrap();
    for k in 1u64..=4 {
        tick(&mut world, &advance).unwrap();
        for (i, planet) in planets.iter().enumerate() {
            let orbit = orbit_of(&world, planet);
            let expected = advance(orbit, k % orbit.period_secs, to_pos(Vector3::zeros()));
            assert_eq!(position_of(&world, planet), from_pos(&expected));
            for moon in &moons[2 * i..2 * i + 2] {
                let moon_orbit = orbit_of(&world, moon);
                let host = to_pos(position_of(&world, planet));
                let expected = advance(moon_orbit, k % moon_orbit.period_secs, host);
                assert_eq!(position_of(&world, moon), from_pos(&expected));
            }
        }
    }
}

#[test]
fn body_without_orbit_is_skipped_by_a_tick() {
    let mut world = World::with_capacity(4, 4);
    let body = world.alloc_n_entities(1).unwrap()[0];
    let pos = world.put_component(SelestialPos::new(5, 6, 7)).unwrap();
    world.bind_component(body, pos).unwrap();
    world.register_planets(&vec![body]);
    assert_eq!(tick(&mut world, &advance), Ok(()));
    assert_eq!(world.tick_number(), 1);
    assert_eq!(world.component::<SelestialPos>(&pos), Ok(&SelestialPos::new(5, 6, 7)));
}

#[test]
fn tick_with_a_freed_host_fails_with_dangling_reference() {
    let (mut world, planet) = star_and_planet(Vector3::new(1.0, 2.0, 3.0), 10, 4);
    tick(&mut world, &advance).unwrap();
    let before = position_of(&world, &planet);
    let host = orbit_of(&world, &planet).center_component;
    world.free_component(&host).unwrap();
    assert_eq!(tick(&mut world, &advance), Err(StoreError::DanglingReference));
    // nothing has changed: not the count, not the position
    assert_eq!(world.tick_number(), 1);
    assert_eq!(position_of(&world, &planet), before);
}

#[test]
fn tick_with_an_orbit_without_period_fails_with_zero_period() {
    let (mut world, planet) = star_and_planet(Vector3::new(1.0, 2.0, 3.0), 10, 0);
    let before = position_of(&world, &planet);
    assert_eq!(tick(&mut world, &advance), Err(StoreError::ZeroPeriod));
    assert_eq!(world.tick_number(), 0);
    assert_eq!(position_of(&world, &planet), before);
}

#[test]
fn tick_with_an_orbit_never_written_fails_with_uninitialized_slot() {
    let mut world = World::with_capacity(4, 4);
    let body = world.alloc_n_entities(1).unwrap()[0];
    let pos = world.put_component(SelestialPos::new(5, 6, 7)).unwrap();
    let orbit = world.alloc_n_components::<SelestialOrbit>(1).unwrap()[0];
    world.bind_component(body, pos).unwrap();
    world.bind_component(body, orbit).unwrap();
    world.register_moons(&vec![body]);
    assert_eq!(tick(&mut world, &advance), Err(StoreError::UninitializedSlot));
    assert_eq!(world.tick_number(), 0);
}

#[test]
fn generated_world_has_the_shape_that_was_asked_for() {
    let world = generate_world(3, 2, 4, &place).unwrap();
    assert_eq!(world.tick_number(), 0);
    assert_eq!(world.stars().len(), 3);
    assert_eq!(world.planets().len(), 6);
    assert_eq!(world.moons().len(), 24);
    assert_eq!(world.entity_ids_left(), usize::MAX - 33);
    assert_eq!(world.component_ids_left(), usize::MAX - (2 * 3 + 3 * 6 + 3 * 24));
    for star in world.stars() {
        assert_eq!(position_of(&world, star), Vector3::new(0.0, 0.0, 0.0));
    }
    let planets = planet_bounds();
    for (i, planet) in world.planets().iter().enumerate() {
        let star_pos =
            world.get_entity_component_key::<SelestialPos>(&world.stars()[i / 2]).unwrap();
        let orbit = orbit_of(&world, planet);
        assert!(orbit.center_component == star_pos);
        assert!((planets.radius_min..planets.radius_max).contains(&orbit.radius));
        assert!((planets.period_min..planets.period_max).contains(&orbit.period_secs));
        assert!((-20..20).contains(&orbit.tilt.roll));
        assert!((-20..20).contains(&orbit.tilt.pitch));
        assert!((-20..20).contains(&orbit.tilt.yaw));
    }
    let moons = moon_bounds();
    for (i, moon) in world.moons().iter().enumerate() {
        let planet_pos =
            world.get_entity_component_key::<SelestialPos>(&world.planets()[i / 4]).unwrap();
        let orbit = orbit_of(&world, moon);
        assert!(orbit.center_component == planet_pos);
        assert!((moons.radius_min..moons.radius_max).contains(&orbit.radius));
        assert!((moons.period_min..moons.period_max).contains(&orbit.period_secs));
        let host = *world.component::<SelestialPos>(&planet_pos).unwrap();
        assert_eq!(position_of(&world, moon), from_pos(&place(orbit, host)));
    }
}

#[test]
fn two_generations_give_the_same_structure() {
    let first = generate_world(3, 2, 1, &place).unwrap();
    let second = generate_world(3, 2, 1, &place).unwrap();
    assert_eq!(first.stars().len(), second.stars().len());
    assert_eq!(first.planets().len(), second.planets().len());
    assert_eq!(first.moons().len(), second.moons().len());
    for (a, b) in first.planets().iter().zip(second.planets()) {
        assert!(a == b);
        let key_a = first.get_entity_component_key::<SelestialOrbit>(a).unwrap();
        let key_b = second.get_entity_component_key::<SelestialOrbit>(b).unwrap();
        assert!(key_a == key_b);
        assert!(orbit_of(&first, a).center_component == orbit_of(&second, b).center_component);
    }
    for (a, b) in first.moons().iter().zip(second.moons()) {
        assert!(a == b);
        assert!(orbit_of(&first, a).center_component == orbit_of(&second, b).center_component);
    }
}

#[test]
fn world_too_large_for_the_identifiers_is_refused() {
    assert_eq!(generate_world(usize::MAX, 1, 1, &place).err(), Some(StoreError::Exhausted));
    assert_eq!(generate_world(2, usize::MAX / 2, 0, &place).err(), Some(StoreError::Exhausted));
    assert_eq!(generate_world(1, 2, usize::MAX / 3, &place).err(), Some(StoreError::Exhausted));
    let empty = generate_world(0, 5, 5, &place).unwrap();
    assert!(empty.stars().is_empty() && empty.planets().is_empty() && empty.moons().is_empty());
    let bare = generate_world(2, 0, 9, &place).unwrap();
    assert_eq!(bare.stars().len(), 2);
    assert!(bare.planets().is_empty() && bare.moons().is_empty());
}

#[test]
fn ten_ticks_of_a_generated_world() {
    let mut world = generate_world(2, 3, 2, &place).unwrap();
    for k in 1..=10u64 {
        assert_eq!(tick(&mut world, &advance), Ok(()));
        assert_eq!(world.tick_number(), k);
    }
    for (i, planet) in world.planets().iter().enumerate() {
        let orbit = orbit_of(&world, planet);
        let expected = advance(orbit, 10 % orbit.period_secs, to_pos(Vector3::zeros()));
        assert_eq!(position_of(&world, planet), from_pos(&expected));
        for moon in &world.moons()[2 * i..2 * i + 2] {
            let moon_orbit = orbit_of(&world, moon);
            let expected = advance(moon_orbit, 10 % moon_orbit.period_secs, expected);
            assert_eq!(position_of(&world, moon), from_pos(&expected));
        }
    }
}

#[test]
fn orbits_of_planets_and_moons_are_drawn_from_their_own_bounds() {
    let center = impossible_heap_elem_id();
    for _ in 0..100 {
        let planet = generate_planet_orbit(center);
        assert!(planet.center_component == center);
        assert!((149_597_870_691..29_919_574_138_200).contains(&planet.radius));
        assert!((7_776_000..93_312_000).contains(&planet.period_secs));
        assert!((-20..20).contains(&planet.tilt.roll));
        let moon = generate_moon_orbit(center);
        assert!(moon.center_component == center);
        assert!((100_000_000..100_000_000_000).contains(&moon.radius));
        assert!((10_800..93_312_000).contains(&moon.period_secs));
        assert!((-20..20).contains(&moon.tilt.yaw));
    }
}

#[test]
fn first_position_is_placed_from_the_position_of_the_host() {
    let mut world = World::with_capacity(2, 2);
    let at = Vector3::new(100.0, 200.0, 300.0);
    let host = world.put_component(to_pos(at)).unwrap();
    let orbit = SelestialOrbit::load(
        host,
        Tilt { roll: 0, pitch: 0, yaw: 0 },
        50,
        9,
        SelestialOrbitDirectopn::CW,
        0,
    );
    let pos = generate_orbiting_pos(&world, &orbit, &place).unwrap();
    assert_eq!(from_pos(&pos), Vector3::new(150.0, 200.0, 300.0));
    world.free_component(&host).unwrap();
    assert_eq!(
        generate_orbiting_pos(&world, &orbit, &place),
        Err(StoreError::DanglingReference)
    );
    let mark = world.put_component(Star::new()).unwrap();
    let wrong = SelestialOrbit::load(
        mark,
        Tilt { roll: 0, pitch: 0, yaw: 0 },
        50,
        9,
        SelestialOrbitDirectopn::CW,
        0,
    );
    assert!(matches!(
        generate_orbiting_pos(&world, &wrong, &place),
        Err(StoreError::TypeMismatch { .. })
    ));
}
