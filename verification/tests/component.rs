use selestial::component::moon::Moon;
use selestial::component::orbit::{SelestialOrbit, SelestialOrbitDirectopn, Tilt};
use selestial::component::planet::Planet;
use selestial::component::pos::{SelestialPos, Vector3};
use selestial::component::star::Star;
use selestial::component::{AToAny, AnyComponent, ComponentMarker, ComponentStore, Tomb};
use selestial::error::StoreError;
use selestial::heap::impossible_heap_elem_id;
use selestial::type_tag::{TyId, TypeTag};

fn mismatch<Stored: ComponentMarker + Tomb, Asked: ComponentMarker + Tomb>() {
    let mut store = ComponentStore::with_capacity(4);
    let key = store.allocate::<Stored>().unwrap();
    let stored = Stored::tomb().id();
    let asked = Asked::tomb().id();
    assert_ne!(stored, asked);
    // before anything is written
    assert!(matches!(
        store.get_as::<Asked>(&key),
        Err(StoreError::TypeMismatch { requested, actual }) if requested == asked && actual == stored
    ));
    assert_eq!(
        store.put(&key, Asked::tomb()),
        Err(StoreError::TypeMismatch { requested: asked, actual: stored })
    );
    // and after
    assert_eq!(store.put(&key, Stored::tomb()), Ok(()));
    assert!(matches!(
        store.get_as::<Asked>(&key),
        Err(StoreError::TypeMismatch { requested, actual }) if requested == asked && actual == stored
    ));
    assert!(store.get_as::<Stored>(&key).is_ok());
    assert_eq!(store.get_type_id(&key), Ok(stored));
}

fn mismatch_with_all_others<Stored: ComponentMarker + Tomb>() -> usize {
    let mut checked = 0;
    if Stored::tomb().id() != TypeTag::Star {
        mismatch::<Stored, Star>();
        checked += 1;
    }
    if Stored::tomb().id() != TypeTag::Planet {
        mismatch::<Stored, Planet>();
        checked += 1;
    }
    if Stored::tomb().id() != TypeTag::Moon {
        mismatch::<Stored, Moon>();
        checked += 1;
    }
    if Stored::tomb().id() != TypeTag::SelestialPos {
        mismatch::<Stored, SelestialPos>();
        checked += 1;
    }
    if Stored::tomb().id() != TypeTag::SelestialOrbit {
        mismatch::<Stored, SelestialOrbit>();
        checked += 1;
    }
    checked
}

#[test]
fn reading_as_another_type_is_a_type_mismatch() {
    assert_eq!(mismatch_with_all_others::<Star>(), 4);
    assert_eq!(mismatch_with_all_others::<Planet>(), 4);
    assert_eq!(mismatch_with_all_others::<Moon>(), 4);
    assert_eq!(mismatch_with_all_others::<SelestialPos>(), 4);
    assert_eq!(mismatch_with_all_others::<SelestialOrbit>(), 4);
}

#[test]
fn component_is_read_back_as_its_own_type() {
    let mut store = ComponentStore::with_capacity(0);
    let pos_key = store.allocate::<SelestialPos>().unwrap();
    let orbit_key = store.allocate::<SelestialOrbit>().unwrap();
    assert!(matches!(store.get_as::<SelestialPos>(&pos_key), Err(StoreError::UninitializedSlot)));
    store.put(&pos_key, SelestialPos::new(1, 2, 3)).unwrap();
    let orbit = SelestialOrbit::load(
        pos_key,
        Tilt { roll: 1, pitch: -2, yaw: 3 },
        1000,
        60,
        SelestialOrbitDirectopn::CCW,
        0,
    );
    store.put(&orbit_key, orbit).unwrap();
    assert_eq!(store.get_as::<SelestialPos>(&pos_key), Ok(&SelestialPos::new(1, 2, 3)));
    let read = store.get_as::<SelestialOrbit>(&orbit_key).unwrap();
    assert!(read.center_component == pos_key);
    assert_eq!(read.tilt, Tilt { roll: 1, pitch: -2, yaw: 3 });
    assert_eq!(read.radius, 1000);
    assert_eq!(read.period_secs, 60);
    assert_eq!(read.direction, SelestialOrbitDirectopn::CCW);
    assert_eq!(read.cycle_secs, 0);
    store.put(&pos_key, SelestialPos::load(Vector3::new(4, 5, 6))).unwrap();
    assert_eq!(store.get_as::<SelestialPos>(&pos_key).unwrap().pos, Vector3 { x: 4, y: 5, z: 6 });
}

#[test]
fn batch_of_reserved_slots_has_the_type_of_the_batch() {
    let mut store = ComponentStore::with_capacity(8);
    let stars = store.alloc_n::<Star>(3).unwrap();
    let moons = store.alloc_n::<Moon>(2).unwrap();
    assert_eq!(stars.len(), 3);
    assert_eq!(moons.len(), 2);
    for key in &stars {
        assert_eq!(store.get_type_id(key), Ok(TypeTag::Star));
        assert_eq!(store.put(key, Star::new()), Ok(()));
        assert_eq!(store.get_as::<Star>(key), Ok(&Star {}));
    }
    for key in &moons {
        assert_eq!(store.get_type_id(key), Ok(TypeTag::Moon));
        assert_eq!(
            store.put(key, Planet::new()),
            Err(StoreError::TypeMismatch { requested: TypeTag::Planet, actual: TypeTag::Moon })
        );
        assert_eq!(store.put(key, Moon::new()), Ok(()));
    }
}

#[test]
fn freed_component_has_no_type_and_no_value() {
    let mut store = ComponentStore::with_capacity(8);
    let key = store.allocate::<Planet>().unwrap();
    store.put(&key, Planet::new()).unwrap();
    assert_eq!(store.free(&key), Ok(()));
    assert_eq!(store.free(&key), Err(StoreError::DoubleFree));
    assert_eq!(store.get_type_id(&key), Err(StoreError::UseAfterFree));
    assert!(matches!(store.get_as::<Planet>(&key), Err(StoreError::UseAfterFree)));
    assert_eq!(store.put(&key, Planet::new()), Err(StoreError::UseAfterFree));
    // the slot is reused for a component of another type
    let next = store.allocate::<Star>().unwrap();
    assert!(next != key);
    store.put(&next, Star::new()).unwrap();
    assert_eq!(store.get_type_id(&next), Ok(TypeTag::Star));
    assert!(matches!(store.get_as::<Planet>(&key), Err(StoreError::UseAfterFree)));
}

#[test]
fn handle_never_issued_has_no_type() {
    let store = ComponentStore::with_capacity(8);
    let never = impossible_heap_elem_id();
    assert_eq!(store.get_type_id(&never), Err(StoreError::InvalidHandle));
    assert!(matches!(store.get_as::<Star>(&never), Err(StoreError::InvalidHandle)));
}

#[test]
fn direction_follows_the_parity_of_the_seed() {
    assert_eq!(SelestialOrbitDirectopn::random(0), SelestialOrbitDirectopn::CW);
    assert_eq!(SelestialOrbitDirectopn::random(1), SelestialOrbitDirectopn::CCW);
    assert_eq!(SelestialOrbitDirectopn::random(98), SelestialOrbitDirectopn::CW);
    assert_eq!(SelestialOrbitDirectopn::random(99), SelestialOrbitDirectopn::CCW);
    assert_eq!(SelestialOrbitDirectopn::random(usize::MAX), SelestialOrbitDirectopn::CCW);
}

#[test]
fn type_tags_and_their_codes_correspond() {
    let tags = [
        TypeTag::Entity,
        TypeTag::Star,
        TypeTag::Planet,
        TypeTag::Moon,
        TypeTag::SelestialPos,
        TypeTag::SelestialOrbit,
    ];
    for (i, tag) in tags.iter().enumerate() {
        assert_eq!(tag.code(), i);
        assert_eq!(TypeTag::from_code(i), Some(*tag));
    }
    assert_eq!(TypeTag::from_code(6), None);
    assert_eq!(TypeTag::from_code(usize::MAX), None);
}

#[test]
fn erased_component_keeps_its_type_and_its_value() {
    let any = SelestialPos::new(9, 8, 7).as_any();
    assert_eq!(any.id(), TypeTag::SelestialPos);
    assert_eq!(SelestialPos::downcast_ref(&any), Some(&SelestialPos::new(9, 8, 7)));
    assert!(Star::downcast_ref(&any).is_none());
    assert!(SelestialOrbit::downcast_ref(&any).is_none());
    assert!(matches!(Star::new().as_any(), AnyComponent::Star(_)));
    assert_eq!(Moon::new().id(), TypeTag::Moon);
    assert_eq!(SelestialOrbit::tomb().period_secs, 0);
    assert!(SelestialOrbit::tomb().center_component == impossible_heap_elem_id());
}

#[test]
fn default_orbit_is_an_orbit_without_period_round_the_first_handle() {
    let orbit = SelestialOrbit::default();
    assert_eq!(orbit.period_secs, 0);
    assert_eq!(orbit.radius, 0);
    assert_eq!(orbit.tilt, Tilt::default());
    assert_eq!(orbit.direction, SelestialOrbitDirectopn::CW);
    assert_eq!(orbit.center_component.id(), 0);
    assert_eq!(SelestialPos::default(), SelestialPos::new(0, 0, 0));
}

#[test]
fn tombstones_are_fixed_values() {
    let orbit = SelestialOrbit::tomb();
    assert!(orbit.center_component == impossible_heap_elem_id());
    assert_eq!(orbit.center_component.id(), usize::MAX);
    assert_eq!(orbit.tilt, Tilt::new(0, 0, 0));
    assert_eq!(orbit.radius, 0);
    assert_eq!(orbit.period_secs, 0);
    assert_eq!(orbit.direction, SelestialOrbitDirectopn::CW);
    assert_eq!(orbit.cycle_secs, 0);
    assert_eq!(SelestialPos::tomb(), SelestialPos::new(0, 0, 0));
    assert_eq!(SelestialPos::tomb(), SelestialPos::tomb());
    assert_eq!(Star::tomb(), Star::new());
    assert_eq!(Planet::tomb(), Planet::new());
    assert_eq!(Moon::tomb(), Moon::new());
}

#[test]
fn tilt_holds_its_three_angles() {
    let tilt = Tilt::new(1, -2, 3);
    assert_eq!(tilt, Tilt { roll: 1, pitch: -2, yaw: 3 });
    assert_eq!((tilt.roll, tilt.pitch, tilt.yaw), (1, -2, 3));
}
