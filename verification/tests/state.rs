use selestial::component::orbit::SelestialOrbit;
use selestial::component::pos::SelestialPos;
use selestial::component::star::Star;
use selestial::component::Tomb;
use selestial::error::StoreError;
use selestial::state::{ComponentArena, State};
use selestial::type_tag::TypeTag;

#[test]
fn arena_numbers_components_from_zero() {
    let mut arena = ComponentArena::new();
    assert_eq!(arena.push(Star::new()), Ok(0));
    assert_eq!(arena.push(SelestialPos::new(1, 2, 3)), Ok(1));
    assert_eq!(arena.push(SelestialPos::new(4, 5, 6)), Ok(2));
    assert_eq!(arena.get_as::<Star>(0), Ok(&Star {}));
    assert_eq!(arena.get_as::<SelestialPos>(1), Ok(&SelestialPos::new(1, 2, 3)));
    assert_eq!(arena.get_as::<SelestialPos>(2), Ok(&SelestialPos::new(4, 5, 6)));
}

#[test]
fn arena_refuses_a_number_it_has_not_given() {
    let mut arena = ComponentArena::new();
    assert!(matches!(arena.get_as::<Star>(0), Err(StoreError::InvalidHandle)));
    arena.push(Star::new()).unwrap();
    assert!(matches!(arena.get_as::<Star>(1), Err(StoreError::InvalidHandle)));
}

#[test]
fn arena_refuses_to_read_as_another_type() {
    let mut arena = ComponentArena::new();
    let id = arena.push(SelestialOrbit::tomb()).unwrap();
    assert!(matches!(
        arena.get_as::<SelestialPos>(id),
        Err(StoreError::TypeMismatch {
            requested: TypeTag::SelestialPos,
            actual: TypeTag::SelestialOrbit
        })
    ));
    assert!(arena.get_as::<SelestialOrbit>(id).is_ok());
}

#[test]
fn entities_are_numbered_from_zero() {
    let mut state = State::new();
    assert_eq!(state.create_entity(), 0);
    assert_eq!(state.create_entity(), 1);
    assert_eq!(state.create_entity(), 2);
}

#[test]
fn entity_owns_one_component_of_a_type() {
    let mut state = State::new();
    let a = state.create_entity();
    let b = state.create_entity();
    let first = state.add_component(a, SelestialPos::new(1, 1, 1)).unwrap();
    // a second position for the same entity is not stored
    let again = state.add_component(a, SelestialPos::new(2, 2, 2)).unwrap();
    assert_eq!(first, again);
    assert_eq!(
        state.components().get_as::<SelestialPos>(first),
        Ok(&SelestialPos::new(1, 1, 1))
    );
    // another type, and another entity, get components of their own
    let mark = state.add_component(a, Star::new()).unwrap();
    let other = state.add_component(b, SelestialPos::new(3, 3, 3)).unwrap();
    assert_eq!((first, mark, other), (0, 1, 2));
    assert_eq!(
        state.components().get_as::<SelestialPos>(other),
        Ok(&SelestialPos::new(3, 3, 3))
    );
    assert!(matches!(
        state.components().get_as::<SelestialPos>(3),
        Err(StoreError::InvalidHandle)
    ));
}

#[test]
fn creating_an_entity_clears_what_was_recorded_under_its_number() {
    let mut state = State::new();
    // entity 0 does not exist yet
    let early = state.add_component(0, SelestialPos::new(1, 1, 1)).unwrap();
    assert_eq!(state.create_entity(), 0);
    let late = state.add_component(0, SelestialPos::new(2, 2, 2)).unwrap();
    assert_ne!(early, late);
    assert_eq!(
        state.components().get_as::<SelestialPos>(late),
        Ok(&SelestialPos::new(2, 2, 2))
    );
}
