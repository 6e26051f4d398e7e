use selestial::component::moon::Moon;
use selestial::component::orbit::SelestialOrbit;
use selestial::component::planet::Planet;
use selestial::component::pos::SelestialPos;
use selestial::component::star::Star;
use selestial::error::StoreError;
use selestial::heap::impossible_heap_elem_id;
use selestial::type_tag::TypeTag;
use selestial::world::World;

#[test]
fn new_world_is_empty() {
    let world = World::with_capacity(10, 30);
    assert_eq!(world.tick_number(), 0);
    assert!(world.stars().is_empty());
    assert!(world.planets().is_empty());
    assert!(world.moons().is_empty());
    assert_eq!(world.entity_ids_left(), usize::MAX);
    assert_eq!(world.component_ids_left(), usize::MAX);
}

#[test]
fn bound_component_is_found_under_its_type() {
    let mut world = World::with_capacity(4, 4);
    let entity = world.alloc_n_entities(1).unwrap()[0];
    let pos = world.put_component(SelestialPos::new(1, 2, 3)).unwrap();
    let mark = world.put_component(Star::new()).unwrap();
    assert_eq!(world.bind_component(entity, pos), Ok(()));
    assert_eq!(world.bind_component(entity, mark), Ok(()));
    assert!(world.get_entity_component_key::<SelestialPos>(&entity).unwrap() == pos);
    assert!(world.get_entity_component_key::<Star>(&entity).unwrap() == mark);
    assert_eq!(world.component::<SelestialPos>(&pos), Ok(&SelestialPos::new(1, 2, 3)));
    assert_eq!(world.component_type(&mark), Ok(TypeTag::Star));
}

#[test]
fn unbound_type_is_component_not_found() {
    let mut world = World::with_capacity(4, 4);
    let entity = world.alloc_n_entities(1).unwrap()[0];
    let pos = world.put_component(SelestialPos::new(1, 2, 3)).unwrap();
    world.bind_component(entity, pos).unwrap();
    assert!(matches!(
        world.get_entity_component_key::<SelestialOrbit>(&entity),
        Err(StoreError::ComponentNotFound)
    ));
    assert!(matches!(
        world.get_entity_component_key::<Planet>(&entity),
        Err(StoreError::ComponentNotFound)
    ));
}

#[test]
fn second_binding_of_a_type_replaces_the_first() {
    let mut world = World::with_capacity(4, 4);
    let entities = world.alloc_n_entities(2).unwrap();
    let first = world.put_component(SelestialPos::new(1, 1, 1)).unwrap();
    let second = world.put_component(SelestialPos::new(2, 2, 2)).unwrap();
    let other = world.put_component(SelestialPos::new(3, 3, 3)).unwrap();
    world.bind_component(entities[1], other).unwrap();
    world.bind_component(entities[0], first).unwrap();
    assert!(world.get_entity_component_key::<SelestialPos>(&entities[0]).unwrap() == first);
    world.bind_component(entities[0], second).unwrap();
    let bound = world.get_entity_component_key::<SelestialPos>(&entities[0]).unwrap();
    assert!(bound == second);
    assert!(bound != first);
    assert_eq!(world.component::<SelestialPos>(&bound), Ok(&SelestialPos::new(2, 2, 2)));
    // the binding of the other entity is untouched, and the first component still exists
    assert!(world.get_entity_component_key::<SelestialPos>(&entities[1]).unwrap() == other);
    assert_eq!(world.component::<SelestialPos>(&first), Ok(&SelestialPos::new(1, 1, 1)));
    // binding the same component again changes nothing
    world.bind_component(entities[0], second).unwrap();
    assert!(world.get_entity_component_key::<SelestialPos>(&entities[0]).unwrap() == second);
}

#[test]
fn binding_to_an_entity_that_does_not_exist_is_refused() {
    let mut world = World::with_capacity(4, 4);
    let pos = world.put_component(SelestialPos::new(1, 2, 3)).unwrap();
    let nobody = impossible_heap_elem_id();
    assert_eq!(world.bind_component(nobody, pos), Err(StoreError::InvalidHandle));
    assert!(matches!(
        world.get_entity_component_key::<SelestialPos>(&nobody),
        Err(StoreError::ComponentNotFound)
    ));
}

#[test]
fn binding_a_component_that_does_not_exist_is_refused() {
    let mut world = World::with_capacity(4, 4);
    let entity = world.alloc_n_entities(1).unwrap()[0];
    assert_eq!(
        world.bind_component(entity, impossible_heap_elem_id()),
        Err(StoreError::InvalidHandle)
    );
    let pos = world.put_component(SelestialPos::new(1, 2, 3)).unwrap();
    world.free_component(&pos).unwrap();
    assert_eq!(world.bind_component(entity, pos), Err(StoreError::UseAfterFree));
    assert!(matches!(
        world.get_entity_component_key::<SelestialPos>(&entity),
        Err(StoreError::ComponentNotFound)
    ));
}

#[test]
fn batch_of_bindings_is_made_in_order() {
    let mut world = World::with_capacity(4, 4);
    let entities = world.alloc_n_entities(2).unwrap();
    let marks = world.alloc_n_components::<Moon>(2).unwrap();
    let positions = world.alloc_n_components::<SelestialPos>(3).unwrap();
    for mark in &marks {
        world.replace_component(mark, Moon::new()).unwrap();
    }
    for (i, pos) in positions.iter().enumerate() {
        world.replace_component(pos, SelestialPos::new(i as u64, 0, 0)).unwrap();
    }
    let pairs = vec![
        (entities[0], marks[0]),
        (entities[0], positions[0]),
        (entities[1], marks[1]),
        (entities[1], positions[1]),
        (entities[1], positions[2]),
    ];
    assert_eq!(world.bind_n_components(pairs), Ok(()));
    assert!(world.get_entity_component_key::<Moon>(&entities[0]).unwrap() == marks[0]);
    assert!(world.get_entity_component_key::<SelestialPos>(&entities[0]).unwrap() == positions[0]);
    assert!(world.get_entity_component_key::<Moon>(&entities[1]).unwrap() == marks[1]);
    // the later of two pairs for one entity and type stays
    assert!(world.get_entity_component_key::<SelestialPos>(&entities[1]).unwrap() == positions[2]);
}

#[test]
fn batch_with_a_bad_pair_binds_nothing() {
    let mut world = World::with_capacity(4, 4);
    let entities = world.alloc_n_entities(2).unwrap();
    let pos = world.put_component(SelestialPos::new(1, 2, 3)).unwrap();
    let gone = world.put_component(SelestialPos::new(4, 5, 6)).unwrap();
    world.free_component(&gone).unwrap();
    let pairs = vec![(entities[0], pos), (entities[1], gone), (entities[1], pos)];
    assert_eq!(world.bind_n_components(pairs), Err(StoreError::UseAfterFree));
    assert!(world.get_entity_component_key::<SelestialPos>(&entities[0]).is_err());
    assert!(world.get_entity_component_key::<SelestialPos>(&entities[1]).is_err());
    let pairs = vec![(entities[0], pos), (impossible_heap_elem_id(), pos)];
    assert_eq!(world.bind_n_components(pairs), Err(StoreError::InvalidHandle));
    assert!(world.get_entity_component_key::<SelestialPos>(&entities[0]).is_err());
}

#[test]
fn components_of_many_entities_come_in_their_order() {
    let mut world = World::with_capacity(4, 4);
    let entities = world.alloc_n_entities(3).unwrap();
    let mut positions = Vec::new();
    for (i, entity) in entities.iter().enumerate() {
        let pos = world.put_component(SelestialPos::new(i as u64, 0, 0)).unwrap();
        world.bind_component(*entity, pos).unwrap();
        positions.push(pos);
    }
    let asked = [entities[2], entities[0], entities[2], entities[1]];
    let found = world.get_many_entities_compoents_key::<SelestialPos>(&asked).unwrap();
    assert_eq!(found.len(), 4);
    assert!(found[0] == positions[2]);
    assert!(found[1] == positions[0]);
    assert!(found[2] == positions[2]);
    assert!(found[3] == positions[1]);
    assert!(world.get_many_entities_compoents_key::<SelestialPos>(&[]).unwrap().is_empty());
    assert!(matches!(
        world.get_many_entities_compoents_key::<Star>(&asked),
        Err(StoreError::ComponentNotFound)
    ));
    let extra = world.alloc_n_entities(1).unwrap()[0];
    assert!(matches!(
        world.get_many_entities_compoents_key::<SelestialPos>(&[entities[0], extra]),
        Err(StoreError::ComponentNotFound)
    ));
}

#[test]
fn replacing_a_component_keeps_its_type() {
    let mut world = World::with_capacity(4, 4);
    let pos = world.put_component(SelestialPos::new(1, 2, 3)).unwrap();
    assert_eq!(world.replace_component(&pos, SelestialPos::new(7, 8, 9)), Ok(()));
    assert_eq!(world.component::<SelestialPos>(&pos), Ok(&SelestialPos::new(7, 8, 9)));
    assert_eq!(
        world.replace_component(&pos, Star::new()),
        Err(StoreError::TypeMismatch {
            requested: TypeTag::Star,
            actual: TypeTag::SelestialPos
        })
    );
    assert_eq!(world.component::<SelestialPos>(&pos), Ok(&SelestialPos::new(7, 8, 9)));
    assert!(matches!(
        world.component::<Star>(&pos),
        Err(StoreError::TypeMismatch {
            requested: TypeTag::Star,
            actual: TypeTag::SelestialPos
        })
    ));
}

#[test]
fn entities_of_two_batches_are_distinct() {
    let mut world = World::with_capacity(4, 4);
    let mut all = world.alloc_n_entities(3).unwrap();
    all.extend(world.alloc_n_entities(2).unwrap());
    assert_eq!(all.len(), 5);
    for i in 0..all.len() {
        for j in 0..all.len() {
            assert_eq!(all[i] == all[j], i == j);
        }
    }
    assert_eq!(world.entity_ids_left(), usize::MAX - 5);
    assert!(matches!(world.alloc_n_entities(usize::MAX), Err(StoreError::Exhausted)));
    assert_eq!(world.entity_ids_left(), usize::MAX - 5);
    world.put_component(Star::new()).unwrap();
    assert!(matches!(
        world.alloc_n_components::<Star>(usize::MAX),
        Err(StoreError::Exhausted)
    ));
    assert_eq!(world.component_ids_left(), usize::MAX - 1);
}

#[test]
fn single_entities_are_distinct_from_batched_ones() {
    let mut world = World::with_capacity(4, 4);
    let first = world.alloc_entity().unwrap();
    let batch = world.alloc_n_entities(2).unwrap();
    let last = world.alloc_entity().unwrap();
    assert!(first != batch[0] && first != batch[1] && first != last);
    assert!(batch[0] != batch[1] && batch[0] != last && batch[1] != last);
    let pos = world.put_component(SelestialPos::new(1, 2, 3)).unwrap();
    assert_eq!(world.bind_component(last, pos), Ok(()));
    assert!(world.get_entity_component_key::<SelestialPos>(&last).unwrap() == pos);
    assert!(world.get_entity_component_key::<SelestialPos>(&first).is_err());
    assert_eq!(world.entity_ids_left(), usize::MAX - 4);
}
