use rapier_sync::colliding::{update_colliding_entities, CollidingEntities};
use rapier_sync::ids::Entity;
use rapier_sync::world::{CollisionEvent, EVENT_FLAG_SENSOR};
use std::collections::HashMap;

#[test]
fn colliding_entities_updates() {
    let entity1 = Entity::from_bits(1);
    let entity2 = Entity::from_bits(2);
    let mut sets: HashMap<u64, CollidingEntities> = HashMap::new();
    sets.insert(entity1.to_bits(), CollidingEntities::new());
    sets.insert(entity2.to_bits(), CollidingEntities::new());

    update_colliding_entities(
        &mut sets,
        &vec![CollisionEvent::Started(entity1, entity2, EVENT_FLAG_SENSOR)],
    );

    let colliding_entities1 = &sets[&entity1.to_bits()];
    assert_eq!(colliding_entities1.len(), 1, "There should be one colliding entity");
    assert!(
        colliding_entities1.contains(entity2),
        "Colliding entity should be equal to the second entity"
    );
    let colliding_entities2 = &sets[&entity2.to_bits()];
    assert_eq!(colliding_entities2.len(), 1, "There should be one colliding entity");
    assert!(
        colliding_entities2.contains(entity1),
        "Colliding entity should be equal to the first entity"
    );

    update_colliding_entities(
        &mut sets,
        &vec![CollisionEvent::Stopped(entity1, entity2, EVENT_FLAG_SENSOR)],
    );

    assert!(
        sets[&entity1.to_bits()].is_empty(),
        "Colliding entity should be removed from the CollidingEntities component when the collision ends"
    );
    assert!(
        sets[&entity2.to_bits()].is_empty(),
        "Colliding entity should be removed from the CollidingEntities component when the collision ends"
    );
}

#[test]
fn entity_without_set_is_left_alone() {
    let a = Entity::from_bits(10);
    let b = Entity::from_bits(20);
    let mut sets: HashMap<u64, CollidingEntities> = HashMap::new();
    sets.insert(a.to_bits(), CollidingEntities::new());
    update_colliding_entities(&mut sets, &vec![CollisionEvent::Started(a, b, 0)]);
    assert_eq!(sets.len(), 1);
    assert!(sets[&a.to_bits()].contains(b));
    assert!(!sets.contains_key(&b.to_bits()));
}

#[test]
fn events_apply_in_order() {
    let a = Entity::from_bits(1);
    let b = Entity::from_bits(2);
    let c = Entity::from_bits(3);
    let mut sets: HashMap<u64, CollidingEntities> = HashMap::new();
    for e in [a, b, c] {
        sets.insert(e.to_bits(), CollidingEntities::new());
    }
    update_colliding_entities(
        &mut sets,
        &vec![
            CollisionEvent::Started(a, b, 0),
            CollisionEvent::Started(a, c, 0),
            CollisionEvent::Stopped(b, a, 0),
        ],
    );
    assert_eq!(sets[&a.to_bits()].len(), 1);
    assert!(sets[&a.to_bits()].contains(c));
    assert!(sets[&b.to_bits()].is_empty());
    assert!(sets[&c.to_bits()].contains(a));

    // A stop followed by a start of the same pair leaves them colliding.
    update_colliding_entities(
        &mut sets,
        &vec![CollisionEvent::Stopped(a, c, 0), CollisionEvent::Started(c, a, 0)],
    );
    assert!(sets[&a.to_bits()].contains(c));
    assert!(sets[&c.to_bits()].contains(a));
}
