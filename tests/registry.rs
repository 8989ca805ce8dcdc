use rapier_sync::context::{RapierContext, WorldError};
use rapier_sync::ids::{
    ArenaIndex, ColliderHandle, Entity, ImpulseJointHandle, MultibodyJointHandle, RigidBodyHandle,
    WorldId, DEFAULT_WORLD,
};
use rapier_sync::world::{CollisionEvent, RapierWorld};

fn body(i: u32) -> RigidBodyHandle {
    RigidBodyHandle(ArenaIndex::from_raw_parts(i, 0))
}

fn collider(i: u32) -> ColliderHandle {
    ColliderHandle(ArenaIndex::from_raw_parts(i, 0))
}

fn world_with_body(e: u64, b: u32, c: u32) -> RapierWorld {
    let mut w = RapierWorld::new();
    assert!(w.insert_body(Entity::from_bits(e), body(b)));
    assert!(w.insert_collider(Entity::from_bits(e + 1), collider(c), Some(body(b))));
    w
}

#[test]
fn default_world_exists_and_ids_grow() {
    let mut ctx = RapierContext::default();
    assert!(ctx.get_world(WorldId::default_world()).is_ok());
    assert_eq!(WorldId::default_world(), WorldId(DEFAULT_WORLD));
    assert_eq!(WorldId::new(3), WorldId(3));
    let w1 = ctx.add_world(RapierWorld::new());
    let w2 = ctx.add_world(RapierWorld::new());
    assert_eq!(w1, WorldId(1));
    assert_eq!(w2, WorldId(2));
    assert!(ctx.remove_world(w2).is_ok());
    // Ids are never reused.
    assert_eq!(ctx.add_world(RapierWorld::new()), WorldId(3));
}

#[test]
fn unknown_world_is_an_error() {
    let mut ctx = RapierContext::default();
    let missing = WorldId(9);
    assert_eq!(ctx.get_world(missing).err(), Some(WorldError::WorldNotFound { world_id: missing }));
    assert!(matches!(ctx.get_world_mut(missing), Err(WorldError::WorldNotFound { world_id }) if world_id == missing));
    assert!(matches!(ctx.remove_world(missing), Err(WorldError::WorldNotFound { world_id }) if world_id == missing));
    assert!(ctx.entity2body(missing).is_err());
    assert!(ctx.entity2collider(missing).is_err());
    assert!(ctx.entity2impulse_joint(missing).is_err());
    assert!(ctx.entity2multibody_joint(missing).is_err());
    assert_eq!(WorldError::WorldNotFound { world_id: missing }.message(), "World not found.");
}

#[test]
fn default_world_can_be_removed_for_good() {
    let mut ctx = RapierContext::default();
    assert!(ctx.remove_world(WorldId(0)).is_ok());
    assert!(ctx.get_world(WorldId(0)).is_err());
    assert_eq!(ctx.add_world(RapierWorld::new()), WorldId(1));
    assert!(ctx.get_world(WorldId(0)).is_err());
}

#[test]
fn removing_a_world_leaves_the_others() {
    let mut ctx = RapierContext::new(world_with_body(100, 0, 0));
    let w1 = ctx.add_world(world_with_body(200, 0, 0));
    let w2 = ctx.add_world(world_with_body(300, 5, 6));
    let removed = ctx.remove_world(w2).ok().unwrap();
    assert_eq!(removed.body_of(Entity::from_bits(300)), Some(body(5)));
    let kept = ctx.get_world(w1).ok().unwrap();
    assert_eq!(kept.body_of(Entity::from_bits(200)), Some(body(0)));
    assert_eq!(kept.collider_of(Entity::from_bits(201)), Some(collider(0)));
    assert_eq!(kept.collider_parent(Entity::from_bits(201)), Some(Entity::from_bits(200)));
    let default = ctx.get_world(WorldId(0)).ok().unwrap();
    assert_eq!(default.body_of(Entity::from_bits(100)), Some(body(0)));
    assert_eq!(ctx.entity2body(w1).ok().unwrap().len(), 1);
}

#[test]
fn cross_world_lookups_take_the_first_world() {
    let mut ctx = RapierContext::new(world_with_body(100, 0, 0));
    let w1 = ctx.add_world(world_with_body(200, 0, 7));
    // Handle 0 exists in both worlds: the default world answers first.
    assert_eq!(ctx.rigid_body_entity(body(0)), Some(Entity::from_bits(100)));
    assert_eq!(ctx.collider_entity(collider(7)), Some(Entity::from_bits(201)));
    assert_eq!(ctx.collider_entity(collider(8)), None);
    assert_eq!(ctx.collider_parent(Entity::from_bits(201)), Some(Entity::from_bits(200)));
    assert_eq!(ctx.collider_parent(Entity::from_bits(999)), None);
    assert_eq!(ctx.collider_parent_for_world(Entity::from_bits(101), w1), None);
    assert_eq!(
        ctx.collider_parent_for_world(Entity::from_bits(101), WorldId(0)),
        Some(Entity::from_bits(100))
    );
    assert_eq!(ctx.rigid_body_entity_in_world(body(0), w1), Some(Entity::from_bits(200)));
    assert_eq!(ctx.rigid_body_entity_in_world(body(0), WorldId(5)), None);
}

#[test]
fn removals_find_the_owning_world() {
    let mut ctx = RapierContext::new(RapierWorld::new());
    let w1 = ctx.add_world(world_with_body(200, 2, 3));
    assert_eq!(ctx.remove_body_entity(Entity::from_bits(200)), Some((w1, body(2))));
    assert_eq!(ctx.remove_body_entity(Entity::from_bits(200)), None);
    // The attached collider went with its body.
    assert_eq!(ctx.remove_collider_entity(Entity::from_bits(201)), None);
    assert_eq!(ctx.collider_entity(collider(3)), None);
    let events = ctx.finish_step();
    assert_eq!(events.len(), 2);
    assert_eq!(events[1].0, w1);
    assert!(events[1].1.is_empty());
}

#[test]
fn finish_step_flushes_every_world() {
    let mut ctx = RapierContext::new(RapierWorld::new());
    let w1 = ctx.add_world(RapierWorld::new());
    let a = Entity::from_bits(1);
    let b = Entity::from_bits(2);
    {
        let w = ctx.get_world_mut(w1).ok().unwrap();
        assert!(w.insert_collider(a, collider(0), None));
        assert!(w.insert_collider(b, collider(1), None));
        assert_eq!(w.remove_collider(b), Some(collider(1)));
        w.handle_collision_event(collider(0), collider(1), false, 0);
    }
    assert_eq!(ctx.remove_collider_entity(a), Some((w1, collider(0))));
    let flushed = ctx.finish_step();
    assert_eq!(flushed.len(), 2);
    assert_eq!(flushed[0].0, WorldId(0));
    assert!(flushed[0].1.is_empty());
    assert_eq!(flushed[1], (w1, vec![CollisionEvent::Stopped(a, b, 0)]));
    let w = ctx.get_world(w1).ok().unwrap();
    assert_eq!(w.resolve_collider_entity(collider(0)), None);
    assert_eq!(w.resolve_collider_entity(collider(1)), None);
}

#[test]
fn joint_removal_and_world_change() {
    let mut ctx = RapierContext::new(RapierWorld::new());
    let w1 = ctx.add_world(world_with_body(200, 0, 0));
    let e = Entity::from_bits(50);
    {
        let w = ctx.get_world_mut(w1).ok().unwrap();
        assert!(w.insert_impulse_joint(e, ImpulseJointHandle(ArenaIndex::from_raw_parts(1, 0))));
        assert!(w.insert_multibody_joint(e, MultibodyJointHandle(ArenaIndex::from_raw_parts(2, 0))));
    }
    assert_eq!(
        ctx.remove_impulse_joint_entity(e),
        Some((w1, ImpulseJointHandle(ArenaIndex::from_raw_parts(1, 0))))
    );
    assert_eq!(ctx.remove_impulse_joint_entity(e), None);
    assert_eq!(
        ctx.remove_multibody_joint_entity(e),
        Some((w1, MultibodyJointHandle(ArenaIndex::from_raw_parts(2, 0))))
    );
    assert!(!ctx.world_change_required(Entity::from_bits(200), w1));
    assert!(ctx.world_change_required(Entity::from_bits(200), WorldId(0)));
    assert!(ctx.world_change_required(Entity::from_bits(200), WorldId(8)));
}

#[test]
fn an_entity_is_indexed_in_one_world_at_a_time() {
    let mut ctx = RapierContext::default();
    let w1 = ctx.add_world(RapierWorld::new());
    let e = Entity::from_bits(42);
    assert_eq!(ctx.insert_body(w1, e, body(0)), Ok(true));
    assert_eq!(ctx.insert_body(WorldId(0), e, body(1)), Ok(false));
    assert_eq!(ctx.insert_body(WorldId(7), e, body(1)), Err(WorldError::WorldNotFound { world_id: WorldId(7) }));
    // The same handle in another world is a different object.
    assert_eq!(ctx.insert_body(WorldId(0), Entity::from_bits(43), body(0)), Ok(true));
    assert_eq!(ctx.insert_collider(WorldId(0), e, collider(0), Some(body(5))), Ok(false));
    assert_eq!(ctx.insert_collider(WorldId(0), e, collider(0), Some(body(0))), Ok(true));
    assert_eq!(ctx.insert_collider(w1, e, collider(1), None), Ok(false));
    assert_eq!(ctx.collider_parent(e), Some(Entity::from_bits(43)));
    // Once its body left w1, the entity can get one in the default world.
    assert_eq!(ctx.remove_body_entity(e), Some((w1, body(0))));
    assert_eq!(ctx.insert_body(WorldId(0), e, body(1)), Ok(true));
    assert_eq!(ctx.rigid_body_entity_in_world(body(1), WorldId(0)), Some(e));
}
