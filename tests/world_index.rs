use rapier_sync::ids::{
    ArenaIndex, ColliderHandle, Entity, ImpulseJointHandle, MultibodyJointHandle, RigidBodyHandle,
};
use rapier_sync::world::{
    CollisionEvent, CollisionGroups, QueryFilter, RapierWorld, EVENT_FLAG_REMOVED,
};

fn body(i: u32, g: u32) -> RigidBodyHandle {
    RigidBodyHandle(ArenaIndex::from_raw_parts(i, g))
}

fn collider(i: u32, g: u32) -> ColliderHandle {
    ColliderHandle(ArenaIndex::from_raw_parts(i, g))
}

#[test]
fn packed_index_bits() {
    assert_eq!(ArenaIndex::from_raw_parts(5, 0).to_bits(), 5);
    assert_eq!(ArenaIndex::from_raw_parts(5, 2).to_bits(), 2 * 0x1_0000_0000 + 5);
    assert_eq!(
        ArenaIndex::from_raw_parts(u32::MAX, u32::MAX).to_bits(),
        u64::MAX
    );
    assert_ne!(
        ArenaIndex::from_raw_parts(1, 0).to_bits(),
        ArenaIndex::from_raw_parts(0, 1).to_bits()
    );
}

#[test]
fn body_and_collider_lookups() {
    let mut w = RapierWorld::new();
    let e_body = Entity::from_bits(7);
    let e_col = Entity::from_bits(8);
    assert!(w.insert_body(e_body, body(0, 0)));
    assert!(w.insert_collider(e_col, collider(3, 1), Some(body(0, 0))));
    assert_eq!(w.rigid_body_entity(body(0, 0)), Some(e_body));
    assert_eq!(w.rigid_body_entity(body(0, 1)), None);
    assert_eq!(w.collider_entity(collider(3, 1)), Some(e_col));
    assert_eq!(w.collider_entity(collider(3, 0)), None);
    assert_eq!(w.collider_parent(e_col), Some(e_body));
    assert_eq!(w.collider_parent(e_body), None);
    assert_eq!(w.rigid_body_colliders(e_body), vec![e_col]);
    assert!(w.rigid_body_colliders(e_col).is_empty());
    assert_eq!(w.body_of(e_body), Some(body(0, 0)));
    assert_eq!(w.collider_of(e_col), Some(collider(3, 1)));
    assert_eq!(w.entity2body().len(), 1);
    assert_eq!(w.entity2collider().get(&8), Some(&collider(3, 1)));
}

#[test]
fn second_handle_of_a_kind_is_refused() {
    let mut w = RapierWorld::new();
    let e = Entity::from_bits(1);
    assert!(w.insert_body(e, body(0, 0)));
    assert!(!w.insert_body(e, body(1, 0)));
    assert!(!w.insert_body(Entity::from_bits(2), body(0, 0)));
    assert_eq!(w.body_of(e), Some(body(0, 0)));
    assert_eq!(w.rigid_body_entity(body(1, 0)), None);

    assert!(w.insert_collider(e, collider(0, 0), None));
    assert!(!w.insert_collider(e, collider(1, 0), None));
    assert!(!w.insert_collider(Entity::from_bits(3), collider(0, 0), None));
    // The parent body must be registered.
    assert!(!w.insert_collider(Entity::from_bits(4), collider(2, 0), Some(body(9, 0))));
    assert_eq!(w.collider_entity(collider(2, 0)), None);
}

#[test]
fn removing_a_body_removes_its_colliders() {
    let mut w = RapierWorld::new();
    let b = Entity::from_bits(1);
    let c1 = Entity::from_bits(2);
    let c2 = Entity::from_bits(3);
    let free = Entity::from_bits(4);
    assert!(w.insert_body(b, body(0, 0)));
    assert!(w.insert_collider(c1, collider(0, 0), Some(body(0, 0))));
    assert!(w.insert_collider(c2, collider(1, 0), Some(body(0, 0))));
    assert!(w.insert_collider(free, collider(2, 0), None));
    let mut attached = w.rigid_body_colliders(b);
    attached.sort_by_key(|e| e.to_bits());
    assert_eq!(attached, vec![c1, c2]);

    assert_eq!(w.remove_body(b), Some(body(0, 0)));
    assert_eq!(w.remove_body(b), None);
    assert_eq!(w.body_of(b), None);
    assert_eq!(w.collider_of(c1), None);
    assert_eq!(w.collider_of(c2), None);
    assert_eq!(w.collider_of(free), Some(collider(2, 0)));
    // The removed colliders still resolve for this step's events.
    assert_eq!(w.resolve_collider_entity(collider(0, 0)), Some(c1));
    assert_eq!(w.resolve_collider_entity(collider(1, 0)), Some(c2));
    assert_eq!(w.collider_entity(collider(0, 0)), None);
    w.clear_deleted_colliders();
    assert_eq!(w.resolve_collider_entity(collider(0, 0)), None);
    assert_eq!(w.resolve_collider_entity(collider(2, 0)), Some(free));
}

#[test]
fn detached_collider_stays_when_its_old_body_goes() {
    let mut w = RapierWorld::new();
    let b = Entity::from_bits(1);
    let c = Entity::from_bits(2);
    assert!(w.insert_body(b, body(0, 0)));
    assert!(w.insert_collider(c, collider(0, 0), Some(body(0, 0))));
    assert_eq!(w.remove_collider(c), Some(collider(0, 0)));
    assert!(w.insert_collider(c, collider(0, 1), None));
    assert_eq!(w.remove_body(b), Some(body(0, 0)));
    assert_eq!(w.collider_of(c), Some(collider(0, 1)));
}

#[test]
fn stopped_event_of_removed_collider_resolves() {
    let mut w = RapierWorld::new();
    let a = Entity::from_bits(11);
    let b = Entity::from_bits(12);
    assert!(w.insert_collider(a, collider(0, 0), None));
    assert!(w.insert_collider(b, collider(1, 0), None));
    assert_eq!(w.remove_collider(a), Some(collider(0, 0)));
    w.handle_collision_event(collider(0, 0), collider(1, 0), false, EVENT_FLAG_REMOVED);
    w.handle_collision_event(collider(1, 0), collider(0, 0), true, 0);
    let events = w.send_bevy_events();
    assert_eq!(
        events,
        vec![
            CollisionEvent::Stopped(a, b, EVENT_FLAG_REMOVED),
            CollisionEvent::Started(b, a, 0)
        ]
    );
    assert!(w.send_bevy_events().is_empty());
    w.clear_deleted_colliders();
    assert_eq!(w.resolve_collider_entity(collider(0, 0)), None);
}

#[test]
fn joints_are_indexed_per_entity() {
    let mut w = RapierWorld::new();
    let e = Entity::from_bits(5);
    let j = ImpulseJointHandle(ArenaIndex::from_raw_parts(0, 0));
    let m = MultibodyJointHandle(ArenaIndex::from_raw_parts(4, 2));
    assert!(w.insert_impulse_joint(e, j));
    assert!(!w.insert_impulse_joint(e, j));
    assert!(w.insert_multibody_joint(e, m));
    assert_eq!(w.impulse_joint_of(e), Some(j));
    assert_eq!(w.multibody_joint_of(e), Some(m));
    assert_eq!(w.entity2impulse_joint().len(), 1);
    assert_eq!(w.remove_impulse_joint(e), Some(j));
    assert_eq!(w.remove_impulse_joint(e), None);
    assert_eq!(w.remove_multibody_joint(e), Some(m));
    assert!(w.entity2multibody_joint().is_empty());
}

#[test]
fn query_filter_names_handles() {
    let mut w = RapierWorld::new();
    let b = Entity::from_bits(1);
    let c = Entity::from_bits(2);
    assert!(w.insert_body(b, body(3, 0)));
    assert!(w.insert_collider(c, collider(4, 0), Some(body(3, 0))));
    let groups = CollisionGroups { memberships: 0b01, filter: 0b10 };
    let raw = w.with_query_filter_elts(QueryFilter {
        flags: 6,
        groups: Some(groups),
        exclude_collider: Some(c),
        exclude_rigid_body: Some(b),
    });
    assert_eq!(raw.flags, 6);
    assert_eq!(raw.groups, Some(groups));
    assert_eq!(raw.exclude_collider, Some(collider(4, 0)));
    assert_eq!(raw.exclude_rigid_body, Some(body(3, 0)));

    let raw = w.with_query_filter_elts(QueryFilter {
        flags: 0,
        groups: None,
        exclude_collider: Some(b),
        exclude_rigid_body: Some(c),
    });
    assert_eq!(raw.exclude_collider, None);
    assert_eq!(raw.exclude_rigid_body, None);
}
