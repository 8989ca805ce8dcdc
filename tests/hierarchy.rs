use rapier_sync::hierarchy::{
    apply_changing_worlds, collider_offset, is_parents_first, sync_vel, writeback_rigid_bodies, BodyKind, NodeBody,
    SceneNode, WritebackStep,
};
use rapier_sync::ids::{ArenaIndex, Entity, RigidBodyHandle};
use rapier_sync::world::RapierWorld;

fn node(bits: u64, parent: Option<usize>, body: NodeBody) -> SceneNode {
    SceneNode { entity: Entity::from_bits(bits), parent, body }
}

#[test]
fn parent_and_child_cubes() {
    // Two dynamic cubes, one a child of the other.
    let nodes = vec![
        node(1, None, NodeBody::Enabled(BodyKind::Dynamic)),
        node(2, Some(0), NodeBody::Enabled(BodyKind::Dynamic)),
    ];
    let plan = writeback_rigid_bodies(&nodes);
    assert_eq!(
        plan,
        vec![
            WritebackStep { write: true, basis: None, remove_parent_delta: false, velocity_source: None },
            WritebackStep { write: true, basis: Some(0), remove_parent_delta: true, velocity_source: Some(0) },
        ]
    );
    assert_eq!(sync_vel(&nodes), vec![None, Some(0)]);
}

#[test]
fn bodiless_nodes_pass_their_basis_through() {
    let nodes = vec![
        node(1, None, NodeBody::Enabled(BodyKind::Dynamic)),
        node(2, Some(0), NodeBody::Absent),
        node(3, Some(1), NodeBody::Enabled(BodyKind::Fixed)),
        node(4, Some(1), NodeBody::Enabled(BodyKind::Dynamic)),
    ];
    let plan = writeback_rigid_bodies(&nodes);
    assert_eq!(plan[1], WritebackStep { write: false, basis: Some(0), remove_parent_delta: false, velocity_source: None });
    // A fixed child is not carried by its parent inside the engine.
    assert_eq!(plan[2], WritebackStep { write: true, basis: Some(0), remove_parent_delta: false, velocity_source: Some(0) });
    assert_eq!(plan[3], WritebackStep { write: true, basis: Some(0), remove_parent_delta: true, velocity_source: Some(0) });
}

#[test]
fn disabled_body_is_a_pivot() {
    let nodes = vec![
        node(1, None, NodeBody::Absent),
        node(2, Some(0), NodeBody::Disabled),
        node(3, Some(1), NodeBody::Enabled(BodyKind::Dynamic)),
        node(4, None, NodeBody::Enabled(BodyKind::KinematicPositionBased)),
    ];
    let plan = writeback_rigid_bodies(&nodes);
    assert_eq!(plan[0], WritebackStep { write: false, basis: None, remove_parent_delta: false, velocity_source: None });
    assert_eq!(plan[1], WritebackStep { write: false, basis: None, remove_parent_delta: false, velocity_source: None });
    assert_eq!(plan[2], WritebackStep { write: true, basis: Some(1), remove_parent_delta: true, velocity_source: Some(0) });
    assert_eq!(plan[3], WritebackStep { write: true, basis: None, remove_parent_delta: false, velocity_source: None });
}

#[test]
fn parents_must_come_first() {
    assert!(is_parents_first(&vec![node(1, None, NodeBody::Absent), node(2, Some(0), NodeBody::Absent)]));
    assert!(!is_parents_first(&vec![node(1, Some(1), NodeBody::Absent), node(2, None, NodeBody::Absent)]));
    assert!(!is_parents_first(&vec![node(1, Some(0), NodeBody::Absent)]));
    assert!(is_parents_first(&vec![]));
}

#[test]
fn world_change_follows_the_subtree() {
    let nodes = vec![
        node(1, None, NodeBody::Absent),
        node(2, Some(0), NodeBody::Enabled(BodyKind::Dynamic)),
        node(3, Some(1), NodeBody::Absent),
        node(4, Some(0), NodeBody::Absent),
        node(5, Some(2), NodeBody::Enabled(BodyKind::Fixed)),
    ];
    assert_eq!(apply_changing_worlds(&nodes, 1), vec![false, true, true, false, true]);
    assert_eq!(apply_changing_worlds(&nodes, 0), vec![true; 5]);
    assert_eq!(apply_changing_worlds(&nodes, 4), vec![false, false, false, false, true]);
}

#[test]
fn collider_attaches_to_nearest_body_above() {
    let nodes = vec![
        node(1, None, NodeBody::Absent),
        node(2, Some(0), NodeBody::Absent),
        node(3, Some(1), NodeBody::Absent),
        node(4, None, NodeBody::Absent),
    ];
    let mut world = RapierWorld::new();
    let h = RigidBodyHandle(ArenaIndex::from_raw_parts(6, 1));
    assert!(world.insert_body(Entity::from_bits(2), h));
    assert_eq!(collider_offset(&world, &nodes, 2), Some((1, h)));
    assert_eq!(collider_offset(&world, &nodes, 1), Some((1, h)));
    assert_eq!(collider_offset(&world, &nodes, 0), None);
    assert_eq!(collider_offset(&world, &nodes, 3), None);
}
