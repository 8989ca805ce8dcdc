use std::collections::HashMap;
use vstd::prelude::*;
use crate::ids::{lemma_packed_key_injective, ColliderHandle, Entity, ImpulseJointHandle, MultibodyJointHandle, RigidBodyHandle};

verus! {

broadcast use vstd::std_specs::hash::group_hash_axioms;

/// Flag of a collision event in which one of the colliders is a sensor.
pub const EVENT_FLAG_SENSOR: u32 = 1;

/// Flag of a collision event emitted because a collider was removed.
pub const EVENT_FLAG_REMOVED: u32 = 2;

/// The groups a collider belongs to and the groups it interacts with, as
/// bit sets.
#[derive(Clone, Copy, Debug, PartialEq, Eq, Structural)]
pub struct CollisionGroups {
    pub memberships: u32,
    pub filter: u32,
}

/// A scene query's filter in terms of entities: engine query flags,
/// collision groups, and the entities whose
/// collider or rigid body the query skips.
#[derive(Clone, Copy, Debug, PartialEq, Eq, Structural)]
pub struct QueryFilter {
    pub flags: u32,
    pub groups: Option<CollisionGroups>,
    pub exclude_collider: Option<Entity>,
    pub exclude_rigid_body: Option<Entity>,
}

/// A scene query's filter in terms of engine handles.
#[derive(Clone, Copy, Debug, PartialEq, Eq, Structural)]
pub struct RawQueryFilter {
    pub flags: u32,
    pub groups: Option<CollisionGroups>,
    pub exclude_collider: Option<ColliderHandle>,
    pub exclude_rigid_body: Option<RigidBodyHandle>,
}

/// A collision between two entities started or stopped during a step.
#[derive(Clone, Copy, Debug, PartialEq, Eq, Structural)]
pub enum CollisionEvent {
    Started(Entity, Entity, u32),
    Stopped(Entity, Entity, u32),
}

/// The bookkeeping of one simulation world: which entity owns which engine
/// object, which collider hangs on which body, the colliders removed since the
/// last step, and the collision events waiting to be handed out.
pub struct RapierWorld {
    entity2body: HashMap<u64, RigidBodyHandle>,
    body2entity: HashMap<u64, Entity>,
    body_colliders: HashMap<u64, Vec<ColliderHandle>>,
    entity2collider: HashMap<u64, ColliderHandle>,
    collider2entity: HashMap<u64, Entity>,
    collider_parent: HashMap<u64, RigidBodyHandle>,
    entity2impulse_joint: HashMap<u64, ImpulseJointHandle>,
    entity2multibody_joint: HashMap<u64, MultibodyJointHandle>,
    deleted_colliders: HashMap<u64, Entity>,
    collision_events_to_send: Vec<CollisionEvent>,
}

impl RapierWorld {
    /// Entity bits to the handle of the entity's rigid body.
    pub closed spec fn entity_bodies(&self) -> Map<u64, RigidBodyHandle> {
        self.entity2body@
    }

    /// Body key to the entity that owns the body.
    pub closed spec fn body_owners(&self) -> Map<u64, Entity> {
        self.body2entity@
    }

    /// Entity bits to the handle of the entity's collider.
    pub closed spec fn entity_colliders(&self) -> Map<u64, ColliderHandle> {
        self.entity2collider@
    }

    /// Collider key to the entity that owns the collider.
    pub closed spec fn collider_owners(&self) -> Map<u64, Entity> {
        self.collider2entity@
    }

    /// Collider key to the body the collider is attached to.
    pub closed spec fn collider_parents(&self) -> Map<u64, RigidBodyHandle> {
        self.collider_parent@
    }

    /// Entity bits to the handle of the entity's impulse joint.
    pub closed spec fn entity_impulse_joints(&self) -> Map<u64, ImpulseJointHandle> {
        self.entity2impulse_joint@
    }

    /// Entity bits to the handle of the entity's multibody joint.
    pub closed spec fn entity_multibody_joints(&self) -> Map<u64, MultibodyJointHandle> {
        self.entity2multibody_joint@
    }

    /// Collider key to the entity of a collider removed since the last step.
    pub closed spec fn deleted(&self) -> Map<u64, Entity> {
        self.deleted_colliders@
    }

    /// The collision events not handed out yet, oldest first.
    pub closed spec fn pending_events(&self) -> Seq<CollisionEvent> {
        self.collision_events_to_send@
    }

    /// The entity owning collider `h`, if it is registered.
    pub open spec fn collider_entity_spec(&self, h: ColliderHandle) -> Option<Entity> {
        if self.collider_owners().contains_key(h.0.key()) {
            Some(self.collider_owners()[h.0.key()])
        } else {
            None
        }
    }

    /// The entity owning rigid body `h`, if it is registered.
    pub open spec fn rigid_body_entity_spec(&self, h: RigidBodyHandle) -> Option<Entity> {
        if self.body_owners().contains_key(h.0.key()) {
            Some(self.body_owners()[h.0.key()])
        } else {
            None
        }
    }

    /// `self` is `before` after the body `h` of `entity` was removed with
    /// every collider attached to it.
    pub open spec fn body_removed(&self, before: RapierWorld, entity: Entity, h: RigidBodyHandle) -> bool {
        let a = before.attached_to(h.0.key());
        &&& self.entity_bodies() == before.entity_bodies().remove(entity.0)
        &&& self.body_owners() == before.body_owners().remove(h.0.key())
        &&& self.collider_owners() == before.collider_owners().remove_keys(a)
        &&& self.collider_parents() == before.collider_parents().remove_keys(a)
        &&& self.entity_colliders() == colliders_without(before.entity_colliders(), a)
        &&& self.deleted() == before.deleted().union_prefer_right(before.collider_owners().restrict(a))
        &&& self.entity_impulse_joints() == before.entity_impulse_joints()
        &&& self.entity_multibody_joints() == before.entity_multibody_joints()
        &&& self.pending_events() == before.pending_events()
    }

    /// `self` is `before` with the collision event between `h1` and `h2`
    /// queued, each resolved to its entity.
    pub open spec fn event_queued(
        &self,
        before: RapierWorld,
        h1: ColliderHandle,
        h2: ColliderHandle,
        started: bool,
        flags: u32,
    ) -> bool {
        let e1 = before.resolved_entity(h1);
        let e2 = before.resolved_entity(h2);
        &&& self.pending_events() == before.pending_events().push(
            if started {
                CollisionEvent::Started(e1, e2, flags)
            } else {
                CollisionEvent::Stopped(e1, e2, flags)
            },
        )
        &&& self.entity_bodies() == before.entity_bodies()
        &&& self.body_owners() == before.body_owners()
        &&& self.entity_colliders() == before.entity_colliders()
        &&& self.collider_owners() == before.collider_owners()
        &&& self.collider_parents() == before.collider_parents()
        &&& self.deleted() == before.deleted()
        &&& self.entity_impulse_joints() == before.entity_impulse_joints()
        &&& self.entity_multibody_joints() == before.entity_multibody_joints()
    }

    /// `self` is `before` at the end of a step: its events handed out and its
    /// deleted-collider map emptied, all else kept.
    pub open spec fn step_finished(&self, before: RapierWorld) -> bool {
        &&& self.deleted().is_empty()
        &&& self.pending_events().len() == 0
        &&& self.entity_bodies() == before.entity_bodies()
        &&& self.body_owners() == before.body_owners()
        &&& self.entity_colliders() == before.entity_colliders()
        &&& self.collider_owners() == before.collider_owners()
        &&& self.collider_parents() == before.collider_parents()
        &&& self.entity_impulse_joints() == before.entity_impulse_joints()
        &&& self.entity_multibody_joints() == before.entity_multibody_joints()
    }

    /// `self` is `before` with the deleted-collider map emptied.
    pub open spec fn deleted_cleared(&self, before: RapierWorld) -> bool {
        &&& self.deleted().is_empty()
        &&& self.entity_bodies() == before.entity_bodies()
        &&& self.body_owners() == before.body_owners()
        &&& self.entity_colliders() == before.entity_colliders()
        &&& self.collider_owners() == before.collider_owners()
        &&& self.collider_parents() == before.collider_parents()
        &&& self.entity_impulse_joints() == before.entity_impulse_joints()
        &&& self.entity_multibody_joints() == before.entity_multibody_joints()
        &&& self.pending_events() == before.pending_events()
    }

    /// `self` is `before` with the body `h` of `entity` registered.
    pub open spec fn body_inserted(&self, before: RapierWorld, entity: Entity, h: RigidBodyHandle) -> bool {
        &&& self.entity_bodies() == before.entity_bodies().insert(entity.0, h)
        &&& self.body_owners() == before.body_owners().insert(h.0.key(), entity)
        &&& self.same_colliders_and_joints(before)
    }

    /// `self` is `before` with the collider `h` of `entity` registered,
    /// attached to `parent` if one is given.
    pub open spec fn collider_inserted(
        &self,
        before: RapierWorld,
        entity: Entity,
        h: ColliderHandle,
        parent: Option<RigidBodyHandle>,
    ) -> bool {
        &&& self.entity_colliders() == before.entity_colliders().insert(entity.0, h)
        &&& self.collider_owners() == before.collider_owners().insert(h.0.key(), entity)
        &&& self.collider_parents() == match parent {
            Some(b) => before.collider_parents().insert(h.0.key(), b),
            None => before.collider_parents(),
        }
        &&& self.entity_bodies() == before.entity_bodies()
        &&& self.body_owners() == before.body_owners()
        &&& self.entity_impulse_joints() == before.entity_impulse_joints()
        &&& self.entity_multibody_joints() == before.entity_multibody_joints()
        &&& self.deleted() == before.deleted()
        &&& self.pending_events() == before.pending_events()
    }

    /// Colliders, joints, the deleted-collider map and the event queue are
    /// those of `other`.
    pub open spec fn same_colliders_and_joints(&self, other: RapierWorld) -> bool {
        &&& self.entity_colliders() == other.entity_colliders()
        &&& self.collider_owners() == other.collider_owners()
        &&& self.collider_parents() == other.collider_parents()
        &&& self.entity_impulse_joints() == other.entity_impulse_joints()
        &&& self.entity_multibody_joints() == other.entity_multibody_joints()
        &&& self.deleted() == other.deleted()
        &&& self.pending_events() == other.pending_events()
    }

    /// `self` is `before` after the collider `h` of `entity` was removed.
    pub open spec fn collider_removed(&self, before: RapierWorld, entity: Entity, h: ColliderHandle) -> bool {
        &&& self.entity_colliders() == before.entity_colliders().remove(entity.0)
        &&& self.collider_owners() == before.collider_owners().remove(h.0.key())
        &&& self.collider_parents() == before.collider_parents().remove(h.0.key())
        &&& self.deleted() == before.deleted().insert(h.0.key(), entity)
        &&& self.entity_bodies() == before.entity_bodies()
        &&& self.body_owners() == before.body_owners()
        &&& self.entity_impulse_joints() == before.entity_impulse_joints()
        &&& self.entity_multibody_joints() == before.entity_multibody_joints()
        &&& self.pending_events() == before.pending_events()
    }

    /// The keys of the colliders attached to the body with key `b`.
    pub open spec fn attached_to(&self, b: u64) -> Set<u64> {
        self.collider_parents().dom().filter(|k: u64| self.collider_parents()[k].0.key() == b)
    }

    /// Whether events that name collider `h` can be resolved to an entity.
    pub open spec fn resolves(&self, h: ColliderHandle) -> bool {
        self.collider_owners().contains_key(h.0.key()) || self.deleted().contains_key(h.0.key())
    }

    /// The entity that events naming collider `h` refer to: its live owner,
    /// else the owner it had when it was removed.
    pub open spec fn resolved_entity(&self, h: ColliderHandle) -> Entity {
        if self.collider_owners().contains_key(h.0.key()) {
            self.collider_owners()[h.0.key()]
        } else {
            self.deleted()[h.0.key()]
        }
    }

    /// The entity owning each body is indexed back to that body, and the
    /// same for colliders; an attached collider's body is registered and
    /// lists it.
    pub closed spec fn wf(&self) -> bool {
        &&& forall|e: u64| #[trigger] self.entity2body@.contains_key(e) ==> {
            let k = self.entity2body@[e].0.key();
            self.body2entity@.contains_key(k) && self.body2entity@[k].0 == e
        }
        &&& forall|k: u64| #[trigger] self.body2entity@.contains_key(k) ==> {
            let e = self.body2entity@[k].0;
            &&& self.entity2body@.contains_key(e)
            &&& self.entity2body@[e].0.key() == k
            &&& self.body_colliders@.contains_key(k)
        }
        &&& forall|k: u64| #[trigger] self.body_colliders@.contains_key(k)
            ==> self.body_colliders@[k]@.no_duplicates()
        &&& forall|e: u64| #[trigger] self.entity2collider@.contains_key(e) ==> {
            let k = self.entity2collider@[e].0.key();
            self.collider2entity@.contains_key(k) && self.collider2entity@[k].0 == e
        }
        &&& forall|k: u64| #[trigger] self.collider2entity@.contains_key(k) ==> {
            let e = self.collider2entity@[k].0;
            self.entity2collider@.contains_key(e) && self.entity2collider@[e].0.key() == k
        }
        &&& forall|k: u64| #[trigger] self.collider_parent@.contains_key(k) ==> {
            let b = self.collider_parent@[k].0.key();
            let h = self.entity2collider@[self.collider2entity@[k].0];
            &&& self.collider2entity@.contains_key(k)
            &&& self.body2entity@.contains_key(b)
            &&& self.body_colliders@[b]@.contains(h)
        }
    }

    /// A world with nothing registered.
    pub fn new() -> (r: Self)
        ensures
            r.wf(),
            r.entity_bodies().is_empty(),
            r.body_owners().is_empty(),
            r.entity_colliders().is_empty(),
            r.collider_owners().is_empty(),
            r.collider_parents().is_empty(),
            r.entity_impulse_joints().is_empty(),
            r.entity_multibody_joints().is_empty(),
            r.deleted().is_empty(),
            r.pending_events().len() == 0,
    {
        let r = RapierWorld {
            entity2body: HashMap::new(),
            body2entity: HashMap::new(),
            body_colliders: HashMap::new(),
            entity2collider: HashMap::new(),
            collider2entity: HashMap::new(),
            collider_parent: HashMap::new(),
            entity2impulse_joint: HashMap::new(),
            entity2multibody_joint: HashMap::new(),
            deleted_colliders: HashMap::new(),
            collision_events_to_send: Vec::new(),
        };
        assert(r.entity_bodies() =~= Map::empty());
        assert(r.body_owners() =~= Map::empty());
        assert(r.entity_colliders() =~= Map::empty());
        assert(r.collider_owners() =~= Map::empty());
        assert(r.collider_parents() =~= Map::empty());
        assert(r.entity_impulse_joints() =~= Map::empty());
        assert(r.entity_multibody_joints() =~= Map::empty());
        assert(r.deleted() =~= Map::empty());
        r
    }

    /// The entity that owns the collider `handle`, if it is registered.
    pub fn collider_entity(&self, handle: ColliderHandle) -> (r: Option<Entity>)
        ensures
            r == self.collider_entity_spec(handle),
    {
        let k = handle.0.to_bits();
        match self.collider2entity.get(&k) {
            Some(e) => Some(*e),
            None => None,
        }
    }

    /// The entity that owns the rigid body `handle`, if it is registered.
    pub fn rigid_body_entity(&self, handle: RigidBodyHandle) -> (r: Option<Entity>)
        ensures
            r == self.rigid_body_entity_spec(handle),
    {
        let k = handle.0.to_bits();
        match self.body2entity.get(&k) {
            Some(e) => Some(*e),
            None => None,
        }
    }

    /// If the collider of `entity` is attached to a rigid body, the entity
    /// that owns that body.
    pub fn collider_parent(&self, entity: Entity) -> (r: Option<Entity>)
        requires
            self.wf(),
        ensures
            r == self.collider_parent_spec(entity),
    {
        match self.entity2collider.get(&entity.0) {
            None => None,
            Some(h) => {
                let k = h.0.to_bits();
                match self.collider_parent.get(&k) {
                    None => None,
                    Some(b) => self.rigid_body_entity(*b),
                }
            },
        }
    }

    pub open spec fn collider_parent_spec(&self, entity: Entity) -> Option<Entity> {
        if self.entity_colliders().contains_key(entity.0) {
            let k = self.entity_colliders()[entity.0].0.key();
            if self.collider_parents().contains_key(k) {
                let b = self.collider_parents()[k].0.key();
                if self.body_owners().contains_key(b) {
                    Some(self.body_owners()[b])
                } else {
                    None
                }
            } else {
                None
            }
        } else {
            None
        }
    }

    /// The entity that events naming collider `handle` refer to: the owner
    /// of the live collider, else the owner of a collider removed since the
    /// last step.
    pub fn resolve_collider_entity(&self, handle: ColliderHandle) -> (r: Option<Entity>)
        ensures
            r == (if self.resolves(handle) {
                Some(self.resolved_entity(handle))
            } else {
                None
            }),
    {
        let k = handle.0.to_bits();
        match self.collider2entity.get(&k) {
            Some(e) => Some(*e),
            None => match self.deleted_colliders.get(&k) {
                Some(e) => Some(*e),
                None => None,
            },
        }
    }

    /// Registers the rigid body `handle` as owned by `entity`. Refused, with
    /// nothing changed, when the entity already has a body in this world or
    /// the handle is already registered.
    pub fn insert_body(&mut self, entity: Entity, handle: RigidBodyHandle) -> (r: bool)
        requires
            old(self).wf(),
        ensures
            final(self).wf(),
            r == (!old(self).entity_bodies().contains_key(entity.0)
                && !old(self).body_owners().contains_key(handle.0.key())),
            r ==> final(self).body_inserted(*old(self), entity, handle),
            !r ==> *final(self) == *old(self),
    {
        let k = handle.0.to_bits();
        if self.entity2body.contains_key(&entity.0) || self.body2entity.contains_key(&k) {
            return false;
        }
        proof {
            // A body key that is not registered has no attached colliders
            // pointing at it, so a fresh list can replace whatever was there.
            assert forall|c: u64| #[trigger] self.collider_parent@.contains_key(c) implies
                self.collider_parent@[c].0.key() != k by {}
        }
        self.entity2body.insert(entity.0, handle);
        self.body2entity.insert(k, entity);
        self.body_colliders.insert(k, Vec::new());
        proof {
            assert forall|e: u64| #[trigger] self.entity2body@.contains_key(e) implies {
                let kk = self.entity2body@[e].0.key();
                self.body2entity@.contains_key(kk) && self.body2entity@[kk].0 == e
            } by {
                if e != entity.0 {
                    let kk = self.entity2body@[e].0.key();
                    assert(old(self).body2entity@.contains_key(kk));
                }
            }
        }
        true
    }

    /// Registers the collider `handle` as owned by `entity`, attached to the
    /// body `parent` if one is given. Refused, with nothing changed, when the
    /// entity already has a collider in this world, the handle is already
    /// registered, or the parent body is not registered.
    pub fn insert_collider(
        &mut self,
        entity: Entity,
        handle: ColliderHandle,
        parent: Option<RigidBodyHandle>,
    ) -> (r: bool)
        requires
            old(self).wf(),
        ensures
            final(self).wf(),
            r == (!old(self).entity_colliders().contains_key(entity.0)
                && !old(self).collider_owners().contains_key(handle.0.key())
                && match parent {
                    Some(b) => old(self).body_owners().contains_key(b.0.key()),
                    None => true,
                }),
            r ==> final(self).collider_inserted(*old(self), entity, handle, parent),
            !r ==> *final(self) == *old(self),
    {
        let k = handle.0.to_bits();
        if self.entity2collider.contains_key(&entity.0) || self.collider2entity.contains_key(&k) {
            return false;
        }
        match parent {
            None => {},
            Some(b) => {
                let kb = b.0.to_bits();
                if !self.body2entity.contains_key(&kb) {
                    return false;
                }
            },
        }
        proof {
            assert forall|c: u64| #[trigger] self.collider_parent@.contains_key(c) implies c != k by {}
        }
        self.entity2collider.insert(entity.0, handle);
        self.collider2entity.insert(k, entity);
        match parent {
            None => {},
            Some(b) => {
                let kb = b.0.to_bits();
                let mut list = match self.body_colliders.remove(&kb) {
                    Some(l) => l,
                    None => Vec::new(),
                };
                if !contains_collider(&list, handle) {
                    list.push(handle);
                    assert(list@[list@.len() - 1] == handle);
                }
                assert(list@.contains(handle));
                self.body_colliders.insert(kb, list);
                self.collider_parent.insert(k, b);
            },
        }
        proof {
            assert forall|e: u64| #[trigger] self.entity2collider@.contains_key(e) implies {
                let kk = self.entity2collider@[e].0.key();
                self.collider2entity@.contains_key(kk) && self.collider2entity@[kk].0 == e
            } by {
                if e != entity.0 {
                    let kk = self.entity2collider@[e].0.key();
                    assert(old(self).collider2entity@.contains_key(kk));
                }
            }
            assert forall|c: u64| #[trigger] self.collider_parent@.contains_key(c) implies {
                let b = self.collider_parent@[c].0.key();
                let h = self.entity2collider@[self.collider2entity@[c].0];
                &&& self.collider2entity@.contains_key(c)
                &&& self.body2entity@.contains_key(b)
                &&& self.body_colliders@[b]@.contains(h)
            } by {
                if c != k {
                    let e = old(self).collider2entity@[c].0;
                    assert(old(self).entity2collider@.contains_key(e));
                    assert(e != entity.0);
                    let b = self.collider_parent@[c].0.key();
                    let h = self.entity2collider@[e];
                    assert(old(self).body_colliders@[b]@.contains(h));
                    match parent {
                        None => {},
                        Some(pb) => {
                            if b == pb.0.key() {
                                let i = choose|i: int| 0 <= i < old(self).body_colliders@[b]@.len()
                                    && old(self).body_colliders@[b]@[i] == h;
                                assert(self.body_colliders@[b]@[i] == h);
                            }
                        },
                    }
                } else {
                    match parent {
                        None => {},
                        Some(pb) => {
                            let b = pb.0.key();
                            let list = self.body_colliders@[b]@;
                            assert(list.contains(handle));
                        },
                    }
                }
            }
        }
        true
    }

    /// Erases the collider with key `k` from the index and remembers its
    /// owner among the colliders deleted since the last step.
    fn erase_collider(&mut self, k: u64)
        requires
            old(self).wf(),
            old(self).collider_owners().contains_key(k),
        ensures
            final(self).wf(),
            final(self).entity_colliders() == old(self).entity_colliders().remove(
                old(self).collider_owners()[k].0,
            ),
            final(self).collider_owners() == old(self).collider_owners().remove(k),
            final(self).collider_parents() == old(self).collider_parents().remove(k),
            final(self).deleted() == old(self).deleted().insert(k, old(self).collider_owners()[k]),
            final(self).entity_bodies() == old(self).entity_bodies(),
            final(self).body_owners() == old(self).body_owners(),
            final(self).body_colliders == old(self).body_colliders,
            final(self).entity_impulse_joints() == old(self).entity_impulse_joints(),
            final(self).entity_multibody_joints() == old(self).entity_multibody_joints(),
            final(self).pending_events() == old(self).pending_events(),
    {
        let e = match self.collider2entity.remove(&k) {
            Some(e) => e,
            None => { return; },
        };
        self.entity2collider.remove(&e.0);
        self.collider_parent.remove(&k);
        self.deleted_colliders.insert(k, e);
        proof {
            assert forall|c: u64| #[trigger] self.collider2entity@.contains_key(c) implies {
                let ee = self.collider2entity@[c].0;
                self.entity2collider@.contains_key(ee) && self.entity2collider@[ee].0.key() == c
            } by {
                let ee = self.collider2entity@[c].0;
                assert(old(self).entity2collider@.contains_key(ee));
            }
            assert forall|c: u64| #[trigger] self.collider_parent@.contains_key(c) implies {
                let b = self.collider_parent@[c].0.key();
                let h = self.entity2collider@[self.collider2entity@[c].0];
                &&& self.collider2entity@.contains_key(c)
                &&& self.body2entity@.contains_key(b)
                &&& self.body_colliders@[b]@.contains(h)
            } by {
                let ee = old(self).collider2entity@[c].0;
                assert(old(self).entity2collider@.contains_key(ee));
                assert(ee != e.0);
            }
        }
    }

    /// Erases the collider of `entity` from the index, and remembers its
    /// owner so that events of this step that name it still resolve.
    pub fn remove_collider(&mut self, entity: Entity) -> (r: Option<ColliderHandle>)
        requires
            old(self).wf(),
        ensures
            final(self).wf(),
            r == (if old(self).entity_colliders().contains_key(entity.0) {
                Some(old(self).entity_colliders()[entity.0])
            } else {
                None
            }),
            match r {
                Some(h) => final(self).collider_removed(*old(self), entity, h),
                None => {
                    &&& final(self).entity_colliders() == old(self).entity_colliders()
                    &&& final(self).collider_owners() == old(self).collider_owners()
                    &&& final(self).collider_parents() == old(self).collider_parents()
                    &&& final(self).deleted() == old(self).deleted()
                },
            },
            final(self).entity_bodies() == old(self).entity_bodies(),
            final(self).body_owners() == old(self).body_owners(),
            final(self).entity_impulse_joints() == old(self).entity_impulse_joints(),
            final(self).entity_multibody_joints() == old(self).entity_multibody_joints(),
            final(self).pending_events() == old(self).pending_events(),
    {
        let h = match self.entity2collider.get(&entity.0) {
            Some(h) => *h,
            None => { return None; },
        };
        let k = h.0.to_bits();
        self.erase_collider(k);
        Some(h)
    }

    /// Erases the rigid body of `entity` from the index, together with every
    /// collider attached to it; each such collider's owner is remembered
    /// among the colliders deleted since the last step.
    pub fn remove_body(&mut self, entity: Entity) -> (r: Option<RigidBodyHandle>)
        requires
            old(self).wf(),
        ensures
            final(self).wf(),
            r == (if old(self).entity_bodies().contains_key(entity.0) {
                Some(old(self).entity_bodies()[entity.0])
            } else {
                None
            }),
            match r {
                Some(h) => {
                    let a = old(self).attached_to(h.0.key());
                    &&& final(self).entity_bodies() == old(self).entity_bodies().remove(entity.0)
                    &&& final(self).body_owners() == old(self).body_owners().remove(h.0.key())
                    &&& final(self).collider_owners() == old(self).collider_owners().remove_keys(a)
                    &&& final(self).collider_parents() == old(self).collider_parents().remove_keys(a)
                    &&& final(self).entity_colliders() == colliders_without(
                        old(self).entity_colliders(),
                        a,
                    )
                    &&& final(self).deleted() == old(self).deleted().union_prefer_right(
                        old(self).collider_owners().restrict(a),
                    )
                },
                None => {
                    &&& final(self).entity_bodies() == old(self).entity_bodies()
                    &&& final(self).body_owners() == old(self).body_owners()
                    &&& final(self).collider_owners() == old(self).collider_owners()
                    &&& final(self).collider_parents() == old(self).collider_parents()
                    &&& final(self).entity_colliders() == old(self).entity_colliders()
                    &&& final(self).deleted() == old(self).deleted()
                },
            },
            final(self).entity_impulse_joints() == old(self).entity_impulse_joints(),
            final(self).entity_multibody_joints() == old(self).entity_multibody_joints(),
            final(self).pending_events() == old(self).pending_events(),
    {
        let h = match self.entity2body.get(&entity.0) {
            Some(h) => *h,
            None => { return None; },
        };
        let kb = h.0.to_bits();
        let list = match self.body_colliders.get(&kb) {
            Some(l) => copy_handles(l),
            None => Vec::new(),
        };
        let ghost a = self.attached_to(kb);
        let ghost removed: Set<u64> = Set::empty();
        proof {
            assert forall|k: u64| a.contains(k) implies exists|j: int|
                0 <= j < list@.len() && (#[trigger] list@[j]).0.key() == k by {
                let hc = self.entity2collider@[self.collider2entity@[k].0];
                assert(self.body_colliders@[kb]@.contains(hc));
                let j = choose|j: int| 0 <= j < list@.len() && list@[j] == hc;
                assert(list@[j].0.key() == k);
            }
            assert(self.collider2entity@ =~= old(self).collider2entity@.remove_keys(removed));
            assert(self.collider_parent@ =~= old(self).collider_parent@.remove_keys(removed));
            assert(self.entity2collider@ =~= colliders_without(old(self).entity2collider@, removed));
            assert(self.deleted_colliders@ =~= old(self).deleted_colliders@.union_prefer_right(
                old(self).collider2entity@.restrict(removed)));
        }
        let mut i: usize = 0;
        while i < list.len()
            invariant
                self.wf(),
                old(self).wf(),
                i <= list@.len(),
                a == old(self).attached_to(kb),
                kb == h.0.key(),
                old(self).entity2body@.contains_key(entity.0),
                old(self).entity2body@[entity.0] == h,
                removed.subset_of(a),
                forall|k: u64| a.contains(k) && !removed.contains(k) ==> exists|j: int|
                    i <= j < list@.len() && (#[trigger] list@[j]).0.key() == k,
                self.entity2body@ == old(self).entity2body@,
                self.body2entity@ == old(self).body2entity@,
                self.body_colliders@ == old(self).body_colliders@,
                self.entity2impulse_joint@ == old(self).entity2impulse_joint@,
                self.entity2multibody_joint@ == old(self).entity2multibody_joint@,
                self.collision_events_to_send@ == old(self).collision_events_to_send@,
                self.collider2entity@ == old(self).collider2entity@.remove_keys(removed),
                self.collider_parent@ == old(self).collider_parent@.remove_keys(removed),
                self.entity2collider@ == colliders_without(old(self).entity2collider@, removed),
                self.deleted_colliders@ == old(self).deleted_colliders@.union_prefer_right(
                    old(self).collider2entity@.restrict(removed),
                ),
            decreases list@.len() - i,
        {
            let kc = list[i].0.to_bits();
            let attached = match self.collider_parent.get(&kc) {
                Some(p) => p.0.to_bits() == kb,
                None => false,
            };
            if attached {
                let ghost ec = self.collider2entity@[kc];
                self.erase_collider(kc);
                proof {
                    assert(a.contains(kc));
                    assert(old(self).collider2entity@.contains_key(kc));
                    assert(old(self).collider2entity@[kc] == ec);
                    let r2 = removed.insert(kc);
                    assert(self.collider2entity@ =~= old(self).collider2entity@.remove_keys(r2));
                    assert(self.collider_parent@ =~= old(self).collider_parent@.remove_keys(r2));
                    assert forall|x: u64| #[trigger] self.entity2collider@.contains_key(x) <==>
                        colliders_without(old(self).entity2collider@, r2).contains_key(x) by {
                        if old(self).entity2collider@.contains_key(x)
                            && old(self).entity2collider@[x].0.key() == kc {
                            assert(old(self).collider2entity@[kc].0 == x);
                        }
                    }
                    assert(self.entity2collider@ =~= colliders_without(old(self).entity2collider@, r2));
                    assert(self.deleted_colliders@ =~= old(self).deleted_colliders@.union_prefer_right(
                        old(self).collider2entity@.restrict(r2)));
                    removed = r2;
                }
            }
            proof {
                assert forall|k: u64| a.contains(k) && !removed.contains(k) implies exists|j: int|
                    i + 1 <= j < list@.len() && (#[trigger] list@[j]).0.key() == k by {
                    let j = choose|j: int| i <= j < list@.len() && (#[trigger] list@[j]).0.key() == k;
                    if j == i {
                        assert(self.collider_parent@.contains_key(k));
                    }
                    assert(list@[j].0.key() == k);
                }
            }
            i += 1;
        }
        proof {
            assert(removed =~= a);
        }
        self.entity2body.remove(&entity.0);
        self.body2entity.remove(&kb);
        self.body_colliders.remove(&kb);
        proof {
            assert forall|e: u64| #[trigger] self.entity2body@.contains_key(e) implies {
                let k = self.entity2body@[e].0.key();
                self.body2entity@.contains_key(k) && self.body2entity@[k].0 == e
            } by {
                let k = self.entity2body@[e].0.key();
                assert(old(self).body2entity@.contains_key(k));
                assert(old(self).body2entity@[k].0 == e);
            }
            assert forall|k: u64| #[trigger] self.body2entity@.contains_key(k) implies {
                let e = self.body2entity@[k].0;
                &&& self.entity2body@.contains_key(e)
                &&& self.entity2body@[e].0.key() == k
                &&& self.body_colliders@.contains_key(k)
            } by {
                let e = self.body2entity@[k].0;
                assert(old(self).entity2body@.contains_key(e));
            }
            assert forall|c: u64| #[trigger] self.collider_parent@.contains_key(c) implies {
                let b = self.collider_parent@[c].0.key();
                let hc = self.entity2collider@[self.collider2entity@[c].0];
                &&& self.collider2entity@.contains_key(c)
                &&& self.body2entity@.contains_key(b)
                &&& self.body_colliders@[b]@.contains(hc)
            } by {
                assert(!a.contains(c));
                assert(old(self).collider_parent@.contains_key(c));
            }
        }
        Some(h)
    }

    /// The entities owning the colliders attached to the rigid body of
    /// `entity`, each once, in no promised order; empty when the entity has
    /// no body in this world.
    pub fn rigid_body_colliders(&self, entity: Entity) -> (r: Vec<Entity>)
        requires
            self.wf(),
        ensures
            r@.no_duplicates(),
            forall|x: Entity| r@.contains(x) <==> self.entity_bodies().contains_key(entity.0)
                && exists|k: u64| #[trigger] self.attached_to(
                    self.entity_bodies()[entity.0].0.key(),
                ).contains(k) && self.collider_owners()[k] == x,
    {
        let mut r: Vec<Entity> = Vec::new();
        let h = match self.entity2body.get(&entity.0) {
            Some(h) => *h,
            None => {
                assert(r@.len() == 0);
                return r;
            },
        };
        let kb = h.0.to_bits();
        let list = match self.body_colliders.get(&kb) {
            Some(l) => l,
            None => { return r; },
        };
        let ghost a = self.attached_to(kb);
        let mut i: usize = 0;
        while i < list.len()
            invariant
                self.wf(),
                self.body_colliders@.contains_key(kb),
                list@ == self.body_colliders@[kb]@,
                a == self.attached_to(kb),
                i <= list@.len(),
                r@.no_duplicates(),
                forall|x: Entity| r@.contains(x) ==> exists|j: int| 0 <= j < i
                    && a.contains(#[trigger] list@[j].0.key())
                    && self.collider2entity@[list@[j].0.key()] == x,
                forall|j: int| 0 <= j < i && a.contains(#[trigger] list@[j].0.key())
                    ==> r@.contains(self.collider2entity@[list@[j].0.key()]),
            decreases list@.len() - i,
        {
            let kc = list[i].0.to_bits();
            let attached = match self.collider_parent.get(&kc) {
                Some(p) => p.0.to_bits() == kb,
                None => false,
            };
            if attached {
                let owner = match self.collider2entity.get(&kc) {
                    Some(e) => *e,
                    None => { return r; },
                };
                proof {
                    if r@.contains(owner) {
                        let j = choose|j: int| 0 <= j < i
                            && a.contains(#[trigger] list@[j].0.key())
                            && self.collider2entity@[list@[j].0.key()] == owner;
                        let kj = list@[j].0.key();
                        assert(self.entity2collider@[owner.0].0.key() == kj);
                        assert(kj == kc);
                        lemma_packed_key_injective(list@[j].0, list@[i as int].0);
                        assert(list@[j] == list@[i as int]);
                    }
                }
                let ghost r0 = r@;
                r.push(owner);
                proof {
                    assert(r@ == r0.push(owner));
                    assert forall|x: Entity| r@.contains(x) implies exists|j: int| 0 <= j < i + 1
                        && a.contains(#[trigger] list@[j].0.key())
                        && self.collider2entity@[list@[j].0.key()] == x by {
                        if x != owner {
                            let m = choose|m: int| 0 <= m < r@.len() && r@[m] == x;
                            assert(m < r0.len());
                            assert(r0[m] == x);
                            assert(r0.contains(x));
                        } else {
                            assert(list@[i as int].0.key() == kc);
                        }
                    }
                    assert forall|j: int| 0 <= j < i + 1 && a.contains(#[trigger] list@[j].0.key())
                        implies r@.contains(self.collider2entity@[list@[j].0.key()]) by {
                        if j < i {
                            let x = self.collider2entity@[list@[j].0.key()];
                            assert(r0.contains(x));
                            let m = choose|m: int| 0 <= m < r0.len() && r0[m] == x;
                            assert(r@[m] == x);
                        } else {
                            assert(r@[r@.len() - 1] == owner);
                        }
                    }
                }
            }
            i += 1;
        }
        proof {
            assert forall|x: Entity| r@.contains(x) <==> self.entity_bodies().contains_key(entity.0)
                && exists|k: u64| #[trigger] self.attached_to(
                    self.entity_bodies()[entity.0].0.key(),
                ).contains(k) && self.collider_owners()[k] == x by {
                if exists|k: u64| #[trigger] a.contains(k) && self.collider2entity@[k] == x {
                    let k = choose|k: u64| #[trigger] a.contains(k) && self.collider2entity@[k] == x;
                    let hc = self.entity2collider@[self.collider2entity@[k].0];
                    assert(list@.contains(hc));
                    let j = choose|j: int| 0 <= j < list@.len() && list@[j] == hc;
                    assert(list@[j].0.key() == k);
                }
            }
        }
        r
    }

    /// Registers the impulse joint `handle` as owned by `entity`. Refused,
    /// with nothing changed, when the entity already has one in this world.
    pub fn insert_impulse_joint(&mut self, entity: Entity, handle: ImpulseJointHandle) -> (r: bool)
        requires
            old(self).wf(),
        ensures
            final(self).wf(),
            r == !old(self).entity_impulse_joints().contains_key(entity.0),
            final(self).entity_impulse_joints() == (if r {
                old(self).entity_impulse_joints().insert(entity.0, handle)
            } else {
                old(self).entity_impulse_joints()
            }),
            final(self).entity_multibody_joints() == old(self).entity_multibody_joints(),
            final(self).same_bodies_and_colliders(*old(self)),
    {
        if self.entity2impulse_joint.contains_key(&entity.0) {
            return false;
        }
        self.entity2impulse_joint.insert(entity.0, handle);
        true
    }

    /// Registers the multibody joint `handle` as owned by `entity`. Refused,
    /// with nothing changed, when the entity already has one in this world.
    pub fn insert_multibody_joint(&mut self, entity: Entity, handle: MultibodyJointHandle) -> (r: bool)
        requires
            old(self).wf(),
        ensures
            final(self).wf(),
            r == !old(self).entity_multibody_joints().contains_key(entity.0),
            final(self).entity_multibody_joints() == (if r {
                old(self).entity_multibody_joints().insert(entity.0, handle)
            } else {
                old(self).entity_multibody_joints()
            }),
            final(self).entity_impulse_joints() == old(self).entity_impulse_joints(),
            final(self).same_bodies_and_colliders(*old(self)),
    {
        if self.entity2multibody_joint.contains_key(&entity.0) {
            return false;
        }
        self.entity2multibody_joint.insert(entity.0, handle);
        true
    }

    /// Erases the impulse joint of `entity` from the index.
    pub fn remove_impulse_joint(&mut self, entity: Entity) -> (r: Option<ImpulseJointHandle>)
        requires
            old(self).wf(),
        ensures
            final(self).wf(),
            r == (if old(self).entity_impulse_joints().contains_key(entity.0) {
                Some(old(self).entity_impulse_joints()[entity.0])
            } else {
                None
            }),
            final(self).entity_impulse_joints() == old(self).entity_impulse_joints().remove(entity.0),
            final(self).entity_multibody_joints() == old(self).entity_multibody_joints(),
            final(self).same_bodies_and_colliders(*old(self)),
    {
        self.entity2impulse_joint.remove(&entity.0)
    }

    /// Erases the multibody joint of `entity` from the index.
    pub fn remove_multibody_joint(&mut self, entity: Entity) -> (r: Option<MultibodyJointHandle>)
        requires
            old(self).wf(),
        ensures
            final(self).wf(),
            r == (if old(self).entity_multibody_joints().contains_key(entity.0) {
                Some(old(self).entity_multibody_joints()[entity.0])
            } else {
                None
            }),
            final(self).entity_multibody_joints() == old(self).entity_multibody_joints().remove(entity.0),
            final(self).entity_impulse_joints() == old(self).entity_impulse_joints(),
            final(self).same_bodies_and_colliders(*old(self)),
    {
        self.entity2multibody_joint.remove(&entity.0)
    }

    /// The handle of the impulse joint of `entity`, if it has one here.
    pub fn impulse_joint_of(&self, entity: Entity) -> (r: Option<ImpulseJointHandle>)
        ensures
            r == (if self.entity_impulse_joints().contains_key(entity.0) {
                Some(self.entity_impulse_joints()[entity.0])
            } else {
                None
            }),
    {
        match self.entity2impulse_joint.get(&entity.0) {
            Some(h) => Some(*h),
            None => None,
        }
    }

    /// The handle of the multibody joint of `entity`, if it has one here.
    pub fn multibody_joint_of(&self, entity: Entity) -> (r: Option<MultibodyJointHandle>)
        ensures
            r == (if self.entity_multibody_joints().contains_key(entity.0) {
                Some(self.entity_multibody_joints()[entity.0])
            } else {
                None
            }),
    {
        match self.entity2multibody_joint.get(&entity.0) {
            Some(h) => Some(*h),
            None => None,
        }
    }

    /// The handle of the rigid body of `entity`, if it has one here.
    pub fn body_of(&self, entity: Entity) -> (r: Option<RigidBodyHandle>)
        ensures
            r == (if self.entity_bodies().contains_key(entity.0) {
                Some(self.entity_bodies()[entity.0])
            } else {
                None
            }),
    {
        match self.entity2body.get(&entity.0) {
            Some(h) => Some(*h),
            None => None,
        }
    }

    /// The handle of the collider of `entity`, if it has one here.
    pub fn collider_of(&self, entity: Entity) -> (r: Option<ColliderHandle>)
        ensures
            r == (if self.entity_colliders().contains_key(entity.0) {
                Some(self.entity_colliders()[entity.0])
            } else {
                None
            }),
    {
        match self.entity2collider.get(&entity.0) {
            Some(h) => Some(*h),
            None => None,
        }
    }


    /// The map from entity bits to rigid-body handles.
    pub fn entity2body(&self) -> (r: &HashMap<u64, RigidBodyHandle>)
        ensures
            r@ == self.entity_bodies(),
    {
        &self.entity2body
    }

    /// The map from entity bits to collider handles.
    pub fn entity2collider(&self) -> (r: &HashMap<u64, ColliderHandle>)
        ensures
            r@ == self.entity_colliders(),
    {
        &self.entity2collider
    }

    /// The map from entity bits to impulse-joint handles.
    pub fn entity2impulse_joint(&self) -> (r: &HashMap<u64, ImpulseJointHandle>)
        ensures
            r@ == self.entity_impulse_joints(),
    {
        &self.entity2impulse_joint
    }

    /// The map from entity bits to multibody-joint handles.
    pub fn entity2multibody_joint(&self) -> (r: &HashMap<u64, MultibodyJointHandle>)
        ensures
            r@ == self.entity_multibody_joints(),
    {
        &self.entity2multibody_joint
    }


    /// Converts `filter` to engine handles: an excluded entity that has no
    /// collider (or body) in this world excludes nothing.
    pub fn with_query_filter_elts(&self, filter: QueryFilter) -> (r: RawQueryFilter)
        ensures
            r.flags == filter.flags,
            r.groups == filter.groups,
            r.exclude_collider == match filter.exclude_collider {
                Some(e) => if self.entity_colliders().contains_key(e.0) {
                    Some(self.entity_colliders()[e.0])
                } else {
                    None
                },
                None => None,
            },
            r.exclude_rigid_body == match filter.exclude_rigid_body {
                Some(e) => if self.entity_bodies().contains_key(e.0) {
                    Some(self.entity_bodies()[e.0])
                } else {
                    None
                },
                None => None,
            },
    {
        let exclude_collider = match filter.exclude_collider {
            Some(e) => self.collider_of(e),
            None => None,
        };
        let exclude_rigid_body = match filter.exclude_rigid_body {
            Some(e) => self.body_of(e),
            None => None,
        };
        RawQueryFilter { flags: filter.flags, groups: filter.groups, exclude_collider, exclude_rigid_body }
    }

    /// Bodies, colliders, the deleted-collider map and the event queue are
    /// those of `other`.
    pub open spec fn same_bodies_and_colliders(&self, other: RapierWorld) -> bool {
        &&& self.entity_bodies() == other.entity_bodies()
        &&& self.body_owners() == other.body_owners()
        &&& self.entity_colliders() == other.entity_colliders()
        &&& self.collider_owners() == other.collider_owners()
        &&& self.collider_parents() == other.collider_parents()
        &&& self.deleted() == other.deleted()
        &&& self.pending_events() == other.pending_events()
    }

    /// Queues the collision event between colliders `h1` and `h2`, each
    /// resolved to its entity, live or removed during this step.
    pub fn handle_collision_event(
        &mut self,
        h1: ColliderHandle,
        h2: ColliderHandle,
        started: bool,
        flags: u32,
    )
        requires
            old(self).wf(),
            old(self).resolves(h1),
            old(self).resolves(h2),
        ensures
            final(self).wf(),
            final(self).event_queued(*old(self), h1, h2, started, flags),
    {
        let e1 = match self.resolve_collider_entity(h1) {
            Some(e) => e,
            None => { return; },
        };
        let e2 = match self.resolve_collider_entity(h2) {
            Some(e) => e,
            None => { return; },
        };
        let event = if started {
            CollisionEvent::Started(e1, e2, flags)
        } else {
            CollisionEvent::Stopped(e1, e2, flags)
        };
        self.collision_events_to_send.push(event);
    }

    /// Hands out the queued collision events, oldest first, and empties the
    /// queue.
    pub fn send_bevy_events(&mut self) -> (r: Vec<CollisionEvent>)
        requires
            old(self).wf(),
        ensures
            final(self).wf(),
            r@ == old(self).pending_events(),
            final(self).pending_events().len() == 0,
            final(self).entity_bodies() == old(self).entity_bodies(),
            final(self).body_owners() == old(self).body_owners(),
            final(self).entity_colliders() == old(self).entity_colliders(),
            final(self).collider_owners() == old(self).collider_owners(),
            final(self).collider_parents() == old(self).collider_parents(),
            final(self).deleted() == old(self).deleted(),
            final(self).entity_impulse_joints() == old(self).entity_impulse_joints(),
            final(self).entity_multibody_joints() == old(self).entity_multibody_joints(),
    {
        let mut out: Vec<CollisionEvent> = Vec::new();
        std::mem::swap(&mut out, &mut self.collision_events_to_send);
        out
    }

    /// Forgets the colliders removed before the step that just ran: events
    /// of later steps no longer name them.
    pub fn clear_deleted_colliders(&mut self)
        requires
            old(self).wf(),
        ensures
            final(self).wf(),
            final(self).deleted_cleared(*old(self)),
    {
        self.deleted_colliders.clear();
        assert(self.deleted() =~= Map::empty());
    }
}

/// The entries of `m` whose collider key is outside `s`.
pub open spec fn colliders_without(m: Map<u64, ColliderHandle>, s: Set<u64>) -> Map<u64, ColliderHandle> {
    Map::new(|e: u64| m.contains_key(e) && !s.contains(m[e].0.key()), |e: u64| m[e])
}

/// A copy of `list`.
fn copy_handles(list: &Vec<ColliderHandle>) -> (r: Vec<ColliderHandle>)
    ensures
        r@ == list@,
{
    let mut r: Vec<ColliderHandle> = Vec::new();
    let mut i: usize = 0;
    while i < list.len()
        invariant
            i <= list@.len(),
            r@ == list@.subrange(0, i as int),
        decreases list@.len() - i,
    {
        r.push(list[i]);
        i += 1;
        assert(r@ =~= list@.subrange(0, i as int));
    }
    assert(r@ =~= list@);
    r
}

/// Whether `list` holds the collider `h`.
fn contains_collider(list: &Vec<ColliderHandle>, h: ColliderHandle) -> (r: bool)
    ensures
        r == list@.contains(h),
{
    let mut i: usize = 0;
    while i < list.len()
        invariant
            i <= list@.len(),
            forall|j: int| 0 <= j < i ==> list@[j] != h,
        decreases list@.len() - i,
    {
        if list[i] == h {
            return true;
        }
        i += 1;
    }
    false
}

} // verus!

verus! {

/// Event survival. A collider removed during a step still resolves, through
/// the deleted-collider map, to the entity that owned it, so a collision-end
/// event naming it reports that entity; once the step's cleanup has run the
/// map is empty again.
pub proof fn lemma_removed_collider_events_resolve(
    w0: RapierWorld,
    w1: RapierWorld,
    w2: RapierWorld,
    w3: RapierWorld,
    entity: Entity,
    h: ColliderHandle,
    other: ColliderHandle,
    flags: u32,
)
    requires
        w0.wf(),
        w0.entity_colliders().contains_key(entity.0),
        h == w0.entity_colliders()[entity.0],
        w1.collider_removed(w0, entity, h),
        w1.resolves(other),
        w2.event_queued(w1, h, other, false, flags),
        w3.deleted_cleared(w2),
    ensures
        w1.resolves(h),
        w1.resolved_entity(h) == entity,
        w2.pending_events().last() == CollisionEvent::Stopped(entity, w1.resolved_entity(other), flags),
        w3.deleted().is_empty(),
{
    assert(!w1.collider_owners().contains_key(h.0.key()));
    assert(w1.deleted()[h.0.key()] == entity);
}

} // verus!

verus! {

/// Event survival through a body's removal. A collider removed because its
/// body was removed still resolves, until the step's cleanup, to the entity
/// that owned it.
pub proof fn lemma_body_removal_events_resolve(
    w0: RapierWorld,
    w1: RapierWorld,
    entity: Entity,
    body: RigidBodyHandle,
    c: ColliderHandle,
)
    requires
        w0.wf(),
        w1.body_removed(w0, entity, body),
        w0.attached_to(body.0.key()).contains(c.0.key()),
    ensures
        !w1.collider_owners().contains_key(c.0.key()),
        w1.resolves(c),
        w1.resolved_entity(c) == w0.collider_owners()[c.0.key()],
{
    let k = c.0.key();
    let a = w0.attached_to(body.0.key());
    assert(w0.collider_parents().contains_key(k));
    assert(w0.collider_owners().contains_key(k));
    assert(w0.collider_owners().restrict(a).contains_key(k));
}

} // verus!
