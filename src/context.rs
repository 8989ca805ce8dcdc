use std::collections::HashMap;
use vstd::prelude::*;
use vstd::string::StringExecFns;
use crate::ids::{ColliderHandle, Entity, ImpulseJointHandle, MultibodyJointHandle, RigidBodyHandle, WorldId, DEFAULT_WORLD};
use crate::world::{CollisionEvent, RapierWorld};

verus! {

/// The error of an operation addressed to a world that does not exist.
#[derive(Clone, Copy, Debug, PartialEq, Eq, Structural)]
pub enum WorldError {
    WorldNotFound { world_id: WorldId },
}

impl WorldError {
    /// The message describing the error.
    pub fn message(&self) -> (r: String)
        ensures
            r@ == "World not found."@,
    {
        match self {
            WorldError::WorldNotFound { .. } => String::from_str("World not found."),
        }
    }
}

/// The registry of simulation worlds, kept in the order they were added.
/// Ids are handed out in increasing order and never reused.
pub struct RapierContext {
    worlds: Vec<(WorldId, RapierWorld)>,
    next_world_id: WorldId,
}

/// The ids of a sequence of slots.
pub open spec fn slot_ids(s: Seq<(WorldId, RapierWorld)>) -> Seq<usize> {
    s.map_values(|x: (WorldId, RapierWorld)| x.0.0)
}

/// Each id of a sequence of slots to the world it holds.
pub open spec fn slot_map(s: Seq<(WorldId, RapierWorld)>) -> Map<usize, RapierWorld> {
    Map::new(|id: usize| slot_ids(s).contains(id), |id: usize| s[slot_ids(s).index_of(id)].1)
}

/// Ids increase along the slots, stay under `next`, and each world is well
/// formed.
pub open spec fn slots_wf(s: Seq<(WorldId, RapierWorld)>, next: usize) -> bool {
    &&& forall|i: int, j: int| 0 <= i < j < s.len() ==> s[i].0.0 < s[j].0.0
    &&& forall|i: int| 0 <= i < s.len() ==> (#[trigger] s[i]).0.0 < next
    &&& forall|i: int| 0 <= i < s.len() ==> (#[trigger] s[i]).1.wf()
}

proof fn lemma_slot_index(s: Seq<(WorldId, RapierWorld)>, next: usize, i: int)
    requires
        slots_wf(s, next),
        0 <= i < s.len(),
    ensures
        slot_ids(s).contains(s[i].0.0),
        slot_ids(s).index_of(s[i].0.0) == i,
        slot_map(s).contains_key(s[i].0.0),
        slot_map(s)[s[i].0.0] == s[i].1,
{
    let id = s[i].0.0;
    assert(slot_ids(s)[i] == id);
    let k = slot_ids(s).index_of(id);
    if k != i {
        assert(slot_ids(s)[k] == id);
    }
}

/// Replacing the world in one slot replaces it in the map, and keeps the
/// slots well formed when the new world is.
proof fn lemma_slot_update(s: Seq<(WorldId, RapierWorld)>, next: usize, i: int, w: RapierWorld)
    requires
        slots_wf(s, next),
        0 <= i < s.len(),
    ensures
        slot_map(s.update(i, (s[i].0, w))) == slot_map(s).insert(s[i].0.0, w),
        w.wf() ==> slots_wf(s.update(i, (s[i].0, w)), next),
{
    let t = s.update(i, (s[i].0, w));
    assert(slot_ids(t) =~= slot_ids(s));
    lemma_slot_index(s, next, i);
    if w.wf() {
        assert forall|a: int| 0 <= a < t.len() implies (#[trigger] t[a]).1.wf() by {
            if a != i {
                assert(t[a] == s[a]);
            }
        }
        assert(slots_wf(t, next));
    }
    assert forall|x: usize| #[trigger] slot_map(t).contains_key(x) implies
        slot_map(t)[x] == slot_map(s).insert(s[i].0.0, w)[x] by {
        let j = slot_ids(s).index_of(x);
        assert(slot_ids(s).contains(x));
        lemma_slot_index(s, next, j);
        if j != i {
            assert(t[j] == s[j]);
        }
    }
    assert forall|x: usize| #[trigger] slot_map(t).contains_key(x)
        <==> slot_map(s).insert(s[i].0.0, w).contains_key(x) by {}
    assert(slot_map(t) =~= slot_map(s).insert(s[i].0.0, w));
}

/// The first position from `i` on whose world satisfies `p`.
pub open spec fn first_from(s: Seq<(WorldId, RapierWorld)>, i: int, p: spec_fn(RapierWorld) -> bool) -> Option<int>
    decreases s.len() - i,
{
    if i < 0 || i >= s.len() {
        None
    } else if p(s[i].1) {
        Some(i)
    } else {
        first_from(s, i + 1, p)
    }
}

proof fn lemma_first_from_none(s: Seq<(WorldId, RapierWorld)>, i: int, p: spec_fn(RapierWorld) -> bool, k: int)
    requires
        0 <= i <= k < s.len(),
        first_from(s, i, p) is None,
    ensures
        !p(s[k].1),
    decreases k - i,
{
    if i < k {
        lemma_first_from_none(s, i + 1, p, k);
    }
}

/// The entity found by `f` in the first world, in order of ids, where it
/// finds one.
pub open spec fn scan_worlds(s: Seq<(WorldId, RapierWorld)>, f: spec_fn(RapierWorld) -> Option<Entity>) -> Option<Entity> {
    match first_from(s, 0, |w: RapierWorld| f(w) is Some) {
        Some(j) => f(s[j].1),
        None => None,
    }
}

impl RapierContext {
    /// The ids of the worlds, in the order they were added.
    pub closed spec fn ids(&self) -> Seq<usize> {
        slot_ids(self.worlds@)
    }

    /// The worlds with their ids, in the order they were added.
    pub closed spec fn slots(&self) -> Seq<(WorldId, RapierWorld)> {
        self.worlds@
    }

    /// The id that the next added world receives.
    pub closed spec fn next_id(&self) -> usize {
        self.next_world_id.0
    }

    /// Each world id to its world.
    pub closed spec fn worlds(&self) -> Map<usize, RapierWorld> {
        slot_map(self.worlds@)
    }

    /// Ids increase along the registry, stay under the next id, and each
    /// world is well formed.
    pub closed spec fn wf(&self) -> bool {
        slots_wf(self.worlds@, self.next_world_id.0)
    }

    proof fn lemma_index_of(&self, i: int)
        requires
            self.wf(),
            0 <= i < self.worlds@.len(),
        ensures
            self.ids().contains(self.worlds@[i].0.0),
            self.ids().index_of(self.worlds@[i].0.0) == i,
            self.worlds().contains_key(self.worlds@[i].0.0),
            self.worlds()[self.worlds@[i].0.0] == self.worlds@[i].1,
    {
        let id = self.worlds@[i].0.0;
        assert(self.ids()[i] == id);
        let k = self.ids().index_of(id);
        assert(self.ids().contains(id));
        if k != i {
            assert(self.ids()[k] == id);
        }
    }


    /// The position of world `id` in the registry, if it is there.
    fn position(&self, id: WorldId) -> (r: Option<usize>)
        requires
            self.wf(),
        ensures
            match r {
                Some(i) => i < self.worlds@.len() && self.worlds@[i as int].0 == id,
                None => !self.worlds().contains_key(id.0),
            },
    {
        let mut i: usize = 0;
        while i < self.worlds.len()
            invariant
                i <= self.worlds@.len(),
                forall|j: int| 0 <= j < i ==> self.worlds@[j].0 != id,
            decreases self.worlds@.len() - i,
        {
            if self.worlds[i].0 == id {
                return Some(i);
            }
            i += 1;
        }
        proof {
            if self.ids().contains(id.0) {
                let j = choose|j: int| 0 <= j < self.ids().len() && self.ids()[j] == id.0;
                assert(self.worlds@[j].0 == id);
            }
        }
        None
    }

    /// A registry holding `world` as the default world, under id 0.
    pub fn new(world: RapierWorld) -> (r: Self)
        requires
            world.wf(),
        ensures
            r.wf(),
            r.worlds() == Map::<usize, RapierWorld>::empty().insert(DEFAULT_WORLD, world),
            r.next_id() == 1,
    {
        let mut worlds: Vec<(WorldId, RapierWorld)> = Vec::new();
        worlds.push((WorldId(DEFAULT_WORLD), world));
        let r = RapierContext { worlds, next_world_id: WorldId(1) };
        proof {
            r.lemma_index_of(0);
            assert(r.ids() =~= seq![DEFAULT_WORLD]);
            assert(r.worlds() =~= Map::<usize, RapierWorld>::empty().insert(DEFAULT_WORLD, world));
        }
        r
    }

    /// A registry holding one empty default world.
    pub fn default() -> (r: Self)
        ensures
            r.wf(),
            r.worlds().dom() == set![DEFAULT_WORLD],
            r.worlds()[DEFAULT_WORLD].entity_bodies().is_empty(),
            r.worlds()[DEFAULT_WORLD].entity_colliders().is_empty(),
            r.next_id() == 1,
    {
        let r = Self::new(RapierWorld::new());
        assert(r.worlds().dom() =~= set![DEFAULT_WORLD]);
        r
    }

    /// Adds `world` under the next unused id, which it returns. Ids are never
    /// handed out twice, also after a removal.
    pub fn add_world(&mut self, world: RapierWorld) -> (r: WorldId)
        requires
            old(self).wf(),
            world.wf(),
            old(self).next_id() < usize::MAX,
        ensures
            final(self).wf(),
            r.0 == old(self).next_id(),
            !old(self).worlds().contains_key(r.0),
            final(self).worlds() == old(self).worlds().insert(r.0, world),
            final(self).next_id() == old(self).next_id() + 1,
    {
        let id = self.next_world_id;
        let ghost before = *self;
        self.worlds.push((id, world));
        self.next_world_id = WorldId(id.0 + 1);
        proof {
            assert(self.ids() =~= before.ids().push(id.0));
            if before.ids().contains(id.0) {
                let j = choose|j: int| 0 <= j < before.ids().len() && before.ids()[j] == id.0;
                assert(before.worlds@[j].0.0 < id.0);
            }
            assert forall|x: usize| #[trigger] self.worlds().contains_key(x) implies
                self.worlds()[x] == before.worlds().insert(id.0, world)[x] by {
                let j = self.ids().index_of(x);
                self.lemma_index_of(j);
                if j < before.worlds@.len() {
                    before.lemma_index_of(j);
                }
            }
            assert forall|x: usize| #[trigger] self.worlds().contains_key(x)
                <==> before.worlds().insert(id.0, world).contains_key(x) by {
                if before.ids().contains(x) {
                    let j = choose|j: int| 0 <= j < before.ids().len() && before.ids()[j] == x;
                    assert(self.ids()[j] == x);
                }
                if x == id.0 {
                    assert(self.ids()[self.ids().len() - 1] == x);
                }
                if self.ids().contains(x) && x != id.0 {
                    let j = choose|j: int| 0 <= j < self.ids().len() && self.ids()[j] == x;
                    assert(before.ids()[j] == x);
                }
            }
            assert(self.worlds() =~= before.worlds().insert(id.0, world));
        }
        id
    }

    /// Removes world `world_id` and hands it back. The other worlds, and
    /// everything they index, are left as they were.
    pub fn remove_world(&mut self, world_id: WorldId) -> (r: Result<RapierWorld, WorldError>)
        requires
            old(self).wf(),
        ensures
            final(self).wf(),
            final(self).next_id() == old(self).next_id(),
            match r {
                Ok(w) => {
                    &&& old(self).worlds().contains_key(world_id.0)
                    &&& w == old(self).worlds()[world_id.0]
                    &&& final(self).worlds() == old(self).worlds().remove(world_id.0)
                },
                Err(e) => {
                    &&& !old(self).worlds().contains_key(world_id.0)
                    &&& e == WorldError::WorldNotFound { world_id }
                    &&& final(self).worlds() == old(self).worlds()
                },
            },
            forall|id: usize| id != world_id.0 && #[trigger] old(self).worlds().contains_key(id)
                ==> final(self).worlds().contains_key(id) && final(self).worlds()[id] == old(
                self,
            ).worlds()[id],
    {
        match self.position(world_id) {
            None => Err(WorldError::WorldNotFound { world_id }),
            Some(i) => {
                let ghost before = *self;
                let (_, w) = self.worlds.remove(i);
                proof {
                    before.lemma_index_of(i as int);
                    assert forall|a: int, b: int| 0 <= a < b < self.worlds@.len()
                        implies self.worlds@[a].0.0 < self.worlds@[b].0.0 by {
                        let a0 = if a < i { a } else { a + 1 };
                        let b0 = if b < i { b } else { b + 1 };
                        assert(self.worlds@[a] == before.worlds@[a0]);
                        assert(self.worlds@[b] == before.worlds@[b0]);
                    }
                    assert forall|a: int| 0 <= a < self.worlds@.len() implies
                        (#[trigger] self.worlds@[a]).0.0 < self.next_world_id.0 && self.worlds@[a].1.wf() by {
                        let a0 = if a < i { a } else { a + 1 };
                        assert(self.worlds@[a] == before.worlds@[a0]);
                    }
                    assert forall|x: usize| #[trigger] self.worlds().contains_key(x)
                        <==> before.worlds().remove(world_id.0).contains_key(x) by {
                        if self.ids().contains(x) {
                            let j = choose|j: int| 0 <= j < self.ids().len() && self.ids()[j] == x;
                            let j0 = if j < i { j } else { j + 1 };
                            assert(self.worlds@[j] == before.worlds@[j0]);
                            before.lemma_index_of(j0);
                            assert(j0 != i);
                        }
                        if x != world_id.0 && before.ids().contains(x) {
                            let j0 = choose|j: int| 0 <= j < before.ids().len() && before.ids()[j] == x;
                            let j = if j0 < i { j0 } else { j0 - 1 };
                            assert(j0 != i);
                            assert(self.worlds@[j] == before.worlds@[j0]);
                            assert(self.ids()[j] == x);
                        }
                    }
                    assert forall|x: usize| #[trigger] self.worlds().contains_key(x) implies
                        self.worlds()[x] == before.worlds()[x] by {
                        let j = self.ids().index_of(x);
                        self.lemma_index_of(j);
                        let j0 = if j < i { j } else { j + 1 };
                        assert(self.worlds@[j] == before.worlds@[j0]);
                        before.lemma_index_of(j0);
                    }
                    assert(self.worlds() =~= before.worlds().remove(world_id.0));
                }
                Ok(w)
            },
        }
    }

    /// The world `world_id`.
    pub fn get_world(&self, world_id: WorldId) -> (r: Result<&RapierWorld, WorldError>)
        requires
            self.wf(),
        ensures
            match r {
                Ok(w) => self.worlds().contains_key(world_id.0) && *w == self.worlds()[world_id.0],
                Err(e) => !self.worlds().contains_key(world_id.0)
                    && e == WorldError::WorldNotFound { world_id },
            },
    {
        match self.position(world_id) {
            None => Err(WorldError::WorldNotFound { world_id }),
            Some(i) => {
                proof { self.lemma_index_of(i as int); }
                Ok(&self.worlds[i].1)
            },
        }
    }


    /// The world `world_id`, for modification. The registry afterwards holds
    /// the modified world under the same id, and nothing else changes.
    pub fn get_world_mut(&mut self, world_id: WorldId) -> (r: Result<&mut RapierWorld, WorldError>)
        requires
            old(self).wf(),
        ensures
            final(self).next_id() == old(self).next_id(),
            match r {
                Ok(w) => {
                    &&& old(self).worlds().contains_key(world_id.0)
                    &&& *w == old(self).worlds()[world_id.0]
                    &&& final(self).worlds() == old(self).worlds().insert(world_id.0, *final(w))
                    &&& final(w).wf() ==> final(self).wf()
                },
                Err(e) => {
                    &&& !old(self).worlds().contains_key(world_id.0)
                    &&& e == WorldError::WorldNotFound { world_id }
                    &&& *final(self) == *old(self)
                },
            },
    {
        match self.position(world_id) {
            None => Err(WorldError::WorldNotFound { world_id }),
            Some(i) => {
                proof {
                    self.lemma_index_of(i as int);
                    let s = self.worlds@;
                    let n = self.next_world_id.0;
                    assert forall|w: RapierWorld| #[trigger] slot_map(s.update(i as int, (world_id, w)))
                        == slot_map(s).insert(world_id.0, w)
                        && (w.wf() ==> slots_wf(s.update(i as int, (world_id, w)), n)) by {
                        lemma_slot_update(s, n, i as int, w);
                    }
                }
                Ok(&mut self.worlds[i].1)
            },
        }
    }


    /// The entity owning collider `handle` in the first world, in order of
    /// ids, that registers it.
    pub fn collider_entity(&self, handle: ColliderHandle) -> (r: Option<Entity>)
        ensures
            r == scan_worlds(self.slots(), |w: RapierWorld| w.collider_entity_spec(handle)),
    {
        let ghost f = |w: RapierWorld| w.collider_entity_spec(handle);
        let ghost p = |w: RapierWorld| f(w) is Some;
        let mut i: usize = 0;
        while i < self.worlds.len()
            invariant
                i <= self.worlds@.len(),
                first_from(self.worlds@, 0, p) == first_from(self.worlds@, i as int, p),
                p == (|w: RapierWorld| f(w) is Some),
                f == (|w: RapierWorld| w.collider_entity_spec(handle)),
            decreases self.worlds@.len() - i,
        {
            let e = self.worlds[i].1.collider_entity(handle);
            if e.is_some() {
                return e;
            }
            i += 1;
        }
        None
    }

    /// The entity owning rigid body `handle` in the first world, in order of
    /// ids, that registers it.
    pub fn rigid_body_entity(&self, handle: RigidBodyHandle) -> (r: Option<Entity>)
        ensures
            r == scan_worlds(self.slots(), |w: RapierWorld| w.rigid_body_entity_spec(handle)),
    {
        let ghost f = |w: RapierWorld| w.rigid_body_entity_spec(handle);
        let ghost p = |w: RapierWorld| f(w) is Some;
        let mut i: usize = 0;
        while i < self.worlds.len()
            invariant
                i <= self.worlds@.len(),
                first_from(self.worlds@, 0, p) == first_from(self.worlds@, i as int, p),
                p == (|w: RapierWorld| f(w) is Some),
                f == (|w: RapierWorld| w.rigid_body_entity_spec(handle)),
            decreases self.worlds@.len() - i,
        {
            let e = self.worlds[i].1.rigid_body_entity(handle);
            if e.is_some() {
                return e;
            }
            i += 1;
        }
        None
    }

    /// If the collider of `entity` is attached to a rigid body, the entity
    /// owning that body, from the first world, in order of ids, where one is
    /// found.
    pub fn collider_parent(&self, entity: Entity) -> (r: Option<Entity>)
        requires
            self.wf(),
        ensures
            r == scan_worlds(self.slots(), |w: RapierWorld| w.collider_parent_spec(entity)),
    {
        let ghost f = |w: RapierWorld| w.collider_parent_spec(entity);
        let ghost p = |w: RapierWorld| f(w) is Some;
        let mut i: usize = 0;
        while i < self.worlds.len()
            invariant
                self.wf(),
                i <= self.worlds@.len(),
                first_from(self.worlds@, 0, p) == first_from(self.worlds@, i as int, p),
                p == (|w: RapierWorld| f(w) is Some),
                f == (|w: RapierWorld| w.collider_parent_spec(entity)),
            decreases self.worlds@.len() - i,
        {
            assert(self.worlds@[i as int].1.wf());
            let e = self.worlds[i].1.collider_parent(entity);
            if e.is_some() {
                return e;
            }
            i += 1;
        }
        None
    }

    /// If the collider of `entity` in world `world_id` is attached to a rigid
    /// body, the entity owning that body; `None` also when the world does not
    /// exist.
    pub fn collider_parent_for_world(&self, entity: Entity, world_id: WorldId) -> (r: Option<Entity>)
        requires
            self.wf(),
        ensures
            r == (if self.worlds().contains_key(world_id.0) {
                self.worlds()[world_id.0].collider_parent_spec(entity)
            } else {
                None
            }),
    {
        match self.get_world(world_id) {
            Ok(w) => {
                proof { self.lemma_worlds_wf(world_id.0); }
                w.collider_parent(entity)
            },
            Err(_) => None,
        }
    }

    /// The entity owning rigid body `handle` in world `world_id`; `None` also
    /// when the world does not exist.
    pub fn rigid_body_entity_in_world(&self, handle: RigidBodyHandle, world_id: WorldId) -> (r: Option<Entity>)
        requires
            self.wf(),
        ensures
            r == (if self.worlds().contains_key(world_id.0) {
                self.worlds()[world_id.0].rigid_body_entity_spec(handle)
            } else {
                None
            }),
    {
        match self.get_world(world_id) {
            Ok(w) => w.rigid_body_entity(handle),
            Err(_) => None,
        }
    }


    /// The entity-to-body map of world `world_id`.
    pub fn entity2body(&self, world_id: WorldId) -> (r: Result<&HashMap<u64, RigidBodyHandle>, WorldError>)
        requires
            self.wf(),
        ensures
            match r {
                Ok(m) => self.worlds().contains_key(world_id.0)
                    && m@ == self.worlds()[world_id.0].entity_bodies(),
                Err(e) => !self.worlds().contains_key(world_id.0)
                    && e == WorldError::WorldNotFound { world_id },
            },
    {
        match self.get_world(world_id) {
            Ok(w) => Ok(w.entity2body()),
            Err(e) => Err(e),
        }
    }

    /// The entity-to-collider map of world `world_id`.
    pub fn entity2collider(&self, world_id: WorldId) -> (r: Result<&HashMap<u64, ColliderHandle>, WorldError>)
        requires
            self.wf(),
        ensures
            match r {
                Ok(m) => self.worlds().contains_key(world_id.0)
                    && m@ == self.worlds()[world_id.0].entity_colliders(),
                Err(e) => !self.worlds().contains_key(world_id.0)
                    && e == WorldError::WorldNotFound { world_id },
            },
    {
        match self.get_world(world_id) {
            Ok(w) => Ok(w.entity2collider()),
            Err(e) => Err(e),
        }
    }

    /// The entity-to-impulse-joint map of world `world_id`.
    pub fn entity2impulse_joint(&self, world_id: WorldId) -> (r: Result<&HashMap<u64, ImpulseJointHandle>, WorldError>)
        requires
            self.wf(),
        ensures
            match r {
                Ok(m) => self.worlds().contains_key(world_id.0)
                    && m@ == self.worlds()[world_id.0].entity_impulse_joints(),
                Err(e) => !self.worlds().contains_key(world_id.0)
                    && e == WorldError::WorldNotFound { world_id },
            },
    {
        match self.get_world(world_id) {
            Ok(w) => Ok(w.entity2impulse_joint()),
            Err(e) => Err(e),
        }
    }

    /// The entity-to-multibody-joint map of world `world_id`.
    pub fn entity2multibody_joint(&self, world_id: WorldId) -> (r: Result<&HashMap<u64, MultibodyJointHandle>, WorldError>)
        requires
            self.wf(),
        ensures
            match r {
                Ok(m) => self.worlds().contains_key(world_id.0)
                    && m@ == self.worlds()[world_id.0].entity_multibody_joints(),
                Err(e) => !self.worlds().contains_key(world_id.0)
                    && e == WorldError::WorldNotFound { world_id },
            },
    {
        match self.get_world(world_id) {
            Ok(w) => Ok(w.entity2multibody_joint()),
            Err(e) => Err(e),
        }
    }

    /// Removes the rigid body of `entity` from the first world, in order of
    /// ids, that indexes one for it, with the colliders attached to it.
    /// Returns that world and the body's handle, for the engine to drop.
    pub fn remove_body_entity(&mut self, entity: Entity) -> (r: Option<(WorldId, RigidBodyHandle)>)
        requires
            old(self).wf(),
        ensures
            final(self).wf(),
            final(self).next_id() == old(self).next_id(),
            match first_from(old(self).slots(), 0, |w: RapierWorld| w.entity_bodies().contains_key(entity.0)) {
                None => r is None && final(self).slots() == old(self).slots(),
                Some(j) => {
                    let before = old(self).slots()[j].1;
                    let id = old(self).slots()[j].0;
                    let h = before.entity_bodies()[entity.0];
                    &&& r == Some((id, h))
                    &&& final(self).worlds().dom() == old(self).worlds().dom()
                    &&& final(self).worlds()[id.0].body_removed(before, entity, h)
                    &&& forall|x: usize| x != id.0 && #[trigger] old(self).worlds().contains_key(x)
                        ==> final(self).worlds()[x] == old(self).worlds()[x]
                },
            },
    {
        let ghost p = |w: RapierWorld| w.entity_bodies().contains_key(entity.0);
        let mut i: usize = 0;
        while i < self.worlds.len()
            invariant
                i <= self.worlds@.len(),
                first_from(self.worlds@, 0, p) == first_from(self.worlds@, i as int, p),
                p == (|w: RapierWorld| w.entity_bodies().contains_key(entity.0)),
                *self == *old(self),
                self.wf(),
            decreases self.worlds@.len() - i,
        {
            if self.worlds[i].1.body_of(entity).is_some() {
                assert(p(self.worlds@[i as int].1));
                assert(first_from(self.worlds@, i as int, p) == Some(i as int));
                let ghost s0 = self.worlds@;
                let ghost n = self.next_world_id.0;
                let id = self.worlds[i].0;
                proof { assert(s0[i as int].1.wf()); }
                let removed = self.worlds[i].1.remove_body(entity);
                proof {
                    let w = self.worlds@[i as int].1;
                    assert(self.worlds@ == s0.update(i as int, (id, w)));
                    lemma_slot_update(s0, n, i as int, w);
                    lemma_slot_index(s0, n, i as int);
                }
                return match removed {
                    Some(h) => Some((id, h)),
                    None => None,
                };
            }
            i += 1;
        }
        assert(first_from(self.worlds@, i as int, p) is None);
        None
    }

    /// Removes the collider of `entity` from the first world, in order of
    /// ids, that indexes one for it, remembering its owner among that
    /// world's deleted colliders. Returns that world and the collider's
    /// handle, for the engine to drop.
    pub fn remove_collider_entity(&mut self, entity: Entity) -> (r: Option<(WorldId, ColliderHandle)>)
        requires
            old(self).wf(),
        ensures
            final(self).wf(),
            final(self).next_id() == old(self).next_id(),
            match first_from(old(self).slots(), 0, |w: RapierWorld| w.entity_colliders().contains_key(entity.0)) {
                None => r is None && final(self).slots() == old(self).slots(),
                Some(j) => {
                    let before = old(self).slots()[j].1;
                    let id = old(self).slots()[j].0;
                    let h = before.entity_colliders()[entity.0];
                    &&& r == Some((id, h))
                    &&& final(self).worlds().dom() == old(self).worlds().dom()
                    &&& final(self).worlds()[id.0].collider_removed(before, entity, h)
                    &&& forall|x: usize| x != id.0 && #[trigger] old(self).worlds().contains_key(x)
                        ==> final(self).worlds()[x] == old(self).worlds()[x]
                },
            },
    {
        let ghost p = |w: RapierWorld| w.entity_colliders().contains_key(entity.0);
        let mut i: usize = 0;
        while i < self.worlds.len()
            invariant
                i <= self.worlds@.len(),
                first_from(self.worlds@, 0, p) == first_from(self.worlds@, i as int, p),
                p == (|w: RapierWorld| w.entity_colliders().contains_key(entity.0)),
                *self == *old(self),
                self.wf(),
            decreases self.worlds@.len() - i,
        {
            if self.worlds[i].1.collider_of(entity).is_some() {
                assert(p(self.worlds@[i as int].1));
                assert(first_from(self.worlds@, i as int, p) == Some(i as int));
                let ghost s0 = self.worlds@;
                let ghost n = self.next_world_id.0;
                let id = self.worlds[i].0;
                proof { assert(s0[i as int].1.wf()); }
                let removed = self.worlds[i].1.remove_collider(entity);
                proof {
                    let w = self.worlds@[i as int].1;
                    assert(self.worlds@ == s0.update(i as int, (id, w)));
                    lemma_slot_update(s0, n, i as int, w);
                    lemma_slot_index(s0, n, i as int);
                }
                return match removed {
                    Some(h) => Some((id, h)),
                    None => None,
                };
            }
            i += 1;
        }
        assert(first_from(self.worlds@, i as int, p) is None);
        None
    }


    /// Removes the impulse joint of `entity` from the first world, in order of
    /// ids, that indexes one for it. Returns that world and the joint's
    /// handle, for the engine to drop.
    pub fn remove_impulse_joint_entity(&mut self, entity: Entity) -> (r: Option<(WorldId, ImpulseJointHandle)>)
        requires
            old(self).wf(),
        ensures
            final(self).wf(),
            final(self).next_id() == old(self).next_id(),
            match first_from(old(self).slots(), 0, |w: RapierWorld| w.entity_impulse_joints().contains_key(entity.0)) {
                None => r is None && final(self).slots() == old(self).slots(),
                Some(j) => {
                    let before = old(self).slots()[j].1;
                    let id = old(self).slots()[j].0;
                    let after = final(self).worlds()[id.0];
                    &&& r == Some((id, before.entity_impulse_joints()[entity.0]))
                    &&& final(self).worlds().dom() == old(self).worlds().dom()
                    &&& after.entity_impulse_joints() == before.entity_impulse_joints().remove(entity.0)
                    &&& after.entity_multibody_joints() == before.entity_multibody_joints()
                    &&& after.same_bodies_and_colliders(before)
                    &&& forall|x: usize| x != id.0 && #[trigger] old(self).worlds().contains_key(x)
                        ==> final(self).worlds()[x] == old(self).worlds()[x]
                },
            },
    {
        let ghost p = |w: RapierWorld| w.entity_impulse_joints().contains_key(entity.0);
        let mut i: usize = 0;
        while i < self.worlds.len()
            invariant
                i <= self.worlds@.len(),
                first_from(self.worlds@, 0, p) == first_from(self.worlds@, i as int, p),
                p == (|w: RapierWorld| w.entity_impulse_joints().contains_key(entity.0)),
                *self == *old(self),
                self.wf(),
            decreases self.worlds@.len() - i,
        {
            if self.worlds[i].1.impulse_joint_of(entity).is_some() {
                assert(p(self.worlds@[i as int].1));
                assert(first_from(self.worlds@, i as int, p) == Some(i as int));
                let ghost s0 = self.worlds@;
                let ghost n = self.next_world_id.0;
                let id = self.worlds[i].0;
                proof { assert(s0[i as int].1.wf()); }
                let removed = self.worlds[i].1.remove_impulse_joint(entity);
                proof {
                    let w = self.worlds@[i as int].1;
                    assert(self.worlds@ == s0.update(i as int, (id, w)));
                    lemma_slot_update(s0, n, i as int, w);
                    lemma_slot_index(s0, n, i as int);
                }
                return match removed {
                    Some(h) => Some((id, h)),
                    None => None,
                };
            }
            i += 1;
        }
        assert(first_from(self.worlds@, i as int, p) is None);
        None
    }

    /// Removes the multibody joint of `entity` from the first world, in order of
    /// ids, that indexes one for it. Returns that world and the joint's
    /// handle, for the engine to drop.
    pub fn remove_multibody_joint_entity(&mut self, entity: Entity) -> (r: Option<(WorldId, MultibodyJointHandle)>)
        requires
            old(self).wf(),
        ensures
            final(self).wf(),
            final(self).next_id() == old(self).next_id(),
            match first_from(old(self).slots(), 0, |w: RapierWorld| w.entity_multibody_joints().contains_key(entity.0)) {
                None => r is None && final(self).slots() == old(self).slots(),
                Some(j) => {
                    let before = old(self).slots()[j].1;
                    let id = old(self).slots()[j].0;
                    let after = final(self).worlds()[id.0];
                    &&& r == Some((id, before.entity_multibody_joints()[entity.0]))
                    &&& final(self).worlds().dom() == old(self).worlds().dom()
                    &&& after.entity_multibody_joints() == before.entity_multibody_joints().remove(entity.0)
                    &&& after.entity_impulse_joints() == before.entity_impulse_joints()
                    &&& after.same_bodies_and_colliders(before)
                    &&& forall|x: usize| x != id.0 && #[trigger] old(self).worlds().contains_key(x)
                        ==> final(self).worlds()[x] == old(self).worlds()[x]
                },
            },
    {
        let ghost p = |w: RapierWorld| w.entity_multibody_joints().contains_key(entity.0);
        let mut i: usize = 0;
        while i < self.worlds.len()
            invariant
                i <= self.worlds@.len(),
                first_from(self.worlds@, 0, p) == first_from(self.worlds@, i as int, p),
                p == (|w: RapierWorld| w.entity_multibody_joints().contains_key(entity.0)),
                *self == *old(self),
                self.wf(),
            decreases self.worlds@.len() - i,
        {
            if self.worlds[i].1.multibody_joint_of(entity).is_some() {
                assert(p(self.worlds@[i as int].1));
                assert(first_from(self.worlds@, i as int, p) == Some(i as int));
                let ghost s0 = self.worlds@;
                let ghost n = self.next_world_id.0;
                let id = self.worlds[i].0;
                proof { assert(s0[i as int].1.wf()); }
                let removed = self.worlds[i].1.remove_multibody_joint(entity);
                proof {
                    let w = self.worlds@[i as int].1;
                    assert(self.worlds@ == s0.update(i as int, (id, w)));
                    lemma_slot_update(s0, n, i as int, w);
                    lemma_slot_index(s0, n, i as int);
                }
                return match removed {
                    Some(h) => Some((id, h)),
                    None => None,
                };
            }
            i += 1;
        }
        assert(first_from(self.worlds@, i as int, p) is None);
        None
    }

    /// Registers the rigid body `handle` of `entity` in world `world_id`.
    /// `Ok(false)`, with nothing changed, when some world already indexes a
    /// rigid body for the entity, or the handle is already registered in that world; an entity moving
    /// between worlds must lose its old rigid body first.
    pub fn insert_body(&mut self, world_id: WorldId, entity: Entity, handle: RigidBodyHandle) -> (r: Result<bool, WorldError>)
        requires
            old(self).wf(),
        ensures
            final(self).wf(),
            final(self).next_id() == old(self).next_id(),
            match r {
                Err(e) => {
                    &&& !old(self).worlds().contains_key(world_id.0)
                    &&& e == WorldError::WorldNotFound { world_id }
                    &&& final(self).slots() == old(self).slots()
                },
                Ok(false) => {
                    &&& old(self).worlds().contains_key(world_id.0)
                    &&& final(self).slots() == old(self).slots()
                },
                Ok(true) => {
                    let before = old(self).worlds()[world_id.0];
                    &&& old(self).worlds().contains_key(world_id.0)
                    &&& final(self).worlds().dom() == old(self).worlds().dom()
                    &&& final(self).worlds()[world_id.0].body_inserted(before, entity, handle)
                    &&& forall|x: usize| x != world_id.0 && #[trigger] old(self).worlds().contains_key(x)
                        ==> final(self).worlds()[x] == old(self).worlds()[x]
                },
            },
            r is Ok ==> (r == Ok::<bool, WorldError>(true) <==> (
                first_from(old(self).slots(), 0, |w: RapierWorld| w.entity_bodies().contains_key(entity.0)) is None
                && !old(self).worlds()[world_id.0].body_owners().contains_key(handle.0.key()))),
    {
        let ghost p = |w: RapierWorld| w.entity_bodies().contains_key(entity.0);
        let mut i: usize = 0;
        while i < self.worlds.len()
            invariant
                i <= self.worlds@.len(),
                first_from(self.worlds@, 0, p) == first_from(self.worlds@, i as int, p),
                p == (|w: RapierWorld| w.entity_bodies().contains_key(entity.0)),
                *self == *old(self),
                self.wf(),
            decreases self.worlds@.len() - i,
        {
            if self.worlds[i].1.body_of(entity).is_some() {
                assert(p(self.worlds@[i as int].1));
                assert(first_from(self.worlds@, i as int, p) == Some(i as int));
                return match self.position(world_id) {
                    Some(j) => {
                        proof { self.lemma_index_of(j as int); }
                        Ok(false)
                    },
                    None => Err(WorldError::WorldNotFound { world_id }),
                };
            }
            i += 1;
        }
        assert(first_from(self.worlds@, i as int, p) is None);
        match self.position(world_id) {
            None => Err(WorldError::WorldNotFound { world_id }),
            Some(i) => {
                let ghost s0 = self.worlds@;
                let ghost n = self.next_world_id.0;
                proof {
                    assert(s0[i as int].1.wf());
                    lemma_slot_index(s0, n, i as int);
                    lemma_first_from_none(s0, 0, p, i as int);
                }
                let inserted = self.worlds[i].1.insert_body(entity, handle);
                proof {
                    let w = self.worlds@[i as int].1;
                    assert(self.worlds@ == s0.update(i as int, (world_id, w)));
                    lemma_slot_update(s0, n, i as int, w);
                    if !inserted {
                        assert(self.worlds@ =~= s0);
                    }
                }
                Ok(inserted)
            },
        }
    }

    /// Registers the collider `handle` of `entity` in world `world_id`.
    /// `Ok(false)`, with nothing changed, when some world already indexes a
    /// collider for the entity, or the handle is already registered in that world, or the parent body is not; an entity moving
    /// between worlds must lose its old collider first.
    pub fn insert_collider(&mut self, world_id: WorldId, entity: Entity, handle: ColliderHandle, parent: Option<RigidBodyHandle>) -> (r: Result<bool, WorldError>)
        requires
            old(self).wf(),
        ensures
            final(self).wf(),
            final(self).next_id() == old(self).next_id(),
            match r {
                Err(e) => {
                    &&& !old(self).worlds().contains_key(world_id.0)
                    &&& e == WorldError::WorldNotFound { world_id }
                    &&& final(self).slots() == old(self).slots()
                },
                Ok(false) => {
                    &&& old(self).worlds().contains_key(world_id.0)
                    &&& final(self).slots() == old(self).slots()
                },
                Ok(true) => {
                    let before = old(self).worlds()[world_id.0];
                    &&& old(self).worlds().contains_key(world_id.0)
                    &&& final(self).worlds().dom() == old(self).worlds().dom()
                    &&& final(self).worlds()[world_id.0].collider_inserted(before, entity, handle, parent)
                    &&& forall|x: usize| x != world_id.0 && #[trigger] old(self).worlds().contains_key(x)
                        ==> final(self).worlds()[x] == old(self).worlds()[x]
                },
            },
            r is Ok ==> (r == Ok::<bool, WorldError>(true) <==> (
                first_from(old(self).slots(), 0, |w: RapierWorld| w.entity_colliders().contains_key(entity.0)) is None
                && !old(self).worlds()[world_id.0].collider_owners().contains_key(handle.0.key())
                && match parent {
                    Some(b) => old(self).worlds()[world_id.0].body_owners().contains_key(b.0.key()),
                    None => true,
                })),
    {
        let ghost p = |w: RapierWorld| w.entity_colliders().contains_key(entity.0);
        let mut i: usize = 0;
        while i < self.worlds.len()
            invariant
                i <= self.worlds@.len(),
                first_from(self.worlds@, 0, p) == first_from(self.worlds@, i as int, p),
                p == (|w: RapierWorld| w.entity_colliders().contains_key(entity.0)),
                *self == *old(self),
                self.wf(),
            decreases self.worlds@.len() - i,
        {
            if self.worlds[i].1.collider_of(entity).is_some() {
                assert(p(self.worlds@[i as int].1));
                assert(first_from(self.worlds@, i as int, p) == Some(i as int));
                return match self.position(world_id) {
                    Some(j) => {
                        proof { self.lemma_index_of(j as int); }
                        Ok(false)
                    },
                    None => Err(WorldError::WorldNotFound { world_id }),
                };
            }
            i += 1;
        }
        assert(first_from(self.worlds@, i as int, p) is None);
        match self.position(world_id) {
            None => Err(WorldError::WorldNotFound { world_id }),
            Some(i) => {
                let ghost s0 = self.worlds@;
                let ghost n = self.next_world_id.0;
                proof {
                    assert(s0[i as int].1.wf());
                    lemma_slot_index(s0, n, i as int);
                    lemma_first_from_none(s0, 0, p, i as int);
                }
                let inserted = self.worlds[i].1.insert_collider(entity, handle, parent);
                proof {
                    let w = self.worlds@[i as int].1;
                    assert(self.worlds@ == s0.update(i as int, (world_id, w)));
                    lemma_slot_update(s0, n, i as int, w);
                    if !inserted {
                        assert(self.worlds@ =~= s0);
                    }
                }
                Ok(inserted)
            },
        }
    }

    /// Hands out the collision events queued in every world, world by world
    /// in order of ids and oldest first within a world, and forgets the
    /// colliders removed before this step: the end of a step.
    pub fn finish_step(&mut self) -> (r: Vec<(WorldId, Vec<CollisionEvent>)>)
        requires
            old(self).wf(),
        ensures
            final(self).wf(),
            final(self).next_id() == old(self).next_id(),
            final(self).ids() == old(self).ids(),
            r@.len() == old(self).slots().len(),
            forall|i: int| 0 <= i < r@.len() ==> {
                &&& (#[trigger] r@[i]).0 == old(self).slots()[i].0
                &&& r@[i].1@ == old(self).slots()[i].1.pending_events()
                &&& final(self).slots()[i].1.step_finished(old(self).slots()[i].1)
            },
    {
        let mut r: Vec<(WorldId, Vec<CollisionEvent>)> = Vec::new();
        let mut i: usize = 0;
        while i < self.worlds.len()
            invariant
                self.wf(),
                old(self).wf(),
                i <= self.worlds@.len(),
                self.worlds@.len() == old(self).worlds@.len(),
                self.next_world_id == old(self).next_world_id,
                r@.len() == i,
                forall|j: int| 0 <= j < self.worlds@.len() ==> (#[trigger] self.worlds@[j]).0
                    == old(self).worlds@[j].0,
                forall|j: int| i <= j < self.worlds@.len() ==> #[trigger] self.worlds@[j]
                    == old(self).worlds@[j],
                forall|j: int| 0 <= j < i ==> {
                    &&& (#[trigger] r@[j]).0 == old(self).worlds@[j].0
                    &&& r@[j].1@ == old(self).worlds@[j].1.pending_events()
                    &&& self.worlds@[j].1.step_finished(old(self).worlds@[j].1)
                },
            decreases self.worlds@.len() - i,
        {
            let ghost s0 = self.worlds@;
            let ghost n = self.next_world_id.0;
            let id = self.worlds[i].0;
            proof { assert(s0[i as int].1.wf()); }
            let events = self.worlds[i].1.send_bevy_events();
            self.worlds[i].1.clear_deleted_colliders();
            proof {
                let w = self.worlds@[i as int].1;
                assert(self.worlds@ == s0.update(i as int, (id, w)));
                lemma_slot_update(s0, n, i as int, w);
            }
            r.push((id, events));
            i += 1;
        }
        proof {
            assert(self.ids() =~= old(self).ids());
        }
        r
    }

    /// Whether moving `entity` into world `new_world` asks for its engine
    /// objects to be dropped and built again there: false only when that
    /// world already indexes a rigid body for it.
    pub fn world_change_required(&self, entity: Entity, new_world: WorldId) -> (r: bool)
        requires
            self.wf(),
        ensures
            r == !(self.worlds().contains_key(new_world.0)
                && self.worlds()[new_world.0].entity_bodies().contains_key(entity.0)),
    {
        match self.get_world(new_world) {
            Ok(w) => w.body_of(entity).is_none(),
            Err(_) => true,
        }
    }

    /// The world of each id is well formed.
    pub proof fn lemma_worlds_wf(&self, id: usize)
        requires
            self.wf(),
            self.worlds().contains_key(id),
        ensures
            self.worlds()[id].wf(),
    {
        let k = self.ids().index_of(id);
        assert(0 <= k < self.worlds@.len());
    }
}

} // verus!
