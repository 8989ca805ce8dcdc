use std::collections::{HashMap, HashSet};
use vstd::prelude::*;
use crate::ids::Entity;
use crate::world::CollisionEvent;

verus! {

broadcast use vstd::std_specs::hash::group_hash_axioms;

/// The entities an entity is currently colliding with, by their bits.
pub struct CollidingEntities(pub HashSet<u64>);

impl View for CollidingEntities {
    type V = Set<u64>;

    open spec fn view(&self) -> Set<u64> {
        self.0@
    }
}

impl CollidingEntities {
    /// No colliding entity.
    pub fn new() -> (r: Self)
        ensures
            r@ == Set::<u64>::empty(),
    {
        CollidingEntities(HashSet::new())
    }

    /// Whether `entity` is colliding with the owner of this set.
    pub fn contains(&self, entity: Entity) -> (r: bool)
        ensures
            r == self@.contains(entity.0),
    {
        self.0.contains(&entity.0)
    }

    /// Whether no entity is colliding with the owner of this set.
    pub fn is_empty(&self) -> (r: bool)
        ensures
            r == self@.is_empty(),
    {
        self.0.is_empty()
    }

    /// How many entities are colliding with the owner of this set.
    pub fn len(&self) -> (r: usize)
        ensures
            r == self@.len(),
    {
        self.0.len()
    }
}

/// The sets of the watched entities, by entity bits.
pub open spec fn sets_view(m: Map<u64, CollidingEntities>) -> Map<u64, Set<u64>> {
    Map::new(|k: u64| m.contains_key(k), |k: u64| m[k]@)
}

/// Adds `x` to the set of `e`, if `e` is watched.
pub open spec fn add_to(m: Map<u64, Set<u64>>, e: u64, x: u64) -> Map<u64, Set<u64>> {
    if m.contains_key(e) {
        m.insert(e, m[e].insert(x))
    } else {
        m
    }
}

/// Takes `x` out of the set of `e`, if `e` is watched.
pub open spec fn remove_from(m: Map<u64, Set<u64>>, e: u64, x: u64) -> Map<u64, Set<u64>> {
    if m.contains_key(e) {
        m.insert(e, m[e].remove(x))
    } else {
        m
    }
}

/// The sets after one event: a started collision adds each entity to the
/// other's set, a stopped one takes it out.
pub open spec fn apply_event(m: Map<u64, Set<u64>>, ev: CollisionEvent) -> Map<u64, Set<u64>> {
    match ev {
        CollisionEvent::Started(a, b, _) => add_to(add_to(m, a.0, b.0), b.0, a.0),
        CollisionEvent::Stopped(a, b, _) => remove_from(remove_from(m, a.0, b.0), b.0, a.0),
    }
}

/// The sets after the events, in order.
pub open spec fn apply_events(m: Map<u64, Set<u64>>, evs: Seq<CollisionEvent>) -> Map<u64, Set<u64>>
    decreases evs.len(),
{
    if evs.len() == 0 {
        m
    } else {
        apply_event(apply_events(m, evs.drop_last()), evs.last())
    }
}

/// Adds `x` to the set of `e` if `e` is watched, or takes it out.
fn update_one(sets: &mut HashMap<u64, CollidingEntities>, e: u64, x: u64, add: bool)
    ensures
        sets_view(final(sets)@) == if add {
            add_to(sets_view(old(sets)@), e, x)
        } else {
            remove_from(sets_view(old(sets)@), e, x)
        },
{
    match sets.remove(&e) {
        None => {
            assert(sets_view(sets@) =~= sets_view(old(sets)@));
        },
        Some(mut set) => {
            if add {
                set.0.insert(x);
            } else {
                set.0.remove(&x);
            }
            sets.insert(e, set);
            if add {
                assert(sets_view(sets@) =~= add_to(sets_view(old(sets)@), e, x));
            } else {
                assert(sets_view(sets@) =~= remove_from(sets_view(old(sets)@), e, x));
            }
        },
    }
}

/// Applies the collision events, in order, to the colliding-entity sets of
/// the watched entities: a started collision adds each entity to the other's
/// set, a stopped one takes it out. Entities without a set are left alone.
pub fn update_colliding_entities(
    sets: &mut HashMap<u64, CollidingEntities>,
    events: &Vec<CollisionEvent>,
)
    ensures
        sets_view(final(sets)@) == apply_events(sets_view(old(sets)@), events@),
{
    let mut i: usize = 0;
    while i < events.len()
        invariant
            i <= events@.len(),
            sets_view(sets@) == apply_events(sets_view(old(sets)@), events@.subrange(0, i as int)),
        decreases events@.len() - i,
    {
        match events[i] {
            CollisionEvent::Started(a, b, _) => {
                update_one(sets, a.0, b.0, true);
                update_one(sets, b.0, a.0, true);
            },
            CollisionEvent::Stopped(a, b, _) => {
                update_one(sets, a.0, b.0, false);
                update_one(sets, b.0, a.0, false);
            },
        }
        proof {
            let pre = events@.subrange(0, i as int + 1);
            assert(pre.drop_last() =~= events@.subrange(0, i as int));
            assert(pre.last() == events@[i as int]);
        }
        i += 1;
    }
    assert(events@.subrange(0, events@.len() as int) =~= events@);
}

} // verus!
