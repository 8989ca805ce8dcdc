use vstd::prelude::*;

verus! {

/// A scene entity, identified by the bits that the host assigns to it.
#[derive(Clone, Copy, Debug, PartialEq, Eq, Structural, Hash)]
pub struct Entity(pub u64);

impl Entity {
    /// Rebuilds an entity from its bits.
    pub fn from_bits(bits: u64) -> (r: Entity)
        ensures
            r.0 == bits,
    {
        Entity(bits)
    }

    /// The bits that identify this entity.
    pub fn to_bits(&self) -> (r: u64)
        ensures
            r == self.0,
    {
        self.0
    }
}

/// Number of distinct slot indices, and the factor that places the
/// generation above the slot in a packed key.
pub const SLOT_SPAN: u64 = 0x1_0000_0000;

/// A generational arena index: a slot and the generation of the object that
/// occupies it. A slot reused after removal carries a new generation, so a
/// stale index never designates the new occupant.
#[derive(Clone, Copy, Debug, PartialEq, Eq, Structural, Hash)]
pub struct ArenaIndex {
    pub index: u32,
    pub generation: u32,
}

/// The packed key of a slot and generation: generation above, slot below.
pub open spec fn packed_key(index: u32, generation: u32) -> int {
    generation as int * SLOT_SPAN as int + index as int
}

/// Distinct indices have distinct packed keys.
pub proof fn lemma_packed_key_injective(a: ArenaIndex, b: ArenaIndex)
    requires
        packed_key(a.index, a.generation) == packed_key(b.index, b.generation),
    ensures
        a == b,
{
    let ka = packed_key(a.index, a.generation);
    assert(a.generation == b.generation) by (nonlinear_arith)
        requires
            ka == a.generation as int * 0x1_0000_0000 + a.index as int,
            ka == b.generation as int * 0x1_0000_0000 + b.index as int,
            0 <= a.index < 0x1_0000_0000,
            0 <= b.index < 0x1_0000_0000,
            0 <= a.generation,
            0 <= b.generation,
    ;
}

impl ArenaIndex {
    pub open spec fn key(self) -> u64 {
        packed_key(self.index, self.generation) as u64
    }

    /// Builds an index from its slot and generation.
    pub fn from_raw_parts(index: u32, generation: u32) -> (r: ArenaIndex)
        ensures
            r.index == index,
            r.generation == generation,
    {
        ArenaIndex { index, generation }
    }

    /// Packs the index in one integer, generation in the high half.
    pub fn to_bits(&self) -> (r: u64)
        ensures
            r as int == packed_key(self.index, self.generation),
            r == self.key(),
    {
        let g = self.generation as u64;
        let i = self.index as u64;
        assert(g * SLOT_SPAN + i <= u64::MAX) by (nonlinear_arith)
            requires
                g <= 0xffff_ffff,
                i <= 0xffff_ffff,
                SLOT_SPAN == 0x1_0000_0000,
        ;
        g * SLOT_SPAN + i
    }
}

/// The handle of a rigid body in the engine.
#[derive(Clone, Copy, Debug, PartialEq, Eq, Structural, Hash)]
pub struct RigidBodyHandle(pub ArenaIndex);

/// The handle of a collider in the engine.
#[derive(Clone, Copy, Debug, PartialEq, Eq, Structural, Hash)]
pub struct ColliderHandle(pub ArenaIndex);

/// The handle of an impulse joint in the engine.
#[derive(Clone, Copy, Debug, PartialEq, Eq, Structural, Hash)]
pub struct ImpulseJointHandle(pub ArenaIndex);

/// The handle of a multibody joint in the engine.
#[derive(Clone, Copy, Debug, PartialEq, Eq, Structural, Hash)]
pub struct MultibodyJointHandle(pub ArenaIndex);

/// Points to one world within the registry of worlds. The id is not
/// checked for validity when it is built.
#[derive(Clone, Copy, Debug, PartialEq, Eq, Structural, Hash, PartialOrd, Ord, Default)]
pub struct WorldId(pub usize);

/// The id of the world created with the registry.
pub const DEFAULT_WORLD: usize = 0;

impl WorldId {
    /// The world created with the registry. It can be removed like any
    /// other, after which its id stays invalid.
    pub fn default_world() -> (r: Self)
        ensures
            r.0 == DEFAULT_WORLD,
    {
        WorldId(DEFAULT_WORLD)
    }

    /// Refers to the world with this id, which may or may not exist.
    pub fn new(id: usize) -> (r: Self)
        ensures
            r.0 == id,
    {
        WorldId(id)
    }
}

} // verus!
