use vstd::prelude::*;
use crate::ids::{Entity, RigidBodyHandle};
use crate::world::RapierWorld;

verus! {

/// How the engine moves a rigid body.
#[derive(Clone, Copy, Debug, PartialEq, Eq, Structural)]
pub enum BodyKind {
    Dynamic,
    Fixed,
    KinematicPositionBased,
    KinematicVelocityBased,
}

/// What a scene node holds of the simulation.
#[derive(Clone, Copy, Debug, PartialEq, Eq, Structural)]
pub enum NodeBody {
    /// No rigid body: the node carries its ancestors' motion through.
    Absent,
    /// A simulated rigid body.
    Enabled(BodyKind),
    /// A disabled rigid body: not written back, and a fixed pivot for its
    /// descendants.
    Disabled,
}

/// One entity of the scene graph, with the position of its parent in the
/// node list.
#[derive(Clone, Copy, Debug, PartialEq, Eq, Structural)]
pub struct SceneNode {
    pub entity: Entity,
    pub parent: Option<usize>,
    pub body: NodeBody,
}

/// What the writeback does at one node.
#[derive(Clone, Copy, Debug, PartialEq, Eq, Structural)]
pub struct WritebackStep {
    /// Whether the engine's pose and velocity are written into the node.
    pub write: bool,
    /// The node whose new world transform and motion delta are the basis of
    /// this one; `None` for the identity basis.
    pub basis: Option<usize>,
    /// Whether the basis node's translation delta is taken off the engine
    /// pose before it is expressed in the basis, because the engine already
    /// carried this dynamic body along with its ancestors.
    pub remove_parent_delta: bool,
    /// The top-level node whose authored velocity the engine added to this
    /// body before the step, and which the written velocity leaves out.
    pub velocity_source: Option<usize>,
}

/// Every parent is listed before its children.
pub open spec fn parents_first(nodes: Seq<SceneNode>) -> bool {
    forall|i: int| 0 <= i < nodes.len() ==> match (#[trigger] nodes[i]).parent {
        Some(p) => p < i,
        None => true,
    }
}

/// Whether a node gives its descendants a basis of its own.
pub open spec fn is_pivot(n: SceneNode) -> bool {
    !(n.body is Absent)
}

/// The nearest strict ancestor of node `i` that is a pivot, if any.
pub open spec fn basis_of(nodes: Seq<SceneNode>, i: int) -> Option<usize>
    decreases i,
{
    if 0 <= i < nodes.len() {
        match nodes[i].parent {
            Some(p) => if p < i {
                if is_pivot(nodes[p as int]) {
                    Some(p)
                } else {
                    basis_of(nodes, p as int)
                }
            } else {
                None
            },
            None => None,
        }
    } else {
        None
    }
}

/// The top-level ancestor of node `i` (itself when it has no parent).
pub open spec fn root_of(nodes: Seq<SceneNode>, i: int) -> int
    decreases i,
{
    if 0 <= i < nodes.len() {
        match nodes[i].parent {
            Some(p) => if p < i {
                root_of(nodes, p as int)
            } else {
                i
            },
            None => i,
        }
    } else {
        i
    }
}

/// The writeback step of node `i`.
pub open spec fn step_of(nodes: Seq<SceneNode>, i: int) -> WritebackStep {
    let n = nodes[i];
    let write = n.body is Enabled;
    let basis = basis_of(nodes, i);
    WritebackStep {
        write,
        basis,
        remove_parent_delta: write && basis is Some && n.body == NodeBody::Enabled(BodyKind::Dynamic),
        velocity_source: if write && n.parent is Some {
            Some(root_of(nodes, i) as usize)
        } else {
            None
        },
    }
}

/// The nearest node, from node `i` up through its ancestors, whose entity
/// has a rigid body in `bodies` (entity bits to handles).
pub open spec fn body_ancestor(bodies: Map<u64, RigidBodyHandle>, nodes: Seq<SceneNode>, i: int) -> Option<usize>
    decreases i,
{
    if 0 <= i < nodes.len() {
        if bodies.contains_key(nodes[i].entity.0) {
            Some(i as usize)
        } else {
            match nodes[i].parent {
                Some(p) => if p < i {
                    body_ancestor(bodies, nodes, p as int)
                } else {
                    None
                },
                None => None,
            }
        }
    } else {
        None
    }
}

/// The node whose rigid body the collider of node `i` attaches to: the
/// nearest of `i` and its ancestors with a body in `world`, with that
/// body's handle. `None` leaves the collider free.
pub fn collider_offset(world: &RapierWorld, nodes: &Vec<SceneNode>, i: usize) -> (r: Option<(usize, RigidBodyHandle)>)
    requires
        parents_first(nodes@),
        i < nodes@.len(),
    ensures
        match body_ancestor(world.entity_bodies(), nodes@, i as int) {
            Some(j) => r == Some((j, world.entity_bodies()[nodes@[j as int].entity.0])),
            None => r is None,
        },
{
    let mut j: usize = i;
    loop
        invariant
            parents_first(nodes@),
            j < nodes@.len(),
            body_ancestor(world.entity_bodies(), nodes@, i as int) == body_ancestor(
                world.entity_bodies(),
                nodes@,
                j as int,
            ),
        decreases j,
    {
        match world.body_of(nodes[j].entity) {
            Some(h) => { return Some((j, h)); },
            None => {},
        }
        match nodes[j].parent {
            Some(p) => { j = p; },
            None => { return None; },
        }
    }
}

/// Whether every parent is listed before its children.
pub fn is_parents_first(nodes: &Vec<SceneNode>) -> (r: bool)
    ensures
        r == parents_first(nodes@),
{
    let mut i: usize = 0;
    while i < nodes.len()
        invariant
            i <= nodes@.len(),
            forall|j: int| 0 <= j < i ==> match (#[trigger] nodes@[j]).parent {
                Some(p) => p < j,
                None => true,
            },
        decreases nodes@.len() - i,
    {
        match nodes[i].parent {
            Some(p) => {
                if p >= i {
                    return false;
                }
            },
            None => {},
        }
        i += 1;
    }
    true
}

/// The writeback step of each node, in node order. Each basis precedes the
/// node it serves, so running the steps in order always finds the basis
/// already written.
pub fn writeback_rigid_bodies(nodes: &Vec<SceneNode>) -> (r: Vec<WritebackStep>)
    requires
        parents_first(nodes@),
    ensures
        r@.len() == nodes@.len(),
        forall|i: int| 0 <= i < nodes@.len() ==> #[trigger] r@[i] == step_of(nodes@, i),
        forall|i: int| 0 <= i < nodes@.len() ==> match (#[trigger] r@[i]).basis {
            Some(b) => b < i && is_pivot(nodes@[b as int]),
            None => true,
        },
{
    let mut r: Vec<WritebackStep> = Vec::new();
    let mut roots: Vec<usize> = Vec::new();
    let mut i: usize = 0;
    while i < nodes.len()
        invariant
            parents_first(nodes@),
            i <= nodes@.len(),
            r@.len() == i,
            roots@.len() == i,
            forall|j: int| 0 <= j < i ==> #[trigger] r@[j] == step_of(nodes@, j),
            forall|j: int| 0 <= j < i ==> #[trigger] roots@[j] == root_of(nodes@, j),
            forall|j: int| 0 <= j < i ==> match (#[trigger] r@[j]).basis {
                Some(b) => b < j && is_pivot(nodes@[b as int]),
                None => true,
            },
            forall|j: int| 0 <= j < i ==> 0 <= #[trigger] root_of(nodes@, j) <= j,
        decreases nodes@.len() - i,
    {
        let n = nodes[i];
        let write = match n.body {
            NodeBody::Enabled(_) => true,
            _ => false,
        };
        let (basis, root) = match n.parent {
            None => (None, i),
            Some(p) => {
                let pn = nodes[p];
                let b = match pn.body {
                    NodeBody::Absent => r[p].basis,
                    _ => Some(p),
                };
                (b, roots[p])
            },
        };
        let dynamic = match n.body {
            NodeBody::Enabled(BodyKind::Dynamic) => true,
            _ => false,
        };
        let step = WritebackStep {
            write,
            basis,
            remove_parent_delta: write && basis.is_some() && dynamic,
            velocity_source: if write && n.parent.is_some() { Some(root) } else { None },
        };
        proof {
            assert(basis_of(nodes@, i as int) == basis);
            assert(root_of(nodes@, i as int) == root);
            assert(step == step_of(nodes@, i as int));
        }
        r.push(step);
        roots.push(root);
        i += 1;
    }
    r
}


/// Whether node `j` is node `i` or one of its descendants.
pub open spec fn in_subtree(nodes: Seq<SceneNode>, i: int, j: int) -> bool
    decreases j,
{
    if j == i {
        true
    } else if 0 <= j < nodes.len() {
        match nodes[j].parent {
            Some(p) => if p < j {
                in_subtree(nodes, i, p as int)
            } else {
                false
            },
            None => false,
        }
    } else {
        false
    }
}

/// The nodes that follow node `changed` into the world it moves to: itself
/// and all its descendants, marked by position.
pub fn apply_changing_worlds(nodes: &Vec<SceneNode>, changed: usize) -> (r: Vec<bool>)
    requires
        parents_first(nodes@),
        changed < nodes@.len(),
    ensures
        r@.len() == nodes@.len(),
        forall|j: int| 0 <= j < nodes@.len() ==> #[trigger] r@[j] == in_subtree(nodes@, changed as int, j),
{
    let mut r: Vec<bool> = Vec::new();
    let mut j: usize = 0;
    while j < nodes.len()
        invariant
            parents_first(nodes@),
            j <= nodes@.len(),
            r@.len() == j,
            forall|k: int| 0 <= k < j ==> #[trigger] r@[k] == in_subtree(nodes@, changed as int, k),
        decreases nodes@.len() - j,
    {
        let inside = if j == changed {
            true
        } else {
            match nodes[j].parent {
                Some(p) => r[p],
                None => false,
            }
        };
        proof {
            assert(inside == in_subtree(nodes@, changed as int, j as int));
        }
        r.push(inside);
        j += 1;
    }
    r
}

/// For each node, the top-level node whose authored linear velocity the
/// engine adds to the node's body before a step, so that a child carried by
/// its ancestors is not struck at its ancestors' speed; `None` for nodes
/// without an enabled body and for top-level nodes.
pub fn sync_vel(nodes: &Vec<SceneNode>) -> (r: Vec<Option<usize>>)
    requires
        parents_first(nodes@),
    ensures
        r@.len() == nodes@.len(),
        forall|i: int| 0 <= i < nodes@.len() ==> #[trigger] r@[i] == step_of(nodes@, i).velocity_source,
{
    let steps = writeback_rigid_bodies(nodes);
    let mut r: Vec<Option<usize>> = Vec::new();
    let mut i: usize = 0;
    while i < steps.len()
        invariant
            steps@.len() == nodes@.len(),
            forall|k: int| 0 <= k < nodes@.len() ==> #[trigger] steps@[k] == step_of(nodes@, k),
            i <= steps@.len(),
            r@.len() == i,
            forall|k: int| 0 <= k < i ==> #[trigger] r@[k] == step_of(nodes@, k).velocity_source,
        decreases steps@.len() - i,
    {
        r.push(steps[i].velocity_source);
        i += 1;
    }
    r
}

} // verus!

verus! {

/// Node `i`'s top-level ancestor has no parent and, for a node that has a
/// parent, lies strictly before it.
pub proof fn lemma_root_of(nodes: Seq<SceneNode>, i: int)
    requires
        parents_first(nodes),
        0 <= i < nodes.len(),
    ensures
        0 <= root_of(nodes, i) <= i,
        nodes[root_of(nodes, i)].parent is None,
        nodes[i].parent is Some ==> root_of(nodes, i) < i,
    decreases i,
{
    match nodes[i].parent {
        Some(p) => {
            lemma_root_of(nodes, p as int);
        },
        None => {},
    }
}

/// Velocity decomposition, in the plan. The velocity the engine adds to a
/// child body before a step and the velocity the writeback takes off after
/// it come from one node: the child's top-level ancestor, which has no
/// parent and is listed before the child.
pub proof fn lemma_velocity_added_is_removed(nodes: Seq<SceneNode>, i: int)
    requires
        parents_first(nodes),
        0 <= i < nodes.len(),
        nodes[i].body is Enabled,
        nodes[i].parent is Some,
    ensures
        step_of(nodes, i).velocity_source == Some(root_of(nodes, i) as usize),
        root_of(nodes, i) < i,
        nodes[root_of(nodes, i)].parent is None,
{
    lemma_root_of(nodes, i);
}

} // verus!

verus! {

/// A node's writeback basis, when it has one, is a pivot among its strict
/// ancestors, so its new world transform is computed before the node's.
pub proof fn lemma_basis_is_ancestor(nodes: Seq<SceneNode>, i: int)
    requires
        parents_first(nodes),
        0 <= i < nodes.len(),
    ensures
        match basis_of(nodes, i) {
            Some(b) => b < i && is_pivot(nodes[b as int]) && in_subtree(nodes, b as int, i),
            None => true,
        },
    decreases i,
{
    match nodes[i].parent {
        Some(p) => {
            lemma_basis_is_ancestor(nodes, p as int);
            assert(p < i);
            if is_pivot(nodes[p as int]) {
                assert(in_subtree(nodes, p as int, p as int));
                lemma_subtree_step(nodes, p as int, p, i);
            } else {
                match basis_of(nodes, p as int) {
                    Some(b) => {
                        lemma_subtree_step(nodes, b as int, p, i);
                    },
                    None => {},
                }
            }
        },
        None => {},
    }
}

proof fn lemma_subtree_step(nodes: Seq<SceneNode>, b: int, p: usize, i: int)
    requires
        parents_first(nodes),
        0 <= i < nodes.len(),
        nodes[i].parent == Some(p),
        0 <= b <= p,
        in_subtree(nodes, b, p as int),
    ensures
        in_subtree(nodes, b, i),
{
    assert(nodes[i].parent == Some(p));
    assert(p < i);
    assert(in_subtree(nodes, b, i) == in_subtree(nodes, b, p as int));
}

} // verus!
