//! The mathematical model of the simulation: its state as sequences, and one
//! tick as a function from state and input to the next state.

use vstd::prelude::*;
use crate::constraint::Constraint;
use crate::cut::spec_is_cut;
use crate::error::SimError;
use crate::fixed::{clamp, trunc_div};
use crate::frame::{dot_of, line_of, Dot, Line};
use crate::node::Node;
use crate::params::{
    BREAK_THRESHOLD, NODE_MASS, NUM_POINTS, RELAX_PASSES, TARGET_DIST, WIND_RADIUS, WIND_SCALE,
};
use crate::vec2::Vec2;

verus! {

/// The whole state of a simulation.
pub struct World {
    pub nodes: Seq<Node>,
    /// The constraints that are still active, in the order in which they were given.
    pub constraints: Seq<Constraint>,
    /// Where the pointer was at the end of the previous tick.
    pub last_pointer: Vec2,
}

/// Every node has positive mass.
pub open spec fn masses_positive(nodes: Seq<Node>) -> bool {
    forall|i: int| 0 <= i < nodes.len() ==> (#[trigger] nodes[i]).mass > 0
}

/// Every constraint joins two different nodes among the first `n`.
pub open spec fn endpoints_valid(constraints: Seq<Constraint>, n: nat) -> bool {
    forall|j: int|
        0 <= j < constraints.len() ==> {
            let c = #[trigger] constraints[j];
            c.a < n && c.b < n && c.a != c.b
        }
}

/// The two sequences hold the same number of nodes, with the same masses and
/// the same pinned nodes.
pub open spec fn same_frame(before: Seq<Node>, after: Seq<Node>) -> bool {
    &&& before.len() == after.len()
    &&& forall|i: int|
        0 <= i < before.len() ==> (#[trigger] after[i]).mass == before[i].mass && after[i].fixed
            == before[i].fixed
}

/// The first reason, if any, for which nodes and constraints cannot make up
/// a simulation: masses are examined first, then the range of the endpoints,
/// then their distinctness.
pub open spec fn fault(nodes: Seq<Node>, constraints: Seq<Constraint>) -> Option<SimError> {
    if !masses_positive(nodes) {
        Some(SimError::NonPositiveMass)
    } else if exists|j: int|
        0 <= j < constraints.len() && ((#[trigger] constraints[j]).a >= nodes.len()
            || constraints[j].b >= nodes.len()) {
        Some(SimError::EndpointOutOfRange)
    } else if exists|j: int|
        0 <= j < constraints.len() && (#[trigger] constraints[j]).a == constraints[j].b {
        Some(SimError::SelfConstraint)
    } else {
        None
    }
}

/// The node at place `i` of the initial chain on a screen of the given size:
/// a third of the way across, a fifth of the way down, one rest length below
/// its predecessor; the topmost node is pinned.
pub open spec fn chain_node(screen_width: i64, screen_height: i64, i: int) -> Node {
    let x = clamp(trunc_div(screen_width as int, 3)) as i64;
    let top = clamp(trunc_div(screen_height as int, 5));
    let at = Vec2 { x, y: clamp(top + TARGET_DIST * i) as i64 };
    Node { fixed: i == 0, ..Node::at_rest(at, NODE_MASS) }
}

/// The constraint at place `i` of the initial chain joins node `i` to node `i + 1`.
pub open spec fn chain_link(i: int) -> Constraint {
    Constraint { a: i as usize, b: (i + 1) as usize, break_threshold: BREAK_THRESHOLD }
}

/// A node pushed by the pointer's motion if it lies within the wind radius.
pub open spec fn with_wind(n: Node, pointer: Vec2, last_pointer: Vec2) -> Node {
    if n.pos.spec_minus(pointer).spec_length() < WIND_RADIUS {
        Node { force: n.force.spec_plus(pointer.spec_minus(last_pointer).spec_scaled(WIND_SCALE)), ..n }
    } else {
        n
    }
}

/// Gravity applied to every node.
pub open spec fn all_gravity(nodes: Seq<Node>) -> Seq<Node> {
    nodes.map_values(|n: Node| n.with_gravity())
}

/// Drag applied to every node.
pub open spec fn all_drag(nodes: Seq<Node>) -> Seq<Node> {
    nodes.map_values(|n: Node| n.with_drag())
}

/// The wind phase: nothing while the cutting button is held, else the
/// pointer's push on every node near it.
pub open spec fn blown(nodes: Seq<Node>, pointer: Vec2, last_pointer: Vec2, cutting: bool) -> Seq<
    Node,
> {
    if cutting {
        nodes
    } else {
        nodes.map_values(|n: Node| with_wind(n, pointer, last_pointer))
    }
}

/// Every node integrated.
pub open spec fn all_integrated(nodes: Seq<Node>) -> Seq<Node> {
    nodes.map_values(|n: Node| n.integrated())
}

/// Every node differentiated.
pub open spec fn all_differentiated(nodes: Seq<Node>) -> Seq<Node> {
    nodes.map_values(|n: Node| n.differentiated())
}

/// The nodes after the first `k` constraints were relaxed in order, each on
/// the positions that its predecessor left.
pub open spec fn relaxed_through(nodes: Seq<Node>, constraints: Seq<Constraint>, k: nat) -> Seq<Node>
    decreases k,
{
    if k == 0 {
        nodes
    } else {
        constraints[k - 1].solved(relaxed_through(nodes, constraints, (k - 1) as nat))
    }
}

/// The nodes after `passes` full passes over the constraints.
pub open spec fn relaxed(nodes: Seq<Node>, constraints: Seq<Constraint>, passes: nat) -> Seq<Node>
    decreases passes,
{
    if passes == 0 {
        nodes
    } else {
        relaxed_through(
            relaxed(nodes, constraints, (passes - 1) as nat),
            constraints,
            constraints.len(),
        )
    }
}

/// The test that a constraint passes while its span on `nodes` is below its threshold.
pub open spec fn holds_on(nodes: Seq<Node>) -> spec_fn(Constraint) -> bool {
    |c: Constraint| c.holds(nodes)
}

/// The test that a constraint passes unless the gesture from `from` to `to` crosses it.
pub open spec fn spared_by(nodes: Seq<Node>, to: Vec2, from: Vec2) -> spec_fn(Constraint) -> bool {
    |c: Constraint| !spec_is_cut(c, nodes, to, from)
}

/// The constraints whose span is below their threshold, in their order.
pub open spec fn unbroken(constraints: Seq<Constraint>, nodes: Seq<Node>) -> Seq<Constraint> {
    constraints.filter(holds_on(nodes))
}

/// The constraints that the gesture from `from` to `to` does not cross, in their order.
pub open spec fn uncut(constraints: Seq<Constraint>, nodes: Seq<Node>, to: Vec2, from: Vec2) -> Seq<
    Constraint,
> {
    constraints.filter(spared_by(nodes, to, from))
}

/// One relaxation keeps the number of nodes, their masses and their pins.
pub proof fn lemma_solved_frame(c: Constraint, nodes: Seq<Node>)
    requires
        c.a < nodes.len(),
        c.b < nodes.len(),
    ensures
        same_frame(nodes, c.solved(nodes)),
{
}

/// Relaxing any number of constraints keeps the number of nodes, their
/// masses and their pins.
pub proof fn lemma_relaxed_through_frame(nodes: Seq<Node>, constraints: Seq<Constraint>, k: nat)
    requires
        k <= constraints.len(),
        endpoints_valid(constraints, nodes.len()),
    ensures
        same_frame(nodes, relaxed_through(nodes, constraints, k)),
    decreases k,
{
    if k > 0 {
        lemma_relaxed_through_frame(nodes, constraints, (k - 1) as nat);
        let mid = relaxed_through(nodes, constraints, (k - 1) as nat);
        let c = constraints[k - 1];
        lemma_solved_frame(c, mid);
    }
}

/// Any number of relaxation passes keeps the number of nodes, their masses
/// and their pins.
pub proof fn lemma_relaxed_frame(nodes: Seq<Node>, constraints: Seq<Constraint>, passes: nat)
    requires
        endpoints_valid(constraints, nodes.len()),
    ensures
        same_frame(nodes, relaxed(nodes, constraints, passes)),
    decreases passes,
{
    if passes > 0 {
        lemma_relaxed_frame(nodes, constraints, (passes - 1) as nat);
        let mid = relaxed(nodes, constraints, (passes - 1) as nat);
        lemma_relaxed_through_frame(mid, constraints, constraints.len());
    }
}

/// A filter keeps only constraints that were there, so valid endpoints stay valid.
pub proof fn lemma_filter_keeps_valid(
    constraints: Seq<Constraint>,
    keep: spec_fn(Constraint) -> bool,
    n: nat,
)
    requires
        endpoints_valid(constraints, n),
    ensures
        endpoints_valid(constraints.filter(keep), n),
{
    let kept = constraints.filter(keep);
    assert forall|j: int| 0 <= j < kept.len() implies {
        let c = #[trigger] kept[j];
        c.a < n && c.b < n && c.a != c.b
    } by {
        assert(kept.contains(kept[j]));
        constraints.lemma_filter_contains_rev(keep, kept[j]);
        let i = choose|i: int| 0 <= i < constraints.len() && constraints[i] == kept[j];
        assert(constraints[i].a < n);
    }
}

impl World {
    /// Every mass is positive and every constraint joins two different
    /// nodes that exist.
    pub open spec fn well_formed(self) -> bool {
        masses_positive(self.nodes) && endpoints_valid(self.constraints, self.nodes.len())
    }

    /// The chain that a simulation starts from.
    pub open spec fn initial(screen_width: i64, screen_height: i64, pointer: Vec2) -> World {
        World {
            nodes: Seq::new(NUM_POINTS as nat, |i: int| chain_node(screen_width, screen_height, i)),
            constraints: Seq::new((NUM_POINTS - 1) as nat, |i: int| chain_link(i)),
            last_pointer: pointer,
        }
    }

    /// A segment for each active constraint, in their order.
    pub open spec fn lines(self) -> Seq<Line> {
        Seq::new(self.constraints.len(), |j: int| line_of(self.constraints[j], self.nodes))
    }

    /// A point for each node, in their order.
    pub open spec fn dots(self) -> Seq<Dot> {
        Seq::new(self.nodes.len(), |i: int| dot_of(self.nodes[i]))
    }

    /// The nodes once forces were gathered, the nodes integrated and the
    /// constraints relaxed.
    pub open spec fn settled_nodes(self, pointer: Vec2, cutting: bool) -> Seq<Node> {
        let forced = blown(all_drag(all_gravity(self.nodes)), pointer, self.last_pointer, cutting);
        relaxed(all_integrated(forced), self.constraints, RELAX_PASSES as nat)
    }

    /// The constraints that outlive a tick: those that hold on the settled
    /// nodes and, while the cutting button is held, are not crossed by the
    /// pointer's path.
    pub open spec fn surviving(self, pointer: Vec2, cutting: bool) -> Seq<Constraint> {
        let settled = self.settled_nodes(pointer, cutting);
        let held = unbroken(self.constraints, settled);
        if cutting {
            uncut(held, settled, pointer, self.last_pointer)
        } else {
            held
        }
    }

    /// The state after one tick with the pointer at `pointer`.
    pub open spec fn step(self, pointer: Vec2, cutting: bool) -> World {
        World {
            nodes: all_differentiated(self.settled_nodes(pointer, cutting)),
            constraints: self.surviving(pointer, cutting),
            last_pointer: pointer,
        }
    }
}

} // verus!
