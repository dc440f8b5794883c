//! Distance constraints between two nodes and their relaxation.

use vstd::prelude::*;
use crate::fixed::{clamp, sat_add, sat_sub};
use crate::node::Node;
use crate::params::{COMPRESSION_SOFTENING, RIGIDITY, TARGET_DIST};
use crate::vec2::Vec2;

verus! {

/// A link that pulls nodes `a` and `b` toward the rest length, until their
/// span reaches `break_threshold`.
#[derive(Clone, Copy, Debug, PartialEq, Eq, Structural)]
pub struct Constraint {
    pub a: usize,
    pub b: usize,
    pub break_threshold: i64,
}

/// The correction that one relaxation shares between two nodes, before it is
/// divided by either mass: the unit direction from `a` to `b`, times the
/// excess of their distance over the rest length, times the stiffness, over
/// the sum of the masses; softened where the nodes are closer than the rest
/// length.
pub open spec fn correction(a: Node, b: Node) -> Vec2 {
    let r = b.pos.spec_minus(a.pos);
    let dist = r.spec_length();
    let diff = clamp(dist - TARGET_DIST) as i64;
    let total_mass = clamp(a.mass + b.mass) as i64;
    let full = r.spec_normalize_or_zero().spec_scaled(diff).spec_scaled(RIGIDITY).spec_divided(
        total_mass,
    );
    if dist < TARGET_DIST {
        full.spec_scaled(COMPRESSION_SOFTENING)
    } else {
        full
    }
}

/// The part of the shared correction that moves the first node.
pub open spec fn share_a(a: Node, b: Node) -> Vec2 {
    correction(a, b).spec_divided(a.mass)
}

/// The part of the shared correction that moves the second node.
pub open spec fn share_b(a: Node, b: Node) -> Vec2 {
    correction(a, b).spec_negated().spec_divided(b.mass)
}

impl Constraint {
    /// Both endpoints exist among `nodes` and have positive mass.
    pub open spec fn applies_to(self, nodes: Seq<Node>) -> bool {
        &&& self.a < nodes.len()
        &&& self.b < nodes.len()
        &&& nodes[self.a as int].mass > 0
        &&& nodes[self.b as int].mass > 0
    }

    /// Distance between the two endpoints.
    pub open spec fn span(self, nodes: Seq<Node>) -> i64 {
        nodes[self.a as int].pos.spec_minus(nodes[self.b as int].pos).spec_length()
    }

    /// The constraint survives the breaking test: its span is below its threshold.
    pub open spec fn holds(self, nodes: Seq<Node>) -> bool {
        self.span(nodes) < self.break_threshold
    }

    /// The nodes after one relaxation of this constraint: both corrections
    /// are computed from the positions before the call, then the first
    /// endpoint moves, then the second.
    pub open spec fn solved(self, nodes: Seq<Node>) -> Seq<Node> {
        let a = nodes[self.a as int];
        let b = nodes[self.b as int];
        let first = nodes.update(self.a as int, a.shifted(share_a(a, b)));
        first.update(self.b as int, first[self.b as int].shifted(share_b(a, b)))
    }

    /// Relaxes the constraint once: both endpoints move toward the rest
    /// length, each in inverse proportion to its mass.
    pub fn solve(&self, arena: &mut Vec<Node>)
        requires
            self.applies_to(old(arena)@),
        ensures
            final(arena)@ == self.solved(old(arena)@),
    {
        let a = arena[self.a];
        let b = arena[self.b];
        let r = b.pos.minus(a.pos);
        let dist = r.length();
        let norm = r.normalize_or_zero();
        let diff = sat_sub(dist, TARGET_DIST);
        let mut offs = norm.scaled(diff).scaled(RIGIDITY).divided(sat_add(a.mass, b.mass));
        if dist < TARGET_DIST {
            offs = offs.scaled(COMPRESSION_SOFTENING);
        }
        let a_offs = offs.divided(a.mass);
        let b_offs = offs.negated().divided(b.mass);
        arena[self.a].add_offs(a_offs);
        arena[self.b].add_offs(b_offs);
    }

    /// Whether the span is still below the breaking threshold.
    pub fn is_intact(&self, arena: &Vec<Node>) -> (r: bool)
        requires
            self.a < arena@.len(),
            self.b < arena@.len(),
        ensures
            r == self.holds(arena@),
    {
        arena[self.a].pos.minus(arena[self.b].pos).length() < self.break_threshold
    }
}

} // verus!
