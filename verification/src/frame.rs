//! What a renderer needs of one state: segments and points.

use vstd::prelude::*;
use crate::constraint::Constraint;
use crate::node::Node;
use crate::vec2::Vec2;

verus! {

/// The segment of one active constraint.
#[derive(Clone, Copy, Debug, PartialEq, Eq, Structural)]
pub struct Line {
    pub from: Vec2,
    pub to: Vec2,
}

/// One node, with the mark that tells an anchor from a free node.
#[derive(Clone, Copy, Debug, PartialEq, Eq, Structural)]
pub struct Dot {
    pub at: Vec2,
    pub fixed: bool,
}

/// The drawing of one state: a segment for each active constraint, in their
/// order, then a point for each node, in their order.
#[derive(Debug)]
pub struct Frame {
    pub lines: Vec<Line>,
    pub dots: Vec<Dot>,
}

/// The segment between the endpoints of `c`.
pub open spec fn line_of(c: Constraint, nodes: Seq<Node>) -> Line {
    Line { from: nodes[c.a as int].pos, to: nodes[c.b as int].pos }
}

/// The point that stands for `n`.
pub open spec fn dot_of(n: Node) -> Dot {
    Dot { at: n.pos, fixed: n.fixed }
}

} // verus!
