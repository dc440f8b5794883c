//! The geometric test behind the cutting gesture.

use vstd::prelude::*;
use crate::constraint::Constraint;
use crate::node::Node;
use crate::vec2::Vec2;

verus! {

/// The turn from `a` through `b` to `c` is counter-clockwise:
/// `(c.y - a.y) * (b.x - a.x) > (b.y - a.y) * (c.x - a.x)`.
pub open spec fn spec_ccw(a: Vec2, b: Vec2, c: Vec2) -> bool {
    let ab = b.spec_minus(a);
    let ac = c.spec_minus(a);
    ac.y * ab.x > ab.y * ac.x
}

/// Segment `a`-`b` crosses segment `c`-`d`: the ends of each lie on opposite
/// sides of the other.
pub open spec fn spec_segments_cross(a: Vec2, b: Vec2, c: Vec2, d: Vec2) -> bool {
    spec_ccw(a, c, d) != spec_ccw(b, c, d) && spec_ccw(a, b, c) != spec_ccw(a, b, d)
}

/// The constraint's segment crosses the gesture swept from `from` to `to`.
pub open spec fn spec_is_cut(c: Constraint, nodes: Seq<Node>, to: Vec2, from: Vec2) -> bool {
    spec_segments_cross(nodes[c.a as int].pos, nodes[c.b as int].pos, to, from)
}

/// Whether the turn from `a` through `b` to `c` is counter-clockwise.
pub fn ccw(a: Vec2, b: Vec2, c: Vec2) -> (r: bool)
    ensures
        r == spec_ccw(a, b, c),
{
    let ab = b.minus(a);
    let ac = c.minus(a);
    assert(-0x4000_0000_0000_0000_0000_0000_0000_0000 <= ac.y * ab.x
        <= 0x4000_0000_0000_0000_0000_0000_0000_0000) by (nonlinear_arith)
        requires
            -0x8000_0000_0000_0000 <= ac.y <= 0x8000_0000_0000_0000,
            -0x8000_0000_0000_0000 <= ab.x <= 0x8000_0000_0000_0000,
    ;
    assert(-0x4000_0000_0000_0000_0000_0000_0000_0000 <= ab.y * ac.x
        <= 0x4000_0000_0000_0000_0000_0000_0000_0000) by (nonlinear_arith)
        requires
            -0x8000_0000_0000_0000 <= ab.y <= 0x8000_0000_0000_0000,
            -0x8000_0000_0000_0000 <= ac.x <= 0x8000_0000_0000_0000,
    ;
    (ac.y as i128) * (ab.x as i128) > (ab.y as i128) * (ac.x as i128)
}

/// Whether segment `a`-`b` crosses segment `c`-`d`.
pub fn segments_cross(a: Vec2, b: Vec2, c: Vec2, d: Vec2) -> (r: bool)
    ensures
        r == spec_segments_cross(a, b, c, d),
{
    (ccw(a, c, d) != ccw(b, c, d)) && (ccw(a, b, c) != ccw(a, b, d))
}

/// Whether the gesture swept from `from` to `to` severs the constraint.
pub fn is_cut(c: &Constraint, arena: &Vec<Node>, to: Vec2, from: Vec2) -> (r: bool)
    requires
        c.a < arena@.len(),
        c.b < arena@.len(),
    ensures
        r == spec_is_cut(*c, arena@, to, from),
{
    segments_cross(arena[c.a].pos, arena[c.b].pos, to, from)
}

} // verus!
