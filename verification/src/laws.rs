//! What holds of every simulation, proved from the model of one tick.

use vstd::prelude::*;
use crate::constraint::{correction, share_a, share_b, Constraint};
use crate::cut::spec_is_cut;
use crate::fixed::{magnitude, trunc_div, SCALE};
use crate::node::Node;
use crate::params::{RELAX_PASSES, TARGET_DIST};
use crate::vec2::Vec2;
use crate::world::{
    all_differentiated, all_drag, all_gravity, all_integrated, blown, endpoints_valid, holds_on,
    lemma_filter_keeps_valid, lemma_relaxed_frame, relaxed, relaxed_through,
    same_frame, spared_by, unbroken, uncut, World,
};

verus! {

/// One tick's input: where the pointer is, and whether the cutting button is held.
pub struct Input {
    pub pointer: Vec2,
    pub cutting: bool,
}

/// The state after the given inputs, one tick each, in their order.
pub open spec fn after(w: World, inputs: Seq<Input>) -> World
    decreases inputs.len(),
{
    if inputs.len() == 0 {
        w
    } else {
        after(w, inputs.drop_last()).step(inputs.last().pointer, inputs.last().cutting)
    }
}

/// The larger of two numbers.
pub open spec fn larger(a: int, b: int) -> int {
    if a >= b {
        a
    } else {
        b
    }
}

/// Filtering a filtered sequence by the same test changes nothing.
pub proof fn lemma_filter_twice<A>(s: Seq<A>, keep: spec_fn(A) -> bool)
    ensures
        s.filter(keep).filter(keep) == s.filter(keep),
    decreases s.len(),
{
    if s.len() == 0 {
        reveal(Seq::filter);
    } else {
        let rest = s.drop_last();
        let last = s.last();
        assert(s =~= rest.push(last));
        lemma_filter_twice(rest, keep);
        rest.lemma_filter_push(last, keep);
        if keep(last) {
            rest.filter(keep).lemma_filter_push(last, keep);
        }
    }
}

/// A filtered sequence holds exactly the members that pass the test.
pub proof fn lemma_filter_members<A>(s: Seq<A>, keep: spec_fn(A) -> bool, x: A)
    ensures
        s.filter(keep).contains(x) <==> s.contains(x) && keep(x),
{
    let kept = s.filter(keep);
    if kept.contains(x) {
        s.lemma_filter_contains_rev(keep, x);
        let j = choose|j: int| 0 <= j < kept.len() && kept[j] == x;
        s.lemma_filter_pred(keep, j);
    }
    if s.contains(x) && keep(x) {
        let i = choose|i: int| 0 <= i < s.len() && s[i] == x;
        s.lemma_filter_contains(keep, i);
    }
}

/// Relaxing constraints leaves every pinned node exactly as it was.
pub proof fn lemma_relaxed_through_pinned(
    nodes: Seq<Node>,
    constraints: Seq<Constraint>,
    k: nat,
    i: int,
)
    requires
        k <= constraints.len(),
        endpoints_valid(constraints, nodes.len()),
        0 <= i < nodes.len(),
        nodes[i].fixed,
    ensures
        relaxed_through(nodes, constraints, k).len() == nodes.len(),
        relaxed_through(nodes, constraints, k)[i] == nodes[i],
    decreases k,
{
    if k > 0 {
        lemma_relaxed_through_pinned(nodes, constraints, (k - 1) as nat, i);
        let c = constraints[k - 1];
        assert(c.a < nodes.len() && c.b < nodes.len());
    }
}

/// Any number of relaxation passes leaves every pinned node exactly as it was.
pub proof fn lemma_relaxed_pinned(nodes: Seq<Node>, constraints: Seq<Constraint>, passes: nat, i: int)
    requires
        endpoints_valid(constraints, nodes.len()),
        0 <= i < nodes.len(),
        nodes[i].fixed,
    ensures
        relaxed(nodes, constraints, passes).len() == nodes.len(),
        relaxed(nodes, constraints, passes)[i] == nodes[i],
    decreases passes,
{
    if passes > 0 {
        lemma_relaxed_pinned(nodes, constraints, (passes - 1) as nat, i);
        let mid = relaxed(nodes, constraints, (passes - 1) as nat);
        lemma_relaxed_through_pinned(mid, constraints, constraints.len(), i);
    }
}

/// A tick keeps the number of nodes, their masses and their pins, and
/// leaves a valid state valid.
pub proof fn law_step_keeps_frame(w: World, pointer: Vec2, cutting: bool)
    requires
        w.well_formed(),
    ensures
        same_frame(w.nodes, w.step(pointer, cutting).nodes),
        w.step(pointer, cutting).well_formed(),
{
    let forced = blown(all_drag(all_gravity(w.nodes)), pointer, w.last_pointer, cutting);
    let moved = all_integrated(forced);
    assert(same_frame(w.nodes, moved));
    lemma_relaxed_frame(moved, w.constraints, RELAX_PASSES as nat);
    let settled = w.settled_nodes(pointer, cutting);
    assert(same_frame(w.nodes, settled));
    let held = unbroken(w.constraints, settled);
    lemma_filter_keeps_valid(w.constraints, holds_on(settled), w.nodes.len());
    lemma_filter_keeps_valid(held, spared_by(settled, pointer, w.last_pointer), w.nodes.len());
    assert(same_frame(w.nodes, all_differentiated(settled)));
}

/// A pinned node keeps its position and its velocity through a tick,
/// whatever the forces, the wind and the cutting around it.
pub proof fn law_pinned_node_stays(w: World, pointer: Vec2, cutting: bool, i: int)
    requires
        w.well_formed(),
        0 <= i < w.nodes.len(),
        w.nodes[i].fixed,
    ensures
        w.step(pointer, cutting).nodes.len() == w.nodes.len(),
        w.step(pointer, cutting).nodes[i].fixed,
        w.step(pointer, cutting).nodes[i].pos == w.nodes[i].pos,
        w.step(pointer, cutting).nodes[i].vel == w.nodes[i].vel,
{
    let forced = blown(all_drag(all_gravity(w.nodes)), pointer, w.last_pointer, cutting);
    let moved = all_integrated(forced);
    assert(moved.len() == w.nodes.len());
    assert(moved[i].fixed && moved[i].pos == w.nodes[i].pos && moved[i].vel == w.nodes[i].vel);
    lemma_relaxed_pinned(moved, w.constraints, RELAX_PASSES as nat, i);
}

/// A pinned node keeps its position and its velocity through any number of ticks.
pub proof fn law_pinned_node_never_moves(w: World, inputs: Seq<Input>, i: int)
    requires
        w.well_formed(),
        0 <= i < w.nodes.len(),
        w.nodes[i].fixed,
    ensures
        after(w, inputs).well_formed(),
        after(w, inputs).nodes.len() == w.nodes.len(),
        after(w, inputs).nodes[i].fixed,
        after(w, inputs).nodes[i].pos == w.nodes[i].pos,
        after(w, inputs).nodes[i].vel == w.nodes[i].vel,
    decreases inputs.len(),
{
    if inputs.len() > 0 {
        law_pinned_node_never_moves(w, inputs.drop_last(), i);
        let before = after(w, inputs.drop_last());
        law_step_keeps_frame(before, inputs.last().pointer, inputs.last().cutting);
        law_pinned_node_stays(before, inputs.last().pointer, inputs.last().cutting, i);
    }
}

/// Two nodes at exactly the rest distance are a fixed point of relaxation:
/// solving their constraint changes no node.
pub proof fn law_rest_distance_is_fixed_point(c: Constraint, nodes: Seq<Node>)
    requires
        c.applies_to(nodes),
        nodes[c.b as int].pos.spec_minus(nodes[c.a as int].pos).spec_length() == TARGET_DIST,
    ensures
        c.solved(nodes) == nodes,
{
    let a = nodes[c.a as int];
    let b = nodes[c.b as int];
    let r = b.pos.spec_minus(a.pos);
    let n = r.spec_normalize_or_zero();
    assert(n.x * 0 == 0 && n.y * 0 == 0);
    assert(n.spec_scaled(0) == Vec2::spec_zero());
    assert(0 * (SCALE as int) == 0);
    assert(correction(a, b) == Vec2::spec_zero());
    assert(share_a(a, b) == Vec2::spec_zero());
    assert(share_b(a, b) == Vec2::spec_zero());
    assert(a.shifted(Vec2::spec_zero()) == a);
    assert(b.shifted(Vec2::spec_zero()) == b);
    assert(c.solved(nodes) =~= nodes);
}

/// Every constraint joins two nodes that are exactly the rest length apart.
pub open spec fn all_at_rest(nodes: Seq<Node>, constraints: Seq<Constraint>) -> bool {
    forall|j: int|
        0 <= j < constraints.len() ==> {
            let c = #[trigger] constraints[j];
            c.applies_to(nodes) && nodes[c.b as int].pos.spec_minus(
                nodes[c.a as int].pos,
            ).spec_length() == TARGET_DIST
        }
}

/// A rope whose every constraint is at its rest length is a fixed point of
/// the whole relaxation phase, however many passes it makes.
pub proof fn law_rope_at_rest_is_fixed_point(
    nodes: Seq<Node>,
    constraints: Seq<Constraint>,
    passes: nat,
)
    requires
        all_at_rest(nodes, constraints),
    ensures
        relaxed(nodes, constraints, passes) == nodes,
    decreases passes,
{
    if passes > 0 {
        law_rope_at_rest_is_fixed_point(nodes, constraints, (passes - 1) as nat);
        lemma_pass_at_rest(nodes, constraints, constraints.len());
    }
}

/// Relaxing the first `k` constraints of a rope at rest changes nothing.
pub proof fn lemma_pass_at_rest(nodes: Seq<Node>, constraints: Seq<Constraint>, k: nat)
    requires
        k <= constraints.len(),
        all_at_rest(nodes, constraints),
    ensures
        relaxed_through(nodes, constraints, k) == nodes,
    decreases k,
{
    if k > 0 {
        lemma_pass_at_rest(nodes, constraints, (k - 1) as nat);
        law_rest_distance_is_fixed_point(constraints[k - 1], nodes);
    }
}

/// The truncated quotient times the divisor misses the dividend by less
/// than the divisor, on the side of zero.
pub proof fn lemma_trunc_div_remainder(n: int, m: int)
    requires
        m > 0,
    ensures
        n >= 0 ==> 0 <= n - trunc_div(n, m) * m < m,
        n < 0 ==> -m < n - trunc_div(n, m) * m <= 0,
{
    if n >= 0 {
        let q = n / m;
        assert(0 <= n - q * m < m) by (nonlinear_arith)
            requires
                q == n / m,
                m > 0,
                n >= 0,
        ;
    } else {
        let q = (-n) / m;
        assert(0 <= (-n) - q * m < m) by (nonlinear_arith)
            requires
                q == (-n) / m,
                m > 0,
                -n >= 0,
        ;
        assert((-q) * m == -(q * m)) by (nonlinear_arith);
    }
}

/// A shared amount `o` split between masses `ma` and `mb`: the two shares,
/// each weighted by its mass, cancel up to the rounding of the divisions.
pub proof fn lemma_split_balances(o: int, ma: int, mb: int)
    requires
        ma > 0,
        mb > 0,
    ensures
        magnitude(trunc_div(o * SCALE, ma) * ma + trunc_div((-o) * SCALE, mb) * mb) < larger(ma, mb),
{
    let n = o * SCALE;
    assert((-o) * SCALE == -n) by (nonlinear_arith)
        requires
            n == o * SCALE,
    ;
    lemma_trunc_div_remainder(n, ma);
    lemma_trunc_div_remainder(-n, mb);
}

/// Mass-weighted correction: where no intermediate value saturates, the
/// corrections that one relaxation gives two nodes point in opposite
/// directions, and their sizes are to each other as the other node's mass
/// is to the node's own, up to the rounding of the two divisions: in each
/// component, `share_a * mass_a` and `-share_b * mass_b` differ by less
/// than the larger mass.
pub proof fn law_mass_weighted_shares(a: Node, b: Node)
    requires
        a.mass > 0,
        b.mass > 0,
        correction(a, b).x > i64::MIN,
        correction(a, b).y > i64::MIN,
        i64::MIN < share_a(a, b).x < i64::MAX,
        i64::MIN < share_a(a, b).y < i64::MAX,
        i64::MIN < share_b(a, b).x < i64::MAX,
        i64::MIN < share_b(a, b).y < i64::MAX,
    ensures
        magnitude(share_a(a, b).x * a.mass + share_b(a, b).x * b.mass) < larger(
            a.mass as int,
            b.mass as int,
        ),
        magnitude(share_a(a, b).y * a.mass + share_b(a, b).y * b.mass) < larger(
            a.mass as int,
            b.mass as int,
        ),
{
    let o = correction(a, b);
    lemma_split_balances(o.x as int, a.mass as int, b.mass as int);
    lemma_split_balances(o.y as int, a.mass as int, b.mass as int);
}

/// A constraint is active after a tick exactly if it was active before,
/// its span on the relaxed nodes is below its threshold, and the cutting
/// gesture, where the button is held, does not cross it.
pub proof fn law_survival(w: World, pointer: Vec2, cutting: bool, c: Constraint)
    ensures
        w.step(pointer, cutting).constraints.contains(c) <==> {
            &&& w.constraints.contains(c)
            &&& c.holds(w.settled_nodes(pointer, cutting))
            &&& !(cutting && spec_is_cut(c, w.settled_nodes(pointer, cutting), pointer, w.last_pointer))
        },
{
    let settled = w.settled_nodes(pointer, cutting);
    let held = unbroken(w.constraints, settled);
    lemma_filter_members(w.constraints, holds_on(settled), c);
    lemma_filter_members(held, spared_by(settled, pointer, w.last_pointer), c);
}

/// Breaking: a constraint whose relaxed span has reached its threshold is
/// gone after that tick, and without the cutting button no other
/// constraint is.
pub proof fn law_breaking(w: World, pointer: Vec2, cutting: bool, c: Constraint)
    requires
        w.constraints.contains(c),
    ensures
        c.span(w.settled_nodes(pointer, cutting)) >= c.break_threshold ==> !w.step(
            pointer,
            cutting,
        ).constraints.contains(c),
        !cutting && c.span(w.settled_nodes(pointer, cutting)) < c.break_threshold ==> w.step(
            pointer,
            cutting,
        ).constraints.contains(c),
{
    law_survival(w, pointer, cutting, c);
}

/// Cutting: while the button is held, a constraint that the pointer's path
/// crosses is gone after that tick; one that the path does not cross is
/// never removed by the gesture.
pub proof fn law_cutting(w: World, pointer: Vec2, c: Constraint)
    requires
        w.constraints.contains(c),
    ensures
        spec_is_cut(c, w.settled_nodes(pointer, true), pointer, w.last_pointer) ==> !w.step(
            pointer,
            true,
        ).constraints.contains(c),
        !spec_is_cut(c, w.settled_nodes(pointer, true), pointer, w.last_pointer) && c.holds(
            w.settled_nodes(pointer, true),
        ) ==> w.step(pointer, true).constraints.contains(c),
{
    law_survival(w, pointer, true, c);
}

/// While the cutting button is held the wind does not blow: the nodes
/// after the tick are the same wherever the pointer is.
pub proof fn law_cutting_stills_wind(w: World, pointer: Vec2, elsewhere: Vec2)
    ensures
        blown(w.nodes, pointer, w.last_pointer, true) == w.nodes,
        w.step(pointer, true).nodes == w.step(elsewhere, true).nodes,
{
}

/// Removal is idempotent: breaking or cutting a second time on the same
/// nodes and the same gesture removes nothing more.
pub proof fn law_removal_idempotent(constraints: Seq<Constraint>, nodes: Seq<Node>, to: Vec2, from: Vec2)
    ensures
        unbroken(unbroken(constraints, nodes), nodes) == unbroken(constraints, nodes),
        uncut(uncut(constraints, nodes, to, from), nodes, to, from) == uncut(
            constraints,
            nodes,
            to,
            from,
        ),
{
    lemma_filter_twice(constraints, holds_on(nodes));
    lemma_filter_twice(constraints, spared_by(nodes, to, from));
}

} // verus!
