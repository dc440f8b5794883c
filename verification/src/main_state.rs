//! The simulation state and its per-tick update.

use vstd::prelude::*;
use crate::constraint::Constraint;
use crate::cut::is_cut;
use crate::error::SimError;
use crate::fixed::{clamp, quotient, sat_add, saturate, trunc_div};
use crate::frame::{dot_of, line_of, Dot, Frame, Line};
use crate::node::Node;
use crate::params::{
    BREAK_THRESHOLD, NODE_MASS, NUM_POINTS, RELAX_PASSES, TARGET_DIST, WIND_RADIUS, WIND_SCALE,
};
use crate::vec2::Vec2;
use crate::world::{
    all_differentiated, all_drag, all_gravity, all_integrated, blown, chain_link, chain_node,
    endpoints_valid, fault, holds_on, lemma_filter_keeps_valid, lemma_relaxed_through_frame,
    masses_positive, relaxed, relaxed_through, same_frame, spared_by, unbroken, uncut, with_wind,
    World,
};

verus! {

/// A rope: its nodes, its active constraints, and where the pointer was last.
pub struct MainState {
    arena: Vec<Node>,
    constraints: Vec<Constraint>,
    last_mouse_pos: Vec2,
}

impl View for MainState {
    type V = World;

    closed spec fn view(&self) -> World {
        World {
            nodes: self.arena@,
            constraints: self.constraints@,
            last_pointer: self.last_mouse_pos,
        }
    }
}

impl MainState {
    /// The chain of `NUM_POINTS` nodes that hangs from a pinned node placed a
    /// third of the way across and a fifth of the way down the screen.
    pub fn new(screen_width: i64, screen_height: i64, pointer: Vec2) -> (state: MainState)
        ensures
            state@ == World::initial(screen_width, screen_height, pointer),
            state@.well_formed(),
    {
        let mut arena: Vec<Node> = Vec::new();
        let mut constraints: Vec<Constraint> = Vec::new();
        let y_offs = saturate(quotient(screen_height as i128, 5));
        let one_third = saturate(quotient(screen_width as i128, 3));
        let mut i: usize = 0;
        while i < NUM_POINTS
            invariant
                i <= NUM_POINTS,
                y_offs == clamp(trunc_div(screen_height as int, 5)),
                one_third == clamp(trunc_div(screen_width as int, 3)),
                arena@.len() == i,
                constraints@.len() == (if i == 0 { 0 } else { i - 1 }),
                forall|k: int| 0 <= k < i ==> arena@[k] == chain_node(screen_width, screen_height, k),
                forall|k: int| 0 <= k < constraints@.len() ==> constraints@[k] == chain_link(k),
            decreases NUM_POINTS - i,
        {
            let below: i64 = TARGET_DIST * (i as i64);
            let at = Vec2::new(one_third, sat_add(y_offs, below));
            arena.push(
                Node {
                    last_pos: at,
                    pos: at,
                    vel: Vec2::zero(),
                    force: Vec2::zero(),
                    mass: NODE_MASS,
                    fixed: i == 0,
                },
            );
            if i > 0 {
                constraints.push(Constraint { a: i - 1, b: i, break_threshold: BREAK_THRESHOLD });
            }
            i += 1;
        }
        assert(arena@ =~= World::initial(screen_width, screen_height, pointer).nodes);
        assert(constraints@ =~= World::initial(screen_width, screen_height, pointer).constraints);
        MainState { arena, constraints, last_mouse_pos: pointer }
    }

    /// A simulation of the given nodes and constraints, refused for the
    /// first fault found in them.
    pub fn from_parts(arena: Vec<Node>, constraints: Vec<Constraint>, pointer: Vec2) -> (r: Result<
        MainState,
        SimError,
    >)
        ensures
            match r {
                Ok(state) => fault(arena@, constraints@) is None && state@ == (World {
                    nodes: arena@,
                    constraints: constraints@,
                    last_pointer: pointer,
                }) && state@.well_formed(),
                Err(e) => fault(arena@, constraints@) == Some(e),
            },
    {
        let n = arena.len();
        let m = constraints.len();
        let mut i: usize = 0;
        while i < n
            invariant
                i <= n,
                n == arena@.len(),
                forall|k: int| 0 <= k < i ==> (#[trigger] arena@[k]).mass > 0,
            decreases n - i,
        {
            if arena[i].mass <= 0 {
                return Err(SimError::NonPositiveMass);
            }
            i += 1;
        }
        let mut j: usize = 0;
        while j < m
            invariant
                j <= m,
                m == constraints@.len(),
                n == arena@.len(),
                masses_positive(arena@),
                forall|k: int| 0 <= k < j ==> (#[trigger] constraints@[k]).a < n && constraints@[k].b < n,
            decreases m - j,
        {
            if constraints[j].a >= n || constraints[j].b >= n {
                assert(constraints@[j as int].a >= n || constraints@[j as int].b >= n);
                return Err(SimError::EndpointOutOfRange);
            }
            j += 1;
        }
        let mut j: usize = 0;
        while j < m
            invariant
                j <= m,
                m == constraints@.len(),
                n == arena@.len(),
                masses_positive(arena@),
                forall|k: int| 0 <= k < m ==> (#[trigger] constraints@[k]).a < n && constraints@[k].b < n,
                forall|k: int| 0 <= k < j ==> (#[trigger] constraints@[k]).a != constraints@[k].b,
            decreases m - j,
        {
            if constraints[j].a == constraints[j].b {
                assert(constraints@[j as int].a == constraints@[j as int].b);
                return Err(SimError::SelfConstraint);
            }
            j += 1;
        }
        Ok(MainState { arena, constraints, last_mouse_pos: pointer })
    }

    /// The nodes, in their order.
    pub fn nodes(&self) -> (r: &Vec<Node>)
        ensures
            r@ == self@.nodes,
    {
        &self.arena
    }

    /// The constraints that are still active, in their order.
    pub fn constraints(&self) -> (r: &Vec<Constraint>)
        ensures
            r@ == self@.constraints,
    {
        &self.constraints
    }

    /// Where the pointer was at the end of the latest tick.
    pub fn last_mouse_pos(&self) -> (r: Vec2)
        ensures
            r == self@.last_pointer,
    {
        self.last_mouse_pos
    }

    /// The wind phase of a tick: while the cutting button is held nothing
    /// changes; otherwise every node within the wind radius of the pointer
    /// gains a force in proportion to the pointer's motion since the
    /// previous tick.
    pub fn apply_wind(&mut self, pointer: Vec2, cutting: bool)
        requires
            old(self)@.well_formed(),
        ensures
            final(self)@.well_formed(),
            final(self)@ == (World {
                nodes: blown(old(self)@.nodes, pointer, old(self)@.last_pointer, cutting),
                ..old(self)@
            }),
            cutting ==> final(self)@ == old(self)@,
    {
        // The wind is still while the knife is out.
        if cutting {
            return ;
        }
        let n = self.arena.len();
        let mut i: usize = 0;
        while i < n
            invariant
                i <= n,
                self.arena@.len() == n,
                old(self).arena@.len() == n,
                self.constraints == old(self).constraints,
                self.last_mouse_pos == old(self).last_mouse_pos,
                old(self)@.well_formed(),
                forall|j: int|
                    0 <= j < i ==> self.arena@[j] == with_wind(
                        old(self).arena@[j],
                        pointer,
                        self.last_mouse_pos,
                    ),
                forall|j: int| i <= j < n ==> self.arena@[j] == old(self).arena@[j],
            decreases n - i,
        {
            if self.arena[i].pos.minus(pointer).length() < WIND_RADIUS {
                let f = pointer.minus(self.last_mouse_pos);
                let force = self.arena[i].force.plus(f.scaled(WIND_SCALE));
                self.arena[i].force = force;
            }
            i += 1;
        }
        assert(self.arena@ =~= blown(old(self).arena@, pointer, self.last_mouse_pos, cutting));
    }

    /// The relaxation phase of a tick: `RELAX_PASSES` passes over the
    /// active constraints, in their order.
    pub fn solve_constraints(&mut self)
        requires
            old(self)@.well_formed(),
        ensures
            final(self)@.well_formed(),
            final(self)@ == (World {
                nodes: relaxed(old(self)@.nodes, old(self)@.constraints, RELAX_PASSES as nat),
                ..old(self)@
            }),
            same_frame(old(self)@.nodes, final(self)@.nodes),
    {
        let mut pass: usize = 0;
        while pass < RELAX_PASSES
            invariant
                pass <= RELAX_PASSES,
                self.constraints == old(self).constraints,
                self.last_mouse_pos == old(self).last_mouse_pos,
                old(self)@.well_formed(),
                same_frame(old(self).arena@, self.arena@),
                self.arena@ == relaxed(old(self).arena@, self.constraints@, pass as nat),
            decreases RELAX_PASSES - pass,
        {
            relax_pass(&mut self.arena, &self.constraints);
            pass += 1;
        }
    }

    /// One tick of the simulation with the pointer at `pointer`: gravity,
    /// drag and wind are gathered, the nodes integrated, the constraints
    /// relaxed, the broken and the cut constraints removed, the velocities
    /// recovered from the displacements, and the pointer remembered.
    pub fn update(&mut self, pointer: Vec2, cutting: bool) -> (r: Result<(), SimError>)
        requires
            old(self)@.well_formed(),
        ensures
            final(self)@.well_formed(),
            r is Ok,
            final(self)@ == old(self)@.step(pointer, cutting),
            same_frame(old(self)@.nodes, final(self)@.nodes),
    {
        gravity_pass(&mut self.arena);
        drag_pass(&mut self.arena);
        self.apply_wind(pointer, cutting);
        integrate_pass(&mut self.arena);
        self.solve_constraints();
        proof {
            lemma_filter_keeps_valid(self.constraints@, holds_on(self.arena@), self.arena@.len());
        }
        self.constraints = keep_unbroken(&self.constraints, &self.arena);
        if cutting {
            proof {
                lemma_filter_keeps_valid(
                    self.constraints@,
                    spared_by(self.arena@, pointer, self.last_mouse_pos),
                    self.arena@.len(),
                );
            }
            self.constraints = keep_uncut(&self.constraints, &self.arena, pointer, self.last_mouse_pos);
        }
        differentiate_pass(&mut self.arena);
        self.last_mouse_pos = pointer;
        Ok(())
    }

    /// The drawing of the current state.
    pub fn draw(&self) -> (r: Result<Frame, SimError>)
        requires
            self@.well_formed(),
        ensures
            r is Ok,
            r->Ok_0.lines@ == self@.lines(),
            r->Ok_0.dots@ == self@.dots(),
    {
        let mut lines: Vec<Line> = Vec::new();
        let mut dots: Vec<Dot> = Vec::new();
        let m = self.constraints.len();
        let mut j: usize = 0;
        while j < m
            invariant
                j <= m,
                m == self.constraints@.len(),
                self@.well_formed(),
                lines@.len() == j,
                forall|k: int| 0 <= k < j ==> lines@[k] == line_of(self.constraints@[k], self.arena@),
            decreases m - j,
        {
            let c = self.constraints[j];
            lines.push(Line { from: self.arena[c.a].pos, to: self.arena[c.b].pos });
            j += 1;
        }
        let n = self.arena.len();
        let mut i: usize = 0;
        while i < n
            invariant
                i <= n,
                n == self.arena@.len(),
                dots@.len() == i,
                forall|k: int| 0 <= k < i ==> dots@[k] == dot_of(self.arena@[k]),
            decreases n - i,
        {
            dots.push(Dot { at: self.arena[i].pos, fixed: self.arena[i].fixed });
            i += 1;
        }
        assert(lines@ =~= self@.lines());
        assert(dots@ =~= self@.dots());
        Ok(Frame { lines, dots })
    }
}

fn gravity_pass(arena: &mut Vec<Node>)
    ensures
        final(arena)@ == all_gravity(old(arena)@),
{
    let n = arena.len();
    let mut i: usize = 0;
    while i < n
        invariant
            i <= n,
            arena@.len() == n,
            old(arena)@.len() == n,
            forall|j: int| 0 <= j < i ==> arena@[j] == old(arena)@[j].with_gravity(),
            forall|j: int| i <= j < n ==> arena@[j] == old(arena)@[j],
        decreases n - i,
    {
        arena[i].apply_gravity();
        i += 1;
    }
    assert(arena@ =~= all_gravity(old(arena)@));
}

fn drag_pass(arena: &mut Vec<Node>)
    ensures
        final(arena)@ == all_drag(old(arena)@),
{
    let n = arena.len();
    let mut i: usize = 0;
    while i < n
        invariant
            i <= n,
            arena@.len() == n,
            old(arena)@.len() == n,
            forall|j: int| 0 <= j < i ==> arena@[j] == old(arena)@[j].with_drag(),
            forall|j: int| i <= j < n ==> arena@[j] == old(arena)@[j],
        decreases n - i,
    {
        arena[i].apply_drag();
        i += 1;
    }
    assert(arena@ =~= all_drag(old(arena)@));
}

fn integrate_pass(arena: &mut Vec<Node>)
    requires
        masses_positive(old(arena)@),
    ensures
        final(arena)@ == all_integrated(old(arena)@),
{
    let n = arena.len();
    let mut i: usize = 0;
    while i < n
        invariant
            i <= n,
            arena@.len() == n,
            old(arena)@.len() == n,
            masses_positive(old(arena)@),
            forall|j: int| 0 <= j < i ==> arena@[j] == old(arena)@[j].integrated(),
            forall|j: int| i <= j < n ==> arena@[j] == old(arena)@[j],
        decreases n - i,
    {
        arena[i].integrate();
        i += 1;
    }
    assert(arena@ =~= all_integrated(old(arena)@));
}

fn differentiate_pass(arena: &mut Vec<Node>)
    ensures
        final(arena)@ == all_differentiated(old(arena)@),
{
    let n = arena.len();
    let mut i: usize = 0;
    while i < n
        invariant
            i <= n,
            arena@.len() == n,
            old(arena)@.len() == n,
            forall|j: int| 0 <= j < i ==> arena@[j] == old(arena)@[j].differentiated(),
            forall|j: int| i <= j < n ==> arena@[j] == old(arena)@[j],
        decreases n - i,
    {
        arena[i].differentiate();
        i += 1;
    }
    assert(arena@ =~= all_differentiated(old(arena)@));
}

fn relax_pass(arena: &mut Vec<Node>, constraints: &Vec<Constraint>)
    requires
        masses_positive(old(arena)@),
        endpoints_valid(constraints@, old(arena)@.len()),
    ensures
        final(arena)@ == relaxed_through(old(arena)@, constraints@, constraints@.len()),
        same_frame(old(arena)@, final(arena)@),
{
    let m = constraints.len();
    let mut j: usize = 0;
    while j < m
        invariant
            j <= m,
            m == constraints@.len(),
            masses_positive(old(arena)@),
            endpoints_valid(constraints@, old(arena)@.len()),
            arena@ == relaxed_through(old(arena)@, constraints@, j as nat),
        decreases m - j,
    {
        proof {
            lemma_relaxed_through_frame(old(arena)@, constraints@, j as nat);
        }
        let c = constraints[j];
        assert(c.a < arena@.len() && c.b < arena@.len());
        c.solve(arena);
        j += 1;
    }
    proof {
        lemma_relaxed_through_frame(old(arena)@, constraints@, m as nat);
    }
}

fn keep_unbroken(constraints: &Vec<Constraint>, arena: &Vec<Node>) -> (kept: Vec<Constraint>)
    requires
        endpoints_valid(constraints@, arena@.len()),
    ensures
        kept@ == unbroken(constraints@, arena@),
{
    let mut kept: Vec<Constraint> = Vec::new();
    let m = constraints.len();
    let mut j: usize = 0;
    assert(constraints@.take(0) =~= Seq::<Constraint>::empty());
    assert(Seq::<Constraint>::empty().filter(holds_on(arena@)) =~= Seq::<Constraint>::empty()) by {
        reveal(Seq::filter);
    }
    while j < m
        invariant
            j <= m,
            m == constraints@.len(),
            endpoints_valid(constraints@, arena@.len()),
            kept@ == constraints@.take(j as int).filter(holds_on(arena@)),
        decreases m - j,
    {
        let c = constraints[j];
        proof {
            assert(constraints@.take(j + 1) =~= constraints@.take(j as int).push(c));
            constraints@.take(j as int).lemma_filter_push(c, holds_on(arena@));
        }
        if c.is_intact(arena) {
            kept.push(c);
        }
        j += 1;
    }
    assert(constraints@.take(m as int) =~= constraints@);
    kept
}

fn keep_uncut(constraints: &Vec<Constraint>, arena: &Vec<Node>, to: Vec2, from: Vec2) -> (kept: Vec<
    Constraint,
>)
    requires
        endpoints_valid(constraints@, arena@.len()),
    ensures
        kept@ == uncut(constraints@, arena@, to, from),
{
    let mut kept: Vec<Constraint> = Vec::new();
    let m = constraints.len();
    let mut j: usize = 0;
    assert(constraints@.take(0) =~= Seq::<Constraint>::empty());
    assert(Seq::<Constraint>::empty().filter(spared_by(arena@, to, from)) =~= Seq::<
        Constraint,
    >::empty()) by {
        reveal(Seq::filter);
    }
    while j < m
        invariant
            j <= m,
            m == constraints@.len(),
            endpoints_valid(constraints@, arena@.len()),
            kept@ == constraints@.take(j as int).filter(spared_by(arena@, to, from)),
        decreases m - j,
    {
        let c = constraints[j];
        proof {
            assert(constraints@.take(j + 1) =~= constraints@.take(j as int).push(c));
            constraints@.take(j as int).lemma_filter_push(c, spared_by(arena@, to, from));
        }
        if !is_cut(&c, arena, to, from) {
            kept.push(c);
        }
        j += 1;
    }
    assert(constraints@.take(m as int) =~= constraints@);
    kept
}

} // verus!
