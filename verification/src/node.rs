//! Point masses: force accumulation, integration and velocity recovery.

use vstd::prelude::*;
use crate::error::SimError;
use crate::fixed::{fx_mul, times};
use crate::params::{DRAG, DT, G, NODE_MASS};
use crate::vec2::Vec2;

verus! {

/// A point mass of the rope.
#[derive(Clone, Copy, Debug, PartialEq, Eq, Structural)]
pub struct Node {
    /// Position at the start of the latest integration.
    pub last_pos: Vec2,
    /// Current position.
    pub pos: Vec2,
    /// Current velocity.
    pub vel: Vec2,
    /// Force accumulated during the current tick.
    pub force: Vec2,
    /// Mass, positive in every node that is simulated.
    pub mass: i64,
    /// A pinned node: no operation moves it.
    pub fixed: bool,
}

impl Node {
    /// A free node of unit mass at rest at the origin.
    pub open spec fn spec_default() -> Node {
        Node {
            last_pos: Vec2::spec_zero(),
            pos: Vec2::spec_zero(),
            vel: Vec2::spec_zero(),
            force: Vec2::spec_zero(),
            mass: NODE_MASS,
            fixed: false,
        }
    }

    /// A free node at rest at `pos`.
    pub open spec fn at_rest(pos: Vec2, mass: i64) -> Node {
        Node { pos, last_pos: pos, mass, ..Node::spec_default() }
    }

    /// The weight `(0, G * mass)` joins the force of a free node.
    pub open spec fn with_gravity(self) -> Node {
        if self.fixed {
            self
        } else {
            let weight = Vec2 { x: 0, y: times(G as int, self.mass as int) as i64 };
            Node { force: self.force.spec_plus(weight), ..self }
        }
    }

    /// The damping force `-vel * DRAG` joins the force of a free node.
    pub open spec fn with_drag(self) -> Node {
        if self.fixed {
            self
        } else {
            Node { force: self.force.spec_plus(self.vel.spec_negated().spec_scaled(DRAG)), ..self }
        }
    }

    /// One step of a free node under its accumulated force: the velocity
    /// gains `force / mass * DT`, then the position gains the new velocity
    /// times `DT`, and the old position is remembered.
    pub open spec fn integrated(self) -> Node {
        if self.fixed {
            self
        } else {
            let acc = self.force.spec_divided(self.mass);
            let vel = self.vel.spec_plus(acc.spec_scaled(DT));
            Node { last_pos: self.pos, vel, pos: self.pos.spec_plus(vel.spec_scaled(DT)), ..self }
        }
    }

    /// The velocity of a free node becomes its displacement since the latest
    /// integration divided by `DT`, and its force is cleared.
    pub open spec fn differentiated(self) -> Node {
        if self.fixed {
            self
        } else {
            Node {
                vel: self.pos.spec_minus(self.last_pos).spec_divided(DT),
                force: Vec2::spec_zero(),
                ..self
            }
        }
    }

    /// A free node moved by `offs`.
    pub open spec fn shifted(self, offs: Vec2) -> Node {
        if self.fixed {
            self
        } else {
            Node { pos: self.pos.spec_plus(offs), ..self }
        }
    }

    /// A free node at rest at `pos`; a mass that is not positive is refused.
    pub fn with_pos_and_mass(pos: Vec2, mass: i64) -> (r: Result<Node, SimError>)
        ensures
            mass > 0 ==> r == Ok::<Node, SimError>(Node::at_rest(pos, mass)),
            mass <= 0 ==> r == Err::<Node, SimError>(SimError::NonPositiveMass),
    {
        if mass <= 0 {
            return Err(SimError::NonPositiveMass);
        }
        Ok(Node {
            last_pos: pos,
            pos,
            vel: Vec2::zero(),
            force: Vec2::zero(),
            mass,
            fixed: false,
        })
    }

    /// Advances a free node by one tick under its accumulated force.
    pub fn integrate(&mut self)
        requires
            old(self).mass > 0,
        ensures
            *final(self) == old(self).integrated(),
    {
        if self.fixed {
            return ;
        }
        let acc = self.force.divided(self.mass);
        self.last_pos = self.pos;
        self.vel = self.vel.plus(acc.scaled(DT));
        self.pos = self.pos.plus(self.vel.scaled(DT));
    }

    /// Recovers the velocity of a free node from its displacement and clears its force.
    pub fn differentiate(&mut self)
        ensures
            *final(self) == old(self).differentiated(),
    {
        if self.fixed {
            return ;
        }
        self.vel = self.pos.minus(self.last_pos).divided(DT);
        self.force = Vec2::zero();
    }

    /// Adds the node's weight to the force of a free node.
    pub fn apply_gravity(&mut self)
        ensures
            *final(self) == old(self).with_gravity(),
    {
        if self.fixed {
            return ;
        }
        self.force = self.force.plus(Vec2::new(0, fx_mul(G, self.mass)));
    }

    /// Adds linear damping to the force of a free node.
    pub fn apply_drag(&mut self)
        ensures
            *final(self) == old(self).with_drag(),
    {
        if self.fixed {
            return ;
        }
        self.force = self.force.plus(self.vel.negated().scaled(DRAG));
    }

    /// Moves a free node by `offs`; the only way in which relaxation moves a node.
    pub fn add_offs(&mut self, offs: Vec2)
        ensures
            *final(self) == old(self).shifted(offs),
    {
        if !self.fixed {
            self.pos = self.pos.plus(offs);
        }
    }
}

impl Default for Node {
    /// A free node of unit mass at rest at the origin.
    fn default() -> (r: Node)
        ensures
            r == Node::spec_default(),
    {
        Node {
            last_pos: Vec2::zero(),
            pos: Vec2::zero(),
            vel: Vec2::zero(),
            force: Vec2::zero(),
            mass: NODE_MASS,
            fixed: false,
        }
    }
}

} // verus!
