//! The constants of the simulation, as raw fixed-point counts.

use vstd::prelude::*;

verus! {

/// Length of one tick: 0.15 time units.
pub const DT: i64 = 150_000;

/// Gravitational acceleration: 18 units, pointing down the `y` axis.
pub const G: i64 = 18_000_000;

/// Rest length of every constraint: 50 units.
pub const TARGET_DIST: i64 = 50_000_000;

/// Stiffness of the relaxation: 1.
pub const RIGIDITY: i64 = 1_000_000;

/// Linear drag coefficient: 0.5.
pub const DRAG: i64 = 500_000;

/// Factor applied to a correction that pushes two nodes apart: 0.5.
pub const COMPRESSION_SOFTENING: i64 = 500_000;

/// Distance from the pointer within which a node feels the wind: 30 units.
pub const WIND_RADIUS: i64 = 30_000_000;

/// Wind force per unit of pointer displacement: 50.
pub const WIND_SCALE: i64 = 50_000_000;

/// A constraint breaks at this span: five rest lengths.
pub const BREAK_THRESHOLD: i64 = 250_000_000;

/// Mass of each node of the initial chain: 1.
pub const NODE_MASS: i64 = 1_000_000;

/// Number of nodes of the initial chain.
pub const NUM_POINTS: usize = 10;

/// Full relaxation passes per tick.
pub const RELAX_PASSES: usize = 5;

} // verus!
