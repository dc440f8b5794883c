//! Reasons for which a simulation cannot be set up.

use vstd::prelude::*;

verus! {

/// A configuration that the simulation refuses.
#[derive(Clone, Copy, Debug, PartialEq, Eq, Structural)]
pub enum SimError {
    /// A node's mass is zero or negative.
    NonPositiveMass,
    /// A constraint names a node that does not exist.
    EndpointOutOfRange,
    /// A constraint joins a node to itself.
    SelfConstraint,
}

} // verus!
