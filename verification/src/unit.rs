//! The names under which deployments refer to the servers they run
//! ("units"): the place of a unit in its deployment, the flags a deployment
//! sets on it, and its specification.

use vstd::prelude::*;

verus! {

/// Flags that a deployment sets on one of its units.
#[derive(Clone, Copy, Debug, PartialEq, Eq, Structural)]
pub struct Flags {
    /// The unit is to be stopped at this time, if set.
    pub stop: Option<u64>,
}

/// The place of a unit in its deployment: its number there and the
/// deployment's name.
#[derive(Debug)]
pub struct DeploymentRef {
    pub unit_id: usize,
    pub deployment: String,
}

/// How a unit is deployed: the same description a server is started with.
pub type Spec = crate::server::Deployment;

} // verus!
