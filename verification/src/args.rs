//! The command line of the controller.

use vstd::prelude::*;

verus! {

/// The options the controller is started with.
#[derive(Clone, Copy, Debug, PartialEq, Eq, Structural, Default)]
pub struct Args {
    /// Log debug messages too.
    pub debug: bool,
}

} // verus!
