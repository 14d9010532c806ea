//! What a node offers to the servers it runs.

use vstd::prelude::*;

verus! {

/// A capability of a node.
#[derive(Clone, Copy, Debug, PartialEq, Eq, Structural)]
pub enum Capabilities {
    /// The node grants servers at most this much memory, in MiB.
    LimitedMemory(u32),
    /// The node grants servers any amount of memory.
    UnlimitedMemory,
}

} // verus!
