use vstd::prelude::*;

verus! {

/// What can go wrong while building or navigating a profile.
#[derive(Debug, Clone, Copy, PartialEq, Eq, Structural)]
pub enum ProfileError {
    /// The top-level spans cover a window of zero length.
    DegenerateWindow,
    /// There are no spans at all.
    EmptyForest,
    /// The node to zoom into has width zero.
    ZeroWidthNode,
    /// The node id does not belong to the arena.
    UnknownNodeId,
}

} // verus!
