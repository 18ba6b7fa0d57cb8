//! A zoomable profile view built from a forest of timed spans.
//!
//! Spans are normalized against one global time window, materialized in an
//! arena of nodes with widths and colours, and projected into detached zoom
//! views rooted at any selected node.

pub mod error;
pub mod profile;
pub mod scope;
pub mod span;
pub mod tree_profile;
pub mod tree_view;

pub use error::ProfileError;
pub use profile::{Profile, build};
pub use scope::{NormalizationParams, NormalizedForest, RegionTree, from_flame};
pub use span::{RawSpan, is_well_formed};
pub use tree_profile::{Color, NodeId, ProfileArena, Scope, TreeProfile};
pub use tree_view::{SubProfile, TreeView};

use vstd::prelude::*;

verus! {

/// The display budget, in width units, of a full-width profile.
pub const MAX_UNITS: u16 = 1000;

} // verus!
