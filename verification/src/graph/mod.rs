//! Lane layout of the commit graph.

pub mod buffer;
pub mod chunk;
pub mod draw;
pub mod laws;
pub mod oids;
pub mod walker;

pub use walker::GraphWalker;

use vstd::prelude::*;

verus! {

/// The maximum number of colors to use for graph lanes
pub const MAX_LANE_COLORS: usize = 16;

/// Index of a lane (or of a lane color) as carried in a rendered row.
///
/// Lane numbers above `u8::MAX` saturate: repositories with more than 256
/// lanes exist, but no terminal shows that many columns usefully.
#[derive(Clone, Copy, Debug, Default, PartialEq, Eq, Structural)]
pub struct LaneIndex(pub u8);

/// Numeric alias assigned to each commit in the graph.
///
/// The alias is a dense integer index created by [`GraphOids`](oids::GraphOids)
/// that avoids storing full [`CommitId`](crate::sync::CommitId)s inside the lane state.
#[derive(Clone, Copy, Debug, Default, PartialEq, Eq, Hash, Structural)]
pub struct AliasId(pub usize);

/// The alias of a commit, as stored in the lane state.
pub type CommitAlias = AliasId;

/// The alias of a parent commit that the walk has not reached yet.
#[derive(Clone, Copy, Debug, PartialEq, Eq, Hash, Structural)]
pub struct UnwalkedAlias(pub CommitAlias);

impl UnwalkedAlias {
    /// Mark `alias` as a parent still waiting to be walked.
    pub fn new(alias: CommitAlias) -> (r: Self)
        ensures
            r.0 == alias,
    {
        UnwalkedAlias(alias)
    }

    /// The alias of the awaited parent.
    pub fn get(&self) -> (r: CommitAlias)
        ensures
            r == self.0,
    {
        self.0
    }
}

impl core::ops::Deref for AliasId {
    type Target = usize;

    fn deref(&self) -> (r: &usize)
        ensures
            *r == self.0,
    {
        &self.0
    }
}

impl From<usize> for AliasId {
    fn from(v: usize) -> (r: Self) {
        AliasId(v)
    }
}

impl vstd::std_specs::convert::FromSpecImpl<usize> for AliasId {
    open spec fn obeys_from_spec() -> bool {
        true
    }

    open spec fn from_spec(v: usize) -> Self {
        AliasId(v)
    }
}

/// The lane index that a lane number saturates to.
pub open spec fn spec_lane_index(lane: int) -> LaneIndex {
    if lane <= u8::MAX {
        LaneIndex(lane as u8)
    } else {
        LaneIndex(u8::MAX)
    }
}

impl From<usize> for LaneIndex {
    fn from(lane: usize) -> (r: Self) {
        if lane <= 255 {
            LaneIndex(lane as u8)
        } else {
            LaneIndex(u8::MAX)
        }
    }
}

impl vstd::std_specs::convert::FromSpecImpl<usize> for LaneIndex {
    open spec fn obeys_from_spec() -> bool {
        true
    }

    open spec fn from_spec(lane: usize) -> Self {
        spec_lane_index(lane as int)
    }
}

impl From<LaneIndex> for usize {
    fn from(lane: LaneIndex) -> (r: Self) {
        lane.0 as usize
    }
}

impl vstd::std_specs::convert::FromSpecImpl<LaneIndex> for usize {
    open spec fn obeys_from_spec() -> bool {
        true
    }

    open spec fn from_spec(lane: LaneIndex) -> Self {
        lane.0 as usize
    }
}

/// Converting a lane number to a [`LaneIndex`] and back gives the number
/// itself up to `u8::MAX`, and `u8::MAX` above it.
pub proof fn lemma_lane_index_saturates(lane: usize)
    ensures
        (spec_lane_index(lane as int).0 as usize) == if lane <= 255 { lane } else { 255 },
{
}

/// The type of connection between nodes in the graph.
#[derive(Clone, Copy, Debug, PartialEq, Eq, Structural)]
pub enum ConnectionType {
    Vertical,
    VerticalDotted,
    CommitNormal,
    CommitBranch,
    CommitMerge,
    CommitStash,
    CommitUncommitted,
    /// a bridge turning down into a lane that starts here
    MergeBridgeStart,
    /// a bridge passing over an empty lane slot
    MergeBridgeMid,
    /// a bridge turning down, lane starting to its right
    MergeBridgeEnd,
    /// a lane from above turning left into a commit
    BranchUp,
    ///  a lane from above turning right into a commit
    BranchUpRight,
    /// a continuing lane absorbing a bridge from its left
    TeeLeft,
    /// a continuing lane absorbing a bridge from its right
    TeeRight,
    /// a lane ending from above while a bridge passes through
    TeeUp,
    /// a lane starting downward while a bridge passes through
    TeeDown,
}

/// One rendered row of the graph.
#[derive(Clone, Debug, Default)]
pub struct GraphRow {
    /// Number of active lanes at this commit row
    pub lane_count: LaneIndex,
    /// Which lane index this commit sits on
    pub commit_lane: LaneIndex,
    /// Whether this is a merge commit (two parents)
    pub is_merge: bool,
    /// Whether this commit is a branch tip
    pub is_branch_tip: bool,
    /// Whether this commit has stash marker
    pub is_stash: bool,
    /// Connections emitted per lane:
    /// None = empty space
    /// Some((ConnectionType, `color_index`)) = draw this connector in this color
    pub lanes: Vec<Option<(ConnectionType, LaneIndex)>>,
    /// Horizontal merge bridge: if this commit merges rightward,
    /// (`from_lane`, `to_lane`) — the span to draw across
    pub merge_bridge: Option<(LaneIndex, LaneIndex)>,
    /// Horizontal branch bridges: if this commit spawns branches,
    /// spans to draw across
    pub branches: Vec<(LaneIndex, LaneIndex)>,
}

} // verus!
