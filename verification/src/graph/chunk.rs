use super::{AliasId, CommitAlias, UnwalkedAlias};
use vstd::prelude::*;

verus! {

/// What a lane occupant draws at its commit.
#[derive(Clone, Copy, Debug, PartialEq, Eq, Structural)]
pub enum Markers {
    Commit,
}

/// The occupant of one lane in the lane state: the commit placed there
/// (if any) and the parents the lane still flows down to.
#[derive(Clone, Copy, Debug, PartialEq, Eq, Structural)]
pub struct Chunk {
    /// The commit that sits in this lane, `None` for a lane opened for a
    /// merge's second parent.
    pub alias: Option<AliasId>,
    /// The parent this lane flows down to.
    pub parent_a: Option<AliasId>,
    /// The second parent of a merge, until it gets its own lane.
    pub parent_b: Option<AliasId>,
    pub marker: Markers,
}

/// A lane's occupant at one point in the walk.
#[derive(Clone, Copy, Debug, PartialEq, Eq, Structural)]
pub enum LaneSlot {
    /// A walked commit flowing down to its first parent.
    Flowing { alias: CommitAlias, parent: UnwalkedAlias },
    /// A flowing lane that still owes a bridge to a second parent
    FlowingMerge { alias: CommitAlias, parent: UnwalkedAlias, second: UnwalkedAlias },
    /// A root commit: draws its node, nothing continues below.
    Settled { alias: CommitAlias },
    /// Reserved for a merge's second parent that hasn't been reached
    /// by the walk yet. Once that parent is processed, the
    /// reservation is replaced by the parent's own slot.
    Reserved { parent: UnwalkedAlias },
}

impl LaneSlot {
    /// The commit this lane currently belongs to, `None` for a
    /// reserved placeholder.
    pub fn alias(&self) -> (r: Option<CommitAlias>)
        ensures
            r == match *self {
                LaneSlot::Flowing { alias, .. } => Some(alias),
                LaneSlot::FlowingMerge { alias, .. } => Some(alias),
                LaneSlot::Settled { alias } => Some(alias),
                LaneSlot::Reserved { .. } => None::<CommitAlias>,
            },
    {
        match self {
            LaneSlot::Flowing { alias, .. } => Some(*alias),
            LaneSlot::FlowingMerge { alias, .. } => Some(*alias),
            LaneSlot::Settled { alias } => Some(*alias),
            LaneSlot::Reserved { .. } => None,
        }
    }

    /// The parent whose placement this lane waits on; the lane stays
    /// open (drawing a vertical line) until that commit is walked.
    pub fn awaits(&self) -> (r: Option<CommitAlias>)
        ensures
            r == match *self {
                LaneSlot::Flowing { parent, .. } => Some(parent.0),
                LaneSlot::FlowingMerge { parent, .. } => Some(parent.0),
                LaneSlot::Reserved { parent } => Some(parent.0),
                LaneSlot::Settled { .. } => None::<CommitAlias>,
            },
    {
        match self {
            LaneSlot::Flowing { parent, .. } => Some(parent.get()),
            LaneSlot::FlowingMerge { parent, .. } => Some(parent.get()),
            LaneSlot::Reserved { parent } => Some(parent.get()),
            LaneSlot::Settled { .. } => None,
        }
    }

    /// The pending second parent of a merge that hasn't been given
    /// its own lane.
    pub fn second(&self) -> (r: Option<CommitAlias>)
        ensures
            r == match *self {
                LaneSlot::FlowingMerge { second, .. } => Some(second.0),
                _ => None::<CommitAlias>,
            },
    {
        match self {
            LaneSlot::FlowingMerge { second, .. } => Some(second.get()),
            LaneSlot::Flowing { .. } => None,
            LaneSlot::Settled { .. } => None,
            LaneSlot::Reserved { .. } => None,
        }
    }
}

} // verus!
