//! Commit-graph lane layout for a git log view: the lane state of every
//! walked commit, kept as a delta-compressed history, and the rendering of
//! each row into connector glyphs.

pub mod graph;
pub mod graphrow;
pub mod revlog;
pub mod sync;

pub use graph::GraphWalker;
pub use sync::CommitId;
