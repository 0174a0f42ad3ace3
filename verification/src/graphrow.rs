use vstd::prelude::*;

verus! {

/// Glyphs of the rendered graph, one per connection type.
pub const SYM_COMMIT: &'static str = "o";
pub const SYM_COMMIT_BRANCH: &'static str = "*";
pub const SYM_COMMIT_MERGE: &'static str = "M";
pub const SYM_COMMIT_STASH: &'static str = "*";
pub const SYM_COMMIT_UNCOMMITTED: &'static str = "+";
pub const SYM_VERTICAL: &'static str = "┃";
pub const SYM_VERTICAL_DOTTED: &'static str = "╏";
pub const SYM_HORIZONTAL: &'static str = "━";
pub const SYM_MERGE_BRIDGE_START: &'static str = "┓";
pub const SYM_MERGE_BRIDGE_MID: &'static str = "━";
pub const SYM_MERGE_BRIDGE_END: &'static str = "┏";
pub const SYM_BRANCH_UP: &'static str = "┛";
pub const SYM_BRANCH_UP_RIGHT: &'static str = "┗";
pub const SYM_TEE_LEFT: &'static str = "┫";
pub const SYM_TEE_RIGHT: &'static str = "┣";
pub const SYM_TEE_UP: &'static str = "┻";
pub const SYM_TEE_DOWN: &'static str = "┳";
pub const SYM_SPACE: &'static str = " ";

} // verus!
