use super::{spec_lane_index, ConnectionType, LaneIndex, MAX_LANE_COLORS};
use vstd::prelude::*;

verus! {

/// A rendered cell: the connector drawn there and its color.
pub type Cell = Option<(ConnectionType, LaneIndex)>;

/// The color a lane draws in: lanes cycle through the palette.
pub open spec fn spec_lane_color(lane: int) -> LaneIndex {
    spec_lane_index(lane % (MAX_LANE_COLORS as int))
}

/// Get the lane's color index, which cycles through the set palette.
pub fn lane_color(lane: usize) -> (r: LaneIndex)
    ensures
        r == spec_lane_color(lane as int),
        (r.0 as usize) < MAX_LANE_COLORS,
{
    LaneIndex::from(lane % MAX_LANE_COLORS)
}

/// The neighboring cells a lane joins to. Overlapping lines
/// are merged through this representation rather than
/// a naive overwrite for readability.
#[derive(Clone, Copy, Debug, Default, PartialEq, Eq, Structural)]
pub struct Directions {
    pub up: bool,
    pub down: bool,
    pub left: bool,
    pub right: bool,
}

/// The directions `UP | DOWN`.
pub open spec fn spec_vertical_line() -> Directions {
    Directions { up: true, down: true, left: false, right: false }
}

/// The directions `LEFT | RIGHT`.
pub open spec fn spec_horizontal_line() -> Directions {
    Directions { up: false, down: false, left: true, right: true }
}

impl Directions {
    /// The union of both sets of directions.
    pub open spec fn spec_merge(self, other: Self) -> Self {
        Directions {
            up: self.up || other.up,
            down: self.down || other.down,
            left: self.left || other.left,
            right: self.right || other.right,
        }
    }

    /// The union of both sets of directions.
    pub fn merge(self, other: Self) -> (r: Self)
        ensures
            r == self.spec_merge(other),
    {
        Directions {
            up: self.up || other.up,
            down: self.down || other.down,
            left: self.left || other.left,
            right: self.right || other.right,
        }
    }

    /// Joins a cell above or below.
    pub fn vertical(self) -> (r: bool)
        ensures
            r == (self.up || self.down),
    {
        self.up || self.down
    }

    /// The directions `LEFT | RIGHT`.
    pub fn horizontal_line() -> (r: Self)
        ensures
            r == spec_horizontal_line(),
    {
        Directions { up: false, down: false, left: true, right: true }
    }
}

/// The sub network of an existing connection glyph;
/// `None` for commit markers, which are never drawn over.
pub open spec fn spec_conn_dirs(conn: ConnectionType) -> Option<Directions> {
    match conn {
        ConnectionType::Vertical | ConnectionType::VerticalDotted => Some(spec_vertical_line()),
        ConnectionType::MergeBridgeMid => Some(spec_horizontal_line()),
        ConnectionType::MergeBridgeStart => Some(
            Directions { up: false, down: true, left: true, right: false },
        ),
        ConnectionType::MergeBridgeEnd => Some(
            Directions { up: false, down: true, left: false, right: true },
        ),
        ConnectionType::BranchUp => Some(Directions { up: true, down: false, left: true, right: false }),
        ConnectionType::BranchUpRight => Some(
            Directions { up: true, down: false, left: false, right: true },
        ),
        ConnectionType::TeeLeft => Some(Directions { up: true, down: true, left: true, right: false }),
        ConnectionType::TeeRight => Some(Directions { up: true, down: true, left: false, right: true }),
        ConnectionType::TeeUp => Some(Directions { up: true, down: false, left: true, right: true }),
        ConnectionType::TeeDown => Some(Directions { up: false, down: true, left: true, right: true }),
        ConnectionType::CommitNormal
        | ConnectionType::CommitBranch
        | ConnectionType::CommitMerge
        | ConnectionType::CommitStash
        | ConnectionType::CommitUncommitted => None,
    }
}

/// The sub network of an existing connection glyph;
/// `None` for commit markers, which are never drawn over.
pub fn conn_dirs(conn: ConnectionType) -> (r: Option<Directions>)
    ensures
        r == spec_conn_dirs(conn),
{
    match conn {
        ConnectionType::Vertical | ConnectionType::VerticalDotted => Some(
            Directions { up: true, down: true, left: false, right: false },
        ),
        ConnectionType::MergeBridgeMid => Some(Directions::horizontal_line()),
        ConnectionType::MergeBridgeStart => Some(
            Directions { up: false, down: true, left: true, right: false },
        ),
        ConnectionType::MergeBridgeEnd => Some(
            Directions { up: false, down: true, left: false, right: true },
        ),
        ConnectionType::BranchUp => Some(Directions { up: true, down: false, left: true, right: false }),
        ConnectionType::BranchUpRight => Some(
            Directions { up: true, down: false, left: false, right: true },
        ),
        ConnectionType::TeeLeft => Some(Directions { up: true, down: true, left: true, right: false }),
        ConnectionType::TeeRight => Some(Directions { up: true, down: true, left: false, right: true }),
        ConnectionType::TeeUp => Some(Directions { up: true, down: false, left: true, right: true }),
        ConnectionType::TeeDown => Some(Directions { up: false, down: true, left: true, right: true }),
        ConnectionType::CommitNormal
        | ConnectionType::CommitBranch
        | ConnectionType::CommitMerge
        | ConnectionType::CommitStash
        | ConnectionType::CommitUncommitted => None,
    }
}

/// The glyph for a cell's connectivity.
/// Vertical lines take precedence in crossed cells.
/// Yet the horizontal bridge continues in
/// the spacer columns either side, so we retain wholeness.
pub open spec fn spec_dirs_conn(dirs: Directions, dotted: bool) -> ConnectionType {
    match (dirs.up, dirs.down, dirs.left, dirs.right) {
        (true, true, true, false) => ConnectionType::TeeLeft,
        (true, true, false, true) => ConnectionType::TeeRight,
        (true, false, true, true) => ConnectionType::TeeUp,
        (false, true, true, true) => ConnectionType::TeeDown,
        (true, false, true, false) => ConnectionType::BranchUp,
        (true, false, false, true) => ConnectionType::BranchUpRight,
        (false, true, true, false) => ConnectionType::MergeBridgeStart,
        (false, true, false, true) => ConnectionType::MergeBridgeEnd,
        (false, false, _, _) => ConnectionType::MergeBridgeMid,
        _ => if dotted {
            ConnectionType::VerticalDotted
        } else {
            ConnectionType::Vertical
        },
    }
}

/// Determine the glyph for a cell's connectivity.
pub fn dirs_conn(dirs: Directions, dotted: bool) -> (r: ConnectionType)
    ensures
        r == spec_dirs_conn(dirs, dotted),
{
    match (dirs.up, dirs.down, dirs.left, dirs.right) {
        (true, true, true, false) => ConnectionType::TeeLeft,
        (true, true, false, true) => ConnectionType::TeeRight,
        (true, false, true, true) => ConnectionType::TeeUp,
        (false, true, true, true) => ConnectionType::TeeDown,
        (true, false, true, false) => ConnectionType::BranchUp,
        (true, false, false, true) => ConnectionType::BranchUpRight,
        (false, true, true, false) => ConnectionType::MergeBridgeStart,
        (false, true, false, true) => ConnectionType::MergeBridgeEnd,
        (false, false, _, _) => ConnectionType::MergeBridgeMid,
        (true, true, _, _) | (_, _, false, false) => {
            if dotted {
                ConnectionType::VerticalDotted
            } else {
                ConnectionType::Vertical
            }
        },
    }
}

/// A cell after drawing `add` into it in `color`: an empty cell takes the
/// new line; a connector merges with it, keeping its own color unless only
/// the new line is vertical; a commit marker stays as it is.
pub open spec fn spec_overlay(cell: Cell, add: Directions, color: LaneIndex) -> Cell {
    match cell {
        Some((conn, existing_color)) => match spec_conn_dirs(conn) {
            Some(existing) => Some(
                (
                    spec_dirs_conn(
                        existing.spec_merge(add),
                        conn == ConnectionType::VerticalDotted,
                    ),
                    if existing.up || existing.down || !(add.up || add.down) {
                        existing_color
                    } else {
                        color
                    },
                ),
            ),
            None => cell,
        },
        None => Some((spec_dirs_conn(add, false), color)),
    }
}

/// Draw `add` into a cell, merging with whatever is already there.
/// The line with a vertical component is the chosen way with color
/// ensuring lanes stay visually continuous.
pub fn overlay_cell(cell: &mut Cell, add: Directions, color: LaneIndex)
    ensures
        *final(cell) == spec_overlay(*old(cell), add, color),
{
    match *cell {
        Some((conn, existing_color)) => {
            if let Some(existing) = conn_dirs(conn) {
                let is_dotted = matches!(conn, ConnectionType::VerticalDotted);
                let resolved_color = if existing.vertical() || !add.vertical() {
                    existing_color
                } else {
                    color
                };
                *cell = Some((dirs_conn(existing.merge(add), is_dotted), resolved_color));
            }
        },
        None => {
            *cell = Some((dirs_conn(add, false), color));
        },
    }
}

/// Reading a connector's directions and drawing them again gives back the
/// same connector.
pub proof fn lemma_glyph_roundtrip(conn: ConnectionType)
    ensures
        spec_conn_dirs(conn) matches Some(d) ==> spec_dirs_conn(
            d,
            conn == ConnectionType::VerticalDotted,
        ) == conn,
{
}

/// Commit markers are never drawn over.
pub proof fn lemma_overlay_keeps_markers(conn: ConnectionType, color: LaneIndex, add: Directions, new_color: LaneIndex)
    requires
        spec_conn_dirs(conn) is None,
    ensures
        spec_overlay(Some((conn, color)), add, new_color) == Some((conn, color)),
{
}

/// Drawing over a connector never cuts a line reaching up or down, and a
/// connector that already reaches up or down keeps its color.
pub proof fn lemma_overlay_keeps_vertical(conn: ConnectionType, color: LaneIndex, add: Directions, new_color: LaneIndex)
    requires
        spec_conn_dirs(conn) is Some,
    ensures
        ({
            let existing = spec_conn_dirs(conn)->Some_0;
            let r = spec_overlay(Some((conn, color)), add, new_color)->Some_0;
            let drawn = spec_conn_dirs(r.0)->Some_0;
            &&& spec_conn_dirs(r.0) is Some
            &&& (existing.up || add.up) ==> drawn.up
            &&& (existing.down || add.down) ==> drawn.down
            &&& (existing.up || existing.down) ==> r.1 == color
        }),
{
}

/// Drawing a line into an empty cell never leaves it empty, and the cell
/// takes the line's color.
pub proof fn lemma_overlay_fills_empty(add: Directions, color: LaneIndex)
    ensures
        spec_overlay(None, add, color) == Some((spec_dirs_conn(add, false), color)),
{
}

} // verus!
