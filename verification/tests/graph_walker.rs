use asyncgit::graph::draw::lane_color;
use asyncgit::graph::{ConnectionType, GraphRow, GraphWalker};
use asyncgit::CommitId;
use std::collections::HashSet;

fn id(n: usize) -> CommitId {
    let mut bytes = [0u8; 20];
    bytes[12..].copy_from_slice(&(n as u64).to_be_bytes());
    CommitId::new(bytes)
}

fn sym(conn: ConnectionType) -> char {
    match conn {
        ConnectionType::Vertical => '┃',
        ConnectionType::VerticalDotted => '╏',
        ConnectionType::CommitNormal => 'o',
        ConnectionType::CommitBranch => '*',
        ConnectionType::CommitMerge => 'M',
        ConnectionType::CommitStash => '*',
        ConnectionType::CommitUncommitted => '+',
        ConnectionType::MergeBridgeStart => '┓',
        ConnectionType::MergeBridgeMid => '━',
        ConnectionType::MergeBridgeEnd => '┏',
        ConnectionType::BranchUp => '┛',
        ConnectionType::BranchUpRight => '┗',
        ConnectionType::TeeLeft => '┫',
        ConnectionType::TeeRight => '┣',
        ConnectionType::TeeUp => '┻',
        ConnectionType::TeeDown => '┳',
    }
}

/// Render a row the way the UI does: one glyph per lane plus a
/// spacer that carries a bridge's horizontal run.
fn row_to_string(row: &GraphRow) -> String {
    let mut out = String::new();
    for (lane_index, conn) in row.lanes.iter().enumerate() {
        out.push(conn.map_or(' ', |(c, _)| sym(c)));

        let in_bridge = row
            .merge_bridge
            .into_iter()
            .chain(row.branches.iter().copied())
            .any(|(from, to)| lane_index >= usize::from(from) && lane_index < usize::from(to));
        out.push(if in_bridge { '━' } else { ' ' });
    }
    out.trim_end().to_string()
}

/// Walk `history` (newest first, `(commit, parents)`) and render
/// every row.
fn render(history: &[(usize, &[usize])]) -> Vec<String> {
    let mut walker = GraphWalker::new();
    let ids: Vec<CommitId> = history.iter().map(|(c, _)| id(*c)).collect();

    for (commit, parents) in history {
        let parents: Vec<CommitId> = parents.iter().map(|p| id(*p)).collect();
        walker.process(id(*commit), &parents);
    }

    walker
        .compute_rows(&ids, 0, &HashSet::new(), &HashSet::new(), None)
        .iter()
        .map(row_to_string)
        .collect()
}

#[test]
fn linear_history() {
    let rows = render(&[(1, &[2]), (2, &[3]), (3, &[])]);
    assert_eq!(rows, vec!["o", "o", "o"]);
}

#[test]
fn simple_merge() {
    // 1 merges 3 into the line 1 → 2 → 4, 3 → 4
    let rows = render(&[(1, &[2, 3]), (2, &[4]), (3, &[4]), (4, &[])]);
    assert_eq!(rows, vec!["M━┓", "o ┃", "┃ o", "o━┛"]);
}

#[test]
fn merge_into_tracked_lane_continues_through_corner() {
    // 3's merge line joins lane 1 which keeps flowing to 5,
    // so the corner must be a junction (┫), not a dead end (┓)
    let rows = render(&[
        (1, &[3]),
        (2, &[5]),
        (3, &[4, 5]),
        (4, &[6]),
        (5, &[6]),
        (6, &[]),
    ]);
    assert_eq!(rows, vec!["o", "┃ o", "M━┫", "o ┃", "┃ o", "o━┛"]);
}

#[test]
fn merge_bridge_crosses_unrelated_lane() {
    // 3 (lane 2) merges into 1's line (lane 0) while 2's line
    // (lane 1) passes through: the crossed lane keeps its
    // vertical instead of being cut by the bridge
    let rows = render(&[
        (1, &[4]),
        (2, &[5]),
        (3, &[6, 4]),
        (4, &[7]),
        (5, &[7]),
        (6, &[7]),
        (7, &[]),
    ]);
    assert_eq!(
        rows,
        vec!["o", "┃ o", "┣━┃━M", "o ┃ ┃", "┃ o ┃", "┃ ┃ o", "o━┻━┛",]
    );
}

#[test]
fn overlapping_branch_bridges_keep_inner_corner() {
    // lanes 1 and 2 both close into the commit on lane 0; the
    // outer bridge passes through the inner corner (┻) instead
    // of erasing it
    let rows = render(&[(1, &[4]), (2, &[4]), (3, &[4]), (4, &[])]);
    assert_eq!(rows, vec!["o", "┃ o", "┃ ┃ o", "o━┻━┛"]);
}

#[test]
fn merge_and_branch_bridges_overlap() {
    // commit 3 closes a branch from lane 2 while opening a merge
    // to lane 3, crossing lane 1: every line stays continuous
    let rows = render(&[
        (1, &[3, 4]),
        (2, &[3]),
        (3, &[5, 6]),
        (4, &[5]),
        (5, &[7]),
        (6, &[7]),
        (7, &[]),
    ]);
    assert_eq!(
        rows,
        vec![
            "M━┓",
            "┃ ┃ o",
            "M━┃━┻━┓",
            "┃ o   ┃",
            "o━┛   ┃",
            "┃     o",
            "o━━━━━┛",
        ]
    );
}

#[test]
fn crossed_lane_keeps_own_color() {
    let rows = &[
        (1usize, &[4usize][..]),
        (2, &[5]),
        (3, &[6, 4]),
        (4, &[7]),
        (5, &[7]),
        (6, &[7]),
        (7, &[]),
    ];
    let mut walker = GraphWalker::new();
    let ids: Vec<CommitId> = rows.iter().map(|(c, _)| id(*c)).collect();
    for (commit, parents) in rows {
        let parents: Vec<CommitId> = parents.iter().map(|p| id(*p)).collect();
        walker.process(id(*commit), &parents);
    }
    let computed = walker.compute_rows(&ids, 0, &HashSet::new(), &HashSet::new(), None);

    // row of commit 3: lane 1 is crossed by the merge bridge but
    // keeps both its vertical glyph and its own lane color
    let crossed = computed[2].lanes[1].expect("crossed lane should not be empty");
    assert_eq!(crossed.0, ConnectionType::Vertical);
    assert_eq!(crossed.1, lane_color(1));
}
