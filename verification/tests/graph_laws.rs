use asyncgit::graph::buffer::{Buffer, DeltaOp, CHECKPOINT_INTERVAL};
use asyncgit::graph::chunk::{Chunk, LaneSlot, Markers};
use asyncgit::graph::draw::{conn_dirs, dirs_conn, lane_color, overlay_cell, Directions};
use asyncgit::graph::oids::GraphOids;
use asyncgit::graph::{AliasId, ConnectionType, GraphWalker, LaneIndex, UnwalkedAlias};
use asyncgit::CommitId;
use std::collections::HashSet;

fn id(n: usize) -> CommitId {
    let mut bytes = [0u8; 20];
    bytes[12..].copy_from_slice(&(n as u64).to_be_bytes());
    CommitId::new(bytes)
}

fn chunk(alias: usize, parent_a: Option<usize>, parent_b: Option<usize>) -> Chunk {
    Chunk {
        alias: Some(AliasId::from(alias)),
        parent_a: parent_a.map(AliasId::from),
        parent_b: parent_b.map(AliasId::from),
        marker: Markers::Commit,
    }
}

fn apply(state: &mut Vec<Option<Chunk>>, ops: &[DeltaOp]) {
    for op in ops {
        match op {
            DeltaOp::Insert { index, item } => state.insert(*index, *item),
            DeltaOp::Remove { index } => {
                state.remove(*index);
            }
            DeltaOp::Replace { index, new } => state[*index] = *new,
        }
    }
}

/// A linear history of `n` commits: commit i flows to i + 1.
fn linear_walker(n: usize) -> GraphWalker {
    let mut walker = GraphWalker::new();
    for i in 0..n {
        let parents = if i + 1 < n { vec![id(i + 1)] } else { vec![] };
        walker.process(id(i), &parents);
    }
    walker
}

#[test]
fn delta_applied_to_row_gives_next_row() {
    let mut walker = GraphWalker::new();
    let history: &[(usize, &[usize])] =
        &[(1, &[3, 4]), (2, &[3]), (3, &[5, 6]), (4, &[5]), (5, &[7]), (6, &[7]), (7, &[])];
    for (c, ps) in history {
        let ps: Vec<CommitId> = ps.iter().map(|p| id(*p)).collect();
        walker.process(id(*c), &ps);
    }
    let rows = walker.buffer.decompress(0, history.len() - 1);
    assert_eq!(rows.len(), history.len());
    let mut state: Vec<Option<Chunk>> = Vec::new();
    for (n, delta) in walker.buffer.deltas.iter().enumerate() {
        apply(&mut state, &delta.0);
        assert_eq!(state, rows[n]);
    }
    assert_eq!(state, walker.buffer.current);
}

#[test]
fn checkpoints_follow_every_interval() {
    let walker = linear_walker(250);
    let keys: Vec<usize> = walker.buffer.checkpoints.keys().copied().collect();
    assert_eq!(keys, vec![CHECKPOINT_INTERVAL - 1, 2 * CHECKPOINT_INTERVAL - 1]);
    assert_eq!(walker.processed_commits(), 250);
}

#[test]
fn decompress_from_checkpoint_matches_full_replay() {
    let mut walker = GraphWalker::new();
    // a history with a long-lived side branch so the lane state varies
    for i in 0..260usize {
        let parents = if i % 10 == 0 && i + 12 < 300 {
            vec![id(i + 1), id(i + 12)]
        } else if i + 1 < 260 {
            vec![id(i + 1)]
        } else {
            vec![]
        };
        walker.process(id(i), &parents);
    }
    let full = walker.buffer.decompress(0, 259);
    assert_eq!(full.len(), 260);
    let part = walker.buffer.decompress(150, 210);
    assert_eq!(part.len(), 61);
    assert_eq!(&part[..], &full[150..=210]);
    let at_checkpoint = walker.buffer.decompress(199, 201);
    assert_eq!(&at_checkpoint[..], &full[199..=201]);
}

#[test]
fn decompress_clamps_to_the_walk() {
    let walker = linear_walker(5);
    assert_eq!(walker.buffer.decompress(3, 2).len(), 0);
    assert_eq!(walker.buffer.decompress(5, 9).len(), 0);
    assert_eq!(walker.buffer.decompress(3, usize::MAX).len(), 2);
    assert_eq!(walker.buffer.decompress(0, 0).len(), 1);
}

#[test]
fn update_places_commit_and_trims_empty_lanes() {
    let mut buffer = Buffer::new();
    // two lanes: 1 flows to 3, 2 flows to 4
    buffer.update(&chunk(1, Some(3), None));
    buffer.update(&chunk(2, Some(4), None));
    assert_eq!(buffer.current.len(), 2);
    // 4 arrives on lane 1 (awaiting it) and ends there: lane 1 keeps the root
    buffer.update(&chunk(4, None, None));
    assert_eq!(buffer.current[1], Some(chunk(4, None, None)));
    // 3 arrives on lane 0; the root on lane 1 has nothing to flow to
    buffer.update(&chunk(3, None, None));
    assert_eq!(buffer.current[0], Some(chunk(3, None, None)));
    assert!(buffer.current.last().map_or(true, |slot| slot.is_some()));
    assert_eq!(buffer.deltas.len(), 4);
}

#[test]
fn consumed_parent_empties_lanes_and_trims() {
    let mut buffer = Buffer::new();
    buffer.update(&chunk(1, Some(3), None));
    buffer.update(&chunk(2, Some(3), None));
    assert_eq!(buffer.current.len(), 2);
    // 3 takes lane 0; lane 1 loses its only parent and is trimmed away
    buffer.update(&chunk(3, None, None));
    assert_eq!(buffer.current, vec![Some(chunk(3, None, None))]);
}

#[test]
fn merge_opens_a_lane_at_the_right_end() {
    let mut buffer = Buffer::new();
    buffer.track_merge_commit(AliasId::from(1));
    buffer.update(&chunk(1, Some(2), Some(3)));
    assert_eq!(buffer.current.len(), 2);
    assert_eq!(buffer.current[0], Some(chunk(1, Some(2), None)));
    assert_eq!(
        buffer.current[1],
        Some(Chunk {
            alias: None,
            parent_a: Some(AliasId::from(3)),
            parent_b: None,
            marker: Markers::Commit,
        })
    );
}

#[test]
fn aliases_are_dense_and_stable() {
    let mut oids = GraphOids::new();
    assert_eq!(oids.get(&id(7)), None);
    let a = oids.get_or_insert(&id(7));
    let b = oids.get_or_insert(&id(9));
    let a_again = oids.get_or_insert(&id(7));
    assert_eq!(*a, 0);
    assert_eq!(*b, 1);
    assert_eq!(a_again, a);
    assert_eq!(oids.get(&id(9)), Some(b));
    assert_eq!(*oids.get_or_insert(&id(1)), 2);
}

#[test]
fn process_caps_parents_at_two() {
    let mut walker = GraphWalker::new();
    walker.process(id(1), &[id(2), id(3), id(4)]);
    assert_eq!(walker.oids.get(&id(4)), None);
    assert_eq!(walker.processed_commits(), 1);
    assert_eq!(
        walker.merge_parents.get(&AliasId::from(0)).copied(),
        Some(AliasId::from(2))
    );
}

#[test]
fn lane_index_saturates() {
    assert_eq!(LaneIndex::from(7), LaneIndex(7));
    assert_eq!(LaneIndex::from(255), LaneIndex(255));
    assert_eq!(LaneIndex::from(300), LaneIndex(255));
    assert_eq!(usize::from(LaneIndex::from(1000)), 255);
}

#[test]
fn lane_colors_cycle_through_palette() {
    assert_eq!(lane_color(0), LaneIndex(0));
    assert_eq!(lane_color(15), LaneIndex(15));
    assert_eq!(lane_color(17), LaneIndex(1));
    assert_eq!(lane_color(16 * 40 + 3), LaneIndex(3));
}

const ALL_CONNECTIONS: [ConnectionType; 16] = [
    ConnectionType::Vertical,
    ConnectionType::VerticalDotted,
    ConnectionType::CommitNormal,
    ConnectionType::CommitBranch,
    ConnectionType::CommitMerge,
    ConnectionType::CommitStash,
    ConnectionType::CommitUncommitted,
    ConnectionType::MergeBridgeStart,
    ConnectionType::MergeBridgeMid,
    ConnectionType::MergeBridgeEnd,
    ConnectionType::BranchUp,
    ConnectionType::BranchUpRight,
    ConnectionType::TeeLeft,
    ConnectionType::TeeRight,
    ConnectionType::TeeUp,
    ConnectionType::TeeDown,
];

#[test]
fn glyphs_round_trip_through_directions() {
    for conn in ALL_CONNECTIONS {
        if let Some(dirs) = conn_dirs(conn) {
            assert_eq!(dirs_conn(dirs, conn == ConnectionType::VerticalDotted), conn);
        }
    }
}

#[test]
fn overlay_keeps_markers_and_crossed_verticals() {
    let across = Directions { up: false, down: false, left: true, right: true };
    let mut marker = Some((ConnectionType::CommitMerge, LaneIndex(2)));
    overlay_cell(&mut marker, across, LaneIndex(5));
    assert_eq!(marker, Some((ConnectionType::CommitMerge, LaneIndex(2))));

    let mut crossed = Some((ConnectionType::Vertical, LaneIndex(1)));
    overlay_cell(&mut crossed, across, LaneIndex(5));
    assert_eq!(crossed, Some((ConnectionType::Vertical, LaneIndex(1))));

    let mut corner = Some((ConnectionType::BranchUp, LaneIndex(1)));
    overlay_cell(&mut corner, across, LaneIndex(5));
    assert_eq!(corner, Some((ConnectionType::TeeUp, LaneIndex(1))));

    // a bridge cell taking a vertical line takes the line's color
    let mut bridge = Some((ConnectionType::MergeBridgeMid, LaneIndex(1)));
    let down = Directions { up: false, down: true, left: false, right: false };
    overlay_cell(&mut bridge, down, LaneIndex(5));
    assert_eq!(bridge, Some((ConnectionType::TeeDown, LaneIndex(5))));

    let mut empty = None;
    overlay_cell(&mut empty, across, LaneIndex(4));
    assert_eq!(empty, Some((ConnectionType::MergeBridgeMid, LaneIndex(4))));
}

#[test]
fn lane_slot_accessors() {
    let a = AliasId::from(1);
    let p = UnwalkedAlias::new(AliasId::from(2));
    let q = UnwalkedAlias::new(AliasId::from(3));
    let flowing = LaneSlot::Flowing { alias: a, parent: p };
    let merge = LaneSlot::FlowingMerge { alias: a, parent: p, second: q };
    let settled = LaneSlot::Settled { alias: a };
    let reserved = LaneSlot::Reserved { parent: q };
    assert_eq!(flowing.alias(), Some(a));
    assert_eq!(flowing.awaits(), Some(AliasId::from(2)));
    assert_eq!(flowing.second(), None);
    assert_eq!(merge.second(), Some(AliasId::from(3)));
    assert_eq!(settled.awaits(), None);
    assert_eq!(settled.alias(), Some(a));
    assert_eq!(reserved.alias(), None);
    assert_eq!(reserved.awaits(), Some(AliasId::from(3)));
    assert_eq!(q.get(), AliasId::from(3));
}

#[test]
fn markers_follow_tips_stashes_and_merges() {
    let mut walker = GraphWalker::new();
    walker.process(id(1), &[id(2), id(3)]);
    walker.process(id(2), &[id(3)]);
    walker.process(id(3), &[]);
    let ids = [id(1), id(2), id(3)];
    let tips: HashSet<CommitId> = [id(1), id(2)].into_iter().collect();
    let stashes: HashSet<CommitId> = [id(2)].into_iter().collect();
    let rows = walker.compute_rows(&ids, 0, &tips, &stashes, None);
    // a merge that is also a tip draws as a merge
    assert_eq!(rows[0].lanes[0].unwrap().0, ConnectionType::CommitMerge);
    assert!(rows[0].is_merge && rows[0].is_branch_tip && !rows[0].is_stash);
    // a stash wins over a tip
    assert_eq!(rows[1].lanes[0].unwrap().0, ConnectionType::CommitStash);
    assert!(rows[1].is_stash);
    // a plain commit
    assert_eq!(rows[2].lanes[0].unwrap().0, ConnectionType::CommitNormal);
    assert!(!rows[2].is_merge);
    assert_eq!(rows[2].lane_count, LaneIndex(1));
}

#[test]
fn lane_zero_flowing_to_head_is_dotted() {
    let mut walker = GraphWalker::new();
    walker.process(id(1), &[id(3)]);
    walker.process(id(2), &[id(3)]);
    walker.process(id(3), &[]);
    let ids = [id(1), id(2), id(3)];
    let head = id(3);
    let rows = walker.compute_rows(&ids, 0, &HashSet::new(), &HashSet::new(), Some(&head));
    assert_eq!(rows[1].lanes[0].unwrap().0, ConnectionType::VerticalDotted);
    let plain = walker.compute_rows(&ids, 0, &HashSet::new(), &HashSet::new(), None);
    assert_eq!(plain[1].lanes[0].unwrap().0, ConnectionType::Vertical);
}

#[test]
fn rows_of_a_window_match_rows_of_the_whole_walk() {
    let mut walker = GraphWalker::new();
    let history: &[(usize, &[usize])] =
        &[(1, &[4]), (2, &[5]), (3, &[6, 4]), (4, &[7]), (5, &[7]), (6, &[7]), (7, &[])];
    for (c, ps) in history {
        let ps: Vec<CommitId> = ps.iter().map(|p| id(*p)).collect();
        walker.process(id(*c), &ps);
    }
    let ids: Vec<CommitId> = history.iter().map(|(c, _)| id(*c)).collect();
    let none = HashSet::new();
    let all = walker.compute_rows(&ids, 0, &none, &none, None);
    let window = walker.compute_rows(&ids[2..5], 2, &none, &none, None);
    assert_eq!(window.len(), 3);
    for (k, row) in window.iter().enumerate() {
        assert_eq!(row.lanes, all[k + 2].lanes);
        assert_eq!(row.branches, all[k + 2].branches);
        assert_eq!(row.merge_bridge, all[k + 2].merge_bridge);
        assert_eq!(row.commit_lane, all[k + 2].commit_lane);
    }
    // a row past the walk has no lanes of its own; the lane of the row
    // above ends into it
    let beyond = walker.compute_rows(&[id(8)], 7, &none, &none, None);
    assert_eq!(beyond.len(), 1);
    assert_eq!(beyond[0].lane_count, LaneIndex(0));
    assert_eq!(beyond[0].branches, vec![(LaneIndex(0), LaneIndex(0))]);
    assert_eq!(walker.compute_rows(&[], 0, &none, &none, None).len(), 0);
}

#[test]
fn walking_further_keeps_earlier_rows() {
    let mut walker = GraphWalker::new();
    let history: &[(usize, &[usize])] =
        &[(1, &[3, 4]), (2, &[3]), (3, &[5, 6]), (4, &[5]), (5, &[7]), (6, &[7]), (7, &[])];
    for (c, ps) in &history[..4] {
        let ps: Vec<CommitId> = ps.iter().map(|p| id(*p)).collect();
        walker.process(id(*c), &ps);
    }
    let before = walker.buffer.decompress(0, 3);
    let current_then = walker.buffer.current.clone();
    for (c, ps) in &history[4..] {
        let ps: Vec<CommitId> = ps.iter().map(|p| id(*p)).collect();
        walker.process(id(*c), &ps);
    }
    let after = walker.buffer.decompress(0, 3);
    assert_eq!(before, after);
    assert_eq!(after[3], current_then);
}

#[test]
fn delta_records_place_then_trim() {
    let mut buffer = Buffer::new();
    buffer.update(&chunk(1, Some(3), None));
    buffer.update(&chunk(2, Some(3), None));
    buffer.update(&chunk(3, None, None));
    // 3 replaces lane 0, clears lane 1 (its only parent), then lane 1 is trimmed
    assert_eq!(
        buffer.deltas[2].0,
        vec![
            DeltaOp::Replace { index: 0, new: Some(chunk(3, None, None)) },
            DeltaOp::Replace { index: 1, new: None },
            DeltaOp::Remove { index: 1 },
        ]
    );
}

#[test]
fn extra_parents_change_nothing() {
    let mut a = GraphWalker::new();
    let mut b = GraphWalker::new();
    a.process(id(1), &[id(2), id(3), id(4)]);
    b.process(id(1), &[id(2), id(3)]);
    assert_eq!(a.buffer.current, b.buffer.current);
    assert_eq!(a.buffer.deltas[0].0, b.buffer.deltas[0].0);
    assert_eq!(a.oids.get(&id(4)), None);
}
