use super::buffer::{
    awaits_pred, first_index, holds_pred, lemma_first_index, lemma_first_index_at,
    lemma_state_after_prefix, spec_update, state_after, update_ops, Buffer, Delta,
};
use super::chunk::{Chunk, Markers};
use super::draw::{
    lane_color, overlay_cell, spec_horizontal_line, spec_lane_color, spec_overlay, Cell, Directions,
};
use super::oids::{with_alias, GraphOids};
use super::{spec_lane_index, AliasId, ConnectionType, GraphRow, LaneIndex};
use crate::sync::CommitId;
use std::collections::{HashMap, HashSet};
use vstd::prelude::*;

verus! {

// ---------------------------------------------------------------------
// Outside calls: std's hash collections keyed by this crate's ids.
// ---------------------------------------------------------------------
/// `HashSet::contains` on a set of commit ids. `CommitId` derives `Eq` and
/// `Hash` over its bytes, so the result is membership of `id` in the set.
#[verifier::external_body]
fn id_set_contains(set: &HashSet<CommitId>, id: &CommitId) -> (r: bool)
    ensures
        r == set@.contains(*id),
{
    set.contains(id)
}

/// `HashMap::get` on the merge-parent map, the alias copied out. `AliasId`
/// derives `Eq` and `Hash` over its number, so the result is the second
/// parent stored for `alias`, `None` if there is none.
#[verifier::external_body]
fn alias_map_get(map: &HashMap<AliasId, AliasId>, alias: &AliasId) -> (r: Option<AliasId>)
    ensures
        r == if map@.contains_key(*alias) {
            Some(map@[*alias])
        } else {
            None::<AliasId>
        },
{
    map.get(alias).copied()
}

/// `HashMap::insert` on the merge-parent map: afterwards `alias` maps to
/// `second` and every other entry is unchanged.
#[verifier::external_body]
fn alias_map_insert(map: &mut HashMap<AliasId, AliasId>, alias: AliasId, second: AliasId)
    ensures
        final(map)@ == old(map)@.insert(alias, second),
{
    map.insert(alias, second);
}

// ---------------------------------------------------------------------
// The model of one rendered row.
// ---------------------------------------------------------------------
/// The value stored for `k`, if any.
pub open spec fn lookup<K, V>(m: Map<K, V>, k: K) -> Option<V> {
    if m.contains_key(k) {
        Some(m[k])
    } else {
        None
    }
}

/// The node drawn on the commit's own lane.
pub open spec fn spec_commit_connection(is_stash: bool, is_merge: bool, is_branch_tip: bool) -> ConnectionType {
    if is_stash {
        ConnectionType::CommitStash
    } else if is_merge {
        ConnectionType::CommitMerge
    } else if is_branch_tip {
        ConnectionType::CommitBranch
    } else {
        ConnectionType::CommitNormal
    }
}

/// The line drawn on a lane the commit does not sit on: none for a lane
/// without parents, dotted on lane 0 when it flows to the head commit.
pub open spec fn spec_passthrough(chunk: Chunk, lane: int, head: Option<AliasId>) -> Option<ConnectionType> {
    if chunk.parent_a is None && chunk.parent_b is None {
        None
    } else if lane == 0 && head is Some && (chunk.parent_a == head || chunk.parent_b == head) {
        Some(ConnectionType::VerticalDotted)
    } else {
        Some(ConnectionType::Vertical)
    }
}

/// The cell of one lane before any bridge is drawn.
pub open spec fn spec_base_cell(
    slot: Option<Chunk>,
    lane: int,
    commit_alias: Option<AliasId>,
    head: Option<AliasId>,
    marker: ConnectionType,
) -> Cell {
    match slot {
        None => None,
        Some(c) => if commit_alias is Some && c.alias == commit_alias {
            Some((marker, spec_lane_color(lane)))
        } else {
            match spec_passthrough(c, lane, head) {
                Some(conn) => Some((conn, spec_lane_color(lane))),
                None => None,
            }
        },
    }
}

/// The cells of all lanes before any bridge is drawn.
pub open spec fn spec_base_lanes(
    cur: Seq<Option<Chunk>>,
    commit_alias: Option<AliasId>,
    head: Option<AliasId>,
    marker: ConnectionType,
) -> Seq<Cell> {
    Seq::new(cur.len(), |i: int| spec_base_cell(cur[i], i, commit_alias, head, marker))
}

/// The lane the commit sits on: the first lane holding it, 0 if none does.
pub open spec fn spec_commit_lane(cur: Seq<Option<Chunk>>, alias: Option<AliasId>) -> usize {
    match alias {
        None => 0,
        Some(a) => {
            let i = first_index(cur, holds_pred(a));
            if i < cur.len() {
                i as usize
            } else {
                0
            }
        },
    }
}

/// The span (min, max) between the commit's lane and the first lane flowing
/// to its second parent, if one does.
pub open spec fn spec_merge_bridge(cur: Seq<Option<Chunk>>, commit_lane: usize, second: AliasId) -> Option<
    (usize, usize),
> {
    let t = first_index(cur, awaits_pred(second));
    if t < cur.len() {
        let tu = t as usize;
        if commit_lane < tu {
            Some((commit_lane, tu))
        } else {
            Some((tu, commit_lane))
        }
    } else {
        None
    }
}

/// The lane holds the same occupant in this row as in the one above.
pub open spec fn spec_continues_upwards(
    t: usize,
    cur: Seq<Option<Chunk>>,
    prev: Option<Seq<Option<Chunk>>>,
) -> bool {
    t < cur.len() && match prev {
        Some(p) => t < p.len() && p[t as int] == cur[t as int],
        None => false,
    }
}

/// The corner of a merge bridge: down, up when the lane continues from
/// above, and towards the commit.
pub open spec fn spec_merge_directions(commit_lane: usize, target_lane: usize, up: bool) -> Directions {
    Directions { up: up, down: true, left: target_lane > commit_lane, right: target_lane < commit_lane }
}

/// The corner of a branch bridge: up, and towards the commit.
pub open spec fn spec_branch_directions(branch_lane: usize, start_lane: usize, end_lane: usize) -> Directions {
    Directions { up: true, down: false, left: branch_lane == end_lane, right: branch_lane == start_lane }
}

/// The horizontal run of a bridge over the lanes strictly between `from`
/// and `to`.
pub open spec fn spec_bridge_span(lanes: Seq<Cell>, from: int, to: int, color: LaneIndex) -> Seq<Cell> {
    Seq::new(
        lanes.len(),
        |i: int|
            if from < i && i < to {
                spec_overlay(lanes[i], spec_horizontal_line(), color)
            } else {
                lanes[i]
            },
    )
}

/// The cells once the merge bridge (if any) is drawn.
pub open spec fn spec_draw_merge_bridge(
    lanes: Seq<Cell>,
    merge_bridge: Option<(usize, usize)>,
    commit_lane: usize,
    cur: Seq<Option<Chunk>>,
    prev: Option<Seq<Option<Chunk>>>,
) -> Seq<Cell> {
    match merge_bridge {
        None => lanes,
        Some((source, target)) => if source == target {
            lanes
        } else {
            let dest = if source == commit_lane {
                target
            } else {
                source
            };
            let color = spec_lane_color(dest as int);
            let dirs = spec_merge_directions(commit_lane, dest, spec_continues_upwards(dest, cur, prev));
            spec_bridge_span(
                lanes.update(dest as int, spec_overlay(None, dirs, color)),
                source as int,
                target as int,
                color,
            )
        },
    }
}

/// The lanes below `n` occupied in the row above and free in this row.
pub open spec fn branching_upto(cur: Seq<Option<Chunk>>, prev: Seq<Option<Chunk>>, n: int) -> Seq<usize>
    decreases n,
{
    if n <= 0 {
        Seq::empty()
    } else {
        let r = branching_upto(cur, prev, n - 1);
        if prev[n - 1] is Some && (n - 1 >= cur.len() || cur[n - 1] is None) {
            r.push((n - 1) as usize)
        } else {
            r
        }
    }
}

/// Lanes that existed in the previous row but terminated before this row,
/// in increasing order.
pub open spec fn spec_branching_lanes(cur: Seq<Option<Chunk>>, prev: Option<Seq<Option<Chunk>>>) -> Seq<usize> {
    match prev {
        None => Seq::empty(),
        Some(p) => branching_upto(cur, p, p.len() as int),
    }
}

/// The smaller of two lane numbers.
pub open spec fn min_lane(a: usize, b: usize) -> usize {
    if a < b {
        a
    } else {
        b
    }
}

/// The greater of two lane numbers.
pub open spec fn max_lane(a: usize, b: usize) -> usize {
    if a < b {
        b
    } else {
        a
    }
}

/// `lanes` grown with empty cells to hold the lane `index`.
pub open spec fn spec_with_capacity(lanes: Seq<Cell>, index: usize) -> Seq<Cell> {
    if lanes.len() <= index {
        lanes + Seq::new((index + 1 - lanes.len()) as nat, |i: int| None::<(ConnectionType, LaneIndex)>)
    } else {
        lanes
    }
}

/// The cells once the branch from lane `branch` closing into the commit's
/// lane is drawn.
pub open spec fn spec_draw_branch(lanes: Seq<Cell>, branch: usize, commit_lane: usize) -> Seq<Cell> {
    let start = min_lane(branch, commit_lane);
    let end = max_lane(branch, commit_lane);
    let color = spec_lane_color(branch as int);
    let spanned = spec_bridge_span(spec_with_capacity(lanes, end), start as int, end as int, color);
    spanned.update(
        branch as int,
        spec_overlay(spanned[branch as int], spec_branch_directions(branch, start, end), color),
    )
}

/// The cells once every branch of `branches` is drawn, first to last.
pub open spec fn spec_draw_branches(lanes: Seq<Cell>, branches: Seq<usize>, commit_lane: usize) -> Seq<Cell>
    decreases branches.len(),
{
    if branches.len() == 0 {
        lanes
    } else {
        spec_draw_branch(
            spec_draw_branches(lanes, branches.drop_last(), commit_lane),
            branches.last(),
            commit_lane,
        )
    }
}

/// The span of each branch bridge.
pub open spec fn spec_branch_spans(branches: Seq<usize>, commit_lane: usize) -> Seq<(LaneIndex, LaneIndex)> {
    Seq::new(
        branches.len(),
        |i: int|
            (
                spec_lane_index(min_lane(branches[i], commit_lane) as int),
                spec_lane_index(max_lane(branches[i], commit_lane) as int),
            ),
    )
}

/// Number of occupied lanes.
pub open spec fn count_occupied(s: Seq<Option<Chunk>>) -> nat
    decreases s.len(),
{
    if s.len() == 0 {
        0
    } else {
        count_occupied(s.drop_last()) + if s.last() is Some {
            1nat
        } else {
            0nat
        }
    }
}

/// `row` is the rendering of `commit_id` on the lane state `cur` below the
/// lane state `prev`, given the alias map, the merge-parent map, the branch
/// tips, the stashes and the head.
pub open spec fn rendered(
    row: GraphRow,
    oids: Map<CommitId, AliasId>,
    merge_parents: Map<AliasId, AliasId>,
    commit_id: CommitId,
    cur: Seq<Option<Chunk>>,
    prev: Option<Seq<Option<Chunk>>>,
    tips: Set<CommitId>,
    stashes: Set<CommitId>,
    head: Option<CommitId>,
) -> bool {
    let commit_alias = lookup(oids, commit_id);
    let head_alias = match head {
        Some(h) => lookup(oids, h),
        None => None,
    };
    let second = match commit_alias {
        Some(a) => lookup(merge_parents, a),
        None => None,
    };
    let commit_lane = spec_commit_lane(cur, commit_alias);
    let is_merge = second is Some;
    let is_branch_tip = tips.contains(commit_id);
    let is_stash = stashes.contains(commit_id);
    let branching = spec_branching_lanes(cur, prev);
    let merge_bridge = match second {
        Some(p) => spec_merge_bridge(cur, commit_lane, p),
        None => None,
    };
    let base = spec_base_lanes(
        cur,
        commit_alias,
        head_alias,
        spec_commit_connection(is_stash, is_merge, is_branch_tip),
    );
    let bridged = spec_draw_merge_bridge(base, merge_bridge, commit_lane, cur, prev);
    &&& row.lanes@ == spec_draw_branches(bridged, branching, commit_lane)
    &&& row.branches@ == spec_branch_spans(branching, commit_lane)
    &&& row.lane_count == spec_lane_index(count_occupied(cur) as int)
    &&& row.commit_lane == spec_lane_index(commit_lane as int)
    &&& row.is_merge == is_merge
    &&& row.is_branch_tip == is_branch_tip
    &&& row.is_stash == is_stash
    &&& row.merge_bridge == match merge_bridge {
        Some((s, t)) => Some((spec_lane_index(s as int), spec_lane_index(t as int))),
        None => None,
    }
}

/// Some lane already flows to `target` as its only parent.
pub open spec fn spec_redundant_merge_track(cur: Seq<Option<Chunk>>, target: AliasId) -> bool {
    exists|i: int|
        0 <= i < cur.len() && (#[trigger] cur[i] matches Some(c) && c.parent_a == Some(target)
            && c.parent_b is None)
}

/// The lane state of row `k` of the walk; empty for rows not walked yet.
pub open spec fn row_state(deltas: Seq<Delta>, k: int) -> Seq<Option<Chunk>> {
    if 0 <= k < deltas.len() {
        state_after(deltas, (k + 1) as nat)
    } else {
        Seq::empty()
    }
}

/// The lane state of the row above row `k`, if it was walked.
pub open spec fn prev_row_state(deltas: Seq<Delta>, k: int) -> Option<Seq<Option<Chunk>>> {
    if 1 <= k && k - 1 < deltas.len() {
        Some(state_after(deltas, k as nat))
    } else {
        None
    }
}

/// The view of an optional lane-state slice.
pub open spec fn opt_view(s: Option<&[Option<Chunk>]>) -> Option<Seq<Option<Chunk>>> {
    match s {
        Some(p) => Some(p@),
        None => None,
    }
}

/// The view of an optional commit id.
pub open spec fn opt_id(id: Option<&CommitId>) -> Option<CommitId> {
    match id {
        Some(i) => Some(*i),
        None => None,
    }
}


/// A row's rendering is determined by its inputs: two rows rendered from
/// the same commit, lane states and markers are the same row, whatever
/// window of rows each was computed in.
pub proof fn lemma_rendering_is_determined(
    r1: GraphRow,
    r2: GraphRow,
    oids: Map<CommitId, AliasId>,
    merge_parents: Map<AliasId, AliasId>,
    commit_id: CommitId,
    cur: Seq<Option<Chunk>>,
    prev: Option<Seq<Option<Chunk>>>,
    tips: Set<CommitId>,
    stashes: Set<CommitId>,
    head: Option<CommitId>,
)
    requires
        rendered(r1, oids, merge_parents, commit_id, cur, prev, tips, stashes, head),
        rendered(r2, oids, merge_parents, commit_id, cur, prev, tips, stashes, head),
    ensures
        r1.lanes@ == r2.lanes@,
        r1.branches@ == r2.branches@,
        r1.lane_count == r2.lane_count,
        r1.commit_lane == r2.commit_lane,
        r1.is_merge == r2.is_merge,
        r1.is_branch_tip == r2.is_branch_tip,
        r1.is_stash == r2.is_stash,
        r1.merge_bridge == r2.merge_bridge,
{
}

/// Walking further never changes the lane states of rows already walked,
/// so a row renders the same before and after more commits are folded in.
pub proof fn lemma_row_state_stable(earlier: Seq<Delta>, later: Seq<Delta>, k: int)
    requires
        earlier.len() <= later.len(),
        forall|i: int| 0 <= i < earlier.len() ==> #[trigger] later[i] == earlier[i],
        0 <= k < earlier.len(),
    ensures
        row_state(later, k) == row_state(earlier, k),
        prev_row_state(later, k) == prev_row_state(earlier, k),
{
    lemma_state_after_prefix(earlier, later, (k + 1) as nat);
    lemma_state_after_prefix(earlier, later, k as nat);
}

/// `after` is the walker `before` once the commit `commit_id` with the
/// parents `parents` is folded in. Only the first two parents are read.
pub open spec fn spec_processed(
    before: GraphWalker,
    after: GraphWalker,
    commit_id: CommitId,
    parents: Seq<CommitId>,
) -> bool {
    let m1 = with_alias(before.oids@, commit_id);
    let commit_alias = m1[commit_id];
    let m2 = if parents.len() > 0 {
        with_alias(m1, parents[0])
    } else {
        m1
    };
    let first = if parents.len() > 0 {
        Some(m2[parents[0]])
    } else {
        None
    };
    let m3 = if parents.len() > 1 {
        with_alias(m2, parents[1])
    } else {
        m2
    };
    let second = if parents.len() > 1 {
        Some(m3[parents[1]])
    } else {
        None
    };
    let chunk = Chunk {
        alias: Some(commit_alias),
        parent_a: first,
        parent_b: second,
        marker: Markers::Commit,
    };
    let flushes = match second {
        Some(p) => first is Some && !spec_redundant_merge_track(before.buffer.current@, p),
        None => false,
    };
    let merges = if flushes {
        before.buffer.pending_merges().push(commit_alias)
    } else {
        before.buffer.pending_merges()
    };
    &&& after.wf()
    &&& after.oids@ == m3
    &&& after.merge_parents@ == match second {
        Some(p) => before.merge_parents@.insert(commit_alias, p),
        None => before.merge_parents@,
    }
    &&& after.buffer.current@ == spec_update(before.buffer.current@, merges, chunk)
    &&& after.buffer.deltas@.len() == before.buffer.deltas@.len() + 1
    &&& forall|i: int|
        0 <= i < before.buffer.deltas@.len() ==> #[trigger] after.buffer.deltas@[i]
            == before.buffer.deltas@[i]
    &&& after.buffer.deltas@.last().0@ == update_ops(before.buffer.current@, merges, chunk)
    &&& after.buffer.pending_merges().len() == 0
    &&& after.branch_lane_map@ == before.branch_lane_map@
}

/// `process` reads only the first two parents: folding a commit in with
/// more parents leaves the walker as folding it in with the first two does
/// (a third or later parent gets no alias of its own).
pub proof fn lemma_only_two_parents_read(
    before: GraphWalker,
    w1: GraphWalker,
    w2: GraphWalker,
    commit_id: CommitId,
    parents: Seq<CommitId>,
)
    requires
        parents.len() > 2,
        spec_processed(before, w1, commit_id, parents),
        spec_processed(before, w2, commit_id, parents.take(2)),
    ensures
        w1.oids@ == w2.oids@,
        w1.merge_parents@ == w2.merge_parents@,
        w1.branch_lane_map@ == w2.branch_lane_map@,
        w1.buffer.current@ == w2.buffer.current@,
        w1.buffer.pending_merges() == w2.buffer.pending_merges(),
        w1.buffer.deltas@.len() == w2.buffer.deltas@.len(),
        forall|i: int|
            0 <= i < w1.buffer.deltas@.len() ==> #[trigger] w1.buffer.deltas@[i].0@
                == w2.buffer.deltas@[i].0@,
{
    let short = parents.take(2);
    assert(short.len() == 2 && short[0] == parents[0] && short[1] == parents[1]);
    assert(w1.buffer.pending_merges() =~= w2.buffer.pending_merges());
    assert forall|i: int| 0 <= i < w1.buffer.deltas@.len() implies #[trigger] w1.buffer.deltas@[i].0@
        == w2.buffer.deltas@[i].0@ by {
        if i < before.buffer.deltas@.len() {
            assert(w1.buffer.deltas@[i] == before.buffer.deltas@[i]);
            assert(w2.buffer.deltas@[i] == before.buffer.deltas@[i]);
        }
    }
}

/// Folding in the first `n` commits of a walk, one `process` call each,
/// from a walker with no delta records exactly `n` deltas.
proof fn lemma_deltas_count_calls(
    walk: Seq<GraphWalker>,
    commits: Seq<CommitId>,
    parents: Seq<Seq<CommitId>>,
    n: int,
)
    requires
        walk.len() == commits.len() + 1,
        parents.len() == commits.len(),
        walk[0].buffer.deltas@.len() == 0,
        forall|i: int|
            #![trigger commits[i]]
            0 <= i < commits.len() ==> spec_processed(walk[i], walk[i + 1], commits[i], parents[i]),
        0 <= n < walk.len(),
    ensures
        walk[n].buffer.deltas@.len() == n,
    decreases n,
{
    if n > 0 {
        lemma_deltas_count_calls(walk, commits, parents, n - 1);
        assert(spec_processed(walk[n - 1], walk[n], commits[n - 1], parents[n - 1]));
    }
}

/// One delta per commit: along a walk that starts from a walker with no
/// delta and folds in commit `i` between state `i` and state `i + 1`,
/// state `i` has exactly `i` deltas, so `processed_commits` counts the
/// `process` calls.
pub proof fn lemma_one_delta_per_commit(
    walk: Seq<GraphWalker>,
    commits: Seq<CommitId>,
    parents: Seq<Seq<CommitId>>,
)
    requires
        walk.len() == commits.len() + 1,
        parents.len() == commits.len(),
        walk[0].buffer.deltas@.len() == 0,
        forall|i: int|
            #![trigger commits[i]]
            0 <= i < commits.len() ==> spec_processed(walk[i], walk[i + 1], commits[i], parents[i]),
    ensures
        forall|i: int| 0 <= i < walk.len() ==> #[trigger] walk[i].buffer.deltas@.len() == i,
{
    assert forall|i: int| 0 <= i < walk.len() implies #[trigger] walk[i].buffer.deltas@.len() == i by {
        lemma_deltas_count_calls(walk, commits, parents, i);
    }
}

/// Lays commits out on lanes as the log is walked, and renders rows.
pub struct GraphWalker {
    pub buffer: Buffer,
    pub oids: GraphOids,
    pub branch_lane_map: HashMap<CommitId, usize>,
    /// Maps a merge commit's alias to the alias of its second parent.
    pub merge_parents: HashMap<AliasId, AliasId>,
}

impl GraphWalker {
    /// The walker's invariant: a well-formed history, dense aliases, and no
    /// merge commit left pending between two commits.
    pub open spec fn wf(&self) -> bool {
        &&& self.buffer.wf()
        &&& self.buffer.pending_merges().len() == 0
        &&& self.oids.wf()
    }

    /// A walker that has seen no commit.
    pub fn new() -> (w: Self)
        ensures
            w.wf(),
            w.buffer.deltas@.len() == 0,
            w.buffer.current@.len() == 0,
            w.oids@ == Map::<CommitId, AliasId>::empty(),
            w.merge_parents@ == Map::<AliasId, AliasId>::empty(),
            w.branch_lane_map@ == Map::<CommitId, usize>::empty(),
            w.buffer.pending_merges().len() == 0,
    {
        Self {
            buffer: Buffer::new(),
            oids: GraphOids::new(),
            branch_lane_map: HashMap::new(),
            merge_parents: HashMap::new(),
        }
    }

    /// Checks if tracking a merge commit would be redundant based on current buffer state.
    fn is_redundant_merge_track(&self, target_parent: AliasId) -> (r: bool)
        ensures
            r == spec_redundant_merge_track(self.buffer.current@, target_parent),
    {
        let mut i: usize = 0;
        while i < self.buffer.current.len()
            invariant
                i <= self.buffer.current@.len(),
                forall|j: int|
                    0 <= j < i ==> !(#[trigger] self.buffer.current@[j] matches Some(c)
                        && c.parent_a == Some(target_parent) && c.parent_b is None),
            decreases self.buffer.current@.len() - i,
        {
            if let Some(commit) = &self.buffer.current[i] {
                if commit.parent_a == Some(target_parent) && commit.parent_b.is_none() {
                    return true;
                }
            }
            i += 1;
        }
        false
    }

    /// Fold the commit `commit_id` with its `parents` into the graph. Only
    /// the first two parents count: octopus merges draw as plain merges.
    pub fn process(&mut self, commit_id: CommitId, parents: &[CommitId])
        requires
            old(self).wf(),
        ensures
            spec_processed(*old(self), *final(self), commit_id, parents@),
    {
        let commit_alias = self.oids.get_or_insert(&commit_id);
        // We explicitly cap support at 2 parents, ignoring octo/mega merges.
        let first_parent = if parents.len() > 0 {
            Some(self.oids.get_or_insert(&parents[0]))
        } else {
            None
        };
        let second_parent = if parents.len() > 1 {
            Some(self.oids.get_or_insert(&parents[1]))
        } else {
            None
        };
        let chunk = Chunk {
            alias: Some(commit_alias),
            parent_a: first_parent,
            parent_b: second_parent,
            marker: Markers::Commit,
        };
        if let Some(second) = second_parent {
            alias_map_insert(&mut self.merge_parents, commit_alias, second);
            if first_parent.is_some() && !self.is_redundant_merge_track(second) {
                self.buffer.track_merge_commit(commit_alias);
            }
        }
        self.buffer.update(&chunk);
    }

    /// Number of commits already folded into the graph buffer.
    pub fn processed_commits(&self) -> (n: usize)
        ensures
            n == self.buffer.deltas@.len(),
    {
        self.buffer.deltas.len()
    }

    /// Locates the primary lane for the current commit.
    fn find_commit_lane(current_snapshot: &[Option<Chunk>], commit_alias: Option<AliasId>) -> (r: usize)
        ensures
            r == spec_commit_lane(current_snapshot@, commit_alias),
            current_snapshot@.len() == 0 || r < current_snapshot@.len(),
    {
        let target_alias = match commit_alias {
            Some(a) => a,
            None => return 0,
        };
        let mut i: usize = 0;
        while i < current_snapshot.len()
            invariant
                commit_alias == Some(target_alias),
                i <= current_snapshot@.len(),
                forall|j: int| 0 <= j < i ==> !#[trigger] holds_pred(target_alias)(current_snapshot@[j]),
            decreases current_snapshot@.len() - i,
        {
            if let Some(chunk) = &current_snapshot[i] {
                if chunk.alias == Some(target_alias) {
                    proof {
                        lemma_first_index_at(current_snapshot@, holds_pred(target_alias), i as int);
                    }
                    return i;
                }
            }
            i += 1;
        }
        proof {
            lemma_first_index_at(current_snapshot@, holds_pred(target_alias), i as int);
        }
        0
    }

    /// Computes the span (min, max) between the commit's lane and its second parent's lane.
    fn calculate_merge_bridge(
        current_snapshot: &[Option<Chunk>],
        commit_lane: usize,
        second_parent_alias: AliasId,
    ) -> (r: Option<(usize, usize)>)
        ensures
            r == spec_merge_bridge(current_snapshot@, commit_lane, second_parent_alias),
    {
        let mut i: usize = 0;
        while i < current_snapshot.len()
            invariant
                i <= current_snapshot@.len(),
                forall|j: int|
                    0 <= j < i ==> !#[trigger] awaits_pred(second_parent_alias)(current_snapshot@[j]),
            decreases current_snapshot@.len() - i,
        {
            if let Some(chunk) = &current_snapshot[i] {
                if chunk.parent_a == Some(second_parent_alias) {
                    proof {
                        lemma_first_index_at(current_snapshot@, awaits_pred(second_parent_alias), i as int);
                    }
                    let low = if commit_lane < i {
                        commit_lane
                    } else {
                        i
                    };
                    let high = if commit_lane < i {
                        i
                    } else {
                        commit_lane
                    };
                    return Some((low, high));
                }
            }
            i += 1;
        }
        proof {
            lemma_first_index_at(current_snapshot@, awaits_pred(second_parent_alias), i as int);
        }
        None
    }

    /// Identifies lanes that existed in the previous row but terminated before the current row.
    fn find_branching_lanes(
        current_snapshot: &[Option<Chunk>],
        previous_snapshot: Option<&[Option<Chunk>]>,
    ) -> (r: Vec<usize>)
        ensures
            r@ == spec_branching_lanes(current_snapshot@, opt_view(previous_snapshot)),
            forall|k: int| 0 <= k < r@.len() ==> #[trigger] r@[k] < usize::MAX,
    {
        let previous = match previous_snapshot {
            Some(p) => p,
            None => return Vec::new(),
        };
        let mut r: Vec<usize> = Vec::new();
        let previous_len = previous.len();
        let mut index: usize = 0;
        while index < previous_len
            invariant
                previous_len == previous@.len(),
                index <= previous@.len(),
                r@ == branching_upto(current_snapshot@, previous@, index as int),
                forall|k: int| 0 <= k < r@.len() ==> #[trigger] r@[k] < index,
            decreases previous@.len() - index,
        {
            if previous[index].is_some() && (index >= current_snapshot.len()
                || current_snapshot[index].is_none()) {
                r.push(index);
            }
            index += 1;
        }
        r
    }

    /// Determines the correct node type for the active commit lane.
    fn determine_commit_connection(is_stash: bool, is_merge: bool, is_branch_tip: bool) -> (r:
        ConnectionType)
        ensures
            r == spec_commit_connection(is_stash, is_merge, is_branch_tip),
    {
        match (is_stash, is_merge, is_branch_tip) {
            (true, _, _) => ConnectionType::CommitStash,
            (_, true, _) => ConnectionType::CommitMerge,
            (_, _, true) => ConnectionType::CommitBranch,
            _ => ConnectionType::CommitNormal,
        }
    }

    /// Determines the correct vertical line style for non-commit passthrough lanes.
    fn determine_passthrough_connection(chunk: &Chunk, lane_index: usize, head_alias: Option<AliasId>) -> (r:
        Option<ConnectionType>)
        ensures
            r == spec_passthrough(*chunk, lane_index as int, head_alias),
    {
        let is_orphan = chunk.parent_a.is_none() && chunk.parent_b.is_none();
        if is_orphan {
            return None;
        }
        let is_dotted = lane_index == 0 && head_alias.is_some() && (chunk.parent_a == head_alias
            || chunk.parent_b == head_alias);
        if is_dotted {
            Some(ConnectionType::VerticalDotted)
        } else {
            Some(ConnectionType::Vertical)
        }
    }

    /// Determines if a lane should draw an upward-connecting corner.
    fn lane_continues_upwards(
        target_lane: usize,
        current_snapshot: &[Option<Chunk>],
        previous_snapshot: Option<&[Option<Chunk>]>,
    ) -> (r: bool)
        ensures
            r == spec_continues_upwards(target_lane, current_snapshot@, opt_view(previous_snapshot)),
    {
        let exists_in_current = target_lane < current_snapshot.len();
        let matches_previous = match previous_snapshot {
            Some(previous) => target_lane < previous.len() && target_lane < current_snapshot.len()
                && previous[target_lane] == current_snapshot[target_lane],
            None => false,
        };
        exists_in_current && matches_previous
    }

    /// The corner of a merge bridge at the end opposite the commit.
    fn calculate_merge_directions(commit_lane: usize, target_lane: usize, continues_upwards: bool) -> (r:
        Directions)
        ensures
            r == spec_merge_directions(commit_lane, target_lane, continues_upwards),
    {
        Directions {
            up: continues_upwards,
            down: true,
            left: target_lane > commit_lane,
            right: target_lane < commit_lane,
        }
    }

    /// The corner of a branch bridge at the branch's lane.
    fn calculate_branch_directions(branch_lane: usize, start_lane: usize, end_lane: usize) -> (r:
        Directions)
        ensures
            r == spec_branch_directions(branch_lane, start_lane, end_lane),
    {
        Directions {
            up: true,
            down: false,
            left: branch_lane == end_lane,
            right: branch_lane == start_lane,
        }
    }

    /// Grow `lanes` with empty cells until it holds `required_index`.
    fn ensure_lane_capacity(lanes: &mut Vec<Cell>, required_index: usize)
        requires
            required_index < usize::MAX,
        ensures
            final(lanes)@ == spec_with_capacity(old(lanes)@, required_index),
    {
        if lanes.len() <= required_index {
            let ghost before = lanes@;
            while lanes.len() <= required_index
                invariant
                    required_index < usize::MAX,
                    before.len() <= lanes@.len() <= required_index + 1,
                    lanes@.subrange(0, before.len() as int) == before,
                    forall|i: int| before.len() <= i < lanes@.len() ==> #[trigger] lanes@[i] is None,
                decreases required_index + 1 - lanes@.len(),
            {
                let ghost prior = lanes@;
                lanes.push(None);
                assert(lanes@.subrange(0, before.len() as int) =~= prior.subrange(0, before.len() as int));
            }
            assert(lanes@ =~= spec_with_capacity(before, required_index));
        }
    }

    /// Lay the horizontal run of a bridge over the lanes strictly
    /// between its two ends, merging with whatever each cell already
    /// shows.
    fn draw_bridge_span(lanes: &mut Vec<Cell>, from: usize, to: usize, color: LaneIndex)
        requires
            from < usize::MAX,
        ensures
            final(lanes)@ == spec_bridge_span(old(lanes)@, from as int, to as int, color),
    {
        let ghost before = lanes@;
        let mut lane = from + 1;
        while lane < to && lane < lanes.len()
            invariant
                from < lane,
                lanes@.len() == before.len(),
                forall|i: int|
                    0 <= i < before.len() ==> #[trigger] lanes@[i] == if from < i && i < lane && i < to {
                        spec_overlay(before[i], spec_horizontal_line(), color)
                    } else {
                        before[i]
                    },
            decreases lanes@.len() - lane,
        {
            let mut cell = lanes[lane];
            overlay_cell(&mut cell, Directions::horizontal_line(), color);
            lanes.set(lane, cell);
            lane += 1;
        }
        assert(lanes@ =~= spec_bridge_span(before, from as int, to as int, color));
    }

    /// Draw the merge bridge (if any): the corner at the end opposite the
    /// commit, and the run between both ends.
    fn draw_merge_bridge(
        lanes: &mut Vec<Cell>,
        merge_bridge: Option<(usize, usize)>,
        commit_lane: usize,
        current_snapshot: &[Option<Chunk>],
        previous_snapshot: Option<&[Option<Chunk>]>,
    )
        requires
            merge_bridge matches Some((s, t)) ==> s != t ==> (if s == commit_lane {
                t
            } else {
                s
            }) < old(lanes)@.len() && s < usize::MAX,
        ensures
            final(lanes)@ == spec_draw_merge_bridge(
                old(lanes)@,
                merge_bridge,
                commit_lane,
                current_snapshot@,
                opt_view(previous_snapshot),
            ),
    {
        let (source_lane, target_lane) = match merge_bridge {
            Some(span) => span,
            None => return ,
        };
        if source_lane == target_lane {
            return ;
        }
        let destination_lane = if source_lane == commit_lane {
            target_lane
        } else {
            source_lane
        };
        let connection_color = lane_color(destination_lane);
        let continues_upwards = Self::lane_continues_upwards(
            destination_lane,
            current_snapshot,
            previous_snapshot,
        );
        let target_directions = Self::calculate_merge_directions(
            commit_lane,
            destination_lane,
            continues_upwards,
        );
        // Replace the plain vertical fill with the precise corner/junction
        let mut corner: Cell = None;
        overlay_cell(&mut corner, target_directions, connection_color);
        lanes.set(destination_lane, corner);
        Self::draw_bridge_span(lanes, source_lane, target_lane, connection_color);
    }

    /// Draw every branch bridge closing into the commit's lane; returns
    /// their spans.
    fn draw_branching_lanes(lanes: &mut Vec<Cell>, branching_lanes: &[usize], commit_lane: usize) -> (r:
        Vec<(LaneIndex, LaneIndex)>)
        requires
            commit_lane < usize::MAX,
            forall|k: int| 0 <= k < branching_lanes@.len() ==> #[trigger] branching_lanes@[k] < usize::MAX,
        ensures
            final(lanes)@ == spec_draw_branches(old(lanes)@, branching_lanes@, commit_lane),
            r@ == spec_branch_spans(branching_lanes@, commit_lane),
    {
        let ghost start_lanes = lanes@;
        let ghost bl = branching_lanes@;
        let mut r: Vec<(LaneIndex, LaneIndex)> = Vec::new();
        let mut i: usize = 0;
        while i < branching_lanes.len()
            invariant
                bl == branching_lanes@,
                commit_lane < usize::MAX,
                forall|k: int| 0 <= k < bl.len() ==> #[trigger] bl[k] < usize::MAX,
                i <= bl.len(),
                lanes@ == spec_draw_branches(start_lanes, bl.take(i as int), commit_lane),
                r@ == spec_branch_spans(bl.take(i as int), commit_lane),
            decreases bl.len() - i,
        {
            proof {
                assert(bl.take(i + 1).drop_last() =~= bl.take(i as int));
            }
            let branch_lane = branching_lanes[i];
            let start_lane = if branch_lane < commit_lane {
                branch_lane
            } else {
                commit_lane
            };
            let end_lane = if branch_lane < commit_lane {
                commit_lane
            } else {
                branch_lane
            };
            Self::ensure_lane_capacity(lanes, end_lane);
            let connection_color = lane_color(branch_lane);
            Self::draw_bridge_span(lanes, start_lane, end_lane, connection_color);
            let branch_directions = Self::calculate_branch_directions(
                branch_lane,
                start_lane,
                end_lane,
            );
            let mut cell = lanes[branch_lane];
            overlay_cell(&mut cell, branch_directions, connection_color);
            lanes.set(branch_lane, cell);
            r.push((LaneIndex::from(start_lane), LaneIndex::from(end_lane)));
            i += 1;
            proof {
                assert(r@ =~= spec_branch_spans(bl.take(i as int), commit_lane));
            }
        }
        proof {
            assert(bl.take(i as int) =~= bl);
        }
        r
    }

    /// Render the row of `commit_id` from its lane state and the lane state
    /// of the row above.
    pub fn render_row(
        &self,
        commit_id: &CommitId,
        current_snapshot: &[Option<Chunk>],
        previous_snapshot: Option<&[Option<Chunk>]>,
        branch_tips: &HashSet<CommitId>,
        stashes: &HashSet<CommitId>,
        head_id: Option<&CommitId>,
    ) -> (row: GraphRow)
        ensures
            rendered(
                row,
                self.oids@,
                self.merge_parents@,
                *commit_id,
                current_snapshot@,
                opt_view(previous_snapshot),
                branch_tips@,
                stashes@,
                opt_id(head_id),
            ),
    {
        let commit_alias = self.oids.get(commit_id);
        let head_alias = match head_id {
            Some(id) => self.oids.get(id),
            None => None,
        };
        let second_parent_alias = match commit_alias {
            Some(alias) => alias_map_get(&self.merge_parents, &alias),
            None => None,
        };
        let commit_lane = Self::find_commit_lane(current_snapshot, commit_alias);
        let is_merge = second_parent_alias.is_some();
        let is_branch_tip = id_set_contains(branch_tips, commit_id);
        let is_stash = id_set_contains(stashes, commit_id);
        let branching_lanes = Self::find_branching_lanes(current_snapshot, previous_snapshot);
        let merge_bridge = match second_parent_alias {
            Some(parent_alias) => Self::calculate_merge_bridge(
                current_snapshot,
                commit_lane,
                parent_alias,
            ),
            None => None,
        };
        let marker = Self::determine_commit_connection(is_stash, is_merge, is_branch_tip);
        let ghost cur = current_snapshot@;
        let mut lanes: Vec<Cell> = Vec::new();
        let mut lane_index: usize = 0;
        while lane_index < current_snapshot.len()
            invariant
                cur == current_snapshot@,
                lane_index <= cur.len(),
                lanes@.len() == lane_index,
                forall|j: int|
                    0 <= j < lane_index ==> #[trigger] lanes@[j] == spec_base_cell(
                        cur[j],
                        j,
                        commit_alias,
                        head_alias,
                        marker,
                    ),
            decreases cur.len() - lane_index,
        {
            let cell = match &current_snapshot[lane_index] {
                None => None,
                Some(chunk) => {
                    if commit_alias.is_some() && chunk.alias == commit_alias {
                        Some((marker, lane_color(lane_index)))
                    } else {
                        match Self::determine_passthrough_connection(chunk, lane_index, head_alias) {
                            Some(connection) => Some((connection, lane_color(lane_index))),
                            None => None,
                        }
                    }
                },
            };
            lanes.push(cell);
            lane_index += 1;
        }
        proof {
            assert(lanes@ =~= spec_base_lanes(cur, commit_alias, head_alias, marker));
            if let Some(p) = second_parent_alias {
                lemma_first_index(cur, awaits_pred(p));
            }
        }
        Self::draw_merge_bridge(
            &mut lanes,
            merge_bridge,
            commit_lane,
            current_snapshot,
            previous_snapshot,
        );
        let branches = Self::draw_branching_lanes(&mut lanes, branching_lanes.as_slice(), commit_lane);
        let mut active_lane_count: usize = 0;
        let mut i: usize = 0;
        while i < current_snapshot.len()
            invariant
                cur == current_snapshot@,
                i <= cur.len(),
                active_lane_count <= i,
                active_lane_count == count_occupied(cur.take(i as int)),
            decreases cur.len() - i,
        {
            proof {
                assert(cur.take(i + 1).drop_last() =~= cur.take(i as int));
            }
            if current_snapshot[i].is_some() {
                active_lane_count += 1;
            }
            i += 1;
        }
        proof {
            assert(cur.take(i as int) =~= cur);
        }
        let bridge = match merge_bridge {
            Some((source, target)) => Some((LaneIndex::from(source), LaneIndex::from(target))),
            None => None,
        };
        GraphRow {
            lane_count: LaneIndex::from(active_lane_count),
            commit_lane: LaneIndex::from(commit_lane),
            is_merge,
            is_branch_tip,
            is_stash,
            lanes,
            merge_bridge: bridge,
            branches,
        }
    }

    /// Render the rows of `commit_range`, the commits of the walk from
    /// index `global_start_index` on.
    pub fn compute_rows(
        &self,
        commit_range: &[CommitId],
        global_start_index: usize,
        branch_tips: &HashSet<CommitId>,
        stashes: &HashSet<CommitId>,
        head_id: Option<&CommitId>,
    ) -> (rows: Vec<GraphRow>)
        requires
            self.buffer.history_ok(),
            global_start_index + commit_range@.len() <= usize::MAX,
        ensures
            rows@.len() == commit_range@.len(),
            forall|i: int|
                0 <= i < rows@.len() ==> rendered(
                    #[trigger] rows@[i],
                    self.oids@,
                    self.merge_parents@,
                    commit_range@[i],
                    row_state(self.buffer.deltas@, global_start_index + i),
                    prev_row_state(self.buffer.deltas@, global_start_index + i),
                    branch_tips@,
                    stashes@,
                    opt_id(head_id),
                ),
    {
        let mut rows: Vec<GraphRow> = Vec::new();
        if commit_range.len() == 0 {
            return rows;
        }
        // Decompress one row before the range to establish predecessor state
        let snapshot_start_index = if global_start_index > 0 {
            global_start_index - 1
        } else {
            0
        };
        let snapshot_end_index = global_start_index + commit_range.len() - 1;
        let snapshots = self.buffer.decompress(snapshot_start_index, snapshot_end_index);
        let index_offset = global_start_index - snapshot_start_index;
        let empty: Vec<Option<Chunk>> = Vec::new();
        let ghost d = self.buffer.deltas@;
        let mut range_index: usize = 0;
        while range_index < commit_range.len()
            invariant
                d == self.buffer.deltas@,
                global_start_index + commit_range@.len() <= usize::MAX,
                commit_range@.len() > 0,
                snapshot_start_index == if global_start_index > 0 {
                    global_start_index - 1
                } else {
                    0
                },
                snapshot_end_index == global_start_index + commit_range@.len() - 1,
                index_offset == global_start_index - snapshot_start_index,
                empty@.len() == 0,
                snapshots@.len() == super::buffer::decompressed_len(
                    snapshot_start_index as int,
                    snapshot_end_index as int,
                    d.len() as int,
                ),
                forall|k: int|
                    0 <= k < snapshots@.len() ==> #[trigger] snapshots@[k]@ == state_after(
                        d,
                        (snapshot_start_index + k + 1) as nat,
                    ),
                range_index <= commit_range@.len(),
                rows@.len() == range_index,
                forall|i: int|
                    0 <= i < range_index ==> rendered(
                        #[trigger] rows@[i],
                        self.oids@,
                        self.merge_parents@,
                        commit_range@[i],
                        row_state(d, global_start_index + i),
                        prev_row_state(d, global_start_index + i),
                        branch_tips@,
                        stashes@,
                        opt_id(head_id),
                    ),
            decreases commit_range@.len() - range_index,
        {
            let snapshot_index = range_index + index_offset;
            let current_snapshot: &[Option<Chunk>] = if snapshot_index < snapshots.len() {
                snapshots[snapshot_index].as_slice()
            } else {
                empty.as_slice()
            };
            let previous_snapshot: Option<&[Option<Chunk>]> = if snapshot_index >= 1
                && snapshot_index - 1 < snapshots.len() {
                Some(snapshots[snapshot_index - 1].as_slice())
            } else {
                None
            };
            proof {
                let g = global_start_index + range_index;
                assert(current_snapshot@ == row_state(d, g));
                assert(opt_view(previous_snapshot) == prev_row_state(d, g));
            }
            let row = self.render_row(
                &commit_range[range_index],
                current_snapshot,
                previous_snapshot,
                branch_tips,
                stashes,
                head_id,
            );
            rows.push(row);
            range_index += 1;
        }
        rows
    }
}

impl Default for GraphWalker {
    fn default() -> (w: Self)
        ensures
            w.wf(),
            w.buffer.deltas@.len() == 0,
            w.buffer.current@.len() == 0,
            w.oids@ == Map::<CommitId, AliasId>::empty(),
            w.merge_parents@ == Map::<AliasId, AliasId>::empty(),
            w.branch_lane_map@ == Map::<CommitId, usize>::empty(),
            w.buffer.pending_merges().len() == 0,
    {
        Self::new()
    }
}

} // verus!
