//! What a rendered row must show, whatever the walk: the marker on the
//! commit's own lane, the count of active lanes, empty cells under root
//! commits, and the color of each branch bridge's corner.

use super::buffer::{awaits_pred, first_index, holds_pred, lemma_first_index};
use super::chunk::Chunk;
use super::draw::{spec_conn_dirs, spec_horizontal_line, spec_lane_color, spec_overlay, Cell};
use super::walker::{
    branching_upto, count_occupied, rendered, spec_base_lanes, spec_bridge_span,
    spec_branching_lanes, spec_commit_connection, spec_commit_lane, spec_draw_branch,
    spec_draw_branches, spec_draw_merge_bridge, spec_merge_bridge, spec_with_capacity, lookup,
    min_lane, max_lane,
};
use super::{spec_lane_index, AliasId, ConnectionType, GraphRow, LaneIndex};
use crate::sync::CommitId;
use vstd::prelude::*;

verus! {

/// An occupied lane.
pub open spec fn occupied() -> spec_fn(Option<Chunk>) -> bool {
    |slot: Option<Chunk>| slot is Some
}

/// A cell holding a commit marker, which nothing draws over.
pub open spec fn is_marker(cell: Cell) -> bool {
    cell matches Some((c, _)) && spec_conn_dirs(c) is None
}

/// A cell holding a line that reaches the cell above.
pub open spec fn reaches_up(cell: Cell) -> bool {
    cell matches Some((c, _)) && spec_conn_dirs(c) matches Some(d) && d.up
}

/// A cell that is empty or holds a line reaching neither up nor down.
pub open spec fn level_or_empty(cell: Cell) -> bool {
    cell is None || (cell matches Some((c, _)) && spec_conn_dirs(c) matches Some(d) && !d.up
        && !d.down)
}

/// The color of a lane: the lane number modulo the palette of 16.
pub open spec fn palette(lane: int) -> LaneIndex {
    LaneIndex((lane % 16) as u8)
}

// ---------------------------------------------------------------------
// The count of active lanes.
// ---------------------------------------------------------------------
proof fn lemma_count_occupied(s: Seq<Option<Chunk>>)
    ensures
        count_occupied(s) == s.filter(occupied()).len(),
        count_occupied(s) <= s.len(),
        (exists|j: int| 0 <= j < s.len() && #[trigger] s[j] is None) ==> count_occupied(s)
            < s.len(),
    decreases s.len(),
{
    reveal_with_fuel(Seq::filter, 1);
    if s.len() > 0 {
        lemma_count_occupied(s.drop_last());
        if exists|j: int| 0 <= j < s.len() && #[trigger] s[j] is None {
            let j = choose|j: int| 0 <= j < s.len() && #[trigger] s[j] is None;
            if j < s.len() - 1 {
                assert(s.drop_last()[j] is None);
            }
        }
    }
}

/// A row's lane count is the number of occupied lanes of its lane state
/// (saturating at 255): never more than the lanes, and fewer when a lane
/// is empty.
pub proof fn lemma_lane_count_counts_occupied(
    row: GraphRow,
    oids: Map<CommitId, AliasId>,
    merge_parents: Map<AliasId, AliasId>,
    commit_id: CommitId,
    cur: Seq<Option<Chunk>>,
    prev: Option<Seq<Option<Chunk>>>,
    tips: Set<CommitId>,
    stashes: Set<CommitId>,
    head: Option<CommitId>,
)
    requires
        rendered(row, oids, merge_parents, commit_id, cur, prev, tips, stashes, head),
    ensures
        row.lane_count == spec_lane_index(cur.filter(occupied()).len() as int),
        cur.filter(occupied()).len() <= cur.len(),
        (exists|j: int| 0 <= j < cur.len() && #[trigger] cur[j] is None) ==> cur.filter(
            occupied(),
        ).len() < cur.len(),
{
    lemma_count_occupied(cur);
}

// ---------------------------------------------------------------------
// Commit markers.
// ---------------------------------------------------------------------
/// A span keeps every marker.
proof fn lemma_span_keeps_markers(lanes: Seq<Cell>, from: int, to: int, color: LaneIndex, i: int)
    requires
        0 <= i < lanes.len(),
        is_marker(lanes[i]),
    ensures
        spec_bridge_span(lanes, from, to, color).len() == lanes.len(),
        spec_bridge_span(lanes, from, to, color)[i] == lanes[i],
{
}

/// Drawing branch bridges keeps every marker.
proof fn lemma_branches_keep_markers(lanes: Seq<Cell>, branches: Seq<usize>, commit_lane: usize, i: int)
    requires
        0 <= i < lanes.len(),
        is_marker(lanes[i]),
    ensures
        spec_draw_branches(lanes, branches, commit_lane).len() >= lanes.len(),
        spec_draw_branches(lanes, branches, commit_lane)[i] == lanes[i],
    decreases branches.len(),
{
    if branches.len() > 0 {
        lemma_branches_keep_markers(lanes, branches.drop_last(), commit_lane, i);
        let l = spec_draw_branches(lanes, branches.drop_last(), commit_lane);
        let b = branches.last();
        let end = max_lane(b, commit_lane);
        let grown = spec_with_capacity(l, end);
        assert(grown[i] == l[i]);
    }
}

/// The commit's own lane shows its marker: stash over merge over branch
/// tip over a plain commit, in the color of its lane, whatever bridges
/// pass.
pub proof fn lemma_commit_marker(
    row: GraphRow,
    oids: Map<CommitId, AliasId>,
    merge_parents: Map<AliasId, AliasId>,
    commit_id: CommitId,
    cur: Seq<Option<Chunk>>,
    prev: Option<Seq<Option<Chunk>>>,
    tips: Set<CommitId>,
    stashes: Set<CommitId>,
    head: Option<CommitId>,
    i: int,
)
    requires
        rendered(row, oids, merge_parents, commit_id, cur, prev, tips, stashes, head),
        oids.contains_key(commit_id),
        cur.len() <= usize::MAX,
        0 <= i < cur.len(),
        cur[i] matches Some(c) && c.alias == Some(oids[commit_id]),
        forall|j: int|
            0 <= j < i ==> !(#[trigger] cur[j] matches Some(c) && c.alias == Some(oids[commit_id])),
    ensures
        row.is_stash == stashes.contains(commit_id),
        row.is_branch_tip == tips.contains(commit_id),
        row.commit_lane == spec_lane_index(i),
        row.lanes@[i] == Some(
            (
                if row.is_stash {
                    ConnectionType::CommitStash
                } else if row.is_merge {
                    ConnectionType::CommitMerge
                } else if row.is_branch_tip {
                    ConnectionType::CommitBranch
                } else {
                    ConnectionType::CommitNormal
                },
                palette(i),
            ),
        ),
{
    let a = oids[commit_id];
    assert forall|j: int| 0 <= j < i implies !#[trigger] holds_pred(a)(cur[j]) by {
        assert(!(cur[j] matches Some(c) && c.alias == Some(a)));
    }
    super::buffer::lemma_first_index_at(cur, holds_pred(a), i);
    let cl = spec_commit_lane(cur, Some(a));
    assert(cl == i);
    let commit_alias = lookup(oids, commit_id);
    let head_alias = match head {
        Some(h) => lookup(oids, h),
        None => None,
    };
    let second = lookup(merge_parents, a);
    let marker = spec_commit_connection(
        stashes.contains(commit_id),
        second is Some,
        tips.contains(commit_id),
    );
    let base = spec_base_lanes(cur, commit_alias, head_alias, marker);
    assert(base[i] == Some((marker, spec_lane_color(i))));
    assert(is_marker(base[i]));
    let mb = match second {
        Some(p) => spec_merge_bridge(cur, cl, p),
        None => None,
    };
    let bridged = spec_draw_merge_bridge(base, mb, cl, cur, prev);
    if let Some(p) = second {
        lemma_first_index(cur, awaits_pred(p));
    }
    if let Some((s, t)) = mb {
        assert(s < cur.len() && t < cur.len());
        if s != t {
            let dest = if s == cl {
                t
            } else {
                s
            };
            assert(dest != cl);
            let color = spec_lane_color(dest as int);
            let l1 = base.update(dest as int, spec_overlay(None, super::walker::spec_merge_directions(
                cl, dest, super::walker::spec_continues_upwards(dest, cur, prev)), color));
            assert(l1[i] == base[i]);
            lemma_span_keeps_markers(l1, s as int, t as int, color, i);
        }
    }
    assert(bridged[i] == base[i]);
    lemma_branches_keep_markers(bridged, spec_branching_lanes(cur, prev), cl, i);
}

// ---------------------------------------------------------------------
// Root commits.
// ---------------------------------------------------------------------
/// Nothing is drawn under a root commit: in a row without bridges, a lane
/// whose occupant has no parent and is not the row's commit is empty.
pub proof fn lemma_root_lane_is_empty(
    row: GraphRow,
    oids: Map<CommitId, AliasId>,
    merge_parents: Map<AliasId, AliasId>,
    commit_id: CommitId,
    cur: Seq<Option<Chunk>>,
    prev: Option<Seq<Option<Chunk>>>,
    tips: Set<CommitId>,
    stashes: Set<CommitId>,
    head: Option<CommitId>,
    i: int,
)
    requires
        rendered(row, oids, merge_parents, commit_id, cur, prev, tips, stashes, head),
        row.merge_bridge is None,
        row.branches@.len() == 0,
        0 <= i < cur.len(),
        cur[i] matches Some(c) && c.parent_a is None && c.parent_b is None && !(oids.contains_key(
            commit_id,
        ) && c.alias == Some(oids[commit_id])),
    ensures
        row.lanes@[i] is None,
{
    let commit_alias = lookup(oids, commit_id);
    let head_alias = match head {
        Some(h) => lookup(oids, h),
        None => None,
    };
    let second = match commit_alias {
        Some(a) => lookup(merge_parents, a),
        None => None,
    };
    let cl = spec_commit_lane(cur, commit_alias);
    let marker = spec_commit_connection(
        stashes.contains(commit_id),
        second is Some,
        tips.contains(commit_id),
    );
    let base = spec_base_lanes(cur, commit_alias, head_alias, marker);
    let mb = match second {
        Some(p) => spec_merge_bridge(cur, cl, p),
        None => None,
    };
    assert(mb is None);
    let branching = spec_branching_lanes(cur, prev);
    assert(branching.len() == row.branches@.len());
    assert(spec_draw_branches(spec_draw_merge_bridge(base, mb, cl, cur, prev), branching, cl) == base);
    assert(base[i] is None);
}

/// No line runs up or down through a root commit's lane: whatever bridges
/// cross the row, a lane whose occupant has no parent and is not the row's
/// commit is empty or holds only a horizontal run.
pub proof fn lemma_root_lane_is_level(
    row: GraphRow,
    oids: Map<CommitId, AliasId>,
    merge_parents: Map<AliasId, AliasId>,
    commit_id: CommitId,
    cur: Seq<Option<Chunk>>,
    prev: Option<Seq<Option<Chunk>>>,
    tips: Set<CommitId>,
    stashes: Set<CommitId>,
    head: Option<CommitId>,
    i: int,
)
    requires
        rendered(row, oids, merge_parents, commit_id, cur, prev, tips, stashes, head),
        cur.len() <= usize::MAX,
        prev matches Some(p) ==> p.len() <= usize::MAX,
        0 <= i < cur.len(),
        cur[i] matches Some(c) && c.parent_a is None && c.parent_b is None && !(oids.contains_key(
            commit_id,
        ) && c.alias == Some(oids[commit_id])),
    ensures
        i < row.lanes@.len(),
        level_or_empty(row.lanes@[i]),
{
    let commit_alias = lookup(oids, commit_id);
    let head_alias = match head {
        Some(h) => lookup(oids, h),
        None => None,
    };
    let second = match commit_alias {
        Some(a) => lookup(merge_parents, a),
        None => None,
    };
    let cl = spec_commit_lane(cur, commit_alias);
    let marker = spec_commit_connection(
        stashes.contains(commit_id),
        second is Some,
        tips.contains(commit_id),
    );
    let base = spec_base_lanes(cur, commit_alias, head_alias, marker);
    let mb = match second {
        Some(p) => spec_merge_bridge(cur, cl, p),
        None => None,
    };
    if let Some(p) = second {
        lemma_first_index(cur, awaits_pred(p));
    }
    if let Some(a) = commit_alias {
        lemma_first_index(cur, holds_pred(a));
    }
    assert(base[i] is None);
    if let Some(p) = second {
        let t = first_index(cur, awaits_pred(p));
        if let Some((s, u)) = mb {
            assert(t < cur.len());
            assert(cur[t] matches Some(c) && c.parent_a == Some(p));
            assert((if s == cl {
                u
            } else {
                s
            }) == t);
            assert(t != i);
        }
    }
    lemma_merge_bridge_level(base, mb, cl, cur, prev, i);
    let bridged = spec_draw_merge_bridge(base, mb, cl, cur, prev);
    assert(level_or_empty(bridged[i]));
    let bl = spec_branching_lanes(cur, prev);
    assert forall|x: int|
        0 <= x < cur.len() && #[trigger] cur[x] is None implies level_or_empty(bridged[x]) by {
        lemma_merge_bridge_level(base, mb, cl, cur, prev, x);
    }
    if let Some(p) = prev {
        lemma_branching_upto(cur, p, p.len() as int);
        assert forall|j: int| 0 <= j < bl.len() implies bl[j] >= bridged.len() || level_or_empty(
            #[trigger] bridged[bl[j] as int],
        ) by {
            if bl[j] < cur.len() {
                assert(cur[bl[j] as int] is None);
            }
        }
        assert forall|j: int| 0 <= j < bl.len() implies #[trigger] bl[j] != i by {
            if bl[j] < cur.len() {
                assert(cur[bl[j] as int] is None);
            }
        }
    }
    lemma_branches_corners(bridged, bl, cl);
}

// ---------------------------------------------------------------------
// Branch bridges.
// ---------------------------------------------------------------------
/// How drawing a line into a cell treats lines reaching up.
proof fn lemma_overlay_reach(cell: Cell, add: super::draw::Directions, color: LaneIndex)
    ensures
        reaches_up(cell) ==> reaches_up(spec_overlay(cell, add, color)) && spec_overlay(
            cell,
            add,
            color,
        )->Some_0.1 == cell->Some_0.1,
        level_or_empty(cell) && !add.up && !add.down ==> level_or_empty(
            spec_overlay(cell, add, color),
        ),
        level_or_empty(cell) && add.up ==> reaches_up(spec_overlay(cell, add, color)) && spec_overlay(
            cell,
            add,
            color,
        )->Some_0.1 == color,
        is_marker(cell) ==> spec_overlay(cell, add, color) == cell,
{
}

/// Drawing the merge bridge leaves a level or empty cell level or empty,
/// unless it is the bridge's far end.
proof fn lemma_merge_bridge_level(
    base: Seq<Cell>,
    mb: Option<(usize, usize)>,
    cl: usize,
    cur: Seq<Option<Chunk>>,
    prev: Option<Seq<Option<Chunk>>>,
    x: int,
)
    requires
        mb matches Some((s, t)) ==> s < base.len() && t < base.len(),
    ensures
        spec_draw_merge_bridge(base, mb, cl, cur, prev).len() == base.len(),
        0 <= x < base.len() && level_or_empty(base[x]) && !(mb matches Some((s, t)) && s != t
            && x == (if s == cl {
            t
        } else {
            s
        })) ==> level_or_empty(spec_draw_merge_bridge(base, mb, cl, cur, prev)[x]),
{
    if let Some((s, t)) = mb {
        if s != t && 0 <= x < base.len() {
            let dest = if s == cl {
                t
            } else {
                s
            };
            let color = spec_lane_color(dest as int);
            let l1 = base.update(dest as int, spec_overlay(None, super::walker::spec_merge_directions(
                cl, dest, super::walker::spec_continues_upwards(dest, cur, prev)), color));
            if x != dest {
                assert(l1[x] == base[x]);
                lemma_overlay_reach(l1[x], spec_horizontal_line(), color);
            }
        }
    }
}

/// The lanes that end between two rows, in increasing order: exactly the
/// lanes occupied above and free (or gone) below.
proof fn lemma_branching_upto(cur: Seq<Option<Chunk>>, prev: Seq<Option<Chunk>>, n: int)
    requires
        0 <= n <= prev.len(),
        n <= usize::MAX,
    ensures
        forall|j: int, k: int|
            0 <= j < k < branching_upto(cur, prev, n).len() ==> branching_upto(cur, prev, n)[j]
                < branching_upto(cur, prev, n)[k],
        forall|j: int|
            #![trigger branching_upto(cur, prev, n)[j]]
            0 <= j < branching_upto(cur, prev, n).len() ==> branching_upto(cur, prev, n)[j] < n && (
            branching_upto(cur, prev, n)[j] >= cur.len() || cur[branching_upto(cur, prev, n)[j] as int] is None),
        forall|b: int|
            0 <= b < n && prev[b] is Some && (b >= cur.len() || cur[b] is None) ==> exists|j: int|
                0 <= j < branching_upto(cur, prev, n).len() && #[trigger] branching_upto(cur, prev, n)[j]
                    == b,
    decreases n,
{
    if n > 0 {
        lemma_branching_upto(cur, prev, n - 1);
        let r = branching_upto(cur, prev, n - 1);
        assert forall|b: int|
            0 <= b < n && prev[b] is Some && (b >= cur.len() || cur[b] is None) implies exists|j: int|
                0 <= j < branching_upto(cur, prev, n).len() && #[trigger] branching_upto(cur, prev, n)[j]
                    == b by {
            if b == n - 1 {
                assert(branching_upto(cur, prev, n)[r.len() as int] == b);
            } else {
                let j = choose|j: int| 0 <= j < r.len() && #[trigger] r[j] == b;
                assert(branching_upto(cur, prev, n)[j] == b);
            }
        }
    }
}

/// One branch bridge: the branch's corner reaches up in the branch's
/// color, lines reaching up elsewhere keep reaching up in their colors,
/// level or empty cells elsewhere stay level or empty, markers stay.
proof fn lemma_draw_branch_step(l: Seq<Cell>, b: usize, cl: usize)
    ensures
        spec_draw_branch(l, b, cl).len() >= l.len(),
        b < spec_draw_branch(l, b, cl).len(),
        (b >= l.len() || level_or_empty(l[b as int])) ==> reaches_up(
            spec_draw_branch(l, b, cl)[b as int],
        ) && spec_draw_branch(l, b, cl)[b as int]->Some_0.1 == spec_lane_color(b as int),
        forall|x: int|
            0 <= x < spec_draw_branch(l, b, cl).len() && x != b ==> {
                &&& (x < l.len() && reaches_up(l[x])) ==> reaches_up(
                    #[trigger] spec_draw_branch(l, b, cl)[x],
                ) && spec_draw_branch(l, b, cl)[x]->Some_0.1 == l[x]->Some_0.1
                &&& (x >= l.len() || level_or_empty(l[x])) ==> level_or_empty(
                    spec_draw_branch(l, b, cl)[x],
                )
            },
{
    let start = min_lane(b, cl);
    let end = max_lane(b, cl);
    let color = spec_lane_color(b as int);
    let grown = spec_with_capacity(l, end);
    let spanned = spec_bridge_span(grown, start as int, end as int, color);
    let r = spec_draw_branch(l, b, cl);
    assert(grown.len() >= l.len() && grown.len() > end);
    assert forall|x: int| 0 <= x < grown.len() implies #[trigger] grown[x] == if x < l.len() {
        l[x]
    } else {
        None
    } by {}
    assert forall|x: int| 0 <= x < r.len() && x != b implies {
        &&& (x < l.len() && reaches_up(l[x])) ==> reaches_up(#[trigger] r[x]) && r[x]->Some_0.1
            == l[x]->Some_0.1
        &&& (x >= l.len() || level_or_empty(l[x])) ==> level_or_empty(r[x])
    } by {
        assert(r[x] == spanned[x]);
        lemma_overlay_reach(grown[x], spec_horizontal_line(), color);
    }
    assert(spanned[b as int] == grown[b as int]);
    lemma_overlay_reach(
        grown[b as int],
        super::walker::spec_branch_directions(b, start, end),
        color,
    );
}

/// Every branch bridge's corner reaches up in its branch's color, when the
/// branches are distinct and their cells start level or empty.
proof fn lemma_branches_corners(lanes: Seq<Cell>, bl: Seq<usize>, cl: usize)
    requires
        forall|j: int, k: int| 0 <= j < k < bl.len() ==> bl[j] < bl[k],
        forall|j: int|
            0 <= j < bl.len() ==> bl[j] >= lanes.len() || level_or_empty(
                #[trigger] lanes[bl[j] as int],
            ),
    ensures
        spec_draw_branches(lanes, bl, cl).len() >= lanes.len(),
        forall|j: int|
            #![trigger bl[j]]
            0 <= j < bl.len() ==> bl[j] < spec_draw_branches(lanes, bl, cl).len() && reaches_up(
                spec_draw_branches(lanes, bl, cl)[bl[j] as int],
            ) && spec_draw_branches(lanes, bl, cl)[bl[j] as int]->Some_0.1 == spec_lane_color(
                bl[j] as int,
            ),
        forall|x: int|
            0 <= x && (forall|j: int| 0 <= j < bl.len() ==> #[trigger] bl[j] != x) && (x
                >= lanes.len() || level_or_empty(lanes[x])) ==> x >= spec_draw_branches(
                lanes,
                bl,
                cl,
            ).len() || level_or_empty(#[trigger] spec_draw_branches(lanes, bl, cl)[x]),
    decreases bl.len(),
{
    if bl.len() > 0 {
        let rest = bl.drop_last();
        let b = bl.last();
        lemma_branches_corners(lanes, rest, cl);
        let l = spec_draw_branches(lanes, rest, cl);
        lemma_draw_branch_step(l, b, cl);
        let r = spec_draw_branches(lanes, bl, cl);
        assert(r == spec_draw_branch(l, b, cl));
        // the last branch starts level or empty
        assert(forall|j: int| 0 <= j < rest.len() ==> #[trigger] rest[j] != b as int);
        assert(b >= l.len() || level_or_empty(l[b as int]));
        assert forall|j: int| #![trigger bl[j]] 0 <= j < bl.len() implies bl[j] < r.len()
            && reaches_up(r[bl[j] as int]) && r[bl[j] as int]->Some_0.1 == spec_lane_color(
            bl[j] as int,
        ) by {
            if j < bl.len() - 1 {
                assert(rest[j] == bl[j]);
                assert(bl[j] < l.len() && reaches_up(l[bl[j] as int]));
                assert(bl[j] != b);
            }
        }
        assert forall|x: int|
            0 <= x && (forall|j: int| 0 <= j < bl.len() ==> #[trigger] bl[j] != x) && (x
                >= lanes.len() || level_or_empty(lanes[x])) implies x >= r.len() || level_or_empty(
            #[trigger] r[x],
        ) by {
            assert(forall|j: int| 0 <= j < rest.len() ==> #[trigger] rest[j] == bl[j]);
            assert(x != b);
        }
    }
}

/// A lane that ends between two rows turns into the commit's row in its
/// own color: the cell of every such lane reaches up, colored like the
/// lane that drew down into it, whatever other bridges pass.
pub proof fn lemma_branch_corner_color(
    row: GraphRow,
    oids: Map<CommitId, AliasId>,
    merge_parents: Map<AliasId, AliasId>,
    commit_id: CommitId,
    cur: Seq<Option<Chunk>>,
    prev: Seq<Option<Chunk>>,
    tips: Set<CommitId>,
    stashes: Set<CommitId>,
    head: Option<CommitId>,
    b: int,
)
    requires
        rendered(row, oids, merge_parents, commit_id, cur, Some(prev), tips, stashes, head),
        cur.len() <= usize::MAX,
        prev.len() <= usize::MAX,
        0 <= b < prev.len(),
        prev[b] is Some,
        b >= cur.len() || cur[b] is None,
    ensures
        b < row.lanes@.len(),
        reaches_up(row.lanes@[b]),
        row.lanes@[b]->Some_0.1 == palette(b),
{
    let commit_alias = lookup(oids, commit_id);
    let head_alias = match head {
        Some(h) => lookup(oids, h),
        None => None,
    };
    let second = match commit_alias {
        Some(a) => lookup(merge_parents, a),
        None => None,
    };
    let cl = spec_commit_lane(cur, commit_alias);
    let marker = spec_commit_connection(
        stashes.contains(commit_id),
        second is Some,
        tips.contains(commit_id),
    );
    let base = spec_base_lanes(cur, commit_alias, head_alias, marker);
    let mb = match second {
        Some(p) => spec_merge_bridge(cur, cl, p),
        None => None,
    };
    let bridged = spec_draw_merge_bridge(base, mb, cl, cur, Some(prev));
    // a lane free in this row is empty or level once the merge bridge is drawn
    if let Some(p) = second {
        lemma_first_index(cur, awaits_pred(p));
    }
    if let Some(a) = commit_alias {
        lemma_first_index(cur, holds_pred(a));
    }
    assert forall|x: int|
        0 <= x < cur.len() && #[trigger] cur[x] is None implies level_or_empty(bridged[x]) by {
        lemma_merge_bridge_level(base, mb, cl, cur, Some(prev), x);
    }
    lemma_merge_bridge_level(base, mb, cl, cur, Some(prev), -1);
    let bl = spec_branching_lanes(cur, Some(prev));
    lemma_branching_upto(cur, prev, prev.len() as int);
    assert forall|j: int| 0 <= j < bl.len() implies bl[j] >= bridged.len() || level_or_empty(
        #[trigger] bridged[bl[j] as int],
    ) by {
        if bl[j] < cur.len() {
            assert(cur[bl[j] as int] is None);
        }
    }
    lemma_branches_corners(bridged, bl, cl);
    let j = choose|j: int| 0 <= j < bl.len() && #[trigger] bl[j] == b;
    assert(bl[j] == b);
    assert(spec_lane_color(b) == palette(b));
}

} // verus!
