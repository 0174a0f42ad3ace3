use super::chunk::{Chunk, Markers};
use super::AliasId;
use std::collections::BTreeMap;
use vstd::prelude::*;

verus! {

/// A single mutation of the lane state, recorded while processing one
/// commit.
#[derive(Clone, Copy, Debug, PartialEq, Eq, Structural)]
pub enum DeltaOp {
    Insert { index: usize, item: Option<Chunk> },
    Remove { index: usize },
    Replace { index: usize, new: Option<Chunk> },
}

/// All lane-state mutations caused by processing a single commit.
/// Applying a `Delta` to the lane state of row `n` yields the lane
/// state of row `n + 1`.
#[derive(Clone, Debug)]
pub struct Delta(pub Vec<DeltaOp>);

/// Number of commits between two full snapshots of the lane state.
pub const CHECKPOINT_INTERVAL: usize = 100;

// ---------------------------------------------------------------------
// The model: lane states and the replay of deltas.
// ---------------------------------------------------------------------
/// `op` can be applied to the lane state `s` without going out of bounds.
pub open spec fn op_applies(s: Seq<Option<Chunk>>, op: DeltaOp) -> bool {
    match op {
        DeltaOp::Insert { index, .. } => index <= s.len(),
        DeltaOp::Remove { index } => index < s.len(),
        DeltaOp::Replace { index, .. } => index < s.len(),
    }
}

/// The lane state after applying `op` to `s`.
pub open spec fn apply_op(s: Seq<Option<Chunk>>, op: DeltaOp) -> Seq<Option<Chunk>> {
    match op {
        DeltaOp::Insert { index, item } => s.insert(index as int, item),
        DeltaOp::Remove { index } => s.remove(index as int),
        DeltaOp::Replace { index, new } => s.update(index as int, new),
    }
}

/// The lane state after applying `ops` to `s`, first to last.
pub open spec fn apply_ops(s: Seq<Option<Chunk>>, ops: Seq<DeltaOp>) -> Seq<Option<Chunk>>
    decreases ops.len(),
{
    if ops.len() == 0 {
        s
    } else {
        apply_op(apply_ops(s, ops.drop_last()), ops.last())
    }
}

/// Every op of `ops` is in bounds when applied, in turn, from `s`.
pub open spec fn ops_apply(s: Seq<Option<Chunk>>, ops: Seq<DeltaOp>) -> bool
    decreases ops.len(),
{
    if ops.len() == 0 {
        true
    } else {
        ops_apply(s, ops.drop_last()) && op_applies(apply_ops(s, ops.drop_last()), ops.last())
    }
}

/// The lane state after the first `n` deltas, replayed from an empty state:
/// the lane state of the row of commit `n - 1` of the walk.
pub open spec fn state_after(deltas: Seq<Delta>, n: nat) -> Seq<Option<Chunk>>
    decreases n,
{
    if n == 0 {
        Seq::empty()
    } else {
        apply_ops(state_after(deltas, (n - 1) as nat), deltas[n - 1].0@)
    }
}

/// Every delta applies, in bounds, to the state that the deltas before it
/// produced.
pub open spec fn replays(deltas: Seq<Delta>) -> bool {
    forall|i: int|
        #![trigger deltas[i]]
        0 <= i < deltas.len() ==> ops_apply(state_after(deltas, i as nat), deltas[i].0@)
}

/// How many rows `decompress(start, end)` yields when `len` commits were
/// walked: those of `start..=end` below `len`.
pub open spec fn decompressed_len(start: int, end: int, len: int) -> int {
    if start <= end && start < len {
        if end < len {
            end - start + 1
        } else {
            len - start
        }
    } else {
        0
    }
}

/// The number of deltas the greatest checkpoint not after row `start`
/// follows, when `len` commits were walked: a multiple of
/// `CHECKPOINT_INTERVAL` up to `start + 1` and `len`; 0 when there is none.
pub open spec fn checkpointed_rows(start: int, len: int) -> int {
    let below = (start + 1) / (CHECKPOINT_INTERVAL as int);
    let taken = len / (CHECKPOINT_INTERVAL as int);
    (if below < taken {
        below
    } else {
        taken
    }) * (CHECKPOINT_INTERVAL as int)
}

/// A lane state whose last lane, if any, is occupied.
pub open spec fn no_trailing_empty(s: Seq<Option<Chunk>>) -> bool {
    s.len() == 0 || s.last() is Some
}

// ---------------------------------------------------------------------
// The model of one update step.
// ---------------------------------------------------------------------
/// Index of the first element of `s` that satisfies `p`, `s.len()` if none.
pub open spec fn first_index<T>(s: Seq<T>, p: spec_fn(T) -> bool) -> int
    decreases s.len(),
{
    if s.len() == 0 {
        0
    } else if p(s[0]) {
        0
    } else {
        1 + first_index(s.drop_first(), p)
    }
}

/// A lane whose occupant flows down to `a`.
pub open spec fn awaits_pred(a: AliasId) -> spec_fn(Option<Chunk>) -> bool {
    |slot: Option<Chunk>| slot matches Some(c) && c.parent_a == Some(a)
}

/// A lane that holds the commit `a`.
pub open spec fn holds_pred(a: AliasId) -> spec_fn(Option<Chunk>) -> bool {
    |slot: Option<Chunk>| slot matches Some(c) && c.alias == Some(a)
}

/// An empty lane.
pub open spec fn empty_pred() -> spec_fn(Option<Chunk>) -> bool {
    |slot: Option<Chunk>| slot is None
}

/// The first lane whose occupant flows down to `alias`, `s.len()` if none.
pub open spec fn awaiting_index(s: Seq<Option<Chunk>>, alias: Option<AliasId>) -> int {
    match alias {
        Some(a) => first_index(s, awaits_pred(a)),
        None => s.len() as int,
    }
}

/// The lane a new chunk goes to: the first lane awaiting it as first
/// parent, else the first empty lane, else a new lane at the end.
pub open spec fn place_target(s: Seq<Option<Chunk>>, chunk: Chunk) -> int {
    let awaiting = awaiting_index(s, chunk.alias);
    if awaiting < s.len() {
        awaiting
    } else {
        first_index(s, empty_pred())
    }
}

/// The lane state once `chunk` is placed.
pub open spec fn placed(s: Seq<Option<Chunk>>, chunk: Chunk) -> Seq<Option<Chunk>> {
    let t = place_target(s, chunk);
    if t < s.len() {
        s.update(t, Some(chunk))
    } else {
        s.push(Some(chunk))
    }
}

/// A lane once the commit `a` is walked: references to `a` as a parent are
/// cleared, and a lane left without a first parent is emptied.
pub open spec fn consume_slot(slot: Option<Chunk>, a: AliasId) -> Option<Chunk> {
    match slot {
        Some(c) => if c.parent_a == Some(a) || c.parent_b == Some(a) {
            let cleared = Chunk {
                parent_a: if c.parent_a == Some(a) { None } else { c.parent_a },
                parent_b: if c.parent_b == Some(a) { None } else { c.parent_b },
                ..c
            };
            if cleared.parent_a is Some {
                Some(cleared)
            } else {
                None
            }
        } else {
            slot
        },
        None => None,
    }
}

/// Every lane but `skip` with the commit `a` consumed.
pub open spec fn consumed(s: Seq<Option<Chunk>>, a: AliasId, skip: int) -> Seq<Option<Chunk>> {
    Seq::new(s.len(), |i: int| if i == skip { s[i] } else { consume_slot(s[i], a) })
}

/// The lane opened for a merge's second parent.
pub open spec fn second_parent_lane(p: AliasId) -> Chunk {
    Chunk { alias: None, parent_a: Some(p), parent_b: None, marker: Markers::Commit }
}

/// The lane state once the merge commit `a` has handed its second parent
/// to a new lane at the end.
pub open spec fn flush_one(s: Seq<Option<Chunk>>, a: AliasId) -> Seq<Option<Chunk>> {
    let idx = first_index(s, holds_pred(a));
    if idx < s.len() {
        let c = s[idx]->Some_0;
        let s1 = s.update(idx, Some(Chunk { parent_b: None, ..c }));
        match c.parent_b {
            Some(p) => s1.push(Some(second_parent_lane(p))),
            None => s1,
        }
    } else {
        s
    }
}

/// The lane state once every pending merge commit is flushed, the most
/// recently tracked first.
pub open spec fn flushed(s: Seq<Option<Chunk>>, merges: Seq<AliasId>) -> Seq<Option<Chunk>>
    decreases merges.len(),
{
    if merges.len() == 0 {
        s
    } else {
        flushed(flush_one(s, merges.last()), merges.drop_last())
    }
}

/// `s` without its trailing empty lanes.
pub open spec fn trimmed(s: Seq<Option<Chunk>>) -> Seq<Option<Chunk>>
    decreases s.len(),
{
    if s.len() > 0 && s.last() is None {
        trimmed(s.drop_last())
    } else {
        s
    }
}

/// The lane state after one commit is folded in.
pub open spec fn spec_update(s: Seq<Option<Chunk>>, merges: Seq<AliasId>, chunk: Chunk) -> Seq<
    Option<Chunk>,
> {
    let p = placed(s, chunk);
    let c = match chunk.alias {
        Some(a) => consumed(p, a, place_target(s, chunk)),
        None => p,
    };
    trimmed(flushed(c, merges))
}

// ---------------------------------------------------------------------
// The ops one update records.
// ---------------------------------------------------------------------
/// The op that places `chunk`: a replace of its target lane, or an insert
/// at the end.
pub open spec fn place_op(s: Seq<Option<Chunk>>, chunk: Chunk) -> DeltaOp {
    let t = place_target(s, chunk);
    if t < s.len() {
        DeltaOp::Replace { index: t as usize, new: Some(chunk) }
    } else {
        DeltaOp::Insert { index: s.len() as usize, item: Some(chunk) }
    }
}

/// The lane refers to `a` as a parent.
pub open spec fn refers_to(slot: Option<Chunk>, a: AliasId) -> bool {
    slot matches Some(c) && (c.parent_a == Some(a) || c.parent_b == Some(a))
}

/// The replaces that consuming `a` records on the lanes below `n` but
/// `skip`, in lane order.
pub open spec fn consume_ops(s: Seq<Option<Chunk>>, a: AliasId, skip: int, n: int) -> Seq<DeltaOp>
    decreases n,
{
    if n <= 0 {
        Seq::empty()
    } else {
        let before = consume_ops(s, a, skip, n - 1);
        if n - 1 != skip && refers_to(s[n - 1], a) {
            before.push(DeltaOp::Replace { index: (n - 1) as usize, new: consume_slot(s[n - 1], a) })
        } else {
            before
        }
    }
}

/// The ops that flushing the merge commit `a` records.
pub open spec fn flush_one_ops(s: Seq<Option<Chunk>>, a: AliasId) -> Seq<DeltaOp> {
    let idx = first_index(s, holds_pred(a));
    if idx < s.len() {
        let c = s[idx]->Some_0;
        let replace = DeltaOp::Replace { index: idx as usize, new: Some(Chunk { parent_b: None, ..c }) };
        match c.parent_b {
            Some(p) => seq![
                replace,
                DeltaOp::Insert { index: s.len() as usize, item: Some(second_parent_lane(p)) },
            ],
            None => seq![replace],
        }
    } else {
        Seq::empty()
    }
}

/// The ops that flushing every pending merge commit records, the most
/// recently tracked first.
pub open spec fn flush_ops(s: Seq<Option<Chunk>>, merges: Seq<AliasId>) -> Seq<DeltaOp>
    decreases merges.len(),
{
    if merges.len() == 0 {
        Seq::empty()
    } else {
        flush_one_ops(s, merges.last()) + flush_ops(flush_one(s, merges.last()), merges.drop_last())
    }
}

/// The removes of the trailing empty lanes, last lane first.
pub open spec fn trim_ops(s: Seq<Option<Chunk>>) -> Seq<DeltaOp>
    decreases s.len(),
{
    if s.len() > 0 && s.last() is None {
        seq![DeltaOp::Remove { index: (s.len() - 1) as usize }] + trim_ops(s.drop_last())
    } else {
        Seq::empty()
    }
}

/// The ops one update records: place, consume, flush, trim.
pub open spec fn update_ops(s: Seq<Option<Chunk>>, merges: Seq<AliasId>, chunk: Chunk) -> Seq<DeltaOp> {
    let p = placed(s, chunk);
    let t = place_target(s, chunk);
    let (c, consuming) = match chunk.alias {
        Some(a) => (consumed(p, a, t), consume_ops(p, a, t, p.len() as int)),
        None => (p, Seq::empty()),
    };
    seq![place_op(s, chunk)] + consuming + flush_ops(c, merges) + trim_ops(flushed(c, merges))
}

// ---------------------------------------------------------------------
// Lemmas.
// ---------------------------------------------------------------------
/// `first_index` is the index of the first match.
pub proof fn lemma_first_index<T>(s: Seq<T>, p: spec_fn(T) -> bool)
    ensures
        0 <= first_index(s, p) <= s.len(),
        first_index(s, p) < s.len() ==> p(s[first_index(s, p)]),
        forall|j: int| 0 <= j < first_index(s, p) ==> !p(#[trigger] s[j]),
    decreases s.len(),
{
    if s.len() > 0 && !p(s[0]) {
        lemma_first_index(s.drop_first(), p);
        assert forall|j: int| 0 <= j < first_index(s, p) implies !p(#[trigger] s[j]) by {
            if j > 0 {
                assert(s[j] == s.drop_first()[j - 1]);
            }
        }
    }
}

/// An index with a match and none before it is `first_index`.
pub proof fn lemma_first_index_at<T>(s: Seq<T>, p: spec_fn(T) -> bool, i: int)
    requires
        0 <= i <= s.len(),
        forall|j: int| 0 <= j < i ==> !p(#[trigger] s[j]),
        i == s.len() || p(s[i]),
    ensures
        first_index(s, p) == i,
    decreases i,
{
    if i > 0 {
        assert(!p(s[0]));
        assert forall|j: int| 0 <= j < i - 1 implies !p(#[trigger] s.drop_first()[j]) by {
            assert(s.drop_first()[j] == s[j + 1]);
        }
        if i < s.len() {
            assert(s.drop_first()[i - 1] == s[i]);
        }
        lemma_first_index_at(s.drop_first(), p, i - 1);
    }
}

/// Appending one op applies it to the state the others produced.
pub proof fn lemma_apply_push(s: Seq<Option<Chunk>>, ops: Seq<DeltaOp>, op: DeltaOp)
    ensures
        apply_ops(s, ops.push(op)) == apply_op(apply_ops(s, ops), op),
        ops_apply(s, ops.push(op)) == (ops_apply(s, ops) && op_applies(apply_ops(s, ops), op)),
{
    assert(ops.push(op).drop_last() =~= ops);
}

/// A prefix of applicable ops is applicable.
pub proof fn lemma_ops_apply_prefix(s: Seq<Option<Chunk>>, ops: Seq<DeltaOp>, i: int)
    requires
        ops_apply(s, ops),
        0 <= i <= ops.len(),
    ensures
        ops_apply(s, ops.take(i)),
    decreases ops.len(),
{
    if i < ops.len() {
        assert(ops.drop_last().take(i) =~= ops.take(i));
        lemma_ops_apply_prefix(s, ops.drop_last(), i);
    } else {
        assert(ops.take(i) =~= ops);
    }
}

/// The state after `n` deltas depends on the first `n` deltas only.
pub proof fn lemma_state_after_prefix(d1: Seq<Delta>, d2: Seq<Delta>, n: nat)
    requires
        n <= d1.len(),
        n <= d2.len(),
        forall|i: int| 0 <= i < n ==> d1[i] == d2[i],
    ensures
        state_after(d1, n) == state_after(d2, n),
    decreases n,
{
    if n > 0 {
        lemma_state_after_prefix(d1, d2, (n - 1) as nat);
    }
}

/// Trimming leaves no empty lane at the end.
pub proof fn lemma_trimmed(s: Seq<Option<Chunk>>)
    ensures
        no_trailing_empty(trimmed(s)),
        trimmed(s).len() <= s.len(),
        forall|i: int| 0 <= i < trimmed(s).len() ==> #[trigger] trimmed(s)[i] == s[i],
        forall|i: int| trimmed(s).len() <= i < s.len() ==> #[trigger] s[i] is None,
    decreases s.len(),
{
    if s.len() > 0 && s.last() is None {
        lemma_trimmed(s.drop_last());
        assert forall|i: int| trimmed(s).len() <= i < s.len() implies #[trigger] s[i] is None by {
            if i < s.len() - 1 {
                assert(s[i] == s.drop_last()[i]);
            }
        }
    }
}

/// Some lane of `s` holds the commit `a`.
pub open spec fn holds_commit(s: Seq<Option<Chunk>>, a: AliasId) -> bool {
    exists|i: int| 0 <= i < s.len() && #[trigger] holds_pred(a)(s[i])
}

/// A commit that no lane awaits fills the first empty lane: when no lane
/// of `s` flows down to the commit as its first parent and `s` has an empty
/// lane, the update (with no merge pending) puts the commit in the first
/// empty lane and the number of lanes does not grow.
pub proof fn lemma_update_fills_first_empty_lane(s: Seq<Option<Chunk>>, chunk: Chunk, e: int)
    requires
        forall|i: int|
            0 <= i < s.len() ==> !(#[trigger] s[i] matches Some(c) && chunk.alias is Some
                && c.parent_a == chunk.alias),
        0 <= e < s.len(),
        s[e] is None,
        forall|j: int| 0 <= j < e ==> #[trigger] s[j] is Some,
    ensures
        spec_update(s, Seq::empty(), chunk).len() <= s.len(),
        spec_update(s, Seq::empty(), chunk)[e] == Some(chunk),
{
    if let Some(a) = chunk.alias {
        assert forall|j: int| 0 <= j < s.len() implies !#[trigger] awaits_pred(a)(s[j]) by {
            assert(!(s[j] matches Some(c) && chunk.alias is Some && c.parent_a == chunk.alias));
        }
        lemma_first_index_at(s, awaits_pred(a), s.len() as int);
    }
    assert forall|j: int| 0 <= j < e implies !#[trigger] empty_pred()(s[j]) by {
        assert(s[j] is Some);
    }
    lemma_first_index_at(s, empty_pred(), e);
    assert(place_target(s, chunk) == e);
    let p = placed(s, chunk);
    let c = match chunk.alias {
        Some(a) => consumed(p, a, e),
        None => p,
    };
    assert(c.len() == s.len());
    assert(c[e] == Some(chunk));
    assert(flushed(c, Seq::empty()) == c);
    lemma_trimmed(c);
    if e >= trimmed(c).len() {
        assert(c[e] is None);
    }
}

/// A commit that a lane awaits takes that lane: when lane `w` is the first
/// lane of `s` that flows down to the commit as its first parent, the
/// update (with no merge pending) puts the commit on lane `w` and the
/// number of lanes does not grow.
pub proof fn lemma_update_takes_awaiting_lane(s: Seq<Option<Chunk>>, chunk: Chunk, w: int)
    requires
        chunk.alias is Some,
        0 <= w < s.len(),
        s[w] matches Some(c) && c.parent_a == chunk.alias,
        forall|j: int|
            0 <= j < w ==> !(#[trigger] s[j] matches Some(c) && c.parent_a == chunk.alias),
    ensures
        spec_update(s, Seq::empty(), chunk).len() <= s.len(),
        spec_update(s, Seq::empty(), chunk)[w] == Some(chunk),
{
    let a = chunk.alias->Some_0;
    assert forall|j: int| 0 <= j < w implies !#[trigger] awaits_pred(a)(s[j]) by {
        assert(!(s[j] matches Some(c) && c.parent_a == chunk.alias));
    }
    lemma_first_index_at(s, awaits_pred(a), w);
    assert(place_target(s, chunk) == w);
    let c = consumed(placed(s, chunk), a, w);
    assert(c.len() == s.len());
    assert(c[w] == Some(chunk));
    assert(flushed(c, Seq::empty()) == c);
    lemma_trimmed(c);
    if w >= trimmed(c).len() {
        assert(c[w] is None);
    }
}

/// Flushing merge commits never takes a commit off its lane.
proof fn lemma_flushed_keeps_commit(s: Seq<Option<Chunk>>, merges: Seq<AliasId>, a: AliasId)
    requires
        holds_commit(s, a),
    ensures
        holds_commit(flushed(s, merges), a),
    decreases merges.len(),
{
    if merges.len() > 0 {
        let m = merges.last();
        let i = choose|i: int| 0 <= i < s.len() && #[trigger] holds_pred(a)(s[i]);
        let f = flush_one(s, m);
        lemma_first_index(s, holds_pred(m));
        assert(holds_pred(a)(f[i]));
        lemma_flushed_keeps_commit(f, merges.drop_last(), a);
    }
}

/// Folding in a commit puts it on a lane: after an update with a chunk
/// for the commit `a`, some lane holds `a`.
pub proof fn lemma_update_places_commit(s: Seq<Option<Chunk>>, merges: Seq<AliasId>, chunk: Chunk)
    requires
        chunk.alias is Some,
    ensures
        holds_commit(spec_update(s, merges, chunk), chunk.alias->Some_0),
{
    let a = chunk.alias->Some_0;
    let t = place_target(s, chunk);
    lemma_first_index(s, awaits_pred(a));
    lemma_first_index(s, empty_pred());
    let p = placed(s, chunk);
    let c = consumed(p, a, t);
    assert(holds_pred(a)(c[t]));
    lemma_flushed_keeps_commit(c, merges, a);
    let f = flushed(c, merges);
    let i = choose|i: int| 0 <= i < f.len() && #[trigger] holds_pred(a)(f[i]);
    lemma_trimmed(f);
    assert(i < trimmed(f).len());
    assert(holds_pred(a)(trimmed(f)[i]));
}

/// A merge commit hands its second parent to a new lane at the right
/// end: when the commit `a` is folded in with itself as the one pending
/// merge commit, and no lane held it before, the commit's lane drops its
/// second parent and the last lane flows to that parent.
pub proof fn lemma_merge_opens_lane(s: Seq<Option<Chunk>>, chunk: Chunk, a: AliasId, p: AliasId)
    requires
        chunk.alias == Some(a),
        chunk.parent_b == Some(p),
        !holds_commit(s, a),
    ensures
        ({
            let r = spec_update(s, seq![a], chunk);
            &&& r.len() > 0
            &&& r.last() == Some(second_parent_lane(p))
            &&& r[place_target(s, chunk)] == Some(Chunk { parent_b: None, ..chunk })
        }),
{
    let t = place_target(s, chunk);
    lemma_first_index(s, awaits_pred(a));
    lemma_first_index(s, empty_pred());
    let pl = placed(s, chunk);
    let c = consumed(pl, a, t);
    assert forall|j: int| 0 <= j < t implies !#[trigger] holds_pred(a)(c[j]) by {
        assert(pl[j] == s[j]);
        if holds_pred(a)(s[j]) {
            assert(holds_commit(s, a));
        }
    }
    assert(holds_pred(a)(c[t]));
    lemma_first_index_at(c, holds_pred(a), t);
    let merges = seq![a];
    assert(merges.drop_last() =~= Seq::<AliasId>::empty());
    let f = flush_one(c, a);
    assert(flushed(c, merges) == flushed(f, Seq::<AliasId>::empty()));
    assert(f.last() is Some);
    assert(trimmed(f) == f);
}

/// An update never leaves an empty lane at the end.
pub proof fn lemma_update_no_trailing_empty(s: Seq<Option<Chunk>>, merges: Seq<AliasId>, chunk: Chunk)
    ensures
        no_trailing_empty(spec_update(s, merges, chunk)),
{
    let p = placed(s, chunk);
    let c = match chunk.alias {
        Some(a) => consumed(p, a, place_target(s, chunk)),
        None => p,
    };
    lemma_trimmed(flushed(c, merges));
}

/// Applying the delta of commit `n` to the lane state of row `n - 1` (the
/// state after `n` deltas) yields the lane state of row `n`.
pub proof fn lemma_delta_links_rows(deltas: Seq<Delta>, n: nat)
    requires
        n < deltas.len(),
    ensures
        state_after(deltas, n + 1) == apply_ops(state_after(deltas, n), deltas[n as int].0@),
{
}

/// The lane state a later walk replays for the first commits is the one
/// the buffer held right after folding them in: recording more commits
/// never changes the rows already recorded.
pub proof fn lemma_history_stable(earlier: Seq<Delta>, later: Seq<Delta>, current: Seq<Option<Chunk>>)
    requires
        current == state_after(earlier, earlier.len()),
        earlier.len() <= later.len(),
        forall|i: int| 0 <= i < earlier.len() ==> #[trigger] later[i] == earlier[i],
    ensures
        state_after(later, earlier.len()) == current,
        forall|n: nat| n <= earlier.len() ==> #[trigger] state_after(later, n) == state_after(earlier, n),
{
    assert forall|n: nat| n <= earlier.len() implies #[trigger] state_after(later, n) == state_after(
        earlier,
        n,
    ) by {
        lemma_state_after_prefix(earlier, later, n);
    }
}

// ---------------------------------------------------------------------
// The buffer.
// ---------------------------------------------------------------------
/// Delta-compressed history of the graph's lane state.
///
/// While walking the log top-down, every commit mutates the set of
/// active lanes (a `Vec<Option<Chunk>>`, one slot per lane). Storing a
/// full copy of that state for each commit is a waste, so this
/// buffer preserves only the latest state plus the list of [`Delta`]s that
/// produced it.
/// Use [`Buffer::decompress`] to get the complete version.
pub struct Buffer {
    /// Lane state after the most recently processed commit.
    pub current: Vec<Option<Chunk>>,
    /// One [`Delta`] per processed commit, in the order of the walk.
    pub deltas: Vec<Delta>,
    /// Full lane-state snapshots taken every `CHECKPOINT_INTERVAL`
    /// commits, keyed by delta index, for reducing decompression cost.
    pub checkpoints: BTreeMap<usize, Vec<Option<Chunk>>>,
    /// Aliases of merge commits whose second parent still needs a new
    /// lane.
    pub merge_commits: Vec<AliasId>,
    /// Scratch list of the [`DeltaOp`]s recorded for processing commit
    pub pending_delta: Vec<DeltaOp>,
}

impl Buffer {
    /// Merge commits tracked since the last update, in the order tracked.
    pub open spec fn pending_merges(&self) -> Seq<AliasId> {
        self.merge_commits@
    }

    /// No op is half-recorded.
    pub open spec fn scratch_clear(&self) -> bool {
        self.pending_delta@.len() == 0
    }

    /// Keys and contents of the checkpoints: one snapshot after every
    /// `CHECKPOINT_INTERVAL` deltas, keyed by the index of the delta it
    /// follows.
    pub open spec fn checkpoints_ok(&self) -> bool {
        &&& forall|k: usize|
            #[trigger] self.checkpoints@.contains_key(k) <==> ((k + 1) % (CHECKPOINT_INTERVAL as int) == 0 && k
                < self.deltas@.len())
        &&& forall|k: usize|
            #[trigger] self.checkpoints@.contains_key(k) ==> self.checkpoints@[k]@ == state_after(
                self.deltas@,
                (k + 1) as nat,
            )
    }

    /// The recorded history replays to the current state.
    pub open spec fn history_ok(&self) -> bool {
        &&& replays(self.deltas@)
        &&& self.current@ == state_after(self.deltas@, self.deltas@.len())
        &&& no_trailing_empty(self.current@)
        &&& self.checkpoints_ok()
    }

    /// The buffer's invariant.
    pub open spec fn wf(&self) -> bool {
        self.history_ok() && self.scratch_clear()
    }

    /// `pending_delta` records the way from `s0` to `current`.
    closed spec fn tracks(&self, s0: Seq<Option<Chunk>>) -> bool {
        &&& ops_apply(s0, self.pending_delta@)
        &&& apply_ops(s0, self.pending_delta@) == self.current@
    }

    /// An empty buffer.
    pub fn new() -> (b: Self)
        ensures
            b.wf(),
            b.current@.len() == 0,
            b.deltas@.len() == 0,
            b.pending_merges().len() == 0,
    {
        let b = Self {
            current: Vec::new(),
            deltas: Vec::new(),
            checkpoints: BTreeMap::new(),
            merge_commits: Vec::new(),
            pending_delta: Vec::new(),
        };
        assert(b.checkpoints_ok());
        b
    }

    /// Remember `alias` as a merge commit whose second parent must be
    /// given its own lane.
    pub fn track_merge_commit(&mut self, alias: AliasId)
        ensures
            final(self).pending_merges() == old(self).pending_merges().push(alias),
            final(self).current == old(self).current,
            final(self).deltas == old(self).deltas,
            final(self).checkpoints == old(self).checkpoints,
            final(self).scratch_clear() == old(self).scratch_clear(),
    {
        self.merge_commits.push(alias);
    }

    fn record_replace(&mut self, index: usize, new: Option<Chunk>, Ghost(s0): Ghost<Seq<Option<Chunk>>>)
        requires
            old(self).tracks(s0),
            index < old(self).current@.len(),
        ensures
            final(self).tracks(s0),
            final(self).current@ == old(self).current@.update(index as int, new),
            final(self).deltas == old(self).deltas,
            final(self).checkpoints == old(self).checkpoints,
            final(self).merge_commits == old(self).merge_commits,
            final(self).pending_delta@ == old(self).pending_delta@.push(DeltaOp::Replace { index, new }),
    {
        let op = DeltaOp::Replace { index, new };
        proof {
            lemma_apply_push(s0, self.pending_delta@, op);
        }
        self.pending_delta.push(op);
        self.current.set(index, new);
    }

    fn record_insert(&mut self, index: usize, item: Option<Chunk>, Ghost(s0): Ghost<Seq<Option<Chunk>>>)
        requires
            old(self).tracks(s0),
            index <= old(self).current@.len(),
        ensures
            final(self).tracks(s0),
            final(self).current@ == old(self).current@.insert(index as int, item),
            final(self).deltas == old(self).deltas,
            final(self).checkpoints == old(self).checkpoints,
            final(self).merge_commits == old(self).merge_commits,
            final(self).pending_delta@ == old(self).pending_delta@.push(DeltaOp::Insert { index, item }),
    {
        let op = DeltaOp::Insert { index, item };
        proof {
            lemma_apply_push(s0, self.pending_delta@, op);
        }
        self.pending_delta.push(op);
        self.current.insert(index, item);
    }

    fn record_remove(&mut self, index: usize, Ghost(s0): Ghost<Seq<Option<Chunk>>>)
        requires
            old(self).tracks(s0),
            index < old(self).current@.len(),
        ensures
            final(self).tracks(s0),
            final(self).current@ == old(self).current@.remove(index as int),
            final(self).deltas == old(self).deltas,
            final(self).checkpoints == old(self).checkpoints,
            final(self).merge_commits == old(self).merge_commits,
            final(self).pending_delta@ == old(self).pending_delta@.push(DeltaOp::Remove { index }),
    {
        let op = DeltaOp::Remove { index };
        proof {
            lemma_apply_push(s0, self.pending_delta@, op);
        }
        self.pending_delta.push(op);
        self.current.remove(index);
    }

    /// Index of the first lane whose occupant flows down to `alias`.
    fn find_lane_awaiting_parent(&self, alias: Option<AliasId>) -> (r: Option<usize>)
        ensures
            match r {
                Some(i) => i as int == awaiting_index(self.current@, alias) && i < self.current@.len(),
                None => awaiting_index(self.current@, alias) == self.current@.len(),
            },
    {
        let a = match alias {
            Some(a) => a,
            None => return None,
        };
        let mut i: usize = 0;
        while i < self.current.len()
            invariant
                alias == Some(a),
                i <= self.current@.len(),
                forall|j: int| 0 <= j < i ==> !#[trigger] awaits_pred(a)(self.current@[j]),
            decreases self.current@.len() - i,
        {
            if let Some(chunk) = &self.current[i] {
                if chunk.parent_a == Some(a) {
                    proof {
                        assert(awaits_pred(a)(self.current@[i as int]));
                        lemma_first_index_at(self.current@, awaits_pred(a), i as int);
                    }
                    return Some(i);
                }
            }
            i += 1;
        }
        proof {
            lemma_first_index_at(self.current@, awaits_pred(a), i as int);
        }
        None
    }

    /// Index of the first empty lane.
    fn first_empty_lane(&self) -> (r: Option<usize>)
        ensures
            match r {
                Some(i) => i as int == first_index(self.current@, empty_pred()) && i < self.current@.len(),
                None => first_index(self.current@, empty_pred()) == self.current@.len(),
            },
    {
        let mut i: usize = 0;
        while i < self.current.len()
            invariant
                i <= self.current@.len(),
                forall|j: int| 0 <= j < i ==> !#[trigger] empty_pred()(self.current@[j]),
            decreases self.current@.len() - i,
        {
            if self.current[i].is_none() {
                proof {
                    lemma_first_index_at(self.current@, empty_pred(), i as int);
                }
                return Some(i);
            }
            i += 1;
        }
        proof {
            lemma_first_index_at(self.current@, empty_pred(), i as int);
        }
        None
    }

    /// Index of the first lane that holds the commit `alias`.
    fn find_holding_lane(&self, alias: AliasId) -> (r: Option<usize>)
        ensures
            match r {
                Some(i) => i as int == first_index(self.current@, holds_pred(alias)) && i < self.current@.len(),
                None => first_index(self.current@, holds_pred(alias)) == self.current@.len(),
            },
    {
        let mut i: usize = 0;
        while i < self.current.len()
            invariant
                i <= self.current@.len(),
                forall|j: int| 0 <= j < i ==> !#[trigger] holds_pred(alias)(self.current@[j]),
            decreases self.current@.len() - i,
        {
            if let Some(chunk) = &self.current[i] {
                if chunk.alias == Some(alias) {
                    proof {
                        lemma_first_index_at(self.current@, holds_pred(alias), i as int);
                    }
                    return Some(i);
                }
            }
            i += 1;
        }
        proof {
            lemma_first_index_at(self.current@, holds_pred(alias), i as int);
        }
        None
    }

    /// Phase 1: place the new chunk into the lane array.
    fn place_chunk(&mut self, new_chunk: &Chunk, Ghost(s0): Ghost<Seq<Option<Chunk>>>) -> (target: usize)
        requires
            old(self).tracks(s0),
        ensures
            final(self).tracks(s0),
            target == place_target(old(self).current@, *new_chunk),
            final(self).current@ == placed(old(self).current@, *new_chunk),
            final(self).pending_delta@ == old(self).pending_delta@.push(
                place_op(old(self).current@, *new_chunk),
            ),
            final(self).deltas == old(self).deltas,
            final(self).checkpoints == old(self).checkpoints,
            final(self).merge_commits == old(self).merge_commits,
    {
        proof {
            lemma_first_index(self.current@, empty_pred());
        }
        let ghost s = self.current@;
        proof {
            if let Some(a) = new_chunk.alias {
                lemma_first_index(s, awaits_pred(a));
            }
        }
        let target = match self.find_lane_awaiting_parent(new_chunk.alias) {
            Some(i) => i,
            None => match self.first_empty_lane() {
                Some(i) => i,
                None => self.current.len(),
            },
        };
        if target < self.current.len() {
            self.record_replace(target, Some(*new_chunk), Ghost(s0));
        } else {
            let ghost before = self.current@;
            self.record_insert(target, Some(*new_chunk), Ghost(s0));
            assert(self.current@ =~= before.push(Some(*new_chunk)));
        }
        target
    }

    /// Phase 2: consume `alias` in every live lane but `skip_index`.
    fn consume_alias_in_other_chunks(
        &mut self,
        alias: AliasId,
        skip_index: usize,
        Ghost(s0): Ghost<Seq<Option<Chunk>>>,
    )
        requires
            old(self).tracks(s0),
        ensures
            final(self).tracks(s0),
            final(self).current@ == consumed(old(self).current@, alias, skip_index as int),
            final(self).pending_delta@ == old(self).pending_delta@ + consume_ops(
                old(self).current@,
                alias,
                skip_index as int,
                old(self).current@.len() as int,
            ),
            final(self).deltas == old(self).deltas,
            final(self).checkpoints == old(self).checkpoints,
            final(self).merge_commits == old(self).merge_commits,
    {
        let ghost s1 = self.current@;
        let ghost p1 = self.pending_delta@;
        let len = self.current.len();
        let mut index: usize = 0;
        while index < len
            invariant
                self.tracks(s0),
                len == s1.len(),
                index <= len,
                self.current@.len() == len,
                forall|j: int|
                    0 <= j < len ==> #[trigger] self.current@[j] == if j < index && j
                        != skip_index {
                        consume_slot(s1[j], alias)
                    } else {
                        s1[j]
                    },
                self.pending_delta@ == p1 + consume_ops(s1, alias, skip_index as int, index as int),
                self.deltas == old(self).deltas,
                self.checkpoints == old(self).checkpoints,
                self.merge_commits == old(self).merge_commits,
            decreases len - index,
        {
            let slot = self.current[index];
            let ghost ops_before = self.pending_delta@;
            if index != skip_index {
                if let Some(mut chunk) = slot {
                    let changed_a = chunk.parent_a == Some(alias);
                    let changed_b = chunk.parent_b == Some(alias);
                    if changed_a || changed_b {
                        if changed_a {
                            chunk.parent_a = None;
                        }
                        if changed_b {
                            chunk.parent_b = None;
                        }
                        let new = if chunk.parent_a.is_some() {
                            Some(chunk)
                        } else {
                            None
                        };
                        self.record_replace(index, new, Ghost(s0));
                    }
                }
            }
            proof {
                let next = consume_ops(s1, alias, skip_index as int, index + 1);
                if index as int != skip_index as int && refers_to(s1[index as int], alias) {
                    assert(self.pending_delta@ =~= p1 + next);
                } else {
                    assert(self.pending_delta@ =~= p1 + next);
                }
            }
            index += 1;
        }
        assert(self.current@ =~= consumed(s1, alias, skip_index as int));
    }

    /// Phase 3: flush pending merge commits into new lanes.
    fn flush_merge_commits(&mut self, Ghost(s0): Ghost<Seq<Option<Chunk>>>)
        requires
            old(self).tracks(s0),
        ensures
            final(self).tracks(s0),
            final(self).current@ == flushed(old(self).current@, old(self).merge_commits@),
            final(self).pending_delta@ == old(self).pending_delta@ + flush_ops(
                old(self).current@,
                old(self).merge_commits@,
            ),
            final(self).merge_commits@.len() == 0,
            final(self).deltas == old(self).deltas,
            final(self).checkpoints == old(self).checkpoints,
    {
        let ghost target = flushed(self.current@, self.merge_commits@);
        let ghost all_ops = self.pending_delta@ + flush_ops(self.current@, self.merge_commits@);
        while self.merge_commits.len() > 0
            invariant
                self.tracks(s0),
                flushed(self.current@, self.merge_commits@) == target,
                self.pending_delta@ + flush_ops(self.current@, self.merge_commits@) == all_ops,
                self.deltas == old(self).deltas,
                self.checkpoints == old(self).checkpoints,
            decreases self.merge_commits@.len(),
        {
            let ghost before = self.current@;
            let ghost merges = self.merge_commits@;
            let ghost ops_before = self.pending_delta@;
            let alias = self.merge_commits.pop().unwrap();
            proof {
                lemma_first_index(before, holds_pred(alias));
            }
            if let Some(index) = self.find_holding_lane(alias) {
                let mut chunk = self.current[index].unwrap();
                let detached_parent = chunk.parent_b;
                chunk.parent_b = None;
                self.record_replace(index, Some(chunk), Ghost(s0));
                if let Some(parent) = detached_parent {
                    let new_lane = Chunk {
                        alias: None,
                        parent_a: Some(parent),
                        parent_b: None,
                        marker: Markers::Commit,
                    };
                    let ghost mid = self.current@;
                    let end = self.current.len();
                    self.record_insert(end, Some(new_lane), Ghost(s0));
                    assert(self.current@ =~= mid.push(Some(new_lane)));
                }
            }
            assert(self.current@ == flush_one(before, alias));
            assert(self.pending_delta@ =~= ops_before + flush_one_ops(before, alias));
            assert(flush_ops(before, merges) == flush_one_ops(before, alias) + flush_ops(
                self.current@,
                self.merge_commits@,
            ));
            assert(self.pending_delta@ + flush_ops(self.current@, self.merge_commits@) =~= ops_before
                + flush_ops(before, merges));
        }
        assert(flush_ops(self.current@, self.merge_commits@) =~= Seq::<DeltaOp>::empty());
        assert(self.pending_delta@ =~= all_ops);
    }

    /// A copy of a lane state.
    fn clone_lanes(lanes: &Vec<Option<Chunk>>) -> (r: Vec<Option<Chunk>>)
        ensures
            r@ == lanes@,
    {
        let mut r: Vec<Option<Chunk>> = Vec::new();
        let mut i: usize = 0;
        while i < lanes.len()
            invariant
                i <= lanes@.len(),
                r@ == lanes@.take(i as int),
            decreases lanes@.len() - i,
        {
            r.push(lanes[i]);
            i += 1;
            assert(r@ =~= lanes@.take(i as int));
        }
        assert(lanes@.take(i as int) =~= lanes@);
        r
    }

    /// Phase 4: drop trailing empty lanes, record the delta and take a
    /// checkpoint every `CHECKPOINT_INTERVAL` commits.
    fn commit_delta(&mut self, Ghost(s0): Ghost<Seq<Option<Chunk>>>)
        requires
            old(self).tracks(s0),
            replays(old(self).deltas@),
            s0 == state_after(old(self).deltas@, old(self).deltas@.len()),
            old(self).checkpoints_ok(),
        ensures
            final(self).wf(),
            final(self).current@ == trimmed(old(self).current@),
            final(self).deltas@.len() == old(self).deltas@.len() + 1,
            forall|i: int|
                0 <= i < old(self).deltas@.len() ==> #[trigger] final(self).deltas@[i]
                    == old(self).deltas@[i],
            final(self).deltas@.last().0@ == old(self).pending_delta@ + trim_ops(old(self).current@),
            final(self).merge_commits == old(self).merge_commits,
            (old(self).deltas@.len() + 1) % (CHECKPOINT_INTERVAL as nat) != 0 ==> final(self).checkpoints@ == old(self).checkpoints@,
            (old(self).deltas@.len() + 1) % (CHECKPOINT_INTERVAL as nat) == 0 ==> {
                &&& final(self).checkpoints@.dom() == old(self).checkpoints@.dom().insert(
                    old(self).deltas@.len() as usize,
                )
                &&& final(self).checkpoints@[old(self).deltas@.len() as usize]@ == final(self).current@
                &&& forall|k: usize|
                    #[trigger] old(self).checkpoints@.contains_key(k) && k != old(self).deltas@.len() ==> final(self).checkpoints@[k] == old(self).checkpoints@[k]
            },
    {
        let ghost target = trimmed(self.current@);
        let ghost all_ops = self.pending_delta@ + trim_ops(self.current@);
        while self.current.len() > 0 && self.current[self.current.len() - 1].is_none()
            invariant
                self.tracks(s0),
                trimmed(self.current@) == target,
                self.pending_delta@ + trim_ops(self.current@) == all_ops,
                self.deltas == old(self).deltas,
                self.checkpoints == old(self).checkpoints,
                self.merge_commits == old(self).merge_commits,
            decreases self.current@.len(),
        {
            let last = self.current.len() - 1;
            let ghost before = self.current@;
            let ghost ops_before = self.pending_delta@;
            self.record_remove(last, Ghost(s0));
            assert(self.current@ =~= before.drop_last());
            assert(self.pending_delta@ + trim_ops(self.current@) =~= ops_before + trim_ops(before));
        }
        proof {
            lemma_trimmed(self.current@);
            assert(trim_ops(self.current@) =~= Seq::<DeltaOp>::empty());
            assert(self.pending_delta@ =~= all_ops);
        }
        let mut ops: Vec<DeltaOp> = Vec::new();
        std::mem::swap(&mut ops, &mut self.pending_delta);
        let ghost old_deltas = self.deltas@;
        self.deltas.push(Delta(ops));
        proof {
            let d = self.deltas@;
            let n = old_deltas.len();
            assert forall|i: int| 0 <= i <= n implies #[trigger] state_after(d, i as nat)
                == state_after(old_deltas, i as nat) by {
                lemma_state_after_prefix(d, old_deltas, i as nat);
            }
            lemma_state_after_prefix(d, old_deltas, n);
            assert(state_after(d, n) == s0);
            assert(state_after(d, (n + 1) as nat) == self.current@);
            assert forall|i: int| 0 <= i < d.len() implies ops_apply(
                state_after(d, i as nat),
                #[trigger] d[i].0@,
            ) by {
                if i < n {
                    assert(d[i] == old_deltas[i]);
                }
            }
        }
        let step = self.deltas.len();
        if step % CHECKPOINT_INTERVAL == 0 {
            let snapshot = Self::clone_lanes(&self.current);
            self.checkpoints.insert(step - 1, snapshot);
        }
        proof {
            let d = self.deltas@;
            let n = old_deltas.len();
            assert forall|k: usize| #[trigger]
                self.checkpoints@.contains_key(k) implies self.checkpoints@[k]@ == state_after(
                d,
                (k + 1) as nat,
            ) by {
                if k < n {
                    assert(state_after(d, (k + 1) as nat) == state_after(old_deltas, (k + 1) as nat));
                }
            }
        }
    }

    /// Fold one commit's chunk into the lane state, recording the
    /// mutations as one new [`Delta`].
    pub fn update(&mut self, new_chunk: &Chunk)
        requires
            old(self).wf(),
        ensures
            final(self).wf(),
            final(self).current@ == spec_update(
                old(self).current@,
                old(self).pending_merges(),
                *new_chunk,
            ),
            final(self).deltas@.len() == old(self).deltas@.len() + 1,
            forall|i: int|
                0 <= i < old(self).deltas@.len() ==> #[trigger] final(self).deltas@[i]
                    == old(self).deltas@[i],
            final(self).pending_merges().len() == 0,
            final(self).deltas@.last().0@ == update_ops(
                old(self).current@,
                old(self).pending_merges(),
                *new_chunk,
            ),
    {
        let ghost s0 = self.current@;
        let ghost merges = self.merge_commits@;
        assert(self.tracks(s0));
        // Phase 1: place the new chunk into the lane array.
        let placement_index = self.place_chunk(new_chunk, Ghost(s0));
        // Phase 2: consume the alias in all other live chunks.
        if let Some(alias) = new_chunk.alias {
            self.consume_alias_in_other_chunks(alias, placement_index, Ghost(s0));
        }
        // Phase 3: flush any pending merge commits into new lanes.
        self.flush_merge_commits(Ghost(s0));
        // Phase 4: commit the delta and maybe checkpoint.
        let ghost flushed_state = self.current@;
        let ghost recorded = self.pending_delta@;
        self.commit_delta(Ghost(s0));
        proof {
            let p = placed(s0, *new_chunk);
            let t = place_target(s0, *new_chunk);
            let c = match new_chunk.alias {
                Some(a) => consumed(p, a, t),
                None => p,
            };
            let consuming = match new_chunk.alias {
                Some(a) => consume_ops(p, a, t, p.len() as int),
                None => Seq::<DeltaOp>::empty(),
            };
            assert(flushed_state == flushed(c, merges));
            assert(recorded =~= seq![place_op(s0, *new_chunk)] + consuming + flush_ops(c, merges));
            assert(self.deltas@.last().0@ =~= update_ops(s0, merges, *new_chunk));
        }
    }

    /// Apply every op of `delta`, first to last, to `state`.
    fn apply_delta_to_state(state: &mut Vec<Option<Chunk>>, delta: &Delta)
        requires
            ops_apply(old(state)@, delta.0@),
        ensures
            final(state)@ == apply_ops(old(state)@, delta.0@),
    {
        let ghost s = state@;
        let ghost ops = delta.0@;
        let mut i: usize = 0;
        while i < delta.0.len()
            invariant
                ops == delta.0@,
                ops_apply(s, ops),
                i <= ops.len(),
                state@ == apply_ops(s, ops.take(i as int)),
            decreases ops.len() - i,
        {
            proof {
                lemma_ops_apply_prefix(s, ops, i + 1);
                assert(ops.take(i + 1).drop_last() =~= ops.take(i as int));
            }
            match delta.0[i] {
                DeltaOp::Insert { index, item } => {
                    state.insert(index, item);
                },
                DeltaOp::Remove { index } => {
                    state.remove(index);
                },
                DeltaOp::Replace { index, new } => {
                    state.set(index, new);
                },
            }
            i += 1;
        }
        assert(ops.take(i as int) =~= ops);
    }

    /// The snapshot of the greatest checkpoint not after row `start`, and
    /// the number of deltas it follows; an empty state and 0 if there is none.
    fn nearest_checkpoint(&self, start: usize) -> (r: (Vec<Option<Chunk>>, usize))
        requires
            self.checkpoints_ok(),
        ensures
            r.1 <= self.deltas@.len(),
            r.1 <= start + 1,
            r.1 == checkpointed_rows(start as int, self.deltas@.len() as int),
            r.0@ == state_after(self.deltas@, r.1 as nat),
    {
        let len = self.deltas.len();
        // Checkpoints follow every `CHECKPOINT_INTERVAL`-th delta: count
        // those up to row `start` and those taken so far.
        let below = start / CHECKPOINT_INTERVAL + if start % CHECKPOINT_INTERVAL
            == CHECKPOINT_INTERVAL - 1 {
            1
        } else {
            0
        };
        let taken = len / CHECKPOINT_INTERVAL;
        let count = if below < taken {
            below
        } else {
            taken
        };
        if count > 0 {
            assert(count * 100 <= len) by (nonlinear_arith)
                requires
                    count <= len / 100,
            ;
            assert(count * 100 <= start + 1) by (nonlinear_arith)
                requires
                    count <= start / 100 + if start % 100 == 99 {
                        1int
                    } else {
                        0int
                    },
            ;
            assert((count * 100) % 100 == 0) by (nonlinear_arith);
            let key = count * CHECKPOINT_INTERVAL - 1;
            assert(self.checkpoints@.contains_key(key));
            if let Some(snapshot) = self.checkpoints.get(&key) {
                return (Self::clone_lanes(snapshot), key + 1);
            }
        }
        (Vec::new(), 0)
    }

    /// The lane states of rows `start..=end` (as far as the walk has
    /// reached), rebuilt from the nearest checkpoint and the deltas.
    #[verifier::spinoff_prover]
    #[verifier::rlimit(40)]
    pub fn decompress(&self, start: usize, end: usize) -> (history: Vec<Vec<Option<Chunk>>>)
        requires
            self.history_ok(),
        ensures
            history@.len() == decompressed_len(start as int, end as int, self.deltas@.len() as int),
            forall|k: int|
                0 <= k < history@.len() ==> #[trigger] history@[k]@ == state_after(
                    self.deltas@,
                    (start + k + 1) as nat,
                ),
    {
        let mut history: Vec<Vec<Option<Chunk>>> = Vec::new();
        if start > end {
            return history;
        }
        let len = self.deltas.len();
        let (mut state, mut next) = self.nearest_checkpoint(start);
        if next > start {
            history.push(Self::clone_lanes(&state));
        }
        while next <= end && next < len
            invariant
                replays(self.deltas@),
                len == self.deltas@.len(),
                start <= end,
                next <= len,
                next <= end + 1,
                state@ == state_after(self.deltas@, next as nat),
                history@.len() == if next > start {
                    next - start
                } else {
                    0
                },
                forall|k: int|
                    0 <= k < history@.len() ==> #[trigger] history@[k]@ == state_after(
                        self.deltas@,
                        (start + k + 1) as nat,
                    ),
            decreases len - next,
        {
            assert(ops_apply(state_after(self.deltas@, next as nat), self.deltas@[next as int].0@));
            Self::apply_delta_to_state(&mut state, &self.deltas[next]);
            if next >= start {
                history.push(Self::clone_lanes(&state));
            }
            next += 1;
        }
        history
    }
}

impl Default for Buffer {
    fn default() -> (b: Self)
        ensures
            b.wf(),
            b.current@.len() == 0,
            b.deltas@.len() == 0,
            b.pending_merges().len() == 0,
    {
        Self::new()
    }
}

} // verus!
