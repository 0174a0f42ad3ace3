use crate::sync::CommitId;
use std::time::Duration;
use vstd::prelude::*;

verus! {

/// What a request to fetch the log did.
#[derive(PartialEq, Eq, Debug, Clone, Copy, Structural)]
pub enum FetchStatus {
    /// previous fetch still running
    Pending,
    /// no change expected
    NoChange,
    /// new walk was started
    Started,
}

/// The commits walked so far, and how long the walk took.
pub struct AsyncLogResult {
    pub commits: Vec<CommitId>,
    pub duration: Duration,
}

/// The first index of a slice clamped to a list of `len` items.
pub open spec fn slice_start(start_index: int, len: int) -> int {
    if start_index < len {
        start_index
    } else {
        len
    }
}

/// The end of a slice of `amount` items from `start_index`, clamped to a
/// list of `len` items.
pub open spec fn slice_end(start_index: int, amount: int, len: int) -> int {
    if slice_start(start_index, len) + amount < len {
        slice_start(start_index, len) + amount
    } else {
        len
    }
}

/// How long the background walk pauses between two batches.
#[derive(PartialEq, Eq, Debug, Clone, Copy, Structural)]
pub enum WalkPace {
    /// the log is on screen: keep walking quickly
    Foreground,
    /// the log is in the background: walk slowly
    Background,
}

/// The outcome of a fetch request: a fetch still running answers
/// `Pending`; otherwise an unchanged head needs no new walk, and a changed
/// one starts it.
pub fn fetch_decision(pending: bool, head_changed: bool) -> (r: FetchStatus)
    ensures
        r == if pending {
            FetchStatus::Pending
        } else if !head_changed {
            FetchStatus::NoChange
        } else {
            FetchStatus::Started
        },
{
    if pending {
        FetchStatus::Pending
    } else if !head_changed {
        FetchStatus::NoChange
    } else {
        FetchStatus::Started
    }
}

/// What the walk does after a batch: stop once a batch read nothing, else
/// pause at the pace the log's visibility asks for.
pub fn after_batch(read_count: usize, background: bool) -> (r: Option<WalkPace>)
    ensures
        r == if read_count == 0 {
            None
        } else if background {
            Some(WalkPace::Background)
        } else {
            Some(WalkPace::Foreground)
        },
{
    if read_count == 0 {
        None
    } else if background {
        Some(WalkPace::Background)
    } else {
        Some(WalkPace::Foreground)
    }
}

impl AsyncLogResult {
    /// Publish a walked batch: the commits become those walked before,
    /// followed by the batch.
    pub fn publish_batch(&mut self, batch: &Vec<CommitId>)
        ensures
            final(self).commits@ == old(self).commits@ + batch@,
            final(self).duration == old(self).duration,
    {
        let ghost before = self.commits@;
        let mut i: usize = 0;
        while i < batch.len()
            invariant
                i <= batch@.len(),
                self.commits@ == before + batch@.take(i as int),
                self.duration == old(self).duration,
            decreases batch@.len() - i,
        {
            self.commits.push(batch[i]);
            i += 1;
            assert(self.commits@ =~= before + batch@.take(i as int));
        }
        assert(batch@.take(i as int) =~= batch@);
    }

    /// Up to `amount` commits from `start_index` on, clamped to the
    /// commits walked so far.
    pub fn get_slice(&self, start_index: usize, amount: usize) -> (r: Vec<CommitId>)
        requires
            slice_start(start_index as int, self.commits@.len() as int) + amount <= usize::MAX,
        ensures
            r@ == self.commits@.subrange(
                slice_start(start_index as int, self.commits@.len() as int),
                slice_end(start_index as int, amount as int, self.commits@.len() as int),
            ),
    {
        let list_len = self.commits.len();
        let min = if start_index < list_len {
            start_index
        } else {
            list_len
        };
        let max = min + amount;
        let max = if max < list_len {
            max
        } else {
            list_len
        };
        let mut r: Vec<CommitId> = Vec::new();
        let mut i = min;
        while i < max
            invariant
                min <= i <= max,
                max <= self.commits@.len(),
                r@ == self.commits@.subrange(min as int, i as int),
            decreases max - i,
        {
            r.push(self.commits[i]);
            i += 1;
            assert(r@ =~= self.commits@.subrange(min as int, i as int));
        }
        r
    }
}

/// Which walked entries the graph still has to fold in before it can
/// render rows `global_start .. global_start + slice_len`: `None` while the
/// walk has not reached the end of that range, else the range of entries
/// from those already folded in (or the end, when the graph is ahead) to
/// the end of the requested rows.
pub fn pending_walk_range(
    entries_len: usize,
    processed: usize,
    global_start: usize,
    slice_len: usize,
) -> (r: Option<(usize, usize)>)
    requires
        global_start + slice_len <= usize::MAX,
    ensures
        entries_len < global_start + slice_len ==> r is None,
        entries_len >= global_start + slice_len ==> r == Some(
            (
                if processed < global_start + slice_len {
                    processed
                } else {
                    (global_start + slice_len) as usize
                },
                (global_start + slice_len) as usize,
            ),
        ),
{
    let needed_end = global_start + slice_len;
    if entries_len < needed_end {
        return None;
    }
    // the walker may already be ahead of the requested range
    // (scrolling up), so only feed it entries it is yet to have seen
    let processed = if processed < needed_end {
        processed
    } else {
        needed_end
    };
    Some((processed, needed_end))
}

} // verus!
