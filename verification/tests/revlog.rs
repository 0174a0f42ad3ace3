use asyncgit::revlog::{
    after_batch, fetch_decision, pending_walk_range, AsyncLogResult, FetchStatus, WalkPace,
};
use asyncgit::CommitId;
use std::time::Duration;

fn id(n: u8) -> CommitId {
    let mut bytes = [0u8; 20];
    bytes[19] = n;
    CommitId::new(bytes)
}

#[test]
fn slices_are_clamped_to_the_walk() {
    let result = AsyncLogResult {
        commits: vec![id(1), id(2), id(3), id(4)],
        duration: Duration::default(),
    };
    assert_eq!(result.get_slice(1, 2), vec![id(2), id(3)]);
    assert_eq!(result.get_slice(3, 10), vec![id(4)]);
    assert_eq!(result.get_slice(9, 3), Vec::<CommitId>::new());
    assert_eq!(result.get_slice(0, 0), Vec::<CommitId>::new());
}

#[test]
fn graph_rows_wait_for_the_walk() {
    // the walk has not reached the end of the requested rows
    assert_eq!(pending_walk_range(10, 0, 8, 5), None);
    // fold in what is missing
    assert_eq!(pending_walk_range(20, 4, 8, 5), Some((4, 13)));
    // the graph is ahead: nothing to fold in
    assert_eq!(pending_walk_range(20, 17, 8, 5), Some((13, 13)));
}

#[test]
fn fetch_status_compares() {
    assert_eq!(FetchStatus::Pending, FetchStatus::Pending);
    assert_ne!(FetchStatus::Started, FetchStatus::NoChange);
}

#[test]
fn fetch_decisions() {
    assert_eq!(fetch_decision(true, true), FetchStatus::Pending);
    assert_eq!(fetch_decision(true, false), FetchStatus::Pending);
    assert_eq!(fetch_decision(false, false), FetchStatus::NoChange);
    assert_eq!(fetch_decision(false, true), FetchStatus::Started);
}

#[test]
fn walk_stops_after_an_empty_batch() {
    assert_eq!(after_batch(0, false), None);
    assert_eq!(after_batch(0, true), None);
    assert_eq!(after_batch(3, false), Some(WalkPace::Foreground));
    assert_eq!(after_batch(3, true), Some(WalkPace::Background));
}

#[test]
fn batches_append_to_the_walked_commits() {
    let mut result = AsyncLogResult { commits: vec![id(1)], duration: Duration::from_millis(5) };
    result.publish_batch(&vec![id(2), id(3)]);
    assert_eq!(result.commits, vec![id(1), id(2), id(3)]);
    assert_eq!(result.duration, Duration::from_millis(5));
}
