use fedimint_observer::sync::{FetchError, Phase, Synchronizer};
use fedimint_observer::window::{OrderedWindow, WindowError};

#[test]
fn window_issues_at_most_its_width() {
    let mut window: OrderedWindow<u32> = OrderedWindow::new(10, None, 3);
    assert_eq!(window.next_fetch(), Some(10));
    assert_eq!(window.next_fetch(), Some(11));
    assert_eq!(window.next_fetch(), Some(12));
    assert_eq!(window.next_fetch(), None);
    assert_eq!(window.pending(), 3);
    assert_eq!(window.next_commit(), 10);
}

#[test]
fn window_releases_in_order_whatever_the_arrival_order() {
    let mut window: OrderedWindow<&str> = OrderedWindow::new(0, None, 4);
    for expected in 0..4 {
        assert_eq!(window.next_fetch(), Some(expected));
    }
    assert_eq!(window.complete(2, "c"), Ok(()));
    assert_eq!(window.release(), None);
    assert_eq!(window.complete(3, "d"), Ok(()));
    assert_eq!(window.complete(0, "a"), Ok(()));
    assert_eq!(window.release(), Some((0, "a")));
    assert_eq!(window.release(), None);
    assert_eq!(window.next_fetch(), Some(4));
    assert_eq!(window.next_fetch(), None);
    assert_eq!(window.complete(1, "b"), Ok(()));
    assert_eq!(window.release(), Some((1, "b")));
    assert_eq!(window.release(), Some((2, "c")));
    assert_eq!(window.release(), Some((3, "d")));
    assert_eq!(window.release(), None);
    assert_eq!(window.next_commit(), 4);
    assert_eq!(window.pending(), 1);
}

#[test]
fn window_refuses_results_that_are_not_in_flight() {
    let mut window: OrderedWindow<u8> = OrderedWindow::new(5, None, 2);
    assert_eq!(window.complete(5, 1), Err(WindowError::NotInFlight));
    assert_eq!(window.next_fetch(), Some(5));
    assert_eq!(window.complete(4, 1), Err(WindowError::NotInFlight));
    assert_eq!(window.complete(6, 1), Err(WindowError::NotInFlight));
    assert_eq!(window.complete(5, 1), Ok(()));
    assert_eq!(window.complete(5, 2), Err(WindowError::NotInFlight));
    assert_eq!(window.release(), Some((5, 1)));
    assert_eq!(window.complete(5, 3), Err(WindowError::NotInFlight));
}

#[test]
fn window_stops_at_the_end_of_its_range() {
    let mut window: OrderedWindow<u8> = OrderedWindow::new(7, Some(9), 4);
    assert!(!window.is_finished());
    assert_eq!(window.next_fetch(), Some(7));
    assert_eq!(window.next_fetch(), Some(8));
    assert_eq!(window.next_fetch(), None);
    assert_eq!(window.complete(8, 80), Ok(()));
    assert_eq!(window.complete(7, 70), Ok(()));
    assert_eq!(window.release(), Some((7, 70)));
    assert!(!window.is_finished());
    assert_eq!(window.release(), Some((8, 80)));
    assert!(window.is_finished());
    assert_eq!(window.next_fetch(), None);
}

#[test]
fn window_over_an_empty_range_is_finished_at_once() {
    let mut window: OrderedWindow<u8> = OrderedWindow::new(9, Some(9), 4);
    assert!(window.is_finished());
    assert_eq!(window.next_fetch(), None);
    let mut beyond: OrderedWindow<u8> = OrderedWindow::new(12, Some(9), 4);
    assert!(beyond.is_finished());
    assert_eq!(beyond.next_fetch(), None);
}

#[test]
fn window_without_end_never_finishes() {
    let mut window: OrderedWindow<u8> = OrderedWindow::new(0, None, 1);
    for index in 0..100u64 {
        assert_eq!(window.next_fetch(), Some(index));
        assert_eq!(window.complete(index, 0), Ok(()));
        assert_eq!(window.release(), Some((index, 0)));
        assert!(!window.is_finished());
    }
}

#[test]
fn window_of_width_zero_issues_nothing() {
    let mut window: OrderedWindow<u8> = OrderedWindow::new(0, None, 0);
    assert_eq!(window.next_fetch(), None);
    assert_eq!(window.release(), None);
}

#[test]
fn window_does_not_issue_the_last_index() {
    let mut window: OrderedWindow<u8> = OrderedWindow::new(u64::MAX - 1, None, 4);
    assert_eq!(window.next_fetch(), Some(u64::MAX - 1));
    assert_eq!(window.next_fetch(), None);
}

#[test]
fn synchronizer_commits_one_at_a_time_in_order() {
    let mut sync: Synchronizer<&str> = Synchronizer::new(3, None, 2);
    assert_eq!(sync.committed(), 3);
    assert_eq!(sync.phase(), Phase::Running);
    assert_eq!(sync.begin_commit(), None);
    assert_eq!(sync.next_fetch(), Some(3));
    assert_eq!(sync.next_fetch(), Some(4));
    assert_eq!(sync.next_fetch(), None);
    assert_eq!(sync.fetched(4, "four"), Ok(()));
    assert_eq!(sync.begin_commit(), None);
    assert_eq!(sync.fetched(3, "three"), Ok(()));
    assert_eq!(sync.begin_commit(), Some((3, "three")));
    assert_eq!(sync.phase(), Phase::Committing);
    assert_eq!(sync.begin_commit(), None);
    assert_eq!(sync.committed(), 3);
    sync.commit_done(true);
    assert_eq!(sync.committed(), 4);
    assert_eq!(sync.phase(), Phase::Running);
    assert_eq!(sync.begin_commit(), Some((4, "four")));
    sync.commit_done(true);
    assert_eq!(sync.committed(), 5);
    assert_eq!(sync.next_fetch(), Some(5));
}

#[test]
fn failed_commit_halts_and_counts_for_nothing() {
    let mut sync: Synchronizer<u8> = Synchronizer::new(0, None, 4);
    assert_eq!(sync.next_fetch(), Some(0));
    assert_eq!(sync.next_fetch(), Some(1));
    assert_eq!(sync.fetched(0, 10), Ok(()));
    assert_eq!(sync.begin_commit(), Some((0, 10)));
    sync.commit_done(false);
    assert_eq!(sync.phase(), Phase::Halted);
    assert_eq!(sync.committed(), 0);
    assert_eq!(sync.next_fetch(), None);
    assert_eq!(sync.fetched(1, 11), Err(FetchError::Halted));
    assert_eq!(sync.begin_commit(), None);
    sync.commit_done(true);
    assert_eq!(sync.committed(), 0);
    assert_eq!(sync.phase(), Phase::Halted);
    assert!(!sync.is_finished());
}

#[test]
fn restarted_synchronizer_resumes_at_the_commit_point() {
    let mut first: Synchronizer<u8> = Synchronizer::new(0, None, 4);
    for index in 0..3u64 {
        assert_eq!(first.next_fetch(), Some(index));
    }
    for index in [2u64, 0, 1] {
        assert_eq!(first.fetched(index, index as u8), Ok(()));
    }
    assert_eq!(first.begin_commit(), Some((0, 0)));
    first.commit_done(true);
    assert_eq!(first.begin_commit(), Some((1, 1)));
    first.commit_done(false);
    let mut second: Synchronizer<u8> = Synchronizer::new(first.committed(), None, 4);
    assert_eq!(second.committed(), 1);
    assert_eq!(second.next_fetch(), Some(1));
    assert_eq!(second.fetched(1, 1), Ok(()));
    assert_eq!(second.begin_commit(), Some((1, 1)));
}

#[test]
fn synchronizer_ignores_a_report_without_a_commit() {
    let mut sync: Synchronizer<u8> = Synchronizer::new(0, Some(1), 4);
    sync.commit_done(true);
    sync.commit_done(false);
    assert_eq!(sync.committed(), 0);
    assert_eq!(sync.phase(), Phase::Running);
    assert_eq!(sync.fetched(0, 1), Err(FetchError::NotInFlight));
    assert_eq!(sync.next_fetch(), Some(0));
    assert_eq!(sync.fetched(0, 1), Ok(()));
    assert_eq!(sync.begin_commit(), Some((0, 1)));
    assert!(!sync.is_finished());
    sync.commit_done(true);
    assert!(sync.is_finished());
}
