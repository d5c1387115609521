use termite_core::pty_batch::{PtyBatch, COALESCE_WINDOW_NS, MAX_PTY_EVENT_BYTES};

#[test]
fn reads_within_the_window_join_one_batch() {
    let mut batch = PtyBatch::start(b"ab".to_vec(), 100);
    assert!(batch.wants_more());
    batch.add(b"cd".to_vec());
    assert_eq!(batch.nothing_waiting(100 + COALESCE_WINDOW_NS - 10), Some(10));
    batch.timed_out();
    assert!(!batch.wants_more());
    assert_eq!(batch.finish(), (b"abcd".to_vec(), false));
}

#[test]
fn a_batch_closes_when_its_window_has_passed() {
    let mut batch = PtyBatch::start(b"x".to_vec(), 0);
    assert_eq!(batch.nothing_waiting(COALESCE_WINDOW_NS), None);
    assert!(!batch.wants_more());
}

#[test]
fn a_full_batch_takes_no_more() {
    let batch = PtyBatch::start(vec![0; MAX_PTY_EVENT_BYTES], 0);
    assert!(!batch.wants_more());
    assert_eq!(batch.len(), MAX_PTY_EVENT_BYTES);
}

#[test]
fn the_exit_of_the_child_closes_the_batch() {
    let mut batch = PtyBatch::start(b"bye".to_vec(), 0);
    batch.child_exited();
    assert!(!batch.wants_more());
    assert_eq!(batch.finish(), (b"bye".to_vec(), true));
}
