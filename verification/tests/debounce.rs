use witness::files::{
    modified_file, EventOp, FileFilter, FileSourceState, RawFileEvent, VcsQueryOutcome,
};

const MILLISECOND: u64 = 1_000_000;

fn write_op() -> EventOp {
    EventOp {
        write: true,
        create: false,
        remove: false,
        rename: false,
        chmod: false,
        close_write: false,
        rescan: false,
    }
}

fn notice_op() -> EventOp {
    EventOp {
        write: false,
        create: false,
        remove: false,
        rename: false,
        chmod: false,
        close_write: true,
        rescan: false,
    }
}

fn write_event(path: &[u8]) -> RawFileEvent {
    RawFileEvent { op: Some(write_op()), path: Some(path.to_vec()) }
}

fn rs_filter() -> FileFilter {
    FileFilter { extensions: Some(vec![b"rs".to_vec()]), git_ignore: false }
}

#[test]
fn modified_file_reports_only_mutations_with_paths() {
    assert_eq!(modified_file(write_event(b"a.rs")), Some(b"a.rs".to_vec()));
    assert_eq!(modified_file(RawFileEvent { op: Some(notice_op()), path: Some(b"a.rs".to_vec()) }), None);
    assert_eq!(modified_file(RawFileEvent { op: Some(write_op()), path: None }), None);
    assert_eq!(modified_file(RawFileEvent { op: None, path: Some(b"a.rs".to_vec()) }), None);
}

/// Two rapid writes to a matching file and one write to a non-matching file
/// inside the debounce window emit exactly one trigger.
#[test]
fn burst_within_window_emits_exactly_once() {
    let filter = rs_filter();
    let window = 100 * MILLISECOND;
    let mut state = FileSourceState::new();

    let first = state.observe(&filter, window, 0, write_event(b"src/a.rs"), VcsQueryOutcome::Unavailable);
    let second = state.observe(&filter, window, MILLISECOND, write_event(b"src/a.rs"), VcsQueryOutcome::Unavailable);
    let third = state.observe(&filter, window, 10 * MILLISECOND, write_event(b"src/a.txt"), VcsQueryOutcome::Unavailable);

    assert!(first);
    assert!(!second);
    assert!(!third);
}

#[test]
fn event_after_window_emits_again() {
    let filter = rs_filter();
    let window = 100 * MILLISECOND;
    let mut state = FileSourceState::new();

    assert!(state.observe(&filter, window, 0, write_event(b"a.rs"), VcsQueryOutcome::Unavailable));
    assert!(!state.observe(&filter, window, 50 * MILLISECOND, write_event(b"a.rs"), VcsQueryOutcome::Unavailable));
    assert!(state.observe(&filter, window, 150 * MILLISECOND, write_event(b"a.rs"), VcsQueryOutcome::Unavailable));
}

#[test]
fn rejected_events_never_open_a_window() {
    let filter = rs_filter();
    let window = 100 * MILLISECOND;
    let mut state = FileSourceState::new();

    assert!(!state.observe(&filter, window, 0, write_event(b"a.txt"), VcsQueryOutcome::Unavailable));
    // The rejected event opened no window, so an accepted one right after
    // still emits.
    assert!(state.observe(&filter, window, 1, write_event(b"a.rs"), VcsQueryOutcome::Unavailable));
}

#[test]
fn ignored_path_alone_emits_nothing() {
    let filter = FileFilter { extensions: None, git_ignore: true };
    let window = 100 * MILLISECOND;
    let mut state = FileSourceState::new();

    assert!(!state.observe(&filter, window, 0, write_event(b"target/a.rs"), VcsQueryOutcome::Exited(0)));
    assert!(!state.observe(&filter, window, 200 * MILLISECOND, write_event(b".git/index"), VcsQueryOutcome::Exited(1)));
}

#[test]
fn debounce_window_state_is_observable() {
    let filter = rs_filter();
    let window = 100 * MILLISECOND;
    let mut state = FileSourceState::new();
    assert!(!state.in_debounce(0));
    state.observe(&filter, window, 0, write_event(b"a.rs"), VcsQueryOutcome::Unavailable);
    assert!(state.in_debounce(99 * MILLISECOND));
    assert!(!state.in_debounce(100 * MILLISECOND));
}
