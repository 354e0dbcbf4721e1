use witness::files::{
    contains_git_dir, path_extension, FileFilter, FileOptions, FilterReason, VcsQueryOutcome,
};

fn rs_filter() -> FileFilter {
    FileFilter { extensions: Some(vec![b"rs".to_vec()]), git_ignore: true }
}

#[test]
fn extension_is_taken_after_the_last_dot_of_the_file_name() {
    assert_eq!(path_extension(b"src/a.rs"), Some(b"rs".to_vec()));
    assert_eq!(path_extension(b"a.tar.gz"), Some(b"gz".to_vec()));
    assert_eq!(path_extension(b"dir.d/name"), None);
    assert_eq!(path_extension(b"noext"), None);
    assert_eq!(path_extension(b"trailing."), Some(b"".to_vec()));
}

#[test]
fn hidden_file_has_no_extension() {
    assert_eq!(path_extension(b".gitignore"), None);
    assert_eq!(path_extension(b"src/.hidden"), None);
    assert_eq!(path_extension(b".hidden.rs"), Some(b"rs".to_vec()));
}

/// With an allow-list, a change qualifies exactly when the path's extension
/// is a member; without one, every change qualifies.
#[test]
fn allow_list_admits_exactly_its_members() {
    let filter = rs_filter();
    assert_eq!(filter.check_extension(b"src/a.rs"), Ok(()));
    assert_eq!(filter.check_extension(b"src/a.txt"), Err(FilterReason::Extension));
    assert_eq!(filter.check_extension(b"src/rs"), Err(FilterReason::Extension));

    let unrestricted = FileFilter { extensions: None, git_ignore: true };
    assert_eq!(unrestricted.check_extension(b"src/a.txt"), Ok(()));
    assert_eq!(unrestricted.check_extension(b"noext"), Ok(()));
}

#[test]
fn git_metadata_directory_is_recognized() {
    assert!(contains_git_dir(b".git/config"));
    assert!(contains_git_dir(b"repo/.git/objects/aa"));
    assert!(contains_git_dir(b"repo/.git"));
    assert!(!contains_git_dir(b".github/workflows/ci.yml"));
    assert!(!contains_git_dir(b"repo/git/file"));
    assert!(!contains_git_dir(b"a.git.d/file"));
}

/// A path the collaborator reports as ignored is suppressed; every other
/// outcome — not ignored, indeterminate, or a collaborator that could not
/// run — passes (the check fails open).
#[test]
fn vcs_report_is_interpreted_failing_open() {
    let filter = rs_filter();
    assert_eq!(
        filter.check_git_ignore(b"src/a.rs", VcsQueryOutcome::Exited(0)),
        Err(FilterReason::GitIgnore)
    );
    assert_eq!(filter.check_git_ignore(b"src/a.rs", VcsQueryOutcome::Exited(1)), Ok(()));
    assert_eq!(filter.check_git_ignore(b"src/a.rs", VcsQueryOutcome::Exited(128)), Ok(()));
    assert_eq!(filter.check_git_ignore(b"src/a.rs", VcsQueryOutcome::Unavailable), Ok(()));
}

#[test]
fn disabled_ignore_check_passes_even_reported_paths() {
    let filter = FileFilter { extensions: None, git_ignore: false };
    assert_eq!(filter.check_git_ignore(b"target/out", VcsQueryOutcome::Exited(0)), Ok(()));
    assert_eq!(filter.matches_path(b"target/out", VcsQueryOutcome::Exited(0)), Ok(()));
}

#[test]
fn extension_verdict_comes_before_ignore_verdict() {
    let filter = rs_filter();
    assert_eq!(
        filter.matches_path(b"a.txt", VcsQueryOutcome::Exited(0)),
        Err(FilterReason::Extension)
    );
    assert_eq!(
        filter.matches_path(b"a.rs", VcsQueryOutcome::Exited(0)),
        Err(FilterReason::GitIgnore)
    );
    assert_eq!(filter.matches_path(b"a.rs", VcsQueryOutcome::Exited(1)), Ok(()));
    assert_eq!(
        filter.matches_path(b".git/a.rs", VcsQueryOutcome::Exited(1)),
        Err(FilterReason::GitIgnore)
    );
}

#[test]
fn vcs_query_is_needed_only_when_it_can_decide() {
    let filter = rs_filter();
    assert!(filter.needs_vcs_query(b"src/a.rs"));
    assert!(!filter.needs_vcs_query(b"src/a.txt"));
    assert!(!filter.needs_vcs_query(b".git/a.rs"));
    let disabled = FileFilter { extensions: None, git_ignore: false };
    assert!(!disabled.needs_vcs_query(b"src/a.rs"));
}

#[test]
fn filter_is_built_from_the_file_options() {
    let options = FileOptions {
        paths: vec![b".".to_vec()],
        debounce_nanos: 100_000_000,
        extensions: Some(vec![b"rs".to_vec()]),
        no_git_ignore: true,
    };
    let filter = FileFilter::from_args(options);
    assert_eq!(filter.extensions, Some(vec![b"rs".to_vec()]));
    assert!(!filter.git_ignore);
}
