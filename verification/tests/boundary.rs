//! Containment and the validation judgments.
use fileshare::paths::sanitize;
use fileshare::validate::{
    abs_to_string, dir_target, error_status, file_target, is_contained, join_under_root,
    validate_resolved, AbsPath, CanonOutcome, FsError,
};

fn abs(parts: &[&str]) -> AbsPath {
    AbsPath { segs: parts.iter().map(|s| s.to_string()).collect() }
}

#[test]
fn containment_is_component_wise() {
    let root = abs(&["data"]);
    assert!(is_contained(&abs(&["data"]), &root));
    assert!(is_contained(&abs(&["data", "x"]), &root));
    // a sibling whose name textually extends the root's must not pass
    assert!(!is_contained(&abs(&["data-other"]), &root));
    assert!(!is_contained(&abs(&["etc", "passwd"]), &root));
    assert!(!is_contained(&abs(&[]), &root));
}

#[test]
fn join_appends_components() {
    let root = abs(&["srv", "files"]);
    let rel = sanitize("docs/readme.md");
    let joined = join_under_root(&root, &rel);
    assert_eq!(abs_to_string(&joined), "/srv/files/docs/readme.md");
}

#[test]
fn abs_to_string_of_root() {
    assert_eq!(abs_to_string(&abs(&["srv", "files"])), "/srv/files");
    assert_eq!(abs_to_string(&abs(&[])), "/");
}

#[test]
fn resolved_inside_root_is_accepted() {
    let root = abs(&["srv", "files"]);
    let v = validate_resolved(&root, CanonOutcome::Resolved(abs(&["srv", "files", "docs"])));
    assert_eq!(abs_to_string(&v.unwrap()), "/srv/files/docs");
}

#[test]
fn resolved_outside_root_is_forbidden() {
    let root = abs(&["srv", "files"]);
    let v = validate_resolved(&root, CanonOutcome::Resolved(abs(&["srv", "other"])));
    assert_eq!(v.unwrap_err(), FsError::Forbidden);
}

#[test]
fn symlink_escape_is_forbidden() {
    // a symlink inside the root that points outside resolves, after
    // canonicalization, to a path that is no descendant of the root
    let root = abs(&["srv", "files"]);
    let v = validate_resolved(&root, CanonOutcome::Resolved(abs(&["home", "user", "secret"])));
    assert_eq!(v.unwrap_err(), FsError::Forbidden);
}

#[test]
fn missing_target_is_not_found() {
    let root = abs(&["srv", "files"]);
    let v = validate_resolved(&root, CanonOutcome::MissingTarget);
    assert_eq!(v.unwrap_err(), FsError::NotFound);
}

#[test]
fn other_failure_is_internal() {
    let root = abs(&["srv", "files"]);
    let v = validate_resolved(&root, CanonOutcome::OtherFailure);
    assert_eq!(v.unwrap_err(), FsError::InternalError);
}

#[test]
fn browsing_a_file_is_rejected() {
    let root = abs(&["srv", "files"]);
    let target = CanonOutcome::Resolved(abs(&["srv", "files", "readme.md"]));
    let v = dir_target(&root, target, false);
    assert_eq!(v.unwrap_err(), FsError::NotADirectory);
}

#[test]
fn previewing_a_directory_is_rejected() {
    let root = abs(&["srv", "files"]);
    let target = CanonOutcome::Resolved(abs(&["srv", "files", "docs"]));
    let v = file_target(&root, target, false);
    assert_eq!(v.unwrap_err(), FsError::NotAFile);
}

#[test]
fn sanitized_adversarial_paths_stay_inside() {
    // the containment invariant, end to end on the syntactic side:
    // whatever the input, the joined path starts with the root, and a
    // canonical answer is accepted only when still under the root
    let root = abs(&["srv", "files"]);
    for s in ["../../../etc/passwd", "..%2f..%2fsecret", "a/../../b", "/./.././x"] {
        let rel = sanitize(s);
        let joined = join_under_root(&root, &rel);
        assert!(abs_to_string(&joined).starts_with("/srv/files"));
        let v = validate_resolved(&root, CanonOutcome::Resolved(joined));
        assert!(is_contained(v.as_ref().unwrap(), &root));
    }
}

#[test]
fn error_kinds_map_to_statuses() {
    assert_eq!(error_status(&FsError::NotFound), 404);
    assert_eq!(error_status(&FsError::Forbidden), 403);
    assert_eq!(error_status(&FsError::NotADirectory), 400);
    assert_eq!(error_status(&FsError::NotAFile), 400);
    assert_eq!(error_status(&FsError::InternalError), 500);
}
