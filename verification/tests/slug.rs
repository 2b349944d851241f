use sync_branch_deps::slug::{is_ascii_alphanumeric, is_default_branch, sanitize};

#[test]
fn sanitize_matches_publish_rule() {
    assert_eq!(sanitize("feat/new-types"), "feat-new-types");
    assert_eq!(sanitize("feat/New_Types.2"), "feat-New-Types-2");
    assert_eq!(sanitize("main"), "main");
    assert_eq!(sanitize("release/1.2"), "release-1-2");
}

#[test]
fn default_branch_is_noop() {
    assert!(is_default_branch("main", "main"));
    assert!(is_default_branch("HEAD", "main"));
    assert!(is_default_branch("", "main"));
    assert!(!is_default_branch("feat/x", "main"));
}

#[test]
fn sanitize_keeps_length_and_does_not_collapse_runs() {
    assert_eq!(sanitize("a//b"), "a--b");
    assert_eq!(sanitize("ü/x"), "--x");
    assert_eq!(sanitize("feat/ü").chars().count(), "feat/ü".chars().count());
}

#[test]
fn sanitize_is_idempotent_on_examples() {
    for b in ["feat/New_Types.2", "release/1.2", "main", "x y z"] {
        let once = sanitize(b);
        assert_eq!(sanitize(&once), once);
    }
}

#[test]
fn ascii_alphanumeric_is_ascii_only() {
    assert!(is_ascii_alphanumeric('a'));
    assert!(is_ascii_alphanumeric('Z'));
    assert!(is_ascii_alphanumeric('7'));
    assert!(!is_ascii_alphanumeric('_'));
    assert!(!is_ascii_alphanumeric('é'));
}
