use sync_branch_deps::git::{
    branch_from_head, branch_from_rev_parse, current_branch, default_branch, gitdir_target,
    head_branch, NoBranch,
};

#[test]
fn parses_symbolic_ref_including_slashes() {
    assert_eq!(
        branch_from_head("ref: refs/heads/feat/new-types\n").as_deref(),
        Some("feat/new-types")
    );
    // No space after the colon is still valid per the format.
    assert_eq!(
        branch_from_head("ref:refs/heads/main").as_deref(),
        Some("main")
    );
}

#[test]
fn detached_head_or_junk_is_none() {
    assert_eq!(
        branch_from_head("9d3a1f2c4b5e6a7089badc0ffee1234567890abcd"),
        None
    );
    assert_eq!(branch_from_head("ref: refs/tags/v1.0.0"), None);
    assert_eq!(branch_from_head("ref: refs/heads/"), None);
    assert_eq!(branch_from_head(""), None);
    // The reftable backend writes this sentinel into `.git/HEAD`.
    assert_eq!(branch_from_head("ref: refs/heads/.invalid"), None);
}

#[test]
fn reads_branch_from_a_git_dir() {
    assert_eq!(
        head_branch(Some("ref: refs/heads/release/1.2\n"), None).as_deref(),
        Ok("release/1.2")
    );
}

#[test]
fn follows_a_gitdir_pointer_file() {
    let target = gitdir_target("gitdir: real-git\n").unwrap();
    assert_eq!(target, "real-git");
    assert_eq!(
        head_branch(Some("ref: refs/heads/wt\n"), Some(&target)).as_deref(),
        Ok("wt")
    );
}

#[test]
fn missing_git_is_not_a_checkout() {
    assert_eq!(head_branch(None, None), Err(NoBranch::NotACheckout));
}

#[test]
fn detached_head_in_a_git_dir_reports_detached() {
    assert_eq!(
        head_branch(Some("9d3a1f2c4b5e6a7089badc0ffee1234567890abcd\n"), None),
        Err(NoBranch::Detached)
    );
}

#[test]
fn unreachable_gitdir_pointer_is_distinct_from_no_branch() {
    let absent = "/tmp/x/elsewhere/worktrees/wt";
    assert_eq!(
        head_branch(None, Some(absent)),
        Err(NoBranch::UnreachableGitDir(absent.to_string()))
    );
}

#[test]
fn unreachable_gitdir_message_names_the_path_and_both_escapes() {
    let msg = NoBranch::UnreachableGitDir("/repo/.git/worktrees/wt".to_string()).message();
    assert!(msg.contains("/repo/.git/worktrees/wt"));
    assert!(msg.contains("CURRENT_BRANCH"));
    assert!(msg.contains("Mount it at the same path"));
    assert!(
        !msg.contains('\n'),
        "single line, for CI annotations: {msg}"
    );
}

#[test]
fn other_reasons_have_their_messages() {
    assert_eq!(
        NoBranch::NotACheckout.message(),
        "no readable `.git` in the working directory"
    );
    assert_eq!(NoBranch::Detached.message(), "HEAD names no branch");
}

#[test]
fn a_pointer_file_without_the_prefix_names_nothing() {
    assert_eq!(gitdir_target("something else\n"), None);
    assert_eq!(gitdir_target("  gitdir:   /abs/path  \n").as_deref(), Some("/abs/path"));
}

#[test]
fn rev_parse_output_is_trimmed_and_head_is_no_branch() {
    assert_eq!(branch_from_rev_parse("feat/x\n").as_deref(), Some("feat/x"));
    assert_eq!(branch_from_rev_parse("HEAD\n"), None);
    assert_eq!(branch_from_rev_parse("  \n"), None);
}

#[test]
fn current_branch_prefers_the_explicit_value() {
    let r = current_branch(
        Some(" feat/explicit \n"),
        Some("from-git".to_string()),
        Ok("from-head".to_string()),
        "main",
    );
    assert_eq!(r.as_deref(), Ok("feat/explicit"));
}

#[test]
fn current_branch_falls_back_in_order() {
    assert_eq!(
        current_branch(Some("  "), Some("from-git".to_string()), Ok("h".to_string()), "main").as_deref(),
        Ok("from-git")
    );
    assert_eq!(
        current_branch(None, None, Ok("from-head".to_string()), "main").as_deref(),
        Ok("from-head")
    );
    assert_eq!(
        current_branch(None, None, Err(NoBranch::Detached), "main").as_deref(),
        Ok("main")
    );
    assert_eq!(
        current_branch(None, None, Err(NoBranch::NotACheckout), "trunk").as_deref(),
        Ok("trunk")
    );
}

#[test]
fn unreachable_git_dir_is_fatal_without_an_explicit_branch() {
    let r = current_branch(
        None,
        None,
        Err(NoBranch::UnreachableGitDir("/elsewhere".to_string())),
        "main",
    );
    assert_eq!(r, Err(NoBranch::UnreachableGitDir("/elsewhere".to_string())));
    let r = current_branch(
        Some("feat/y"),
        None,
        Err(NoBranch::UnreachableGitDir("/elsewhere".to_string())),
        "main",
    );
    assert_eq!(r.as_deref(), Ok("feat/y"));
}

#[test]
fn default_branch_is_main_unless_configured() {
    assert_eq!(default_branch(None), "main");
    assert_eq!(default_branch(Some("develop".to_string())), "develop");
}
